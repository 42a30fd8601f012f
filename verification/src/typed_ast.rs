//! The typed AST: what the type checker produces. Every name is resolved
//! to a frame slot, a parameter, or a function, and every expression
//! carries its type.

use crate::ast;
use crate::diag;
use crate::text;
use vstd::prelude::*;

verus! {

/// A type the language has.
#[derive(Debug, Clone, Copy, PartialEq, Eq, Structural)]
pub enum Type {
    /// `uint64`: an unsigned 64-bit integer.
    Uint64,
    /// `bool`.
    Bool,
}

impl Type {
    /// The name the type is written as.
    pub open spec fn name(&self) -> Seq<char> {
        match self {
            Type::Uint64 => "uint64"@,
            Type::Bool => "bool"@,
        }
    }

    /// The name the type is written as.
    pub fn to_string(&self) -> (s: String)
        ensures
            s@ == self.name(),
    {
        let mut out: Vec<char> = Vec::new();
        self.push_name(&mut out);
        text::into_string(out)
    }

    /// Appends the name the type is written as to `out`.
    pub fn push_name(&self, out: &mut Vec<char>)
        ensures
            final(out)@ == old(out)@ + self.name(),
    {
        match self {
            Type::Uint64 => text::push_str(out, "uint64"),
            Type::Bool => text::push_str(out, "bool"),
        }
    }
}

/// A frame slot: the variables of a function, numbered in declaration
/// order.
#[derive(Debug, Clone, Copy, PartialEq, Eq, Structural)]
pub struct LocalId(pub u8);

impl LocalId {
    /// How many slots a frame can hold.
    pub const CAPACITY: usize = 128;

    /// The slot at `index`, if a frame can hold it.
    pub fn new(index: usize) -> (r: Option<LocalId>)
        ensures
            index < Self::CAPACITY ==> r == Some(LocalId(index as u8)),
            index >= Self::CAPACITY ==> r is None,
    {
        if index < Self::CAPACITY {
            Some(LocalId(index as u8))
        } else {
            None
        }
    }
}

/// A parameter of the enclosing function, numbered in declaration order.
#[derive(Debug, Clone, Copy, PartialEq, Eq, Structural)]
pub struct ParamId(pub u8);

impl ParamId {
    /// How many parameters a function can take.
    pub const CAPACITY: usize = 128;

    /// The parameter at `index`, if a function can take it.
    pub fn new(index: usize) -> (r: Option<ParamId>)
        ensures
            index < Self::CAPACITY ==> r == Some(ParamId(index as u8)),
            index >= Self::CAPACITY ==> r is None,
    {
        if index < Self::CAPACITY {
            Some(ParamId(index as u8))
        } else {
            None
        }
    }
}

/// A function of the program, numbered in source order.
#[derive(Debug, Clone, Copy, PartialEq, Eq, Structural)]
pub struct FuncId(pub u32);

/// A whole checked source file.
#[derive(Debug, PartialEq, Eq)]
pub struct Program {
    /// The functions it declares, in source order: `FuncId(i)` is the
    /// `i`th.
    pub funcs: Vec<FuncDecl>,
}

/// A checked function declaration.
#[derive(Debug, PartialEq, Eq)]
pub struct FuncDecl {
    /// The declared name.
    pub name: ast::Name,
    /// The parameters, in declaration order: `ParamId(i)` is the `i`th.
    pub params: Vec<Param>,
    /// The return type.
    pub ret: Type,
    /// The statements in the body, in source order.
    pub body: Vec<Stmt>,
    /// From `func` through the closing `}`.
    pub span: diag::Span,
}

/// A checked parameter.
#[derive(Debug, Clone, PartialEq, Eq)]
pub struct Param {
    /// The declared name.
    pub name: ast::Name,
    /// The declared type.
    pub ty: Type,
}

/// A checked statement.
#[derive(Debug, PartialEq, Eq)]
pub enum Stmt {
    /// `var name type = init`, the name resolved to its slot.
    Var {
        /// The slot it declares.
        local: LocalId,
        /// The declared type.
        ty: Type,
        /// The initializer, of type `ty`.
        init: Expr,
        /// From `var` through the initializer.
        span: diag::Span,
    },
    /// `return expr`.
    Return {
        /// The returned expression, of the function's return type.
        expr: Expr,
        /// From `return` through the expression.
        span: diag::Span,
    },
}

/// A checked expression and its type.
#[derive(Debug, PartialEq, Eq)]
pub struct Expr {
    /// What it is.
    pub kind: ExprKind,
    /// The type it has.
    pub ty: Type,
    /// Where it was written.
    pub span: diag::Span,
}

/// The shape of a checked expression.
#[derive(Debug, PartialEq, Eq)]
pub enum ExprKind {
    /// An integer literal.
    IntLit(u64),
    /// A boolean literal.
    BoolLit(bool),
    /// A variable, by slot.
    Var(LocalId),
    /// A parameter of the enclosing function.
    Param(ParamId),
    /// Two operands joined by a binary operator.
    Binary {
        /// The operator.
        op: ast::BinOp,
        /// The left operand.
        lhs: Box<Expr>,
        /// The right operand.
        rhs: Box<Expr>,
    },
    /// A prefix operator applied to an operand.
    Unary {
        /// The operator.
        op: ast::UnOp,
        /// The operand.
        operand: Box<Expr>,
    },
    /// A call of a function of the program.
    Call {
        /// The function called.
        callee: FuncId,
        /// The arguments, in source order.
        args: Vec<Expr>,
    },
}

/// The type both operands of `op` must have, or `None` for `==` and `!=`,
/// which take any one type for both.
pub open spec fn spec_operand_type(op: ast::BinOp) -> Option<Type> {
    match op {
        ast::BinOp::Add | ast::BinOp::Sub | ast::BinOp::Mul | ast::BinOp::Div | ast::BinOp::Mod
        | ast::BinOp::Lt | ast::BinOp::Le | ast::BinOp::Gt | ast::BinOp::Ge => Some(Type::Uint64),
        ast::BinOp::Eq | ast::BinOp::Ne => None,
        ast::BinOp::And | ast::BinOp::Or => Some(Type::Bool),
    }
}

/// The type of `lhs op rhs`.
pub open spec fn spec_result_type(op: ast::BinOp) -> Type {
    match op {
        ast::BinOp::Add | ast::BinOp::Sub | ast::BinOp::Mul | ast::BinOp::Div | ast::BinOp::Mod => Type::Uint64,
        _ => Type::Bool,
    }
}

/// The type both operands of `op` must have, or `None` for `==` and `!=`,
/// which take any one type for both.
#[verifier::when_used_as_spec(spec_operand_type)]
pub fn operand_type(op: ast::BinOp) -> (r: Option<Type>)
    ensures
        r == spec_operand_type(op),
{
    match op {
        ast::BinOp::Add | ast::BinOp::Sub | ast::BinOp::Mul | ast::BinOp::Div | ast::BinOp::Mod
        | ast::BinOp::Lt | ast::BinOp::Le | ast::BinOp::Gt | ast::BinOp::Ge => Some(Type::Uint64),
        ast::BinOp::Eq | ast::BinOp::Ne => None,
        ast::BinOp::And | ast::BinOp::Or => Some(Type::Bool),
    }
}

/// The type of `lhs op rhs`.
#[verifier::when_used_as_spec(spec_result_type)]
pub fn result_type(op: ast::BinOp) -> (r: Type)
    ensures
        r == spec_result_type(op),
{
    match op {
        ast::BinOp::Add | ast::BinOp::Sub | ast::BinOp::Mul | ast::BinOp::Div | ast::BinOp::Mod => Type::Uint64,
        _ => Type::Bool,
    }
}

// ---------------------------------------------------------------------------
// What a typed AST promises.
// ---------------------------------------------------------------------------

/// The frame of the first `n` statements of `body`: a slot per declaration,
/// in order, each of the declared type.
pub open spec fn frame(body: Seq<Stmt>, n: int) -> Seq<Type>
    decreases n,
{
    if n <= 0 || n > body.len() {
        Seq::empty()
    } else {
        match body[n - 1] {
            Stmt::Var { ty, .. } => frame(body, n - 1).push(ty),
            Stmt::Return { .. } => frame(body, n - 1),
        }
    }
}

/// The types of the parameters of `func`, in order.
pub open spec fn param_types(func: FuncDecl) -> Seq<Type> {
    Seq::new(func.params@.len(), |k: int| func.params@[k].ty)
}

/// Whether `e` has the type it carries by the rules of the language, in a
/// function whose parameters have the types `params` and whose frame is
/// `slots`, the functions it may call being those of `program`.
pub open spec fn expr_well_typed(program: Program, params: Seq<Type>, slots: Seq<Type>, e: Expr) -> bool
    decreases e,
{
    match e.kind {
        ExprKind::IntLit(_) => e.ty == Type::Uint64,
        ExprKind::BoolLit(_) => e.ty == Type::Bool,
        ExprKind::Var(local) => local.0 < slots.len() && e.ty == slots[local.0 as int],
        ExprKind::Param(param) => param.0 < params.len() && e.ty == params[param.0 as int],
        ExprKind::Unary { operand, .. } => {
            &&& e.ty == Type::Bool
            &&& operand.ty == Type::Bool
            &&& expr_well_typed(program, params, slots, *operand)
        },
        ExprKind::Binary { op, lhs, rhs } => {
            &&& e.ty == spec_result_type(op)
            &&& lhs.ty == rhs.ty
            &&& (spec_operand_type(op) matches Some(t) ==> lhs.ty == t)
            &&& expr_well_typed(program, params, slots, *lhs)
            &&& expr_well_typed(program, params, slots, *rhs)
        },
        ExprKind::Call { callee, args } => {
            &&& callee.0 < program.funcs@.len()
            &&& e.ty == program.funcs@[callee.0 as int].ret
            &&& args@.len() == program.funcs@[callee.0 as int].params@.len()
            &&& forall|k: int|
                0 <= k < args@.len() ==> {
                    &&& (#[trigger] args@[k]).ty == program.funcs@[callee.0 as int].params@[k].ty
                    &&& expr_well_typed(program, params, slots, args@[k])
                }
        },
    }
}

/// Whether the statement `s` of `func`, a function of `program` whose frame
/// is `slots`, is well typed: a declaration stores a value of its type in a
/// slot of that type, and a return returns one of the function's type.
pub open spec fn stmt_well_typed(program: Program, func: FuncDecl, slots: Seq<Type>, s: Stmt) -> bool {
    match s {
        Stmt::Var { local, ty, init, .. } => {
            &&& local.0 < slots.len()
            &&& slots[local.0 as int] == ty
            &&& init.ty == ty
            &&& expr_well_typed(program, param_types(func), slots, init)
        },
        Stmt::Return { expr, .. } => {
            &&& expr.ty == func.ret
            &&& expr_well_typed(program, param_types(func), slots, expr)
        },
    }
}

/// Whether `func`, a function of `program`, is well typed: its parameters
/// and slots can be numbered, its body ends with its one `return`, and
/// every statement is well typed.
pub open spec fn func_well_typed(program: Program, func: FuncDecl) -> bool {
    let body = func.body@;
    let slots = frame(body, body.len() as int);
    &&& func.params@.len() <= ParamId::CAPACITY
    &&& slots.len() <= LocalId::CAPACITY
    &&& body.len() > 0
    &&& body.last() is Return
    &&& forall|i: int| 0 <= i < body.len() - 1 ==> (#[trigger] body[i]) is Var
    &&& forall|i: int| 0 <= i < body.len() ==> stmt_well_typed(program, func, slots, #[trigger] body[i])
}

/// Whether every function of `program` is well typed.
pub open spec fn well_typed(program: Program) -> bool {
    forall|i: int| 0 <= i < program.funcs@.len() ==> func_well_typed(program, #[trigger] program.funcs@[i])
}

} // verus!
