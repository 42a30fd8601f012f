//! The AST: the surface syntax, built from the concrete syntax tree.

use crate::diag;
use crate::lexer::TokenKind;
use vstd::prelude::*;

mod builder;

pub use builder::{
    args_failure, body_failure, expr_built, expr_failure, from_cst, func_built, funcs_failure, names, param_built,
    program_built, reported, stmt_built, stmt_failure, token_text, Failure,
};

verus! {

/// A whole source file.
#[derive(Debug, PartialEq, Eq)]
pub struct Program {
    /// The functions it declares, in source order.
    pub funcs: Vec<FuncDecl>,
}

/// A function declaration: `func name(params) ret { body }`.
#[derive(Debug, PartialEq, Eq)]
pub struct FuncDecl {
    /// The declared name.
    pub name: Name,
    /// The parameters it declares, in source order.
    pub params: Vec<Param>,
    /// The declared return type.
    pub ret: TypeRef,
    /// The statements in the body, in source order.
    pub body: Vec<Stmt>,
    /// From `func` through the closing `}`.
    pub span: diag::Span,
}

/// A parameter: `name type`.
#[derive(Debug, Clone, PartialEq, Eq)]
pub struct Param {
    /// The declared name.
    pub name: Name,
    /// The declared type.
    pub ty: TypeRef,
}

/// An identifier and where it was written.
#[derive(Debug, Clone, PartialEq, Eq)]
pub struct Name {
    /// The identifier text, sliced from the source.
    pub text: String,
    /// Where it was written.
    pub span: diag::Span,
}

/// A written type. Unresolved: nothing checks that the name names a type.
#[derive(Debug, Clone, PartialEq, Eq)]
pub struct TypeRef {
    /// The type's name as written.
    pub name: Name,
}

/// A statement.
#[derive(Debug, PartialEq, Eq)]
pub enum Stmt {
    /// `var name type = init`.
    Var {
        /// The declared name.
        name: Name,
        /// The declared type.
        ty: TypeRef,
        /// The initializer.
        init: Expr,
        /// From `var` through the initializer.
        span: diag::Span,
    },
    /// `return expr`.
    Return {
        /// The returned expression.
        expr: Expr,
        /// From `return` through the expression.
        span: diag::Span,
    },
}

impl Stmt {
    /// Where it was written.
    pub open spec fn spec_span(&self) -> diag::Span {
        match self {
            Stmt::Var { span, .. } => *span,
            Stmt::Return { span, .. } => *span,
        }
    }

    /// Where it was written.
    #[verifier::when_used_as_spec(spec_span)]
    pub fn span(&self) -> (s: diag::Span)
        ensures
            s == self.spec_span(),
    {
        match self {
            Stmt::Var { span, .. } => *span,
            Stmt::Return { span, .. } => *span,
        }
    }
}

/// An expression. Parentheses are not a node: the AST of `(x)` is that of `x`.
#[derive(Debug, PartialEq, Eq)]
pub enum Expr {
    /// An integer literal.
    IntLit {
        /// Its value.
        value: u64,
        /// Where it was written.
        span: diag::Span,
    },
    /// A boolean literal.
    BoolLit {
        /// Its value.
        value: bool,
        /// Where it was written.
        span: diag::Span,
    },
    /// Two operands joined by a binary operator.
    Binary {
        /// The operator.
        op: BinOp,
        /// The left operand.
        lhs: Box<Expr>,
        /// The right operand.
        rhs: Box<Expr>,
        /// From the first byte of `lhs` through the last byte of `rhs`.
        span: diag::Span,
    },
    /// A prefix operator applied to an operand.
    Unary {
        /// The operator.
        op: UnOp,
        /// The operand.
        operand: Box<Expr>,
        /// From the operator through the last byte of `operand`.
        span: diag::Span,
    },
    /// A variable, by name.
    Var {
        /// The name it was written as.
        name: Name,
        /// `name.span`.
        span: diag::Span,
    },
    /// `callee(args)`.
    Call {
        /// The called name.
        callee: Name,
        /// The arguments, in source order.
        args: Vec<Expr>,
        /// From the callee through the closing `)`.
        span: diag::Span,
    },
}

impl Expr {
    /// Where it was written.
    pub open spec fn spec_span(&self) -> diag::Span {
        match self {
            Expr::IntLit { span, .. } => *span,
            Expr::BoolLit { span, .. } => *span,
            Expr::Binary { span, .. } => *span,
            Expr::Unary { span, .. } => *span,
            Expr::Var { span, .. } => *span,
            Expr::Call { span, .. } => *span,
        }
    }

    /// Where it was written.
    #[verifier::when_used_as_spec(spec_span)]
    pub fn span(&self) -> (s: diag::Span)
        ensures
            s == self.spec_span(),
    {
        match self {
            Expr::IntLit { span, .. } => *span,
            Expr::BoolLit { span, .. } => *span,
            Expr::Binary { span, .. } => *span,
            Expr::Unary { span, .. } => *span,
            Expr::Var { span, .. } => *span,
            Expr::Call { span, .. } => *span,
        }
    }
}

/// A binary operator.
#[derive(Debug, Clone, Copy, PartialEq, Eq, Structural)]
pub enum BinOp {
    /// `+`
    Add,
    /// `-`
    Sub,
    /// `*`
    Mul,
    /// `/`
    Div,
    /// `%`
    Mod,
    /// `==`
    Eq,
    /// `!=`
    Ne,
    /// `<`
    Lt,
    /// `<=`
    Le,
    /// `>`
    Gt,
    /// `>=`
    Ge,
    /// `&&`
    And,
    /// `||`
    Or,
}

/// A prefix operator.
#[derive(Debug, Clone, Copy, PartialEq, Eq, Structural)]
pub enum UnOp {
    /// `!`
    Not,
}


/// The operator a token denotes, if it denotes one.
pub open spec fn spec_binary_op(kind: TokenKind) -> Option<BinOp> {
    match kind {
        TokenKind::Plus => Some(BinOp::Add),
        TokenKind::Minus => Some(BinOp::Sub),
        TokenKind::Star => Some(BinOp::Mul),
        TokenKind::Slash => Some(BinOp::Div),
        TokenKind::Percent => Some(BinOp::Mod),
        TokenKind::EqEq => Some(BinOp::Eq),
        TokenKind::BangEq => Some(BinOp::Ne),
        TokenKind::Lt => Some(BinOp::Lt),
        TokenKind::LtEq => Some(BinOp::Le),
        TokenKind::Gt => Some(BinOp::Gt),
        TokenKind::GtEq => Some(BinOp::Ge),
        TokenKind::AmpAmp => Some(BinOp::And),
        TokenKind::PipePipe => Some(BinOp::Or),
        _ => None,
    }
}

/// The operator a token denotes, if it denotes one. The parser needs it for
/// precedence, and the AST stage to build the node.
#[verifier::when_used_as_spec(spec_binary_op)]
pub fn binary_op(kind: TokenKind) -> (r: Option<BinOp>)
    ensures
        r == spec_binary_op(kind),
{
    match kind {
        TokenKind::Plus => Some(BinOp::Add),
        TokenKind::Minus => Some(BinOp::Sub),
        TokenKind::Star => Some(BinOp::Mul),
        TokenKind::Slash => Some(BinOp::Div),
        TokenKind::Percent => Some(BinOp::Mod),
        TokenKind::EqEq => Some(BinOp::Eq),
        TokenKind::BangEq => Some(BinOp::Ne),
        TokenKind::Lt => Some(BinOp::Lt),
        TokenKind::LtEq => Some(BinOp::Le),
        TokenKind::Gt => Some(BinOp::Gt),
        TokenKind::GtEq => Some(BinOp::Ge),
        TokenKind::AmpAmp => Some(BinOp::And),
        TokenKind::PipePipe => Some(BinOp::Or),
        TokenKind::Func | TokenKind::Return | TokenKind::Var | TokenKind::True | TokenKind::False
        | TokenKind::Ident | TokenKind::IntLit | TokenKind::LParen | TokenKind::RParen
        | TokenKind::LBrace | TokenKind::RBrace | TokenKind::Comma | TokenKind::Equals
        | TokenKind::Bang | TokenKind::Eof => None,
    }
}

/// The prefix operator a token denotes, if it denotes one.
pub open spec fn spec_unary_op(kind: TokenKind) -> Option<UnOp> {
    if kind == TokenKind::Bang {
        Some(UnOp::Not)
    } else {
        None
    }
}

/// The prefix operator a token denotes, if it denotes one.
#[verifier::when_used_as_spec(spec_unary_op)]
pub fn unary_op(kind: TokenKind) -> (r: Option<UnOp>)
    ensures
        r == spec_unary_op(kind),
{
    if kind == TokenKind::Bang {
        Some(UnOp::Not)
    } else {
        None
    }
}

} // verus!
