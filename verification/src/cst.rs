//! The concrete syntax tree: the parser's output, holding every token.
//!
//! Each node has a ghost view in which its lists are sequences; the
//! parser's contract and the laws are stated over the views.

use crate::lexer::Token;
use vstd::prelude::*;

verus! {

/// A whole source file.
#[derive(Debug, PartialEq, Eq)]
pub struct Program {
    /// The functions it declares, in source order.
    pub funcs: Vec<FuncDecl>,
    /// The token that ends the stream.
    pub eof: Token,
}

/// A function declaration: `func name(params) ret { body }`.
#[derive(Debug, PartialEq, Eq)]
pub struct FuncDecl {
    /// The `func` keyword.
    pub func: Token,
    /// The declared name.
    pub name: Token,
    /// The `(` of the parameter list.
    pub lparen: Token,
    /// The parameters it declares, in source order.
    pub params: Vec<Param>,
    /// The `)` of the parameter list.
    pub rparen: Token,
    /// The declared return type.
    pub ret: Token,
    /// The `{` opening the body.
    pub lbrace: Token,
    /// The statements in the body, in source order.
    pub body: Vec<Stmt>,
    /// The `}` closing the body.
    pub rbrace: Token,
}

/// `name ty`, and the `,` after it if one follows.
#[derive(Debug, Clone, Copy, PartialEq, Eq, Structural)]
pub struct Param {
    /// The declared name.
    pub name: Token,
    /// The declared type.
    pub ty: Token,
    /// The `,` separating it from the next parameter; `None` on the last.
    pub comma: Option<Token>,
}

/// An argument, and the `,` after it if one follows.
#[derive(Debug, PartialEq, Eq)]
pub struct Arg {
    /// The argument itself.
    pub expr: Expr,
    /// The `,` separating it from the next argument; `None` on the last.
    pub comma: Option<Token>,
}

/// A statement.
#[derive(Debug, PartialEq, Eq)]
pub enum Stmt {
    /// `var name ty = init`.
    Var {
        /// The `var` keyword.
        var: Token,
        /// The declared name.
        name: Token,
        /// The declared type.
        ty: Token,
        /// The `=`.
        equals: Token,
        /// The initializer.
        init: Expr,
    },
    /// `return expr`.
    Return {
        /// The `return` keyword.
        ret: Token,
        /// The returned expression.
        expr: Expr,
    },
}

/// An expression.
#[derive(Debug, PartialEq, Eq)]
pub enum Expr {
    /// An integer literal. Its value is not parsed here.
    IntLit(Token),
    /// A boolean literal.
    BoolLit(Token),
    /// A variable, by name.
    Var(Token),
    /// Two operands joined by a binary operator.
    Binary {
        /// The left operand.
        lhs: Box<Expr>,
        /// The operator.
        op: Token,
        /// The right operand.
        rhs: Box<Expr>,
    },
    /// A prefix operator applied to an operand.
    Unary {
        /// The operator.
        op: Token,
        /// The operand.
        operand: Box<Expr>,
    },
    /// `callee(args)`.
    Call {
        /// The called name.
        callee: Token,
        /// The `(` of the argument list.
        lparen: Token,
        /// The arguments, in source order.
        args: Vec<Arg>,
        /// The `)` of the argument list.
        rparen: Token,
    },
    /// `( inner )`.
    Paren {
        /// The `(`.
        lparen: Token,
        /// The parenthesized expression.
        inner: Box<Expr>,
        /// The `)`.
        rparen: Token,
    },
}

// ---------------------------------------------------------------------------
// Views: the same trees, with sequences for lists.
// ---------------------------------------------------------------------------

/// The view of an expression.
pub enum ExprV {
    IntLit(Token),
    BoolLit(Token),
    Var(Token),
    Binary { lhs: Box<ExprV>, op: Token, rhs: Box<ExprV> },
    Unary { op: Token, operand: Box<ExprV> },
    Call { callee: Token, lparen: Token, args: Seq<ArgV>, rparen: Token },
    Paren { lparen: Token, inner: Box<ExprV>, rparen: Token },
}

/// The view of an argument.
pub struct ArgV {
    pub expr: ExprV,
    pub comma: Option<Token>,
}

/// The view of a statement.
pub enum StmtV {
    Var { var: Token, name: Token, ty: Token, equals: Token, init: ExprV },
    Return { ret: Token, expr: ExprV },
}

/// The view of a function declaration.
pub struct FuncDeclV {
    pub func: Token,
    pub name: Token,
    pub lparen: Token,
    pub params: Seq<Param>,
    pub rparen: Token,
    pub ret: Token,
    pub lbrace: Token,
    pub body: Seq<StmtV>,
    pub rbrace: Token,
}

/// The view of a program.
pub struct ProgramV {
    pub funcs: Seq<FuncDeclV>,
    pub eof: Token,
}

/// The view of `e`.
pub open spec fn expr_view(e: Expr) -> ExprV
    decreases e,
{
    match e {
        Expr::IntLit(t) => ExprV::IntLit(t),
        Expr::BoolLit(t) => ExprV::BoolLit(t),
        Expr::Var(t) => ExprV::Var(t),
        Expr::Binary { lhs, op, rhs } => ExprV::Binary {
            lhs: Box::new(expr_view(*lhs)),
            op,
            rhs: Box::new(expr_view(*rhs)),
        },
        Expr::Unary { op, operand } => ExprV::Unary { op, operand: Box::new(expr_view(*operand)) },
        Expr::Call { callee, lparen, args, rparen } => ExprV::Call {
            callee,
            lparen,
            args: args_view(args@, args@.len() as int),
            rparen,
        },
        Expr::Paren { lparen, inner, rparen } => ExprV::Paren {
            lparen,
            inner: Box::new(expr_view(*inner)),
            rparen,
        },
    }
}

/// The views of the first `n` arguments of `args`.
pub open spec fn args_view(args: Seq<Arg>, n: int) -> Seq<ArgV>
    decreases args, n,
{
    if n <= 0 || n > args.len() {
        Seq::empty()
    } else {
        args_view(args, n - 1).push(ArgV { expr: expr_view(args[n - 1].expr), comma: args[n - 1].comma })
    }
}

impl View for Expr {
    type V = ExprV;

    open spec fn view(&self) -> ExprV {
        expr_view(*self)
    }
}

impl View for Arg {
    type V = ArgV;

    open spec fn view(&self) -> ArgV {
        ArgV { expr: expr_view(self.expr), comma: self.comma }
    }
}

impl View for Stmt {
    type V = StmtV;

    open spec fn view(&self) -> StmtV {
        match self {
            Stmt::Var { var, name, ty, equals, init } => StmtV::Var {
                var: *var,
                name: *name,
                ty: *ty,
                equals: *equals,
                init: init@,
            },
            Stmt::Return { ret, expr } => StmtV::Return { ret: *ret, expr: expr@ },
        }
    }
}

impl View for FuncDecl {
    type V = FuncDeclV;

    open spec fn view(&self) -> FuncDeclV {
        FuncDeclV {
            func: self.func,
            name: self.name,
            lparen: self.lparen,
            params: self.params@,
            rparen: self.rparen,
            ret: self.ret,
            lbrace: self.lbrace,
            body: self.body@.map_values(|s: Stmt| s@),
            rbrace: self.rbrace,
        }
    }
}

impl View for Program {
    type V = ProgramV;

    open spec fn view(&self) -> ProgramV {
        ProgramV { funcs: self.funcs@.map_values(|f: FuncDecl| f@), eof: self.eof }
    }
}

// ---------------------------------------------------------------------------
// Flattening: the tokens of a tree, in source order.
// ---------------------------------------------------------------------------

/// The tokens of `e`, in source order.
pub open spec fn expr_tokens(e: ExprV) -> Seq<Token>
    decreases e,
{
    match e {
        ExprV::IntLit(t) => seq![t],
        ExprV::BoolLit(t) => seq![t],
        ExprV::Var(t) => seq![t],
        ExprV::Binary { lhs, op, rhs } => expr_tokens(*lhs) + seq![op] + expr_tokens(*rhs),
        ExprV::Unary { op, operand } => seq![op] + expr_tokens(*operand),
        ExprV::Call { callee, lparen, args, rparen } => seq![callee, lparen] + args_tokens(
            args,
            args.len() as int,
        ) + seq![rparen],
        ExprV::Paren { lparen, inner, rparen } => seq![lparen] + expr_tokens(*inner) + seq![rparen],
    }
}

/// The optional token `t`, as a sequence of none or one.
pub open spec fn opt_tokens(t: Option<Token>) -> Seq<Token> {
    match t {
        Some(t) => seq![t],
        None => Seq::empty(),
    }
}

/// The tokens of the first `n` arguments of `args`, commas included.
pub open spec fn args_tokens(args: Seq<ArgV>, n: int) -> Seq<Token>
    decreases args, n,
{
    if n <= 0 || n > args.len() {
        Seq::empty()
    } else {
        args_tokens(args, n - 1) + expr_tokens(args[n - 1].expr) + opt_tokens(args[n - 1].comma)
    }
}

/// The tokens of the first `n` parameters of `params`, commas included.
pub open spec fn params_tokens(params: Seq<Param>, n: int) -> Seq<Token>
    decreases n,
{
    if n <= 0 || n > params.len() {
        Seq::empty()
    } else {
        params_tokens(params, n - 1) + seq![params[n - 1].name, params[n - 1].ty] + opt_tokens(
            params[n - 1].comma,
        )
    }
}

/// The tokens of `s`, in source order.
pub open spec fn stmt_tokens(s: StmtV) -> Seq<Token> {
    match s {
        StmtV::Var { var, name, ty, equals, init } => seq![var, name, ty, equals] + expr_tokens(init),
        StmtV::Return { ret, expr } => seq![ret] + expr_tokens(expr),
    }
}

/// The tokens of the first `n` statements of `body`.
pub open spec fn body_tokens(body: Seq<StmtV>, n: int) -> Seq<Token>
    decreases n,
{
    if n <= 0 || n > body.len() {
        Seq::empty()
    } else {
        body_tokens(body, n - 1) + stmt_tokens(body[n - 1])
    }
}

/// The tokens of `f`, in source order.
pub open spec fn func_tokens(f: FuncDeclV) -> Seq<Token> {
    seq![f.func, f.name, f.lparen] + params_tokens(f.params, f.params.len() as int) + seq![
        f.rparen,
        f.ret,
        f.lbrace,
    ] + body_tokens(f.body, f.body.len() as int) + seq![f.rbrace]
}

/// The tokens of the first `n` functions of `funcs`.
pub open spec fn funcs_tokens(funcs: Seq<FuncDeclV>, n: int) -> Seq<Token>
    decreases n,
{
    if n <= 0 || n > funcs.len() {
        Seq::empty()
    } else {
        funcs_tokens(funcs, n - 1) + func_tokens(funcs[n - 1])
    }
}

/// The tokens of `p`, in source order, ending with `eof`.
pub open spec fn program_tokens(p: ProgramV) -> Seq<Token> {
    funcs_tokens(p.funcs, p.funcs.len() as int) + seq![p.eof]
}


/// The tokens of `program` in source order, ending with `eof`.
pub fn tokens(program: &Program) -> (r: Vec<Token>)
    ensures
        r@ == program_tokens(program@),
{
    let mut tokens: Vec<Token> = Vec::new();
    let mut k: usize = 0;
    while k < program.funcs.len()
        invariant
            k <= program.funcs@.len(),
            tokens@ == funcs_tokens(program@.funcs, k as int),
        decreases program.funcs@.len() - k,
    {
        push_func(&mut tokens, &program.funcs[k]);
        k = k + 1;
    }
    tokens.push(program.eof);
    tokens
}

fn push_func(tokens: &mut Vec<Token>, func: &FuncDecl)
    ensures
        final(tokens)@ == old(tokens)@ + func_tokens(func@),
{
    let ghost start = tokens@;
    tokens.push(func.func);
    tokens.push(func.name);
    tokens.push(func.lparen);
    let mut k: usize = 0;
    while k < func.params.len()
        invariant
            k <= func.params@.len(),
            tokens@ == start + seq![func.func, func.name, func.lparen] + params_tokens(
                func.params@,
                k as int,
            ),
        decreases func.params@.len() - k,
    {
        push_param(tokens, &func.params[k]);
        k = k + 1;
    }
    tokens.push(func.rparen);
    tokens.push(func.ret);
    tokens.push(func.lbrace);
    let ghost mid = tokens@;
    let mut k: usize = 0;
    while k < func.body.len()
        invariant
            k <= func.body@.len(),
            tokens@ == mid + body_tokens(func@.body, k as int),
        decreases func.body@.len() - k,
    {
        push_stmt(tokens, &func.body[k]);
        k = k + 1;
    }
    tokens.push(func.rbrace);
    assert(tokens@ =~= start + func_tokens(func@));
}

fn push_param(tokens: &mut Vec<Token>, param: &Param)
    ensures
        final(tokens)@ == old(tokens)@ + seq![param.name, param.ty] + opt_tokens(param.comma),
{
    let ghost start = tokens@;
    tokens.push(param.name);
    tokens.push(param.ty);
    if let Some(comma) = param.comma {
        tokens.push(comma);
    }
    assert(tokens@ =~= start + seq![param.name, param.ty] + opt_tokens(param.comma));
}

fn push_stmt(tokens: &mut Vec<Token>, stmt: &Stmt)
    ensures
        final(tokens)@ == old(tokens)@ + stmt_tokens(stmt@),
{
    let ghost start = tokens@;
    match stmt {
        Stmt::Var { var, name, ty, equals, init } => {
            tokens.push(*var);
            tokens.push(*name);
            tokens.push(*ty);
            tokens.push(*equals);
            push_expr(tokens, init);
        },
        Stmt::Return { ret, expr } => {
            tokens.push(*ret);
            push_expr(tokens, expr);
        },
    }
    assert(tokens@ =~= start + stmt_tokens(stmt@));
}

#[verifier::loop_isolation(false)]
fn push_expr(tokens: &mut Vec<Token>, expr: &Expr)
    ensures
        final(tokens)@ == old(tokens)@ + expr_tokens(expr@),
    decreases expr,
{
    let ghost start = tokens@;
    match expr {
        Expr::IntLit(token) | Expr::BoolLit(token) | Expr::Var(token) => tokens.push(*token),
        Expr::Binary { lhs, op, rhs } => {
            push_expr(tokens, lhs);
            tokens.push(*op);
            push_expr(tokens, rhs);
        },
        Expr::Unary { op, operand } => {
            tokens.push(*op);
            push_expr(tokens, operand);
        },
        Expr::Call { callee, lparen, args, rparen } => {
            tokens.push(*callee);
            tokens.push(*lparen);
            let ghost mid = tokens@;
            let mut k: usize = 0;
            while k < args.len()
                invariant
                    k <= args@.len(),
                    tokens@ == mid + args_tokens(args_view(args@, args@.len() as int), k as int),
                decreases args@.len() - k,
            {
                proof {
                    lemma_args_view_index(args@, args@.len() as int, k as int);
                    lemma_args_tokens_prefix(args_view(args@, args@.len() as int), k as int);
                    assert(decreases_to!(*expr => (*expr)->args));
                    assert(decreases_to!(*args => args@));
                    assert(decreases_to!(args@ => args@[k as int]));
                    assert(decreases_to!(args@[k as int] => args@[k as int].expr));
                }
                push_expr(tokens, &args[k].expr);
                if let Some(comma) = args[k].comma {
                    tokens.push(comma);
                }
                k = k + 1;
            }
            proof {
                lemma_args_view_len(args@, args@.len() as int);
            }
            tokens.push(*rparen);
        },
        Expr::Paren { lparen, inner, rparen } => {
            tokens.push(*lparen);
            push_expr(tokens, inner);
            tokens.push(*rparen);
        },
    }
    assert(tokens@ =~= start + expr_tokens(expr@));
}

/// The `i`th view is the view of the `i`th argument.
pub proof fn lemma_args_view_index(args: Seq<Arg>, n: int, i: int)
    requires
        0 <= i < n <= args.len(),
    ensures
        args_view(args, n).len() == n,
        args_view(args, n)[i] == args[i]@,
    decreases n,
{
    lemma_args_view_len(args, n - 1);
    if i < n - 1 {
        lemma_args_view_index(args, n - 1, i);
    }
}

/// There are as many views as arguments.
pub proof fn lemma_args_view_len(args: Seq<Arg>, n: int)
    requires
        0 <= n <= args.len(),
    ensures
        args_view(args, n).len() == n,
    decreases n,
{
    if n > 0 {
        lemma_args_view_len(args, n - 1);
    }
}

/// The views of the arguments up to one just pushed are those of the
/// arguments before it, and then its own.
pub proof fn lemma_args_view_push(args: Seq<Arg>, a: Arg)
    ensures
        args_view(args.push(a), (args.len() + 1) as int) == args_view(args, args.len() as int).push(a@),
{
    lemma_args_view_prefix(args, a, args.len() as int);
}

proof fn lemma_args_view_prefix(args: Seq<Arg>, a: Arg, n: int)
    requires
        0 <= n <= args.len(),
    ensures
        args_view(args.push(a), n) == args_view(args, n),
    decreases n,
{
    if n > 0 {
        lemma_args_view_prefix(args, a, n - 1);
        assert(args.push(a)[n - 1] == args[n - 1]);
    }
}

proof fn lemma_args_tokens_prefix(args: Seq<ArgV>, k: int)
    requires
        0 <= k < args.len(),
    ensures
        args_tokens(args, k + 1) == args_tokens(args, k) + expr_tokens(args[k].expr) + opt_tokens(
            args[k].comma,
        ),
{
}

/// The tokens of the first `n` arguments do not change when one is pushed.
pub proof fn lemma_args_tokens_push(args: Seq<ArgV>, a: ArgV, n: int)
    requires
        0 <= n <= args.len(),
    ensures
        args_tokens(args.push(a), n) == args_tokens(args, n),
    decreases n,
{
    if n > 0 {
        lemma_args_tokens_push(args, a, n - 1);
        assert(args.push(a)[n - 1] == args[n - 1]);
    }
}

/// The tokens of the first `n` parameters do not change when one is pushed.
pub proof fn lemma_params_tokens_push(params: Seq<Param>, a: Param, n: int)
    requires
        0 <= n <= params.len(),
    ensures
        params_tokens(params.push(a), n) == params_tokens(params, n),
    decreases n,
{
    if n > 0 {
        lemma_params_tokens_push(params, a, n - 1);
        assert(params.push(a)[n - 1] == params[n - 1]);
    }
}

/// The tokens of the first `n` statements do not change when one is pushed.
pub proof fn lemma_body_tokens_push(body: Seq<StmtV>, a: StmtV, n: int)
    requires
        0 <= n <= body.len(),
    ensures
        body_tokens(body.push(a), n) == body_tokens(body, n),
    decreases n,
{
    if n > 0 {
        lemma_body_tokens_push(body, a, n - 1);
        assert(body.push(a)[n - 1] == body[n - 1]);
    }
}

/// The tokens of the first `n` functions do not change when one is pushed.
pub proof fn lemma_funcs_tokens_push(funcs: Seq<FuncDeclV>, a: FuncDeclV, n: int)
    requires
        0 <= n <= funcs.len(),
    ensures
        funcs_tokens(funcs.push(a), n) == funcs_tokens(funcs, n),
    decreases n,
{
    if n > 0 {
        lemma_funcs_tokens_push(funcs, a, n - 1);
        assert(funcs.push(a)[n - 1] == funcs[n - 1]);
    }
}

} // verus!
