//! Building the AST from the concrete syntax tree.
//!
//! What a tree builds is stated as two spec functions of its view and the
//! source bytes: whether it fails, and with which diagnostic, and, where it
//! does not, what a built node holds.

use super::{BinOp, Expr, FuncDecl, Name, Param, Program, Stmt, TypeRef, UnOp};
use super::{spec_binary_op, spec_unary_op, binary_op, unary_op};
use crate::cst::{self, ArgV, ExprV, FuncDeclV, ProgramV, StmtV};
use crate::diag;
use crate::lexer::{Token, TokenKind};
use crate::text;
use vstd::prelude::*;
use vstd::string::StringSliceAdditionalSpecFns;

verus! {

/// How building a node fails: with a diagnostic, or, where the tree holds
/// something the parser never builds, with none.
pub type Failure = Option<diag::Entry>;

/// The source text `token` covers.
pub open spec fn token_text(b: Seq<u8>, token: Token) -> Seq<char> {
    text::spec_slice(b, token.span.start as int, token.span.end as int)
}

/// `name` is the name `token` writes.
pub open spec fn names(b: Seq<u8>, token: Token, name: Name) -> bool {
    &&& name.text@ == token_text(b, token)
    &&& name.span == token.span
}

/// The span from the start of `first` to the end of `last`.
pub open spec fn join(first: diag::Span, last: diag::Span) -> diag::Span {
    diag::Span { start: first.start, end: last.end }
}

/// How building `e` fails, if it does: the first failure in source order.
pub open spec fn expr_failure(b: Seq<u8>, e: ExprV) -> Option<Failure>
    decreases e, 0int,
{
    match e {
        ExprV::IntLit(t) => if text::spec_parse_u64(token_text(b, t)) is None {
            Some(Some(diag::Entry { kind: diag::Kind::IntegerLiteralOutOfRange, span: t.span }))
        } else {
            None
        },
        ExprV::BoolLit(_) => None,
        ExprV::Var(_) => None,
        ExprV::Binary { lhs, op, rhs } => match expr_failure(b, *lhs) {
            Some(f) => Some(f),
            None => match expr_failure(b, *rhs) {
                Some(f) => Some(f),
                None => if spec_binary_op(op.kind) is None {
                    Some(None)
                } else {
                    None
                },
            },
        },
        ExprV::Unary { op, operand } => match expr_failure(b, *operand) {
            Some(f) => Some(f),
            None => if spec_unary_op(op.kind) is None {
                Some(None)
            } else {
                None
            },
        },
        ExprV::Call { args, .. } => args_failure(b, args, 0),
        ExprV::Paren { inner, .. } => expr_failure(b, *inner),
    }
}

/// How building the arguments from the `i`th on fails, if it does.
pub open spec fn args_failure(b: Seq<u8>, args: Seq<ArgV>, i: int) -> Option<Failure>
    decreases args, args.len() - i,
{
    if i < 0 || i >= args.len() {
        None
    } else {
        match expr_failure(b, args[i].expr) {
            Some(f) => Some(f),
            None => args_failure(b, args, i + 1),
        }
    }
}

/// `a` is what `e` builds, `e` not failing.
pub open spec fn expr_built(b: Seq<u8>, e: ExprV, a: Expr) -> bool
    decreases e,
{
    match e {
        ExprV::IntLit(t) => a matches Expr::IntLit { value, span } && text::spec_parse_u64(token_text(b, t))
            == Some(value) && span == t.span,
        ExprV::BoolLit(t) => a matches Expr::BoolLit { value, span } && value == (t.kind == TokenKind::True)
            && span == t.span,
        ExprV::Var(t) => a matches Expr::Var { name, span } && names(b, t, name) && span == t.span,
        ExprV::Binary { lhs, op, rhs } => a matches Expr::Binary { op: o, lhs: l, rhs: r, span } && spec_binary_op(
            op.kind,
        ) == Some(o) && expr_built(b, *lhs, *l) && expr_built(b, *rhs, *r) && span == join(
            l.spec_span(),
            r.spec_span(),
        ),
        ExprV::Unary { op, operand } => a matches Expr::Unary { op: o, operand: x, span } && spec_unary_op(
            op.kind,
        ) == Some(o) && expr_built(b, *operand, *x) && span == join(op.span, x.spec_span()),
        ExprV::Call { callee, args, rparen, .. } => a matches Expr::Call { callee: c, args: xs, span } && names(
            b,
            callee,
            c,
        ) && xs@.len() == args.len() && (forall|i: int|
            0 <= i < args.len() ==> expr_built(b, args[i].expr, #[trigger] xs@[i])) && span == join(
            callee.span,
            rparen.span,
        ),
        ExprV::Paren { inner, .. } => expr_built(b, *inner, a),
    }
}

/// How building `s` fails, if it does.
pub open spec fn stmt_failure(b: Seq<u8>, s: StmtV) -> Option<Failure> {
    match s {
        StmtV::Var { init, .. } => expr_failure(b, init),
        StmtV::Return { expr, .. } => expr_failure(b, expr),
    }
}

/// `a` is what `s` builds, `s` not failing.
pub open spec fn stmt_built(b: Seq<u8>, s: StmtV, a: Stmt) -> bool {
    match s {
        StmtV::Var { var, name, ty, init, .. } => a matches Stmt::Var { name: n, ty: t, init: x, span } && names(
            b,
            name,
            n,
        ) && names(b, ty, t.name) && expr_built(b, init, x) && span == join(var.span, x.spec_span()),
        StmtV::Return { ret, expr } => a matches Stmt::Return { expr: x, span } && expr_built(b, expr, x) && span
            == join(ret.span, x.spec_span()),
    }
}

/// How building the statements of `body` from the `i`th on fails, if it
/// does.
pub open spec fn body_failure(b: Seq<u8>, body: Seq<StmtV>, i: int) -> Option<Failure>
    decreases body.len() - i,
{
    if i < 0 || i >= body.len() {
        None
    } else {
        match stmt_failure(b, body[i]) {
            Some(f) => Some(f),
            None => body_failure(b, body, i + 1),
        }
    }
}

/// `a` is what the parameter `p` builds.
pub open spec fn param_built(b: Seq<u8>, p: cst::Param, a: Param) -> bool {
    names(b, p.name, a.name) && names(b, p.ty, a.ty.name)
}

/// `a` is what `f` builds, `f` not failing.
pub open spec fn func_built(b: Seq<u8>, f: FuncDeclV, a: FuncDecl) -> bool {
    &&& names(b, f.name, a.name)
    &&& a.params@.len() == f.params.len()
    &&& forall|i: int| 0 <= i < f.params.len() ==> param_built(b, f.params[i], #[trigger] a.params@[i])
    &&& names(b, f.ret, a.ret.name)
    &&& a.body@.len() == f.body.len()
    &&& forall|i: int| 0 <= i < f.body.len() ==> stmt_built(b, f.body[i], #[trigger] a.body@[i])
    &&& a.span == join(f.func.span, f.rbrace.span)
}

/// How building the functions of `funcs` from the `i`th on fails, if it
/// does.
pub open spec fn funcs_failure(b: Seq<u8>, funcs: Seq<FuncDeclV>, i: int) -> Option<Failure>
    decreases funcs.len() - i,
{
    if i < 0 || i >= funcs.len() {
        None
    } else {
        match body_failure(b, funcs[i].body, 0) {
            Some(f) => Some(f),
            None => funcs_failure(b, funcs, i + 1),
        }
    }
}

/// `a` is what `p` builds, `p` not failing.
pub open spec fn program_built(b: Seq<u8>, p: ProgramV, a: Program) -> bool {
    &&& a.funcs@.len() == p.funcs.len()
    &&& forall|i: int| 0 <= i < p.funcs.len() ==> func_built(b, p.funcs[i], #[trigger] a.funcs@[i])
}

/// What a build that ends in `failure`, or succeeds where it is `None`,
/// leaves in a sink that held `before`.
pub open spec fn reported(before: Seq<diag::Entry>, failure: Option<Failure>) -> Seq<diag::Entry> {
    match failure {
        Some(Some(d)) => before.push(d),
        _ => before,
    }
}

/// Builds the AST for `program`, reading names and literals from `source`.
///
/// Returns `None` as soon as anything is wrong; one run reports at most
/// one diagnostic, for an integer literal out of range.
pub fn from_cst(source: &str, program: &cst::Program, diags: &mut diag::Sink) -> (r: Option<Program>)
    ensures
        final(diags)@ == reported(old(diags)@, funcs_failure(source.spec_bytes(), program@.funcs, 0)),
        match funcs_failure(source.spec_bytes(), program@.funcs, 0) {
            None => r matches Some(a) && program_built(source.spec_bytes(), program@, a),
            Some(_) => r is None,
        },
{
    let ghost b = source.spec_bytes();
    let ghost fv = program@.funcs;
    let mut funcs: Vec<FuncDecl> = Vec::new();
    let mut k: usize = 0;
    while k < program.funcs.len()
        invariant
            b == source.spec_bytes(),
            fv == program@.funcs,
            k <= program.funcs@.len(),
            fv.len() == program.funcs@.len(),
            funcs_failure(b, fv, 0) == funcs_failure(b, fv, k as int),
            diags@ == old(diags)@,
            funcs@.len() == k,
            forall|i: int| 0 <= i < k ==> func_built(b, fv[i], #[trigger] funcs@[i]),
        decreases program.funcs@.len() - k,
    {
        let f = match func_decl(source, &program.funcs[k], diags) {
            Some(f) => f,
            None => return None,
        };
        funcs.push(f);
        k = k + 1;
    }
    Some(Program { funcs })
}

/// Builds one function declaration.
fn func_decl(source: &str, func: &cst::FuncDecl, diags: &mut diag::Sink) -> (r: Option<FuncDecl>)
    ensures
        final(diags)@ == reported(old(diags)@, body_failure(source.spec_bytes(), func@.body, 0)),
        match body_failure(source.spec_bytes(), func@.body, 0) {
            None => r matches Some(a) && func_built(source.spec_bytes(), func@, a),
            Some(_) => r is None,
        },
{
    let ghost b = source.spec_bytes();
    let ghost bv = func@.body;
    let name = name_of(source, func.name);
    let mut params: Vec<Param> = Vec::new();
    let mut k: usize = 0;
    while k < func.params.len()
        invariant
            b == source.spec_bytes(),
            k <= func.params@.len(),
            params@.len() == k,
            forall|i: int| 0 <= i < k ==> param_built(b, func.params@[i], #[trigger] params@[i]),
        decreases func.params@.len() - k,
    {
        let p = func.params[k];
        params.push(Param { name: name_of(source, p.name), ty: TypeRef { name: name_of(source, p.ty) } });
        k = k + 1;
    }
    let ret = TypeRef { name: name_of(source, func.ret) };
    let mut body: Vec<Stmt> = Vec::new();
    let mut k: usize = 0;
    while k < func.body.len()
        invariant
            b == source.spec_bytes(),
            bv == func@.body,
            bv.len() == func.body@.len(),
            k <= func.body@.len(),
            body_failure(b, bv, 0) == body_failure(b, bv, k as int),
            diags@ == old(diags)@,
            body@.len() == k,
            forall|i: int| 0 <= i < k ==> stmt_built(b, bv[i], #[trigger] body@[i]),
        decreases func.body@.len() - k,
    {
        let s = match stmt(source, &func.body[k], diags) {
            Some(s) => s,
            None => return None,
        };
        body.push(s);
        k = k + 1;
    }
    Some(
        FuncDecl {
            name,
            params,
            ret,
            body,
            span: diag::Span { start: func.func.span.start, end: func.rbrace.span.end },
        },
    )
}

/// Builds one statement.
fn stmt(source: &str, s: &cst::Stmt, diags: &mut diag::Sink) -> (r: Option<Stmt>)
    ensures
        final(diags)@ == reported(old(diags)@, stmt_failure(source.spec_bytes(), s@)),
        match stmt_failure(source.spec_bytes(), s@) {
            None => r matches Some(a) && stmt_built(source.spec_bytes(), s@, a),
            Some(_) => r is None,
        },
{
    match s {
        cst::Stmt::Var { var, name: n, ty, init, .. } => {
            let name = name_of(source, *n);
            let ty = TypeRef { name: name_of(source, *ty) };
            let init = match expr(source, init, diags) {
                Some(e) => e,
                None => return None,
            };
            let span = diag::Span { start: var.span.start, end: init.span().end };
            Some(Stmt::Var { name, ty, init, span })
        },
        cst::Stmt::Return { ret, expr: e } => {
            let e = match expr(source, e, diags) {
                Some(e) => e,
                None => return None,
            };
            let span = diag::Span { start: ret.span.start, end: e.span().end };
            Some(Stmt::Return { expr: e, span })
        },
    }
}

/// Builds one expression.
#[verifier::loop_isolation(false)]
fn expr(source: &str, e: &cst::Expr, diags: &mut diag::Sink) -> (r: Option<Expr>)
    ensures
        final(diags)@ == reported(old(diags)@, expr_failure(source.spec_bytes(), e@)),
        match expr_failure(source.spec_bytes(), e@) {
            None => r matches Some(a) && expr_built(source.spec_bytes(), e@, a),
            Some(_) => r is None,
        },
    decreases e,
{
    match e {
        cst::Expr::IntLit(token) => {
            let span = token.span;
            let text = text::slice(source, span.start, span.end);
            match text::parse_u64(text.as_str()) {
                Some(value) => Some(Expr::IntLit { value, span }),
                // The lexer only admits ASCII digits, so overflow is the one
                // way parsing can fail on what it produced.
                None => {
                    diags.push(diag::Entry { kind: diag::Kind::IntegerLiteralOutOfRange, span });
                    None
                },
            }
        },
        cst::Expr::BoolLit(token) => Some(
            Expr::BoolLit { value: token.kind == TokenKind::True, span: token.span },
        ),
        cst::Expr::Var(token) => {
            let name = name_of(source, *token);
            let span = name.span;
            Some(Expr::Var { name, span })
        },
        cst::Expr::Binary { lhs, op, rhs } => {
            let lhs = match expr(source, lhs, diags) {
                Some(e) => e,
                None => return None,
            };
            let rhs = match expr(source, rhs, diags) {
                Some(e) => e,
                None => return None,
            };
            let span = diag::Span { start: lhs.span().start, end: rhs.span().end };
            // The parser stores an operator token here, so the mapping never
            // fails on what it built; failing beats mistranslating.
            let op = match binary_op(op.kind) {
                Some(op) => op,
                None => return None,
            };
            Some(Expr::Binary { op, lhs: Box::new(lhs), rhs: Box::new(rhs), span })
        },
        cst::Expr::Unary { op, operand } => {
            let operand = match expr(source, operand, diags) {
                Some(e) => e,
                None => return None,
            };
            let span = diag::Span { start: op.span.start, end: operand.span().end };
            let op = match unary_op(op.kind) {
                Some(op) => op,
                None => return None,
            };
            Some(Expr::Unary { op, operand: Box::new(operand), span })
        },
        cst::Expr::Call { callee, args, rparen, .. } => {
            let ghost av = cst::args_view(args@, args@.len() as int);
            proof {
                cst::lemma_args_view_len(args@, args@.len() as int);
            }
            let mut built: Vec<Expr> = Vec::new();
            let mut k: usize = 0;
            while k < args.len()
                invariant
                    av == cst::args_view(args@, args@.len() as int),
                    av.len() == args@.len(),
                    k <= args@.len(),
                    args_failure(source.spec_bytes(), av, 0) == args_failure(source.spec_bytes(), av, k as int),
                    diags@ == old(diags)@,
                    built@.len() == k,
                    forall|i: int| 0 <= i < k ==> expr_built(source.spec_bytes(), av[i].expr, #[trigger] built@[i]),
                decreases args@.len() - k,
            {
                proof {
                    cst::lemma_args_view_index(args@, args@.len() as int, k as int);
                    assert(decreases_to!(e => args));
                    assert(decreases_to!(args => args@));
                    assert(decreases_to!(args@ => args@[k as int]));
                    assert(decreases_to!(args@[k as int] => args@[k as int].expr));
                }
                let x = match expr(source, &args[k].expr, diags) {
                    Some(x) => x,
                    None => return None,
                };
                built.push(x);
                k = k + 1;
            }
            Some(
                Expr::Call {
                    callee: name_of(source, *callee),
                    args: built,
                    span: diag::Span { start: callee.span.start, end: rparen.span.end },
                },
            )
        },
        cst::Expr::Paren { inner, .. } => expr(source, inner, diags),
    }
}

/// The name `token` writes.
fn name_of(source: &str, token: Token) -> (n: Name)
    ensures
        names(source.spec_bytes(), token, n),
{
    Name { text: text::slice(source, token.span.start, token.span.end), span: token.span }
}

} // verus!
