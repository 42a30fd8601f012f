//! The type checker: an AST to a typed AST, resolving every name and type
//! it uses.
//!
//! It reports every problem it finds, in the order it meets them, and
//! produces a typed AST only when it found none. What it reports, and what
//! it produces, is stated by spec functions that walk the AST the way the
//! checker does.

use crate::ast;
use crate::diag::{self, Entry, Kind, Span};
use crate::graph;
use crate::typed_ast::{self, FuncId, LocalId, ParamId, Type};
use vstd::prelude::*;

verus! {

// ---------------------------------------------------------------------------
// Types, names and scopes.
// ---------------------------------------------------------------------------

/// The type a written name names, if it names one.
pub open spec fn spec_resolve(name: Seq<char>) -> Option<Type> {
    if name == "uint64"@ {
        Some(Type::Uint64)
    } else if name == "bool"@ {
        Some(Type::Bool)
    } else {
        None
    }
}

/// What resolving the written type `t` reports.
pub open spec fn type_reports(t: ast::TypeRef) -> Seq<Entry> {
    if spec_resolve(t.name.text@) is None {
        seq![Entry { kind: Kind::UnknownType { name: t.name.text }, span: t.name.span }]
    } else {
        Seq::empty()
    }
}

/// Whether something of type `found` may stand where `expected` is wanted:
/// what did not resolve agrees with anything, its problem already reported.
pub open spec fn agrees(found: Option<Type>, expected: Option<Type>) -> bool {
    match (found, expected) {
        (Some(f), Some(e)) => f == e,
        _ => true,
    }
}

/// What checking that something of type `found`, written at `span`, stands
/// where `expected` is wanted reports.
pub open spec fn mismatch(found: Option<Type>, expected: Option<Type>, span: Span) -> Seq<Entry> {
    match (found, expected) {
        (Some(f), Some(e)) => if f == e {
            Seq::empty()
        } else {
            seq![Entry { kind: Kind::TypeMismatch { expected: e, found: f }, span }]
        },
        _ => Seq::empty(),
    }
}

/// Names in scope, in declaration order, each with its type if that
/// resolved: a name's position is its slot.
pub type Scope = Seq<(Seq<char>, Option<Type>)>;

/// The position of the first declaration of `name` in `scope` from `i` on.
pub open spec fn find(scope: Scope, name: Seq<char>, i: int) -> Option<int>
    decreases scope.len() - i,
{
    if i < 0 || i >= scope.len() {
        None
    } else if scope[i].0 == name {
        Some(i)
    } else {
        find(scope, name, i + 1)
    }
}

/// The position of the first function of `program` declared as `name`,
/// from the `i`th on.
pub open spec fn find_func(program: ast::Program, name: Seq<char>, i: int) -> Option<int>
    decreases program.funcs@.len() - i,
{
    if i < 0 || i >= program.funcs@.len() {
        None
    } else if program.funcs@[i].name.text@ == name {
        Some(i)
    } else {
        find_func(program, name, i + 1)
    }
}

/// The types of the parameters of `func`, each if it resolves.
pub open spec fn param_types(func: ast::FuncDecl) -> Seq<Option<Type>> {
    Seq::new(func.params@.len(), |k: int| spec_resolve(func.params@[k].ty.name.text@))
}

/// The parameters of `func` as a scope.
pub open spec fn param_scope(func: ast::FuncDecl) -> Scope {
    Seq::new(func.params@.len(), |k: int| (func.params@[k].name.text@, spec_resolve(func.params@[k].ty.name.text@)))
}

/// Where an expression is checked: the program, which holds the functions
/// it may call, and the parameters of the function it is in.
pub struct Env {
    pub program: ast::Program,
    pub params: Scope,
}

// ---------------------------------------------------------------------------
// Expressions.
// ---------------------------------------------------------------------------

/// What checking the variable `name` reports, and what it resolves to: a
/// slot, or else a parameter, each with its type.
pub open spec fn resolve_var(env: Env, locals: Scope, name: ast::Name) -> (Seq<Entry>, Option<(typed_ast::ExprKind, Type)>) {
    match find(locals, name.text@, 0) {
        Some(i) => (
            Seq::empty(),
            match locals[i].1 {
                Some(t) => if i < LocalId::CAPACITY {
                    Some((typed_ast::ExprKind::Var(LocalId(i as u8)), t))
                } else {
                    None
                },
                None => None,
            },
        ),
        None => match find(env.params, name.text@, 0) {
            Some(j) => (
                Seq::empty(),
                match env.params[j].1 {
                    Some(t) => if j < ParamId::CAPACITY {
                        Some((typed_ast::ExprKind::Param(ParamId(j as u8)), t))
                    } else {
                        None
                    },
                    None => None,
                },
            ),
            None => (
                seq![Entry { kind: Kind::UndefinedVariable { name: name.text }, span: name.span }],
                None,
            ),
        },
    }
}

/// What checking `e` reports, in order, and the type it has if checking it
/// succeeds.
pub open spec fn check_expr(env: Env, locals: Scope, e: ast::Expr) -> (Seq<Entry>, Option<Type>)
    decreases e, 1int,
{
    match e {
        ast::Expr::IntLit { .. } => (Seq::empty(), Some(Type::Uint64)),
        ast::Expr::BoolLit { .. } => (Seq::empty(), Some(Type::Bool)),
        ast::Expr::Binary { op, lhs, rhs, .. } => {
            let (lr, lt) = check_expr(env, locals, *lhs);
            let (rr, rt) = check_expr(env, locals, *rhs);
            let lhs_expected = typed_ast::spec_operand_type(op);
            let rhs_expected = match lhs_expected {
                Some(t) => Some(t),
                None => lt,
            };
            let reports = lr + rr + mismatch(lt, lhs_expected, lhs.spec_span()) + mismatch(
                rt,
                rhs_expected,
                rhs.spec_span(),
            );
            if lt is Some && rt is Some && agrees(lt, lhs_expected) && agrees(rt, rhs_expected) {
                (reports, Some(typed_ast::spec_result_type(op)))
            } else {
                (reports, None)
            }
        },
        ast::Expr::Unary { operand, .. } => {
            let (r, t) = check_expr(env, locals, *operand);
            let reports = r + mismatch(t, Some(Type::Bool), operand.spec_span());
            if t == Some(Type::Bool) {
                (reports, Some(Type::Bool))
            } else {
                (reports, None)
            }
        },
        ast::Expr::Var { name, .. } => {
            let (r, v) = resolve_var(env, locals, name);
            match v {
                Some((_, t)) => (r, Some(t)),
                None => (r, None),
            }
        },
        ast::Expr::Call { callee, args, span } => {
            let (ar, ats) = check_args(env, locals, args@, 0);
            match find_func(env.program, callee.text@, 0) {
                None => (
                    ar + seq![Entry { kind: Kind::UndefinedFunction { name: callee.text }, span: callee.span }],
                    None,
                ),
                Some(j) => {
                    let called = env.program.funcs@[j];
                    let params = param_types(called);
                    if args@.len() != params.len() {
                        (
                            ar + seq![
                                Entry {
                                    kind: Kind::WrongArgumentCount {
                                        name: callee.text,
                                        expected: params.len() as usize,
                                        found: args@.len() as usize,
                                    },
                                    span,
                                },
                            ],
                            None,
                        )
                    } else {
                        let reports = ar + arg_mismatches(ats, params, args@, 0);
                        let ret = spec_resolve(called.ret.name.text@);
                        if all_typed(ats) && args_agree(ats, params) && ret is Some {
                            (reports, ret)
                        } else {
                            (reports, None)
                        }
                    }
                },
            }
        },
    }
}

/// What checking the arguments from the `i`th on reports, and the type of
/// each.
pub open spec fn check_args(env: Env, locals: Scope, args: Seq<ast::Expr>, i: int) -> (Seq<Entry>, Seq<Option<Type>>)
    decreases args, args.len() - i,
{
    if i < 0 || i >= args.len() {
        (Seq::empty(), Seq::empty())
    } else {
        let (r, t) = check_expr(env, locals, args[i]);
        let (rs, ts) = check_args(env, locals, args, i + 1);
        (r + rs, seq![t] + ts)
    }
}

/// Every argument has a type.
pub open spec fn all_typed(types: Seq<Option<Type>>) -> bool {
    forall|k: int| 0 <= k < types.len() ==> (#[trigger] types[k]) is Some
}

/// Every argument agrees with its parameter.
pub open spec fn args_agree(types: Seq<Option<Type>>, params: Seq<Option<Type>>) -> bool {
    forall|k: int| 0 <= k < types.len() ==> agrees(#[trigger] types[k], params[k])
}

/// What checking the arguments from the `k`th on against the parameters
/// reports.
pub open spec fn arg_mismatches(types: Seq<Option<Type>>, params: Seq<Option<Type>>, args: Seq<ast::Expr>, k: int) -> Seq<Entry>
    decreases types.len() - k,
{
    if k < 0 || k >= types.len() {
        Seq::empty()
    } else {
        mismatch(types[k], params[k], args[k].spec_span()) + arg_mismatches(types, params, args, k + 1)
    }
}

/// `t` is what checking `e` produces, checking it succeeding.
pub open spec fn expr_typed(env: Env, locals: Scope, e: ast::Expr, t: typed_ast::Expr) -> bool
    decreases e,
{
    &&& Some(t.ty) == check_expr(env, locals, e).1
    &&& t.span == e.spec_span()
    &&& match e {
        ast::Expr::IntLit { value, .. } => t.kind == typed_ast::ExprKind::IntLit(value),
        ast::Expr::BoolLit { value, .. } => t.kind == typed_ast::ExprKind::BoolLit(value),
        ast::Expr::Binary { op, lhs, rhs, .. } => t.kind matches typed_ast::ExprKind::Binary { op: o, lhs: l, rhs: r }
            && o == op && expr_typed(env, locals, *lhs, *l) && expr_typed(env, locals, *rhs, *r),
        ast::Expr::Unary { op, operand, .. } => t.kind matches typed_ast::ExprKind::Unary { op: o, operand: x } && o
            == op && expr_typed(env, locals, *operand, *x),
        ast::Expr::Var { name, .. } => resolve_var(env, locals, name).1 == Some((t.kind, t.ty)),
        ast::Expr::Call { callee, args, .. } => t.kind matches typed_ast::ExprKind::Call { callee: c, args: xs }
            && find_func(env.program, callee.text@, 0) == Some(c.0 as int) && xs@.len() == args@.len() && (forall|
            i: int,
        | 0 <= i < args@.len() ==> expr_typed(env, locals, args@[i], #[trigger] xs@[i])),
    }
}

// ---------------------------------------------------------------------------
// Statements and bodies.
// ---------------------------------------------------------------------------

/// What declaring `name`, of type `ty`, in a scope of `locals` reports, and
/// the scope after it: a name the function already declares, or one past
/// the frame's capacity, is reported and not declared.
pub open spec fn declare(env: Env, locals: Scope, name: ast::Name, ty: Option<Type>) -> (Seq<Entry>, Scope) {
    if find(locals, name.text@, 0) is Some || find(env.params, name.text@, 0) is Some {
        (seq![Entry { kind: Kind::DuplicateVariable { name: name.text }, span: name.span }], locals)
    } else if locals.len() < LocalId::CAPACITY {
        (Seq::empty(), locals.push((name.text@, ty)))
    } else {
        (
            seq![Entry { kind: Kind::TooManyVariables { max: LocalId::CAPACITY }, span: name.span }],
            locals,
        )
    }
}

/// What checking the statement `s` reports, the scope after it, and whether
/// it checked. `ret` is the enclosing function's return type.
pub open spec fn check_stmt(env: Env, locals: Scope, s: ast::Stmt, ret: Option<Type>) -> (Seq<Entry>, Scope, bool) {
    match s {
        ast::Stmt::Var { name, ty, init, .. } => {
            let (ir, it) = check_expr(env, locals, init);
            let t = spec_resolve(ty.name.text@);
            let (dr, after) = declare(env, locals, name, t);
            let reports = ir + type_reports(ty) + mismatch(it, t, init.spec_span()) + dr;
            let ok = it is Some && t is Some && agrees(it, t) && after.len() == locals.len() + 1;
            (reports, after, ok)
        },
        ast::Stmt::Return { expr, .. } => {
            let (er, et) = check_expr(env, locals, expr);
            match et {
                None => (er, locals, false),
                Some(_) => (er + mismatch(et, ret, expr.spec_span()), locals, agrees(et, ret)),
            }
        },
    }
}

/// `t` is what checking `s` produces, checking it succeeding.
pub open spec fn stmt_typed(env: Env, locals: Scope, s: ast::Stmt, t: typed_ast::Stmt) -> bool {
    match s {
        ast::Stmt::Var { ty, init, span, .. } => t matches typed_ast::Stmt::Var { local, ty: tt, init: ti, span: ts }
            && local == LocalId(locals.len() as u8) && Some(tt) == spec_resolve(ty.name.text@) && expr_typed(
            env,
            locals,
            init,
            ti,
        ) && ts == span,
        ast::Stmt::Return { expr, span } => t matches typed_ast::Stmt::Return { expr: te, span: ts } && expr_typed(
            env,
            locals,
            expr,
            te,
        ) && ts == span,
    }
}

/// The state of a walk over a body: what it reported, the scope, whether
/// every statement so far checked, whether one returned, and the first
/// statement after a `return`.
pub struct Walk {
    pub reports: Seq<Entry>,
    pub locals: Scope,
    pub ok: bool,
    pub returned: bool,
    pub unreachable: Option<Span>,
}

/// The walk `w` after the statement `s`.
pub open spec fn step(env: Env, s: ast::Stmt, ret: Option<Type>, w: Walk) -> Walk {
    let unreachable = if w.returned && w.unreachable is None {
        Some(s.spec_span())
    } else {
        w.unreachable
    };
    let (r, after, ok) = check_stmt(env, w.locals, s, ret);
    Walk {
        reports: w.reports + r,
        locals: after,
        ok: w.ok && ok,
        returned: w.returned || s is Return,
        unreachable,
    }
}

/// The walk from the start of a body.
pub open spec fn start() -> Walk {
    Walk { reports: Seq::empty(), locals: Seq::empty(), ok: true, returned: false, unreachable: None }
}

/// The walk over the first `n` statements of `body`.
pub open spec fn walk(env: Env, body: Seq<ast::Stmt>, ret: Option<Type>, n: int) -> Walk
    decreases n,
{
    if n <= 0 || n > body.len() {
        start()
    } else {
        step(env, body[n - 1], ret, walk(env, body, ret, n - 1))
    }
}

/// The scope before the `i`th statement of `body`.
pub open spec fn scope_at(env: Env, body: Seq<ast::Stmt>, ret: Option<Type>, i: int) -> Scope {
    walk(env, body, ret, i).locals
}

/// What checking the body of `func` reports, and whether it checked: it
/// must end with a `return`, and nothing may follow one, of which only the
/// first is reported.
pub open spec fn check_body(env: Env, func: ast::FuncDecl, ret: Option<Type>) -> (Seq<Entry>, bool) {
    let w = walk(env, func.body@, ret, func.body@.len() as int);
    if !w.returned {
        (w.reports.push(Entry { kind: Kind::MissingReturn, span: func.name.span }), false)
    } else {
        match w.unreachable {
            Some(span) => (w.reports.push(Entry { kind: Kind::UnreachableStatement, span }), false),
            None => (w.reports, w.ok),
        }
    }
}

// ---------------------------------------------------------------------------
// Functions and the program.
// ---------------------------------------------------------------------------

/// What checking the parameter types of `func` from the `k`th on reports.
pub open spec fn param_reports(func: ast::FuncDecl, k: int) -> Seq<Entry>
    decreases func.params@.len() - k,
{
    if k < 0 || k >= func.params@.len() {
        Seq::empty()
    } else {
        let p = func.params@[k];
        let dup = if find(param_scope(func).take(k), p.name.text@, 0) is Some {
            seq![Entry { kind: Kind::DuplicateVariable { name: p.name.text }, span: p.name.span }]
        } else {
            Seq::empty()
        };
        type_reports(p.ty) + dup + param_reports(func, k + 1)
    }
}

/// Whether every parameter of `func` resolves and is declared once.
pub open spec fn params_ok(func: ast::FuncDecl) -> bool {
    forall|k: int|
        0 <= k < func.params@.len() ==> spec_resolve((#[trigger] func.params@[k]).ty.name.text@) is Some && find(
            param_scope(func).take(k),
            func.params@[k].name.text@,
            0,
        ) is None
}

/// What checking the parameter list of `func` reports: each parameter,
/// then a count past what a frame can address.
pub open spec fn params_reports(func: ast::FuncDecl) -> Seq<Entry> {
    param_reports(func, 0) + if func.params@.len() > ParamId::CAPACITY {
        seq![Entry { kind: Kind::TooManyParameters { max: ParamId::CAPACITY }, span: func.name.span }]
    } else {
        Seq::empty()
    }
}

/// The environment the body of `func`, a function of `program`, is checked
/// in.
pub open spec fn func_env(program: ast::Program, func: ast::FuncDecl) -> Env {
    Env { program, params: param_scope(func) }
}

/// What checking `func` reports, and whether it checked. Its return type,
/// its parameters and its body are checked independently of each other.
pub open spec fn check_func(program: ast::Program, func: ast::FuncDecl) -> (Seq<Entry>, bool) {
    let ret = spec_resolve(func.ret.name.text@);
    let (br, bok) = check_body(func_env(program, func), func, ret);
    (
        type_reports(func.ret) + params_reports(func) + br,
        ret is Some && params_ok(func) && func.params@.len() <= ParamId::CAPACITY && bok,
    )
}

/// `t` is what checking `func` produces, checking it succeeding.
pub open spec fn func_typed(program: ast::Program, func: ast::FuncDecl, t: typed_ast::FuncDecl) -> bool {
    let env = func_env(program, func);
    let ret = spec_resolve(func.ret.name.text@);
    &&& t.name.text@ == func.name.text@
    &&& t.name.span == func.name.span
    &&& t.params@.len() == func.params@.len()
    &&& forall|k: int|
        0 <= k < func.params@.len() ==> {
            &&& (#[trigger] t.params@[k]).name.text@ == func.params@[k].name.text@
            &&& t.params@[k].name.span == func.params@[k].name.span
            &&& Some(t.params@[k].ty) == spec_resolve(func.params@[k].ty.name.text@)
        }
    &&& Some(t.ret) == ret
    &&& t.body@.len() == func.body@.len()
    &&& forall|i: int|
        0 <= i < func.body@.len() ==> stmt_typed(
            env,
            scope_at(env, func.body@, ret, i),
            func.body@[i],
            #[trigger] t.body@[i],
        )
    &&& t.span == func.span
}

/// What checking the names of the functions from the `i`th on reports:
/// each one declared before is reported where it is declared again.
pub open spec fn duplicate_reports(program: ast::Program, i: int) -> Seq<Entry>
    decreases program.funcs@.len() - i,
{
    if i < 0 || i >= program.funcs@.len() {
        Seq::empty()
    } else {
        let name = program.funcs@[i].name;
        let dup = if find_func(program, name.text@, 0) != Some(i) {
            seq![Entry { kind: Kind::DuplicateFunction { name: name.text }, span: name.span }]
        } else {
            Seq::empty()
        };
        dup + duplicate_reports(program, i + 1)
    }
}

/// What checking the functions from the `i`th on reports, and whether all
/// of them checked.
pub open spec fn funcs_reports(program: ast::Program, i: int) -> (Seq<Entry>, bool)
    decreases program.funcs@.len() - i,
{
    if i < 0 || i >= program.funcs@.len() {
        (Seq::empty(), true)
    } else {
        let (r, ok) = check_func(program, program.funcs@[i]);
        let (rs, oks) = funcs_reports(program, i + 1);
        (r + rs, ok && oks)
    }
}

// ---------------------------------------------------------------------------
// Recursion.
// ---------------------------------------------------------------------------

/// The functions of `program` that `e` calls, by position.
pub open spec fn expr_callees(program: ast::Program, e: ast::Expr) -> Set<int>
    decreases e, 1int,
{
    match e {
        ast::Expr::Binary { lhs, rhs, .. } => expr_callees(program, *lhs) + expr_callees(program, *rhs),
        ast::Expr::Unary { operand, .. } => expr_callees(program, *operand),
        ast::Expr::Call { callee, args, .. } => {
            let own = match find_func(program, callee.text@, 0) {
                Some(j) => set![j],
                None => Set::empty(),
            };
            own + args_callees(program, args@, 0)
        },
        _ => Set::empty(),
    }
}

/// The functions the arguments from the `i`th on call.
pub open spec fn args_callees(program: ast::Program, args: Seq<ast::Expr>, i: int) -> Set<int>
    decreases args, args.len() - i,
{
    if i < 0 || i >= args.len() {
        Set::empty()
    } else {
        expr_callees(program, args[i]) + args_callees(program, args, i + 1)
    }
}

/// The functions the statement `s` calls.
pub open spec fn stmt_callees(program: ast::Program, s: ast::Stmt) -> Set<int> {
    match s {
        ast::Stmt::Var { init, .. } => expr_callees(program, init),
        ast::Stmt::Return { expr, .. } => expr_callees(program, expr),
    }
}

/// The functions the first `n` statements of `body` call.
pub open spec fn body_callees(program: ast::Program, body: Seq<ast::Stmt>, n: int) -> Set<int>
    decreases n,
{
    if n <= 0 || n > body.len() {
        Set::empty()
    } else {
        body_callees(program, body, n - 1) + stmt_callees(program, body[n - 1])
    }
}

/// Whether the `i`th function of `program` calls the `j`th.
pub open spec fn calls(program: ast::Program, i: int, j: int) -> bool {
    let body = program.funcs@[i].body@;
    body_callees(program, body, body.len() as int).contains(j)
}

/// The calls between the functions of `program`, as the edges of a graph.
pub open spec fn call_edges(program: ast::Program) -> spec_fn(int, int) -> bool {
    |i: int, j: int| calls(program, i, j)
}

/// Whether a chain of calls leads from the `i`th function to the `j`th.
pub open spec fn leads(program: ast::Program, i: int, j: int) -> bool {
    graph::leads(call_edges(program), program.funcs@.len() as int, i, j)
}

/// Whether the `i`th function is the first in source order of a set of
/// functions that call each other in a cycle: each such set is reported
/// once, at its first function.
pub open spec fn first_of_cycle(program: ast::Program, i: int) -> bool {
    &&& leads(program, i, i)
    &&& forall|j: int| 0 <= j < i ==> !(#[trigger] leads(program, i, j) && leads(program, j, i))
}

/// What checking for recursion from the `i`th function on reports.
pub open spec fn recursion_reports(program: ast::Program, i: int) -> Seq<Entry>
    decreases program.funcs@.len() - i,
{
    if i < 0 || i >= program.funcs@.len() {
        Seq::empty()
    } else {
        let name = program.funcs@[i].name;
        let own = if first_of_cycle(program, i) {
            seq![Entry { kind: Kind::RecursiveCall { name: name.text }, span: name.span }]
        } else {
            Seq::empty()
        };
        own + recursion_reports(program, i + 1)
    }
}

/// What checking `program` reports, in order: functions declared twice,
/// then each function's problems, then recursion.
pub open spec fn check_reports(program: ast::Program) -> Seq<Entry> {
    duplicate_reports(program, 0) + funcs_reports(program, 0).0 + recursion_reports(program, 0)
}

/// Whether `program` checks.
pub open spec fn checks(program: ast::Program) -> bool {
    &&& duplicate_reports(program, 0).len() == 0
    &&& funcs_reports(program, 0).1
    &&& recursion_reports(program, 0).len() == 0
}

/// `t` is what checking `program` produces.
pub open spec fn program_typed(program: ast::Program, t: typed_ast::Program) -> bool {
    &&& t.funcs@.len() == program.funcs@.len()
    &&& forall|i: int| 0 <= i < program.funcs@.len() ==> func_typed(program, program.funcs@[i], #[trigger] t.funcs@[i])
}

// ---------------------------------------------------------------------------
// The checker.
// ---------------------------------------------------------------------------

/// A declared name and its type, if that resolved.
struct Binding {
    name: String,
    ty: Option<Type>,
}

/// The scope `v` holds.
spec fn scope_of(v: Seq<Binding>) -> Scope {
    Seq::new(v.len(), |i: int| (v[i].name@, v[i].ty))
}

/// The environment for a function whose parameters are `params`.
spec fn env_of(program: &ast::Program, params: Seq<Binding>) -> Env {
    Env { program: *program, params: scope_of(params) }
}

proof fn lemma_scope_push(v: Seq<Binding>, b: Binding)
    ensures
        scope_of(v.push(b)) == scope_of(v).push((b.name@, b.ty)),
{
    assert(scope_of(v.push(b)) =~= scope_of(v).push((b.name@, b.ty)));
}

/// Whether `s` reads exactly `lit`.
fn is(s: &String, lit: &str) -> (r: bool)
    ensures
        r == (s@ == lit@),
{
    let l = lit.to_owned();
    *s == l
}

/// The type a written type names, if it names one.
fn resolved(t: &ast::TypeRef) -> (r: Option<Type>)
    ensures
        r == spec_resolve(t.name.text@),
{
    if is(&t.name.text, "uint64") {
        Some(Type::Uint64)
    } else if is(&t.name.text, "bool") {
        Some(Type::Bool)
    } else {
        None
    }
}

/// Resolves a written type, reporting it if it names no type.
fn resolve(t: &ast::TypeRef, diags: &mut diag::Sink) -> (r: Option<Type>)
    ensures
        r == spec_resolve(t.name.text@),
        final(diags)@ == old(diags)@ + type_reports(*t),
{
    let r = resolved(t);
    if r.is_none() {
        diags.push(Entry { kind: Kind::UnknownType { name: t.name.text.clone() }, span: t.name.span });
    }
    proof {
        assert(final(diags)@ =~= old(diags)@ + type_reports(*t));
    }
    r
}

/// Reports something of type `found`, written at `span`, standing where
/// `expected` is wanted, if the two disagree; returns whether they agree.
fn check_type(found: Option<Type>, expected: Option<Type>, span: Span, diags: &mut diag::Sink) -> (r: bool)
    ensures
        r == agrees(found, expected),
        final(diags)@ == old(diags)@ + mismatch(found, expected, span),
{
    if let (Some(f), Some(e)) = (found, expected) {
        if f != e {
            diags.push(Entry { kind: Kind::TypeMismatch { expected: e, found: f }, span });
            proof {
                assert(final(diags)@ =~= old(diags)@ + mismatch(found, expected, span));
            }
            return false;
        }
    }
    proof {
        assert(final(diags)@ =~= old(diags)@ + mismatch(found, expected, span));
    }
    true
}

/// The slot of the first declaration of `name` in `scope`.
fn find_in(scope: &Vec<Binding>, name: &String) -> (r: Option<usize>)
    ensures
        match r {
            Some(i) => find(scope_of(scope@), name@, 0) == Some(i as int) && i < scope@.len(),
            None => find(scope_of(scope@), name@, 0) is None,
        },
{
    let ghost sc = scope_of(scope@);
    let mut i: usize = 0;
    while i < scope.len()
        invariant
            i <= scope@.len(),
            sc == scope_of(scope@),
            find(sc, name@, 0) == find(sc, name@, i as int),
        decreases scope@.len() - i,
    {
        if scope[i].name == *name {
            return Some(i);
        }
        i = i + 1;
    }
    None
}

/// The position of the first function of `program` declared as `name`.
fn find_func_in(program: &ast::Program, name: &String) -> (r: Option<usize>)
    ensures
        match r {
            Some(i) => find_func(*program, name@, 0) == Some(i as int) && i < program.funcs@.len(),
            None => find_func(*program, name@, 0) is None,
        },
{
    let mut i: usize = 0;
    while i < program.funcs.len()
        invariant
            i <= program.funcs@.len(),
            find_func(*program, name@, 0) == find_func(*program, name@, i as int),
        decreases program.funcs@.len() - i,
    {
        if program.funcs[i].name.text == *name {
            return Some(i);
        }
        i = i + 1;
    }
    None
}

/// Resolves a variable to its slot, or else its parameter, reporting it if
/// it names neither.
fn resolve_var_in(
    params: &Vec<Binding>,
    locals: &Vec<Binding>,
    name: &ast::Name,
    diags: &mut diag::Sink,
) -> (r: Option<(typed_ast::ExprKind, Type)>)
    ensures
        final(diags)@ == old(diags)@ + resolve_var(
            Env { program: arbitrary(), params: scope_of(params@) },
            scope_of(locals@),
            *name,
        ).0,
        r == resolve_var(Env { program: arbitrary(), params: scope_of(params@) }, scope_of(locals@), *name).1,
{
    match find_in(locals, &name.text) {
        Some(i) => {
            proof {
                assert(final(diags)@ =~= old(diags)@ + Seq::<Entry>::empty());
                assert(scope_of(locals@)[i as int].1 == locals@[i as int].ty);
                assert(find(scope_of(locals@), name.text@, 0) == Some(i as int));
            }
            match locals[i].ty {
                Some(t) => if i < LocalId::CAPACITY {
                    Some((typed_ast::ExprKind::Var(LocalId(i as u8)), t))
                } else {
                    None
                },
                None => None,
            }
        },
        None => match find_in(params, &name.text) {
            Some(j) => {
                proof {
                    assert(final(diags)@ =~= old(diags)@ + Seq::<Entry>::empty());
                    assert(scope_of(params@)[j as int].1 == params@[j as int].ty);
                }
                match params[j].ty {
                    Some(t) => if j < ParamId::CAPACITY {
                        Some((typed_ast::ExprKind::Param(ParamId(j as u8)), t))
                    } else {
                        None
                    },
                    None => None,
                }
            },
            None => {
                diags.push(
                    Entry { kind: Kind::UndefinedVariable { name: name.text.clone() }, span: name.span },
                );
                None
            },
        },
    }
}

/// Checks one expression, giving it its type.
#[verifier::loop_isolation(false)]
fn check_expr_in(
    program: &ast::Program,
    params: &Vec<Binding>,
    locals: &Vec<Binding>,
    e: &ast::Expr,
    diags: &mut diag::Sink,
) -> (r: Option<typed_ast::Expr>)
    requires
        program.funcs@.len() <= u32::MAX,
    ensures
        final(diags)@ == old(diags)@ + check_expr(env_of(program, params@), scope_of(locals@), *e).0,
        r is Some <==> check_expr(env_of(program, params@), scope_of(locals@), *e).1 is Some,
        r matches Some(t) ==> expr_typed(env_of(program, params@), scope_of(locals@), *e, t),
    decreases e, 2int,
{
    let ghost env = env_of(program, params@);
    let ghost sc = scope_of(locals@);
    match e {
        ast::Expr::IntLit { value, span } => {
            proof {
                assert(final(diags)@ =~= old(diags)@ + Seq::<Entry>::empty());
            }
            Some(typed_ast::Expr { kind: typed_ast::ExprKind::IntLit(*value), ty: Type::Uint64, span: *span })
        },
        ast::Expr::BoolLit { value, span } => {
            proof {
                assert(final(diags)@ =~= old(diags)@ + Seq::<Entry>::empty());
            }
            Some(typed_ast::Expr { kind: typed_ast::ExprKind::BoolLit(*value), ty: Type::Bool, span: *span })
        },
        ast::Expr::Binary { op, lhs, rhs, span } => {
            // Both operands are checked, so both report.
            let l = check_expr_in(program, params, locals, lhs, diags);
            let r = check_expr_in(program, params, locals, rhs, diags);
            let lt = match &l {
                Some(x) => Some(x.ty),
                None => None,
            };
            let rt = match &r {
                Some(x) => Some(x.ty),
                None => None,
            };
            // Equality takes any one type: the right operand must match the
            // left.
            let lhs_expected = typed_ast::operand_type(*op);
            let rhs_expected = match lhs_expected {
                Some(t) => Some(t),
                None => lt,
            };
            let lhs_agrees = check_type(lt, lhs_expected, lhs.span(), diags);
            let rhs_agrees = check_type(rt, rhs_expected, rhs.span(), diags);
            proof {
                let (lr, _) = check_expr(env, sc, **lhs);
                let (rr, _) = check_expr(env, sc, **rhs);
                assert(final(diags)@ =~= old(diags)@ + (lr + rr + mismatch(lt, lhs_expected, lhs.spec_span())
                    + mismatch(rt, rhs_expected, rhs.spec_span())));
            }
            if !(lhs_agrees && rhs_agrees) {
                return None;
            }
            match (l, r) {
                (Some(l), Some(r)) => Some(
                    typed_ast::Expr {
                        kind: typed_ast::ExprKind::Binary { op: *op, lhs: Box::new(l), rhs: Box::new(r) },
                        ty: typed_ast::result_type(*op),
                        span: *span,
                    },
                ),
                _ => None,
            }
        },
        ast::Expr::Unary { op, operand, span } => {
            let x = check_expr_in(program, params, locals, operand, diags);
            let t = match &x {
                Some(x) => Some(x.ty),
                None => None,
            };
            let agrees = check_type(t, Some(Type::Bool), operand.span(), diags);
            proof {
                let (r, _) = check_expr(env, sc, **operand);
                assert(final(diags)@ =~= old(diags)@ + (r + mismatch(t, Some(Type::Bool), operand.spec_span())));
            }
            if !agrees {
                return None;
            }
            match x {
                Some(x) => Some(
                    typed_ast::Expr {
                        kind: typed_ast::ExprKind::Unary { op: *op, operand: Box::new(x) },
                        ty: Type::Bool,
                        span: *span,
                    },
                ),
                None => None,
            }
        },
        ast::Expr::Var { name, span } => {
            let v = resolve_var_in(params, locals, name, diags);
            proof {
                assert(resolve_var(Env { program: arbitrary(), params: scope_of(params@) }, sc, *name)
                    == resolve_var(env, sc, *name));
            }
            match v {
                Some((kind, ty)) => Some(typed_ast::Expr { kind, ty, span: *span }),
                None => None,
            }
        },
        ast::Expr::Call { .. } => check_call(program, params, locals, e, diags),
    }
}

/// Checks a call: its arguments, each where it stands, then the function it
/// calls, their number, and their types.
fn check_call(
    program: &ast::Program,
    params: &Vec<Binding>,
    locals: &Vec<Binding>,
    e: &ast::Expr,
    diags: &mut diag::Sink,
) -> (r: Option<typed_ast::Expr>)
    requires
        program.funcs@.len() <= u32::MAX,
        e is Call,
    ensures
        final(diags)@ == old(diags)@ + check_expr(env_of(program, params@), scope_of(locals@), *e).0,
        r is Some <==> check_expr(env_of(program, params@), scope_of(locals@), *e).1 is Some,
        r matches Some(t) ==> expr_typed(env_of(program, params@), scope_of(locals@), *e, t),
    decreases e, 1int,
{
    let ghost env = env_of(program, params@);
    let ghost sc = scope_of(locals@);
    let (callee, args, span) = match e {
        ast::Expr::Call { callee, args, span } => (callee, args, span),
        _ => {
            return None;
        },
    };
    let ghost full = check_args(env, sc, args@, 0);
    let (types, typed) = check_args_in(program, params, locals, e, diags);
    let j = match find_func_in(program, &callee.text) {
        Some(j) => j,
        None => {
            let entry = Entry { kind: Kind::UndefinedFunction { name: callee.text.clone() }, span: callee.span };
            diags.push(entry);
            proof {
                assert(final(diags)@ =~= old(diags)@ + (full.0 + seq![entry]));
            }
            return None;
        },
    };
    let called = &program.funcs[j];
    if args.len() != called.params.len() {
        let entry = Entry {
            kind: Kind::WrongArgumentCount {
                name: callee.text.clone(),
                expected: called.params.len(),
                found: args.len(),
            },
            span: *span,
        };
        diags.push(entry);
        proof {
            assert(final(diags)@ =~= old(diags)@ + (full.0 + seq![entry]));
        }
        return None;
    }
    let ghost before = diags@;
    let agree = check_arg_types(&types, called, args, diags);
    proof {
        assert(final(diags)@ =~= old(diags)@ + (full.0 + arg_mismatches(full.1, param_types(*called), args@, 0)));
    }
    let ret = resolved(&called.ret);
    if agree && typed.len() == args.len() {
        match ret {
            Some(ty) => {
                return Some(
                    typed_ast::Expr {
                        kind: typed_ast::ExprKind::Call { callee: FuncId(j as u32), args: typed },
                        ty,
                        span: *span,
                    },
                );
            },
            None => {},
        }
    }
    None
}

/// Checks the arguments of the call `e`, in order: the type of each, if it
/// has one, and, if all have, the checked arguments.
#[verifier::loop_isolation(false)]
fn check_args_in(
    program: &ast::Program,
    params: &Vec<Binding>,
    locals: &Vec<Binding>,
    e: &ast::Expr,
    diags: &mut diag::Sink,
) -> (r: (Vec<Option<Type>>, Vec<typed_ast::Expr>))
    requires
        program.funcs@.len() <= u32::MAX,
        e is Call,
    ensures
        e matches ast::Expr::Call { args, .. } && {
            let full = check_args(env_of(program, params@), scope_of(locals@), args@, 0);
            &&& final(diags)@ == old(diags)@ + full.0
            &&& r.0@ == full.1
            &&& r.0@.len() == args@.len()
            &&& (r.1@.len() == args@.len() <==> all_typed(r.0@))
            &&& r.1@.len() == args@.len() ==> forall|i: int|
                0 <= i < args@.len() ==> expr_typed(
                    env_of(program, params@),
                    scope_of(locals@),
                    args@[i],
                    #[trigger] r.1@[i],
                )
        },
    decreases e, 0int,
{
    let ghost env = env_of(program, params@);
    let ghost sc = scope_of(locals@);
    let args = match e {
        ast::Expr::Call { args, .. } => args,
        _ => {
            return (Vec::new(), Vec::new());
        },
    };
    let ghost full = check_args(env, sc, args@, 0);
    let mut typed: Vec<typed_ast::Expr> = Vec::new();
    let mut types: Vec<Option<Type>> = Vec::new();
    let mut k: usize = 0;
    let ghost mut said: Seq<Entry> = Seq::empty();
    proof {
        assert(full.0 =~= said + check_args(env, sc, args@, 0).0);
        assert(full.1 =~= types@ + check_args(env, sc, args@, 0).1);
    }
    while k < args.len()
        invariant
            k <= args@.len(),
            full.0 == said + check_args(env, sc, args@, k as int).0,
            full.1 == types@ + check_args(env, sc, args@, k as int).1,
            types@.len() == k,
            diags@ == old(diags)@ + said,
            typed@.len() <= k,
            typed@.len() == k <==> (forall|i: int| 0 <= i < k ==> (#[trigger] types@[i]) is Some),
            typed@.len() == k ==> forall|i: int| 0 <= i < k ==> expr_typed(env, sc, args@[i], #[trigger] typed@[i]),
        decreases args@.len() - k,
    {
        proof {
            assert(decreases_to!(e => args));
            assert(decreases_to!(args => args@));
            assert(decreases_to!(args@ => args@[k as int]));
        }
        let x = check_expr_in(program, params, locals, &args[k], diags);
        let ghost (r1, t1) = check_expr(env, sc, args@[k as int]);
        let ghost rest = check_args(env, sc, args@, k + 1);
        proof {
            assert(check_args(env, sc, args@, k as int) == (r1 + rest.0, seq![t1] + rest.1));
            said = said + r1;
            assert(full.0 =~= said + rest.0);
        }
        let all_before = typed.len() == k;
        let ghost old_types = types@;
        let ghost old_typed = typed@;
        match x {
            Some(x) => {
                types.push(Some(x.ty));
                if all_before {
                    typed.push(x);
                }
            },
            None => {
                types.push(None);
            },
        }
        proof {
            assert(full.1 =~= types@ + rest.1);
            assert(forall|i: int| 0 <= i < k ==> types@[i] == old_types[i]);
            if all_before && x is Some {
                assert(forall|i: int| 0 <= i < k ==> typed@[i] == old_typed[i]);
            }
            if !all_before {
                let w = choose|i: int| 0 <= i < k && !(old_types[i] is Some);
                assert(!(types@[w] is Some));
            }
            if x is None {
                assert(!(types@[k as int] is Some));
            }
        }
        k = k + 1;
    }
    proof {
        assert(check_args(env, sc, args@, k as int) == (Seq::<Entry>::empty(), Seq::<Option<Type>>::empty()));
        assert(said =~= full.0);
        assert(types@ =~= full.1);
    }
    (types, typed)
}

/// Checks the type of each argument against its parameter's, reporting
/// each that disagrees; returns whether all agree.
fn check_arg_types(
    types: &Vec<Option<Type>>,
    called: &ast::FuncDecl,
    args: &Vec<ast::Expr>,
    diags: &mut diag::Sink,
) -> (r: bool)
    requires
        types@.len() == args@.len(),
        args@.len() == called.params@.len(),
    ensures
        r == args_agree(types@, param_types(*called)),
        final(diags)@ == old(diags)@ + arg_mismatches(types@, param_types(*called), args@, 0),
{
    let ghost ptypes = param_types(*called);
    let mut agree = true;
    let mut m: usize = 0;
    let ghost mut extra: Seq<Entry> = Seq::empty();
    while m < args.len()
        invariant
            m <= args@.len(),
            args@.len() == called.params@.len(),
            ptypes == param_types(*called),
            types@.len() == args@.len(),
            arg_mismatches(types@, ptypes, args@, 0) == extra + arg_mismatches(types@, ptypes, args@, m as int),
            diags@ == old(diags)@ + extra,
            agree == (forall|i: int| 0 <= i < m ==> agrees(#[trigger] types@[i], ptypes[i])),
        decreases args@.len() - m,
    {
        let expected = resolved(&called.params[m].ty);
        let ok = check_type(types[m], expected, args[m].span(), diags);
        proof {
            let mm = mismatch(types@[m as int], ptypes[m as int], args@[m as int].spec_span());
            assert(arg_mismatches(types@, ptypes, args@, m as int) == mm + arg_mismatches(
                types@,
                ptypes,
                args@,
                m + 1,
            ));
            extra = extra + mm;
            assert(arg_mismatches(types@, ptypes, args@, 0) =~= extra + arg_mismatches(
                types@,
                ptypes,
                args@,
                m + 1,
            ));
        }
        agree = agree && ok;
        m = m + 1;
    }
    proof {
        assert(arg_mismatches(types@, ptypes, args@, m as int) =~= Seq::<Entry>::empty());
    }
    agree
}

/// Declares `name` of type `ty` in `locals`, reporting it if the function
/// already declares it or the frame has no room for it.
fn declare_in(
    params: &Vec<Binding>,
    locals: &mut Vec<Binding>,
    name: &ast::Name,
    ty: Option<Type>,
    diags: &mut diag::Sink,
) -> (r: Option<LocalId>)
    ensures
        ({
            let (dr, after) = declare(Env { program: arbitrary(), params: scope_of(params@) }, scope_of(old(locals)@), *name, ty);
            &&& final(diags)@ == old(diags)@ + dr
            &&& scope_of(final(locals)@) == after
            &&& (r is Some <==> after.len() == old(locals)@.len() + 1)
            &&& r matches Some(l) ==> l == LocalId(old(locals)@.len() as u8)
        }),
{
    let ghost before = scope_of(locals@);
    if find_in(locals, &name.text).is_some() || find_in(params, &name.text).is_some() {
        diags.push(Entry { kind: Kind::DuplicateVariable { name: name.text.clone() }, span: name.span });
        return None;
    }
    if locals.len() < LocalId::CAPACITY {
        let local = LocalId(locals.len() as u8);
        let b = Binding { name: name.text.clone(), ty };
        proof {
            lemma_scope_push(locals@, b);
        }
        locals.push(b);
        proof {
            assert(final(diags)@ =~= old(diags)@ + Seq::<Entry>::empty());
        }
        Some(local)
    } else {
        diags.push(Entry { kind: Kind::TooManyVariables { max: LocalId::CAPACITY }, span: name.span });
        None
    }
}

/// Checks one statement, adding what it declares to `locals`. `ret` is the
/// enclosing function's return type, which a `return` must match.
fn check_stmt_in(
    program: &ast::Program,
    params: &Vec<Binding>,
    locals: &mut Vec<Binding>,
    s: &ast::Stmt,
    ret: Option<Type>,
    diags: &mut diag::Sink,
) -> (r: Option<typed_ast::Stmt>)
    requires
        program.funcs@.len() <= u32::MAX,
    ensures
        ({
            let (sr, after, ok) = check_stmt(env_of(program, params@), scope_of(old(locals)@), *s, ret);
            &&& final(diags)@ == old(diags)@ + sr
            &&& scope_of(final(locals)@) == after
            &&& (r is Some <==> ok)
            &&& r matches Some(t) ==> stmt_typed(env_of(program, params@), scope_of(old(locals)@), *s, t)
        }),
{
    let ghost env = env_of(program, params@);
    match s {
        ast::Stmt::Var { name, ty, init, span } => {
            // The initializer cannot see the name being declared.
            let x = check_expr_in(program, params, locals, init, diags);
            let it = match &x {
                Some(x) => Some(x.ty),
                None => None,
            };
            let t = resolve(ty, diags);
            let agrees = check_type(it, t, init.span(), diags);
            // The name is declared with its written type even when the
            // initializer disagreed, so that later uses check against the
            // declaration.
            let local = declare_in(params, locals, name, t, diags);
            proof {
                let (ir, _) = check_expr(env, scope_of(old(locals)@), *init);
                let (dr, _) = declare(env, scope_of(old(locals)@), *name, t);
                assert(declare(Env { program: arbitrary(), params: scope_of(params@) }, scope_of(old(locals)@), *name, t)
                    == declare(env, scope_of(old(locals)@), *name, t));
                assert(final(diags)@ =~= old(diags)@ + (ir + type_reports(*ty) + mismatch(it, t, init.spec_span())
                    + dr));
            }
            if !agrees {
                return None;
            }
            match (local, t, x) {
                (Some(local), Some(t), Some(x)) => Some(typed_ast::Stmt::Var { local, ty: t, init: x, span: *span }),
                _ => None,
            }
        },
        ast::Stmt::Return { expr, span } => {
            let x = match check_expr_in(program, params, locals, expr, diags) {
                Some(x) => x,
                None => return None,
            };
            let agrees = check_type(Some(x.ty), ret, expr.span(), diags);
            proof {
                let (er, _) = check_expr(env, scope_of(old(locals)@), *expr);
                assert(final(diags)@ =~= old(diags)@ + (er + mismatch(Some(x.ty), ret, expr.spec_span())));
            }
            if !agrees {
                return None;
            }
            Some(typed_ast::Stmt::Return { expr: x, span: *span })
        },
    }
}

/// Checks a function body: every statement in it, in a scope of its own.
fn check_body_in(
    program: &ast::Program,
    params: &Vec<Binding>,
    func: &ast::FuncDecl,
    ret: Option<Type>,
    diags: &mut diag::Sink,
) -> (r: Option<Vec<typed_ast::Stmt>>)
    requires
        program.funcs@.len() <= u32::MAX,
    ensures
        ({
            let env = env_of(program, params@);
            let (br, ok) = check_body(env, *func, ret);
            &&& final(diags)@ == old(diags)@ + br
            &&& (r is Some <==> ok)
            &&& r matches Some(stmts) ==> {
                &&& stmts@.len() == func.body@.len()
                &&& forall|i: int|
                    0 <= i < func.body@.len() ==> stmt_typed(
                        env,
                        scope_at(env, func.body@, ret, i),
                        func.body@[i],
                        #[trigger] stmts@[i],
                    )
            }
        }),
{
    let ghost env = env_of(program, params@);
    let ghost body = func.body@;
    let mut stmts: Vec<typed_ast::Stmt> = Vec::new();
    // The variables declared so far, in order: a name's position is its slot.
    let mut locals: Vec<Binding> = Vec::new();
    let mut ok = true;
    let mut returned = false;
    let mut unreachable: Option<Span> = None;
    let mut k: usize = 0;
    let ghost mut said: Seq<Entry> = Seq::empty();
    proof {
        assert(scope_of(locals@) =~= start().locals);
        assert(diags@ =~= old(diags)@ + said);
    }
    while k < func.body.len()
        invariant
            program.funcs@.len() <= u32::MAX,
            env == env_of(program, params@),
            k <= body.len(),
            body == func.body@,
            walk(env, body, ret, k as int) == (Walk {
                reports: said,
                locals: scope_of(locals@),
                ok,
                returned,
                unreachable,
            }),
            diags@ == old(diags)@ + said,
            ok ==> stmts@.len() == k,
            ok ==> forall|i: int|
                0 <= i < k ==> stmt_typed(env, scope_at(env, body, ret, i), body[i], #[trigger] stmts@[i]),
        decreases body.len() - k,
    {
        let st = &func.body[k];
        if returned && unreachable.is_none() {
            unreachable = Some(st.span());
        }
        let ghost before = diags@;
        let ghost scope = scope_of(locals@);
        let checked = check_stmt_in(program, params, &mut locals, st, ret, diags);
        let ghost old_stmts = stmts@;
        match checked {
            Some(t) => {
                if ok {
                    stmts.push(t);
                }
            },
            None => {
                ok = false;
            },
        }
        returned = returned || matches!(st, ast::Stmt::Return { .. });
        proof {
            let (sr, _, _) = check_stmt(env, scope, *st, ret);
            said = said + sr;
            assert(diags@ =~= old(diags)@ + said);
            if ok {
                assert(forall|i: int| 0 <= i < k ==> stmts@[i] == old_stmts[i]);
            }
        }
        k = k + 1;
    }
    if !returned {
        diags.push(Entry { kind: Kind::MissingReturn, span: func.name.span });
        return None;
    }
    if let Some(span) = unreachable {
        diags.push(Entry { kind: Kind::UnreachableStatement, span });
        return None;
    }
    if ok {
        Some(stmts)
    } else {
        None
    }
}

/// Checks one function. Its return type, its parameters and its body are
/// checked independently: a return type that does not resolve still leaves
/// the body checked.
#[verifier::loop_isolation(false)]
fn check_func_in(program: &ast::Program, func: &ast::FuncDecl, diags: &mut diag::Sink) -> (r: Option<
    typed_ast::FuncDecl,
>)
    requires
        program.funcs@.len() <= u32::MAX,
    ensures
        ({
            let (fr, ok) = check_func(*program, *func);
            &&& final(diags)@ == old(diags)@ + fr
            &&& (r is Some <==> ok)
            &&& r matches Some(t) ==> func_typed(*program, *func, t)
        }),
{
    let ret = resolve(&func.ret, diags);
    let ghost after_ret = diags@;
    let mut bindings: Vec<Binding> = Vec::new();
    let mut typed_params: Vec<typed_ast::Param> = Vec::new();
    let mut params_good = true;
    let ghost ps = param_scope(*func);
    let mut k: usize = 0;
    let ghost mut said: Seq<Entry> = Seq::empty();
    proof {
        assert(scope_of(bindings@) =~= ps.take(0));
    }
    while k < func.params.len()
        invariant
            k <= func.params@.len(),
            ps == param_scope(*func),
            scope_of(bindings@) == ps.take(k as int),
            param_reports(*func, 0) == said + param_reports(*func, k as int),
            diags@ == after_ret + said,
            params_good == (forall|i: int|
                0 <= i < k ==> spec_resolve((#[trigger] func.params@[i]).ty.name.text@) is Some && find(
                    ps.take(i),
                    func.params@[i].name.text@,
                    0,
                ) is None),
            params_good ==> typed_params@.len() == k,
            params_good ==> forall|i: int|
                0 <= i < k ==> {
                    &&& (#[trigger] typed_params@[i]).name.text@ == func.params@[i].name.text@
                    &&& typed_params@[i].name.span == func.params@[i].name.span
                    &&& Some(typed_params@[i].ty) == spec_resolve(func.params@[i].ty.name.text@)
                },
        decreases func.params@.len() - k,
    {
        let p = &func.params[k];
        let ghost before = diags@;
        let t = resolve(&p.ty, diags);
        let dup = find_in(&bindings, &p.name.text).is_some();
        let ghost dr = if find(ps.take(k as int), p.name.text@, 0) is Some {
            seq![Entry { kind: Kind::DuplicateVariable { name: p.name.text }, span: p.name.span }]
        } else {
            Seq::<Entry>::empty()
        };
        if dup {
            diags.push(Entry { kind: Kind::DuplicateVariable { name: p.name.text.clone() }, span: p.name.span });
        }
        let b = Binding { name: p.name.text.clone(), ty: t };
        proof {
            lemma_scope_push(bindings@, b);
            assert(ps.take(k + 1) =~= ps.take(k as int).push((b.name@, b.ty)));
            assert(diags@ =~= before + (type_reports(p.ty) + dr));
            said = said + (type_reports(p.ty) + dr);
            assert(param_reports(*func, 0) =~= said + param_reports(*func, k + 1));
        }
        bindings.push(b);
        let ghost old_typed = typed_params@;
        let was_good = params_good;
        match t {
            Some(ty) => {
                if params_good && !dup {
                    typed_params.push(
                        typed_ast::Param {
                            name: ast::Name { text: p.name.text.clone(), span: p.name.span },
                            ty,
                        },
                    );
                }
            },
            None => {},
        }
        params_good = params_good && t.is_some() && !dup;
        proof {
            if params_good {
                assert(forall|i: int| 0 <= i < k ==> typed_params@[i] == old_typed[i]);
            }
            if !was_good {
                let w = choose|i: int|
                    0 <= i < k && !(spec_resolve(func.params@[i].ty.name.text@) is Some && find(
                        ps.take(i),
                        func.params@[i].name.text@,
                        0,
                    ) is None);
                assert(!(spec_resolve((#[trigger] func.params@[w]).ty.name.text@) is Some && find(
                    ps.take(w),
                    func.params@[w].name.text@,
                    0,
                ) is None));
            }
        }
        k = k + 1;
    }
    proof {
        assert(ps.take(k as int) =~= ps);
        assert(param_reports(*func, k as int) =~= Seq::<Entry>::empty());
    }
    let too_many = func.params.len() > ParamId::CAPACITY;
    if too_many {
        diags.push(Entry { kind: Kind::TooManyParameters { max: ParamId::CAPACITY }, span: func.name.span });
    }
    let ghost before_body = diags@;
    let body = check_body_in(program, &bindings, func, ret, diags);
    proof {
        assert(env_of(program, bindings@) == func_env(*program, *func));
        let (br, _) = check_body(func_env(*program, *func), *func, ret);
        assert(final(diags)@ =~= old(diags)@ + (type_reports(func.ret) + params_reports(*func) + br));
    }
    match (ret, body) {
        (Some(ret), Some(body)) => if params_good && !too_many {
            Some(
                typed_ast::FuncDecl {
                    name: ast::Name { text: func.name.text.clone(), span: func.name.span },
                    params: typed_params,
                    ret,
                    body,
                    span: func.span,
                },
            )
        } else {
            None
        },
        _ => None,
    }
}

// ---------------------------------------------------------------------------
// The call graph.
// ---------------------------------------------------------------------------

/// Marks in `row` each function that `e` calls.
#[verifier::loop_isolation(false)]
fn mark_expr(program: &ast::Program, e: &ast::Expr, row: &mut Vec<bool>)
    requires
        old(row)@.len() == program.funcs@.len(),
    ensures
        final(row)@.len() == old(row)@.len(),
        forall|j: int|
            0 <= j < old(row)@.len() ==> final(row)@[j] == (old(row)@[j] || expr_callees(*program, *e).contains(j)),
    decreases e,
{
    match e {
        ast::Expr::Binary { lhs, rhs, .. } => {
            let ghost first = row@;
            mark_expr(program, lhs, row);
            let ghost mid = row@;
            mark_expr(program, rhs, row);
            proof {
                let a = expr_callees(*program, **lhs);
                let b = expr_callees(*program, **rhs);
                assert(expr_callees(*program, *e) == a + b);
                assert forall|j: int| 0 <= j < first.len() implies row@[j] == (first[j] || (a + b).contains(j)) by {
                    assert(mid[j] == (first[j] || a.contains(j)));
                    assert(row@[j] == (mid[j] || b.contains(j)));
                    assert((a + b).contains(j) == (a.contains(j) || b.contains(j)));
                }
            }
        },
        ast::Expr::Unary { operand, .. } => {
            mark_expr(program, operand, row);
        },
        ast::Expr::Call { callee, args, .. } => {
            let ghost start = row@;
            let ghost own = match find_func(*program, callee.text@, 0) {
                Some(j) => set![j],
                None => Set::<int>::empty(),
            };
            if let Some(j) = find_func_in(program, &callee.text) {
                row.set(j, true);
            }
            let mut k: usize = 0;
            while k < args.len()
                invariant
                    k <= args@.len(),
                    row@.len() == start.len(),
                    start.len() == program.funcs@.len(),
                    forall|j: int|
                        0 <= j < start.len() ==> (row@[j] || args_callees(*program, args@, k as int).contains(j))
                            == (start[j] || own.contains(j) || args_callees(*program, args@, 0).contains(j)),
                decreases args@.len() - k,
            {
                proof {
                    assert(decreases_to!(e => args));
                    assert(decreases_to!(args => args@));
                    assert(decreases_to!(args@ => args@[k as int]));
                }
                let ghost before = row@;
                mark_expr(program, &args[k], row);
                proof {
                    let here = expr_callees(*program, args@[k as int]);
                    let rest = args_callees(*program, args@, k + 1);
                    assert(args_callees(*program, args@, k as int) == here + rest);
                    assert forall|j: int| 0 <= j < start.len() implies (row@[j] || rest.contains(j)) == (before[j]
                        || args_callees(*program, args@, k as int).contains(j)) by {
                        assert((here + rest).contains(j) == (here.contains(j) || rest.contains(j)));
                    }
                }
                k = k + 1;
            }
        },
        _ => {},
    }
}

/// Marks in `row` each function that the body `body` calls.
#[verifier::loop_isolation(false)]
fn mark_body(program: &ast::Program, body: &Vec<ast::Stmt>, row: &mut Vec<bool>)
    requires
        old(row)@.len() == program.funcs@.len(),
    ensures
        final(row)@.len() == old(row)@.len(),
        forall|j: int|
            0 <= j < old(row)@.len() ==> final(row)@[j] == (old(row)@[j] || body_callees(
                *program,
                body@,
                body@.len() as int,
            ).contains(j)),
{
    let ghost start = row@;
    let mut k: usize = 0;
    while k < body.len()
        invariant
            k <= body@.len(),
            row@.len() == start.len(),
            start.len() == program.funcs@.len(),
            forall|j: int|
                0 <= j < start.len() ==> #[trigger] row@[j] == (start[j] || body_callees(*program, body@, k as int).contains(j)),
        decreases body@.len() - k,
    {
        proof {
            assert(body_callees(*program, body@, k + 1) == body_callees(*program, body@, k as int) + stmt_callees(
                *program,
                body@[k as int],
            ));
        }
        let ghost before = row@;
        match &body[k] {
            ast::Stmt::Var { init, .. } => {
                proof {
                    assert(stmt_callees(*program, body@[k as int]) == expr_callees(*program, *init));
                }
                mark_expr(program, init, row);
            },
            ast::Stmt::Return { expr, .. } => {
                proof {
                    assert(stmt_callees(*program, body@[k as int]) == expr_callees(*program, *expr));
                }
                mark_expr(program, expr, row);
            },
        }
        proof {
            let prev = body_callees(*program, body@, k as int);
            let here = stmt_callees(*program, body@[k as int]);
            assert forall|j: int| 0 <= j < start.len() implies #[trigger] row@[j] == (start[j] || body_callees(
                *program,
                body@,
                k + 1,
            ).contains(j)) by {
                assert(before[j] == (start[j] || prev.contains(j)));
                assert(row@[j] == (before[j] || here.contains(j)));
                assert(body_callees(*program, body@, k + 1) == prev + here);
                assert((prev + here).contains(j) == (prev.contains(j) || here.contains(j)));
            }
        }
        k = k + 1;
    }
}

/// The call graph of `program`: the `i`th row marks the functions the
/// `i`th function calls.
#[verifier::loop_isolation(false)]
fn call_graph(program: &ast::Program) -> (g: Vec<Vec<bool>>)
    ensures
        graph::holds(g@, program.funcs@.len() as int, call_edges(*program)),
{
    let n = program.funcs.len();
    let mut g: Vec<Vec<bool>> = Vec::new();
    let mut i: usize = 0;
    while i < n
        invariant
            n == program.funcs@.len(),
            i <= n,
            g@.len() == i,
            forall|a: int| 0 <= a < i ==> (#[trigger] g@[a])@.len() == n,
            forall|a: int, j: int| 0 <= a < i && 0 <= j < n ==> (#[trigger] g@[a]@[j]) == calls(*program, a, j),
        decreases n - i,
    {
        let mut row: Vec<bool> = Vec::new();
        let mut j: usize = 0;
        while j < n
            invariant
                j <= n,
                row@.len() == j,
                forall|b: int| 0 <= b < j ==> !row@[b],
            decreases n - j,
        {
            row.push(false);
            j = j + 1;
        }
        mark_body(program, &program.funcs[i].body, &mut row);
        g.push(row);
        i = i + 1;
    }
    g
}

/// Reports each set of functions that call each other in a cycle, at its
/// first function; returns whether there was none.
#[verifier::loop_isolation(false)]
fn check_recursion(program: &ast::Program, diags: &mut diag::Sink) -> (ok: bool)
    ensures
        final(diags)@ == old(diags)@ + recursion_reports(*program, 0),
        ok == (recursion_reports(*program, 0).len() == 0),
{
    let n = program.funcs.len();
    let g = call_graph(program);
    let reach = graph::closure(&g, Ghost(call_edges(*program)));
    let mut ok = true;
    let mut i: usize = 0;
    let ghost mut said: Seq<Entry> = Seq::empty();
    while i < n
        invariant
            n == program.funcs@.len(),
            i <= n,
            reach@.len() == n,
            forall|a: int| 0 <= a < n ==> (#[trigger] reach@[a])@.len() == n,
            forall|a: int, b: int| 0 <= a < n && 0 <= b < n ==> (#[trigger] reach@[a]@[b]) == leads(*program, a, b),
            recursion_reports(*program, 0) == said + recursion_reports(*program, i as int),
            diags@ == old(diags)@ + said,
            ok == (said.len() == 0),
        decreases n - i,
    {
        let mut first = reach[i][i];
        let mut j: usize = 0;
        while j < i && first
            invariant
                n == program.funcs@.len(),
                i < n,
                j <= i,
                first ==> leads(*program, i as int, i as int) && forall|c: int|
                    0 <= c < j ==> !(#[trigger] leads(*program, i as int, c) && leads(*program, c, i as int)),
                !first ==> !first_of_cycle(*program, i as int),
            decreases i - j,
        {
            if reach[i][j] && reach[j][i] {
                first = false;
            }
            j = j + 1;
        }
        let ghost own = if first_of_cycle(*program, i as int) {
            seq![
                Entry {
                    kind: Kind::RecursiveCall { name: program.funcs@[i as int].name.text },
                    span: program.funcs@[i as int].name.span,
                },
            ]
        } else {
            Seq::<Entry>::empty()
        };
        if first {
            let name = &program.funcs[i].name;
            diags.push(Entry { kind: Kind::RecursiveCall { name: name.text.clone() }, span: name.span });
            ok = false;
        }
        proof {
            said = said + own;
            assert(diags@ =~= old(diags)@ + said);
            assert(recursion_reports(*program, 0) =~= said + recursion_reports(*program, i + 1));
        }
        i = i + 1;
    }
    proof {
        assert(said + recursion_reports(*program, i as int) =~= said);
    }
    ok
}

// ---------------------------------------------------------------------------
// The program.
// ---------------------------------------------------------------------------

/// Checks `program`: its declared names, then every function in source
/// order, then its calls for recursion.
///
/// Reports every problem it finds, and returns `None` if it found any.
pub fn check(program: &ast::Program, diags: &mut diag::Sink) -> (r: Option<typed_ast::Program>)
    requires
        program.funcs@.len() <= u32::MAX,
    ensures
        final(diags)@ == old(diags)@ + check_reports(*program),
        r is Some <==> checks(*program),
        r matches Some(t) ==> program_typed(*program, t),
        r matches Some(t) ==> typed_ast::well_typed(t),
        r is Some <==> final(diags)@ == old(diags)@,
{
    proof {
        checks_exactly_when_nothing_is_reported(*program);
    }
    let ok_names = check_duplicates(program, diags);
    let ghost after_names = diags@;
    let mut funcs: Vec<typed_ast::FuncDecl> = Vec::new();
    let mut ok = true;
    let mut i: usize = 0;
    let ghost mut said: Seq<Entry> = Seq::empty();
    while i < program.funcs.len()
        invariant
            program.funcs@.len() <= u32::MAX,
            i <= program.funcs@.len(),
            funcs_reports(*program, 0).0 == said + funcs_reports(*program, i as int).0,
            funcs_reports(*program, 0).1 == (ok && funcs_reports(*program, i as int).1),
            diags@ == after_names + said,
            ok ==> funcs@.len() == i,
            ok ==> forall|a: int| 0 <= a < i ==> func_typed(*program, program.funcs@[a], #[trigger] funcs@[a]),
        decreases program.funcs@.len() - i,
    {
        let ghost (fr, fok) = check_func(*program, program.funcs@[i as int]);
        let checked = check_func_in(program, &program.funcs[i], diags);
        let ghost old_funcs = funcs@;
        match checked {
            Some(f) => {
                if ok {
                    funcs.push(f);
                }
            },
            None => {
                ok = false;
            },
        }
        proof {
            said = said + fr;
            assert(diags@ =~= after_names + said);
            assert(funcs_reports(*program, i as int).0 =~= fr + funcs_reports(*program, i + 1).0);
            assert(funcs_reports(*program, 0).0 =~= said + funcs_reports(*program, i + 1).0);
            if ok {
                assert(forall|a: int| 0 <= a < i ==> funcs@[a] == old_funcs[a]);
            }
        }
        i = i + 1;
    }
    proof {
        assert(said + funcs_reports(*program, i as int).0 =~= said);
    }
    let ok_calls = check_recursion(program, diags);
    proof {
        assert(final(diags)@ =~= old(diags)@ + check_reports(*program));
        if check_reports(*program).len() == 0 {
            assert(final(diags)@ =~= old(diags)@);
        }
    }
    if ok_names && ok && ok_calls {
        let t = typed_ast::Program { funcs };
        proof {
            checked_programs_are_well_typed(*program, t);
        }
        Some(t)
    } else {
        None
    }
}

/// Reports each function whose name an earlier one declared, where it is
/// declared again; returns whether there was none.
fn check_duplicates(program: &ast::Program, diags: &mut diag::Sink) -> (ok: bool)
    ensures
        final(diags)@ == old(diags)@ + duplicate_reports(*program, 0),
        ok == (duplicate_reports(*program, 0).len() == 0),
{
    let mut ok = true;
    let mut i: usize = 0;
    let ghost mut said: Seq<Entry> = Seq::empty();
    while i < program.funcs.len()
        invariant
            i <= program.funcs@.len(),
            duplicate_reports(*program, 0) == said + duplicate_reports(*program, i as int),
            diags@ == old(diags)@ + said,
            ok == (said.len() == 0),
        decreases program.funcs@.len() - i,
    {
        let name = &program.funcs[i].name;
        let first = find_func_in(program, &name.text);
        let again = match first {
            Some(j) => j != i,
            None => true,
        };
        let ghost own = if find_func(*program, name.text@, 0) != Some(i as int) {
            seq![Entry { kind: Kind::DuplicateFunction { name: name.text }, span: name.span }]
        } else {
            Seq::<Entry>::empty()
        };
        if again {
            diags.push(Entry { kind: Kind::DuplicateFunction { name: name.text.clone() }, span: name.span });
            ok = false;
        }
        proof {
            said = said + own;
            assert(diags@ =~= old(diags)@ + said);
            assert(duplicate_reports(*program, 0) =~= said + duplicate_reports(*program, i + 1));
        }
        i = i + 1;
    }
    proof {
        assert(said + duplicate_reports(*program, i as int) =~= said);
    }
    ok
}

// ---------------------------------------------------------------------------
// What the checker produces is well typed.
// ---------------------------------------------------------------------------

proof fn lemma_find_range(scope: Scope, name: Seq<char>, i: int)
    requires
        0 <= i,
    ensures
        find(scope, name, i) matches Some(k) ==> i <= k < scope.len() && scope[k].0 == name,
    decreases scope.len() - i,
{
    if i < scope.len() && scope[i].0 != name {
        lemma_find_range(scope, name, i + 1);
    }
}

proof fn lemma_find_func_range(program: ast::Program, name: Seq<char>, i: int)
    requires
        0 <= i,
    ensures
        find_func(program, name, i) matches Some(k) ==> i <= k < program.funcs@.len(),
    decreases program.funcs@.len() - i,
{
    if i < program.funcs@.len() && program.funcs@[i].name.text@ != name {
        lemma_find_func_range(program, name, i + 1);
    }
}

proof fn lemma_check_args_index(env: Env, locals: Scope, args: Seq<ast::Expr>, i: int)
    requires
        0 <= i <= args.len(),
    ensures
        check_args(env, locals, args, i).1.len() == args.len() - i,
        forall|k: int|
            i <= k < args.len() ==> check_args(env, locals, args, i).1[k - i] == check_expr(
                env,
                locals,
                #[trigger] args[k],
            ).1,
    decreases args.len() - i,
{
    if i < args.len() {
        lemma_check_args_index(env, locals, args, i + 1);
        let ts = check_args(env, locals, args, i).1;
        let rest = check_args(env, locals, args, i + 1).1;
        assert forall|k: int| i <= k < args.len() implies ts[k - i] == check_expr(
            env,
            locals,
            #[trigger] args[k],
        ).1 by {
            if k > i {
                assert(ts[k - i] == rest[k - (i + 1)]);
            }
        }
    }
}

/// The parameters and slots `env` and `locals` resolve to have the types
/// `params` and `slots` of a typed function.
pub open spec fn scopes_typed(env: Env, locals: Scope, params: Seq<Type>, slots: Seq<Type>) -> bool {
    &&& env.params.len() == params.len()
    &&& forall|k: int| 0 <= k < params.len() ==> (#[trigger] env.params[k]).1 == Some(params[k])
    &&& locals.len() <= slots.len()
    &&& forall|k: int| 0 <= k < locals.len() ==> (#[trigger] locals[k]).1 == Some(slots[k])
}

/// The functions of `t` have the signatures those of `program` resolve to.
pub open spec fn signatures_typed(program: ast::Program, t: typed_ast::Program) -> bool {
    &&& t.funcs@.len() == program.funcs@.len()
    &&& forall|c: int|
        0 <= c < program.funcs@.len() ==> {
            &&& Some((#[trigger] t.funcs@[c]).ret) == spec_resolve(program.funcs@[c].ret.name.text@)
            &&& t.funcs@[c].params@.len() == program.funcs@[c].params@.len()
            &&& forall|k: int|
                0 <= k < program.funcs@[c].params@.len() ==> Some(t.funcs@[c].params@[k].ty) == spec_resolve(
                    (#[trigger] program.funcs@[c].params@[k]).ty.name.text@,
                )
        }
}

/// What checking an expression produces has the type it carries by the
/// rules of the language.
proof fn lemma_expr_well_typed(
    env: Env,
    locals: Scope,
    e: ast::Expr,
    te: typed_ast::Expr,
    t: typed_ast::Program,
    params: Seq<Type>,
    slots: Seq<Type>,
)
    requires
        expr_typed(env, locals, e, te),
        signatures_typed(env.program, t),
        scopes_typed(env, locals, params, slots),
    ensures
        typed_ast::expr_well_typed(t, params, slots, te),
    decreases e,
{
    match e {
        ast::Expr::Var { name, .. } => {
            lemma_find_range(locals, name.text@, 0);
            lemma_find_range(env.params, name.text@, 0);
            if let Some(i) = find(locals, name.text@, 0) {
                assert(locals[i].1 == Some(slots[i]));
                assert(LocalId(i as u8).0 == i);
            } else if let Some(j) = find(env.params, name.text@, 0) {
                assert(env.params[j].1 == Some(params[j]));
                assert(ParamId(j as u8).0 == j);
            }
        },
        ast::Expr::Unary { operand, .. } => {
            if let typed_ast::ExprKind::Unary { operand: x, .. } = te.kind {
                reveal_with_fuel(expr_typed, 2);
                lemma_expr_well_typed(env, locals, *operand, *x, t, params, slots);
            }
        },
        ast::Expr::Binary { lhs, rhs, .. } => {
            if let typed_ast::ExprKind::Binary { lhs: l, rhs: r, .. } = te.kind {
                reveal_with_fuel(expr_typed, 2);
                lemma_expr_well_typed(env, locals, *lhs, *l, t, params, slots);
                lemma_expr_well_typed(env, locals, *rhs, *r, t, params, slots);
            }
        },
        ast::Expr::Call { callee, args, .. } => {
            if let typed_ast::ExprKind::Call { callee: c, args: xs } = te.kind {
                lemma_find_func_range(env.program, callee.text@, 0);
                lemma_check_args_index(env, locals, args@, 0);
                let j = c.0 as int;
                let called = env.program.funcs@[j];
                let ats = check_args(env, locals, args@, 0).1;
                let ps = param_types(called);
                assert forall|k: int| 0 <= k < xs@.len() implies {
                    &&& (#[trigger] xs@[k]).ty == t.funcs@[j].params@[k].ty
                    &&& typed_ast::expr_well_typed(t, params, slots, xs@[k])
                } by {
                    assert(expr_typed(env, locals, args@[k], xs@[k]));
                    assert(ats[k - 0] == check_expr(env, locals, args@[k]).1);
                    assert(agrees(ats[k], ps[k]));
                    assert(Some(t.funcs@[j].params@[k].ty) == spec_resolve(called.params@[k].ty.name.text@));
                    lemma_expr_well_typed(env, locals, args@[k], xs@[k], t, params, slots);
                }
            }
        },
        _ => {},
    }
}

proof fn lemma_funcs_ok(program: ast::Program, j: int, i: int)
    requires
        0 <= j <= i < program.funcs@.len(),
        funcs_reports(program, j).1,
    ensures
        check_func(program, program.funcs@[i]).1,
    decreases i - j,
{
    if j < i {
        lemma_funcs_ok(program, j + 1, i);
    }
}

/// A body whose walk met nothing after a `return` declares before its
/// last statement, and that one returns if any did.
proof fn lemma_walk_shape(env: Env, body: Seq<ast::Stmt>, ret: Option<Type>, n: int)
    requires
        0 <= n <= body.len(),
        walk(env, body, ret, n).unreachable is None,
    ensures
        forall|i: int| 0 <= i < n - 1 ==> (#[trigger] body[i]) is Var,
        walk(env, body, ret, n).returned ==> n > 0 && body[n - 1] is Return,
    decreases n,
{
    if n > 0 {
        lemma_walk_shape(env, body, ret, n - 1);
        if n > 1 {
            assert(walk(env, body, ret, n - 1).returned == (walk(env, body, ret, n - 2).returned || body[n - 2] is Return));
        }
    }
}

/// A walk that checked checked each statement it met.
proof fn lemma_walk_ok(env: Env, body: Seq<ast::Stmt>, ret: Option<Type>, n: int)
    requires
        0 <= n <= body.len(),
        walk(env, body, ret, n).ok,
    ensures
        forall|i: int| 0 <= i < n ==> (#[trigger] check_stmt(env, walk(env, body, ret, i).locals, body[i], ret)).2,
    decreases n,
{
    if n > 0 {
        lemma_walk_ok(env, body, ret, n - 1);
        let w = walk(env, body, ret, n - 1);
        let (_, _, ok) = check_stmt(env, w.locals, body[n - 1], ret);
        assert(walk(env, body, ret, n).ok == (w.ok && ok));
    }
}

proof fn lemma_frame_prefix(body: Seq<typed_ast::Stmt>, m: int, n: int)
    requires
        0 <= m <= n <= body.len(),
    ensures
        typed_ast::frame(body, m).len() <= typed_ast::frame(body, n).len(),
        forall|k: int|
            0 <= k < typed_ast::frame(body, m).len() ==> typed_ast::frame(body, n)[k] == #[trigger] typed_ast::frame(
                body,
                m,
            )[k],
    decreases n - m,
{
    if m < n {
        lemma_frame_prefix(body, m, n - 1);
    }
}

/// The scope a checked walk has built names the slots of the frame of
/// what it produced, each with its type.
proof fn lemma_scope_frame(
    env: Env,
    body: Seq<ast::Stmt>,
    tbody: Seq<typed_ast::Stmt>,
    ret: Option<Type>,
    n: int,
)
    requires
        tbody.len() == body.len(),
        0 <= n <= body.len(),
        forall|i: int|
            0 <= i < n ==> #[trigger] stmt_typed(env, walk(env, body, ret, i).locals, body[i], tbody[i]),
        forall|i: int| 0 <= i < n ==> (#[trigger] check_stmt(env, walk(env, body, ret, i).locals, body[i], ret)).2,
    ensures
        walk(env, body, ret, n).locals.len() == typed_ast::frame(tbody, n).len(),
        walk(env, body, ret, n).locals.len() <= LocalId::CAPACITY,
        forall|k: int|
            0 <= k < typed_ast::frame(tbody, n).len() ==> (#[trigger] walk(env, body, ret, n).locals[k]).1 == Some(
                typed_ast::frame(tbody, n)[k],
            ),
    decreases n,
{
    if n > 0 {
        lemma_scope_frame(env, body, tbody, ret, n - 1);
        assert(stmt_typed(env, walk(env, body, ret, n - 1).locals, body[n - 1], tbody[n - 1]));
        assert(check_stmt(env, walk(env, body, ret, n - 1).locals, body[n - 1], ret).2);
    }
}

/// What the checker produces for a statement of a function that checked
/// is well typed.
proof fn lemma_stmt_well_typed(
    program: ast::Program,
    t: typed_ast::Program,
    f: ast::FuncDecl,
    tf: typed_ast::FuncDecl,
    i: int,
)
    requires
        signatures_typed(program, t),
        func_typed(program, f, tf),
        check_func(program, f).1,
        0 <= i < f.body@.len(),
    ensures
        typed_ast::stmt_well_typed(
            t,
            tf,
            typed_ast::frame(tf.body@, tf.body@.len() as int),
            tf.body@[i],
        ),
{
    let env = func_env(program, f);
    let ret = spec_resolve(f.ret.name.text@);
    let body = f.body@;
    let n = body.len() as int;
    let tbody = tf.body@;
    let slots = typed_ast::frame(tbody, n);
    lemma_walk_ok(env, body, ret, n);
    lemma_scope_frame(env, body, tbody, ret, i);
    lemma_scope_frame(env, body, tbody, ret, i + 1);
    lemma_frame_prefix(tbody, i, n);
    lemma_frame_prefix(tbody, i + 1, n);
    let locals = scope_at(env, body, ret, i);
    let params = typed_ast::param_types(tf);
    assert(stmt_typed(env, locals, body[i], tbody[i]));
    assert(check_stmt(env, locals, body[i], ret).2);
    assert forall|k: int| 0 <= k < params.len() implies (#[trigger] env.params[k]).1 == Some(params[k]) by {
        assert(tf.params@[k].name.text@ == f.params@[k].name.text@);
    }
    assert forall|k: int| 0 <= k < locals.len() implies (#[trigger] locals[k]).1 == Some(slots[k]) by {
        assert(typed_ast::frame(tbody, i)[k] == slots[k]);
    }
    assert(scopes_typed(env, locals, params, slots));
    match body[i] {
        ast::Stmt::Var { init, .. } => {
            if let typed_ast::Stmt::Var { init: ti, .. } = tbody[i] {
                lemma_expr_well_typed(env, locals, init, ti, t, params, slots);
                assert(typed_ast::frame(tbody, i + 1)[locals.len() as int] == slots[locals.len() as int]);
            }
        },
        ast::Stmt::Return { expr, .. } => {
            if let typed_ast::Stmt::Return { expr: te, .. } = tbody[i] {
                lemma_expr_well_typed(env, locals, expr, te, t, params, slots);
            }
        },
    }
}

/// The checker produces only well-typed programs: every expression has the
/// type it carries, every declaration and `return` stores or returns a
/// value of the type wanted, and every body ends with its one `return`.
pub proof fn checked_programs_are_well_typed(program: ast::Program, t: typed_ast::Program)
    requires
        checks(program),
        program_typed(program, t),
    ensures
        typed_ast::well_typed(t),
{
    assert forall|c: int| 0 <= c < program.funcs@.len() implies {
        &&& Some((#[trigger] t.funcs@[c]).ret) == spec_resolve(program.funcs@[c].ret.name.text@)
        &&& t.funcs@[c].params@.len() == program.funcs@[c].params@.len()
        &&& forall|k: int|
            0 <= k < program.funcs@[c].params@.len() ==> Some(t.funcs@[c].params@[k].ty) == spec_resolve(
                (#[trigger] program.funcs@[c].params@[k]).ty.name.text@,
            )
    } by {
        assert(func_typed(program, program.funcs@[c], t.funcs@[c]));
    }
    assert(signatures_typed(program, t));
    assert forall|i: int| 0 <= i < t.funcs@.len() implies typed_ast::func_well_typed(t, #[trigger] t.funcs@[i]) by {
        let f = program.funcs@[i];
        let tf = t.funcs@[i];
        assert(func_typed(program, f, tf));
        lemma_funcs_ok(program, 0, i);
        let env = func_env(program, f);
        let ret = spec_resolve(f.ret.name.text@);
        let n = f.body@.len() as int;
        lemma_walk_shape(env, f.body@, ret, n);
        lemma_walk_ok(env, f.body@, ret, n);
        lemma_scope_frame(env, f.body@, tf.body@, ret, n);
        assert forall|j: int| 0 <= j < n implies typed_ast::stmt_well_typed(
            t,
            tf,
            typed_ast::frame(tf.body@, n),
            #[trigger] tf.body@[j],
        ) by {
            lemma_stmt_well_typed(program, t, f, tf, j);
        }
        assert forall|j: int| 0 <= j < n - 1 implies (#[trigger] tf.body@[j]) is Var by {
            assert(stmt_typed(env, scope_at(env, f.body@, ret, j), f.body@[j], tf.body@[j]));
        }
        assert(stmt_typed(env, scope_at(env, f.body@, ret, n - 1), f.body@[n - 1], tf.body@[n - 1]));
    }
}

// ---------------------------------------------------------------------------
// The checker produces a program exactly when it reports nothing.
// ---------------------------------------------------------------------------

/// Whether every function of `program` declares types that resolve, for its
/// result and each parameter.
pub open spec fn signatures_resolve(program: ast::Program) -> bool {
    forall|i: int|
        0 <= i < program.funcs@.len() ==> {
            &&& spec_resolve((#[trigger] program.funcs@[i]).ret.name.text@) is Some
            &&& forall|k: int|
                0 <= k < program.funcs@[i].params@.len() ==> spec_resolve(
                    (#[trigger] program.funcs@[i].params@[k]).ty.name.text@,
                ) is Some
        }
}

/// Whether every name in scope has a type, and each fits its frame.
pub open spec fn scope_resolves(env: Env, locals: Scope) -> bool {
    &&& signatures_resolve(env.program)
    &&& locals.len() <= LocalId::CAPACITY
    &&& forall|k: int| 0 <= k < locals.len() ==> (#[trigger] locals[k]).1 is Some
    &&& env.params.len() <= ParamId::CAPACITY
    &&& forall|k: int| 0 <= k < env.params.len() ==> (#[trigger] env.params[k]).1 is Some
}

proof fn lemma_arg_mismatches_quiet(types: Seq<Option<Type>>, params: Seq<Option<Type>>, args: Seq<ast::Expr>, k: int)
    requires
        0 <= k,
    ensures
        arg_mismatches(types, params, args, k).len() == 0 <==> forall|j: int|
            k <= j < types.len() ==> agrees(#[trigger] types[j], params[j]),
    decreases types.len() - k,
{
    if k < types.len() {
        lemma_arg_mismatches_quiet(types, params, args, k + 1);
        if arg_mismatches(types, params, args, k).len() == 0 {
            assert forall|j: int| k <= j < types.len() implies agrees(#[trigger] types[j], params[j]) by {
                if j > k {
                    assert(agrees(types[j], params[j]));
                }
            }
        }
    }
}

/// Checking an expression gives it a type exactly when it reports nothing,
/// where every name it may meet has a type.
proof fn lemma_expr_quiet(env: Env, locals: Scope, e: ast::Expr)
    ensures
        check_expr(env, locals, e).1 is Some ==> check_expr(env, locals, e).0.len() == 0,
        scope_resolves(env, locals) && check_expr(env, locals, e).0.len() == 0 ==> check_expr(env, locals, e).1 is Some,
    decreases e, 1int,
{
    match e {
        ast::Expr::Var { name, .. } => {
            lemma_find_range(locals, name.text@, 0);
            lemma_find_range(env.params, name.text@, 0);
        },
        ast::Expr::Unary { operand, .. } => {
            lemma_expr_quiet(env, locals, *operand);
        },
        ast::Expr::Binary { lhs, rhs, .. } => {
            lemma_expr_quiet(env, locals, *lhs);
            lemma_expr_quiet(env, locals, *rhs);
        },
        ast::Expr::Call { callee, args, .. } => {
            lemma_args_quiet(env, locals, args@, 0);
            lemma_find_func_range(env.program, callee.text@, 0);
            let ats = check_args(env, locals, args@, 0).1;
            lemma_check_args_index(env, locals, args@, 0);
            if let Some(j) = find_func(env.program, callee.text@, 0) {
                let params = param_types(env.program.funcs@[j]);
                lemma_arg_mismatches_quiet(ats, params, args@, 0);
                if scope_resolves(env, locals) && check_expr(env, locals, e).0.len() == 0 {
                    assert(env.program.funcs@[j] == env.program.funcs@[j]);
                    assert(spec_resolve(env.program.funcs@[j].ret.name.text@) is Some);
                }
            }
        },
        _ => {},
    }
}

proof fn lemma_args_quiet(env: Env, locals: Scope, args: Seq<ast::Expr>, i: int)
    ensures
        0 <= i <= args.len() ==> (all_typed(check_args(env, locals, args, i).1) ==> check_args(
            env,
            locals,
            args,
            i,
        ).0.len() == 0),
        0 <= i <= args.len() ==> (scope_resolves(env, locals) && check_args(env, locals, args, i).0.len() == 0
            ==> all_typed(check_args(env, locals, args, i).1)),
    decreases args, args.len() - i,
{
    if 0 <= i < args.len() {
        lemma_expr_quiet(env, locals, args[i]);
        lemma_args_quiet(env, locals, args, i + 1);
        let (r, t) = check_expr(env, locals, args[i]);
        let (rs, ts) = check_args(env, locals, args, i + 1);
        let all = check_args(env, locals, args, i).1;
        assert(all == seq![t] + ts);
        if all_typed(all) {
            assert(all[0] == t);
            assert forall|k: int| 0 <= k < ts.len() implies (#[trigger] ts[k]) is Some by {
                assert(all[k + 1] == ts[k]);
            }
        }
        if scope_resolves(env, locals) && check_args(env, locals, args, i).0.len() == 0 {
            assert forall|k: int| 0 <= k < all.len() implies (#[trigger] all[k]) is Some by {
                if k > 0 {
                    assert(all[k] == ts[k - 1]);
                }
            }
        }
    }
}

proof fn lemma_stmt_quiet(env: Env, locals: Scope, s: ast::Stmt, ret: Option<Type>)
    ensures
        check_stmt(env, locals, s, ret).2 ==> check_stmt(env, locals, s, ret).0.len() == 0,
        scope_resolves(env, locals) && check_stmt(env, locals, s, ret).0.len() == 0 ==> check_stmt(
            env,
            locals,
            s,
            ret,
        ).2 && scope_resolves(env, check_stmt(env, locals, s, ret).1),
{
    match s {
        ast::Stmt::Var { init, .. } => {
            lemma_expr_quiet(env, locals, init);
            let after = check_stmt(env, locals, s, ret).1;
            if scope_resolves(env, locals) && check_stmt(env, locals, s, ret).0.len() == 0 {
                assert forall|k: int| 0 <= k < after.len() implies (#[trigger] after[k]).1 is Some by {
                    if k < locals.len() {
                        assert(after[k] == locals[k]);
                    }
                }
            }
        },
        ast::Stmt::Return { expr, .. } => {
            lemma_expr_quiet(env, locals, expr);
        },
    }
}

proof fn lemma_walk_quiet(env: Env, body: Seq<ast::Stmt>, ret: Option<Type>, n: int)
    requires
        0 <= n <= body.len(),
    ensures
        walk(env, body, ret, n).ok ==> walk(env, body, ret, n).reports.len() == 0,
        scope_resolves(env, Seq::empty()) && walk(env, body, ret, n).reports.len() == 0 ==> walk(
            env,
            body,
            ret,
            n,
        ).ok && scope_resolves(env, walk(env, body, ret, n).locals),
    decreases n,
{
    if n > 0 {
        lemma_walk_quiet(env, body, ret, n - 1);
        let w = walk(env, body, ret, n - 1);
        lemma_stmt_quiet(env, w.locals, body[n - 1], ret);
        let (r, after, ok) = check_stmt(env, w.locals, body[n - 1], ret);
        assert(walk(env, body, ret, n).reports == w.reports + r);
        assert(walk(env, body, ret, n).ok == (w.ok && ok));
        assert(walk(env, body, ret, n).locals == after);
    }
}

proof fn lemma_body_quiet(env: Env, func: ast::FuncDecl, ret: Option<Type>)
    ensures
        check_body(env, func, ret).1 ==> check_body(env, func, ret).0.len() == 0,
        scope_resolves(env, Seq::empty()) && check_body(env, func, ret).0.len() == 0 ==> check_body(env, func, ret).1,
{
    lemma_walk_quiet(env, func.body@, ret, func.body@.len() as int);
}

proof fn lemma_param_reports_quiet(func: ast::FuncDecl, k: int)
    requires
        0 <= k,
    ensures
        param_reports(func, k).len() == 0 <==> forall|j: int|
            k <= j < func.params@.len() ==> spec_resolve((#[trigger] func.params@[j]).ty.name.text@) is Some
                && find(param_scope(func).take(j), func.params@[j].name.text@, 0) is None,
    decreases func.params@.len() - k,
{
    if k < func.params@.len() {
        lemma_param_reports_quiet(func, k + 1);
    }
}

proof fn lemma_func_quiet(program: ast::Program, func: ast::FuncDecl)
    ensures
        check_func(program, func).1 ==> check_func(program, func).0.len() == 0,
        signatures_resolve(program) && check_func(program, func).0.len() == 0 ==> check_func(program, func).1,
        check_func(program, func).0.len() == 0 ==> spec_resolve(func.ret.name.text@) is Some && forall|k: int|
            0 <= k < func.params@.len() ==> spec_resolve((#[trigger] func.params@[k]).ty.name.text@) is Some,
{
    let env = func_env(program, func);
    let ret = spec_resolve(func.ret.name.text@);
    lemma_param_reports_quiet(func, 0);
    lemma_body_quiet(env, func, ret);
    if signatures_resolve(program) && check_func(program, func).0.len() == 0 {
        assert forall|k: int| 0 <= k < env.params.len() implies (#[trigger] env.params[k]).1 is Some by {
            assert(spec_resolve(func.params@[k].ty.name.text@) is Some);
        }
        assert(scope_resolves(env, Seq::empty()));
    }
    if check_func(program, func).0.len() == 0 {
        assert forall|k: int| 0 <= k < func.params@.len() implies spec_resolve(
            (#[trigger] func.params@[k]).ty.name.text@,
        ) is Some by {
            assert(spec_resolve(func.params@[k].ty.name.text@) is Some);
        }
    }
}

proof fn lemma_funcs_quiet(program: ast::Program, i: int)
    requires
        0 <= i,
    ensures
        funcs_reports(program, i).1 ==> funcs_reports(program, i).0.len() == 0,
        signatures_resolve(program) && funcs_reports(program, i).0.len() == 0 ==> funcs_reports(program, i).1,
        funcs_reports(program, i).0.len() == 0 ==> forall|j: int|
            i <= j < program.funcs@.len() ==> check_func(program, #[trigger] program.funcs@[j]).0.len() == 0,
    decreases program.funcs@.len() - i,
{
    if i < program.funcs@.len() {
        lemma_funcs_quiet(program, i + 1);
        lemma_func_quiet(program, program.funcs@[i]);
    }
}

/// The checker produces a program exactly when it reports nothing: a
/// program checks if and only if checking it reports no diagnostic.
pub proof fn checks_exactly_when_nothing_is_reported(program: ast::Program)
    ensures
        checks(program) <==> check_reports(program).len() == 0,
{
    lemma_funcs_quiet(program, 0);
    if funcs_reports(program, 0).0.len() == 0 {
        assert forall|i: int| 0 <= i < program.funcs@.len() implies {
            &&& spec_resolve((#[trigger] program.funcs@[i]).ret.name.text@) is Some
            &&& forall|k: int|
                0 <= k < program.funcs@[i].params@.len() ==> spec_resolve(
                    (#[trigger] program.funcs@[i].params@[k]).ty.name.text@,
                ) is Some
        } by {
            lemma_func_quiet(program, program.funcs@[i]);
        }
        assert(signatures_resolve(program));
    }
}

} // verus!
