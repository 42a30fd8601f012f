//! Lowering: a typed AST to IR.
//!
//! Every expression lowers in post-order, each instruction defining the
//! next value of its function; what a tree lowers to is stated as spec
//! functions over the instructions' views.

use crate::ast;
use crate::diag;
use crate::ir::{self, Inst, InstV, ValueId};
use crate::typed_ast::{self, Type};
use vstd::prelude::*;

verus! {

/// The value numbered `n`.
pub open spec fn vid(n: int) -> ValueId {
    ValueId(n as u32)
}

/// How many values lowering `e` defines: one per node.
pub open spec fn size(e: typed_ast::Expr) -> nat
    decreases e, 1int,
{
    match e.kind {
        typed_ast::ExprKind::Unary { operand, .. } => size(*operand) + 1,
        typed_ast::ExprKind::Binary { lhs, rhs, .. } => size(*lhs) + size(*rhs) + 1,
        typed_ast::ExprKind::Call { args, .. } => args_size(args@, 0) + 1,
        _ => 1,
    }
}

/// How many values lowering the arguments from the `i`th on defines.
pub open spec fn args_size(args: Seq<typed_ast::Expr>, i: int) -> nat
    decreases args, args.len() - i,
{
    if i < 0 || i >= args.len() {
        0
    } else {
        size(args[i]) + args_size(args, i + 1)
    }
}

/// The instructions `e` lowers to, its values numbered from `next`: its
/// operands in order, then the instruction that defines its own value, the
/// last of them.
pub open spec fn lowered(e: typed_ast::Expr, next: int) -> Seq<InstV>
    decreases e, 1int,
{
    match e.kind {
        typed_ast::ExprKind::IntLit(value) => seq![
            InstV::Const { dest: vid(next), ty: Type::Uint64, value, span: e.span },
        ],
        typed_ast::ExprKind::BoolLit(b) => seq![
            InstV::Const { dest: vid(next), ty: Type::Bool, value: if b { 1 } else { 0 }, span: e.span },
        ],
        typed_ast::ExprKind::Param(param) => seq![InstV::LoadParam { dest: vid(next), param, span: e.span }],
        typed_ast::ExprKind::Var(local) => seq![InstV::Load { dest: vid(next), local, span: e.span }],
        typed_ast::ExprKind::Unary { op, operand } => {
            let o = lowered(*operand, next);
            let at = next + o.len();
            o + seq![InstV::Unary { dest: vid(at), op, operand: vid(at - 1), span: e.span }]
        },
        typed_ast::ExprKind::Binary { op, lhs, rhs } => {
            let l = lowered(*lhs, next);
            let r = lowered(*rhs, next + l.len());
            let at = next + l.len() + r.len();
            l + r + seq![
                InstV::Binary { dest: vid(at), op, lhs: vid(next + l.len() - 1), rhs: vid(at - 1), span: e.span },
            ]
        },
        typed_ast::ExprKind::Call { callee, args } => {
            let (a, ids) = lowered_args(args@, 0, next);
            seq![] + a + seq![InstV::Call { dest: vid(next + a.len()), callee, args: ids, span: e.span }]
        },
    }
}

/// The instructions the arguments from the `i`th on lower to, values
/// numbered from `next`, and the value each produces.
pub open spec fn lowered_args(args: Seq<typed_ast::Expr>, i: int, next: int) -> (Seq<InstV>, Seq<ValueId>)
    decreases args, args.len() - i,
{
    if i < 0 || i >= args.len() {
        (Seq::empty(), Seq::empty())
    } else {
        let x = lowered(args[i], next);
        let (rest, ids) = lowered_args(args, i + 1, next + x.len());
        (x + rest, seq![vid(next + x.len() - 1)] + ids)
    }
}

/// The expression a statement evaluates.
pub open spec fn stmt_expr(s: typed_ast::Stmt) -> typed_ast::Expr {
    match s {
        typed_ast::Stmt::Var { init, .. } => init,
        typed_ast::Stmt::Return { expr, .. } => expr,
    }
}

/// The instructions `s` lowers to, values numbered from `next`: its
/// expression, then the `Store` or `Return` that consumes its value.
pub open spec fn lowered_stmt(s: typed_ast::Stmt, next: int) -> Seq<InstV> {
    let x = lowered(stmt_expr(s), next);
    let value = vid(next + x.len() - 1);
    x + match s {
        typed_ast::Stmt::Var { local, span, .. } => seq![InstV::Store { local, value, span }],
        typed_ast::Stmt::Return { span, .. } => seq![InstV::Return { value, span }],
    }
}

/// How many values the first `n` statements of `body` define.
pub open spec fn body_size(body: Seq<typed_ast::Stmt>, n: int) -> nat
    decreases n,
{
    if n <= 0 || n > body.len() {
        0
    } else {
        body_size(body, n - 1) + size(stmt_expr(body[n - 1]))
    }
}

/// The instructions the first `n` statements of `body` lower to.
pub open spec fn lowered_body(body: Seq<typed_ast::Stmt>, n: int) -> Seq<InstV>
    decreases n,
{
    if n <= 0 || n > body.len() {
        Seq::empty()
    } else {
        lowered_body(body, n - 1) + lowered_stmt(body[n - 1], body_size(body, n - 1) as int)
    }
}

/// `out` is what `func` lowers to.
pub open spec fn func_lowered(func: typed_ast::FuncDecl, out: ir::Function) -> bool {
    let n = func.body@.len() as int;
    &&& out.name@ == func.name.text@
    &&& out.ret == func.ret
    &&& out.params@ == Seq::new(func.params@.len(), |k: int| func.params@[k].ty)
    &&& out.locals@ == typed_ast::frame(func.body@, n)
    &&& ir::views(out.insts@) == lowered_body(func.body@, n)
    &&& out.span == func.span
}

/// `out` is what `program` lowers to: each function, in source order.
pub open spec fn program_lowered(program: typed_ast::Program, out: ir::Program) -> bool {
    &&& out.funcs@.len() == program.funcs@.len()
    &&& forall|i: int| 0 <= i < program.funcs@.len() ==> func_lowered(program.funcs@[i], #[trigger] out.funcs@[i])
}

/// Whether the values of every function of `program` can be numbered by a
/// `ValueId`.
pub open spec fn numberable(program: typed_ast::Program) -> bool {
    forall|i: int|
        0 <= i < program.funcs@.len() ==> body_size(
            (#[trigger] program.funcs@[i]).body@,
            program.funcs@[i].body@.len() as int,
        ) <= u32::MAX
}

/// Whether the values of every function of `program` can be numbered by a
/// `ValueId`, computed.
pub fn is_numberable(program: &typed_ast::Program) -> (r: bool)
    ensures
        r == numberable(*program),
{
    let mut i: usize = 0;
    while i < program.funcs.len()
        invariant
            i <= program.funcs@.len(),
            forall|a: int|
                0 <= a < i ==> body_size(
                    (#[trigger] program.funcs@[a]).body@,
                    program.funcs@[a].body@.len() as int,
                ) <= u32::MAX,
        decreases program.funcs@.len() - i,
    {
        let body = &program.funcs[i].body;
        let mut total: u64 = 0;
        let mut k: usize = 0;
        while k < body.len()
            invariant
                i < program.funcs@.len(),
                *body == program.funcs@[i as int].body,
                k <= body@.len(),
                total == body_size(body@, k as int),
                total <= u32::MAX,
            decreases body@.len() - k,
        {
            let n = match &body[k] {
                typed_ast::Stmt::Var { init, .. } => {
                    proof {
                        assert(stmt_expr(body@[k as int]) == *init);
                    }
                    count(init, u32::MAX as u64 - total)
                },
                typed_ast::Stmt::Return { expr, .. } => {
                    proof {
                        assert(stmt_expr(body@[k as int]) == *expr);
                    }
                    count(expr, u32::MAX as u64 - total)
                },
            };
            match n {
                Some(n) => {
                    total = total + n;
                },
                None => {
                    proof {
                        lemma_body_size_mono(body@, k + 1, body@.len() as int);
                        assert(body_size(body@, k + 1) > u32::MAX);
                        assert(body_size(program.funcs@[i as int].body@, program.funcs@[i as int].body@.len() as int)
                            > u32::MAX);
                    }
                    return false;
                },
            }
            k = k + 1;
        }
        i = i + 1;
    }
    true
}

/// `size(e)`, if it is at most `limit`.
#[verifier::loop_isolation(false)]
fn count(e: &typed_ast::Expr, limit: u64) -> (r: Option<u64>)
    ensures
        size(*e) <= limit ==> r == Some(size(*e) as u64),
        size(*e) > limit ==> r is None,
    decreases e,
{
    match &e.kind {
        typed_ast::ExprKind::Unary { operand, .. } => match count(operand, limit) {
            Some(n) => if n < limit {
                Some(n + 1)
            } else {
                None
            },
            None => None,
        },
        typed_ast::ExprKind::Binary { lhs, rhs, .. } => match count(lhs, limit) {
            Some(l) => match count(rhs, limit - l) {
                Some(r) => if l + r < limit {
                    Some(l + r + 1)
                } else {
                    None
                },
                None => None,
            },
            None => None,
        },
        typed_ast::ExprKind::Call { args, .. } => {
            let mut total: u64 = 0;
            let mut k: usize = 0;
            while k < args.len()
                invariant
                    k <= args@.len(),
                    total <= limit,
                    args_size(args@, 0) == total + args_size(args@, k as int),
                decreases args@.len() - k,
            {
                proof {
                    assert(decreases_to!(e => e.kind));
                    assert(decreases_to!(args@ => args@[k as int]));
                }
                match count(&args[k], limit - total) {
                    Some(n) => {
                        total = total + n;
                    },
                    None => {
                        return None;
                    },
                }
                k = k + 1;
            }
            if total < limit {
                Some(total + 1)
            } else {
                None
            }
        },
        _ => if limit >= 1 {
            Some(1)
        } else {
            None
        },
    }
}

/// A lowering numbers `size(e)` values, wherever it starts.
pub proof fn lemma_lowered_len(e: typed_ast::Expr, next: int)
    ensures
        lowered(e, next).len() == size(e),
        size(e) >= 1,
    decreases e, 1int,
{
    match e.kind {
        typed_ast::ExprKind::Unary { operand, .. } => lemma_lowered_len(*operand, next),
        typed_ast::ExprKind::Binary { lhs, rhs, .. } => {
            lemma_lowered_len(*lhs, next);
            lemma_lowered_len(*rhs, next + size(*lhs));
        },
        typed_ast::ExprKind::Call { args, .. } => {
            assert(decreases_to!(e => e.kind));
            lemma_lowered_args_len(args@, 0, next);
        },
        _ => {},
    }
}

/// The arguments from the `i`th on number `args_size(args, i)` values.
pub proof fn lemma_lowered_args_len(args: Seq<typed_ast::Expr>, i: int, next: int)
    ensures
        lowered_args(args, i, next).0.len() == args_size(args, i),
        0 <= i <= args.len() ==> lowered_args(args, i, next).1.len() == args.len() - i,
    decreases args, args.len() - i,
{
    if 0 <= i < args.len() {
        lemma_lowered_len(args[i], next);
        lemma_lowered_args_len(args, i + 1, next + size(args[i]));
    }
}

proof fn lemma_views_push(insts: Seq<Inst>, x: Inst)
    ensures
        ir::views(insts.push(x)) == ir::views(insts).push(x@),
{
    assert(ir::views(insts.push(x)) =~= ir::views(insts).push(x@));
}

/// Lowers every function in `program`, in source order. It cannot fail.
pub fn lower(program: &typed_ast::Program, diags: &mut diag::Sink) -> (r: Option<ir::Program>)
    requires
        numberable(*program),
    ensures
        final(diags)@ == old(diags)@,
        r matches Some(p) && program_lowered(*program, p),
        typed_ast::well_typed(*program) ==> (r matches Some(p) && ir::program_verifies(p)),
{
    let mut funcs: Vec<ir::Function> = Vec::new();
    let mut i: usize = 0;
    while i < program.funcs.len()
        invariant
            numberable(*program),
            i <= program.funcs@.len(),
            funcs@.len() == i,
            forall|a: int| 0 <= a < i ==> func_lowered(program.funcs@[a], #[trigger] funcs@[a]),
        decreases program.funcs@.len() - i,
    {
        let f = lower_func(&program.funcs[i]);
        funcs.push(f);
        i = i + 1;
    }
    let out = ir::Program { funcs };
    proof {
        if typed_ast::well_typed(*program) {
            lowered_programs_verify(*program, out);
        }
    }
    Some(out)
}

/// Lowers one function. `ValueId`s restart at 0.
fn lower_func(func: &typed_ast::FuncDecl) -> (r: ir::Function)
    requires
        body_size(func.body@, func.body@.len() as int) <= u32::MAX,
    ensures
        func_lowered(*func, r),
{
    let ghost body = func.body@;
    let mut insts: Vec<Inst> = Vec::new();
    // The frame, which grows with every declaration the body walks past.
    let mut locals: Vec<Type> = Vec::new();
    // The number of values defined so far, which keeps definitions dense.
    let mut next: u32 = 0;
    let mut k: usize = 0;
    proof {
        assert(ir::views(insts@) =~= lowered_body(body, 0));
        assert(locals@ =~= typed_ast::frame(body, 0));
    }
    while k < func.body.len()
        invariant
            body == func.body@,
            body_size(body, body.len() as int) <= u32::MAX,
            k <= body.len(),
            next == body_size(body, k as int),
            ir::views(insts@) == lowered_body(body, k as int),
            locals@ == typed_ast::frame(body, k as int),
        decreases body.len() - k,
    {
        proof {
            lemma_body_size_mono(body, k + 1, body.len() as int);
        }
        match &func.body[k] {
            typed_ast::Stmt::Var { local, ty, init, span } => {
                let value = lower_expr(init, &mut insts, &mut next);
                let store = Inst::Store { local: *local, value, span: *span };
                proof {
                    lemma_views_push(insts@, store);
                }
                insts.push(store);
                locals.push(*ty);
            },
            typed_ast::Stmt::Return { expr, span } => {
                let value = lower_expr(expr, &mut insts, &mut next);
                let ret = Inst::Return { value, span: *span };
                proof {
                    lemma_views_push(insts@, ret);
                }
                insts.push(ret);
            },
        }
        proof {
            lemma_lowered_len(stmt_expr(body[k as int]), body_size(body, k as int) as int);
            assert(ir::views(insts@) =~= lowered_body(body, k + 1));
        }
        k = k + 1;
    }
    let mut params: Vec<Type> = Vec::new();
    let mut j: usize = 0;
    while j < func.params.len()
        invariant
            j <= func.params@.len(),
            params@ == Seq::new(j as nat, |a: int| func.params@[a].ty),
        decreases func.params@.len() - j,
    {
        params.push(func.params[j].ty);
        j = j + 1;
        proof {
            assert(params@ =~= Seq::new(j as nat, |a: int| func.params@[a].ty));
        }
    }
    ir::Function {
        name: func.name.text.clone(),
        ret: func.ret,
        params,
        locals,
        insts,
        span: func.span,
    }
}

proof fn lemma_body_size_mono(body: Seq<typed_ast::Stmt>, m: int, n: int)
    requires
        0 <= m <= n <= body.len(),
    ensures
        body_size(body, m) <= body_size(body, n),
    decreases n - m,
{
    if m < n {
        lemma_body_size_mono(body, m, n - 1);
    }
}

/// Lowers one expression in post-order, appending its instructions to
/// `insts` and yielding the value it produces. `next` is advanced past it.
fn lower_expr(e: &typed_ast::Expr, insts: &mut Vec<Inst>, next: &mut u32) -> (v: ValueId)
    requires
        *old(next) + size(*e) <= u32::MAX,
    ensures
        ir::views(final(insts)@) == ir::views(old(insts)@) + lowered(*e, *old(next) as int),
        *final(next) == *old(next) + size(*e),
        v == vid(*final(next) - 1),
    decreases e, 1int,
{
    let ghost start = *next as int;
    let ghost before = insts@;
    proof {
        lemma_lowered_len(*e, start);
    }
    match &e.kind {
        typed_ast::ExprKind::IntLit(value) => {
            let dest = next_value_id(next);
            let inst = Inst::Const { dest, ty: Type::Uint64, value: *value, span: e.span };
            proof {
                lemma_views_push(insts@, inst);
            }
            insts.push(inst);
            dest
        },
        typed_ast::ExprKind::BoolLit(b) => {
            let dest = next_value_id(next);
            let value: u64 = if *b {
                1
            } else {
                0
            };
            let inst = Inst::Const { dest, ty: Type::Bool, value, span: e.span };
            proof {
                lemma_views_push(insts@, inst);
            }
            insts.push(inst);
            dest
        },
        typed_ast::ExprKind::Param(param) => {
            let dest = next_value_id(next);
            let inst = Inst::LoadParam { dest, param: *param, span: e.span };
            proof {
                lemma_views_push(insts@, inst);
            }
            insts.push(inst);
            dest
        },
        typed_ast::ExprKind::Var(local) => {
            let dest = next_value_id(next);
            let inst = Inst::Load { dest, local: *local, span: e.span };
            proof {
                lemma_views_push(insts@, inst);
            }
            insts.push(inst);
            dest
        },
        typed_ast::ExprKind::Unary { op, operand } => {
            let operand = lower_expr(operand, insts, next);
            let dest = next_value_id(next);
            let inst = Inst::Unary { dest, op: *op, operand, span: e.span };
            proof {
                lemma_views_push(insts@, inst);
            }
            insts.push(inst);
            proof {
                assert(ir::views(insts@) =~= ir::views(before) + lowered(*e, start));
            }
            dest
        },
        typed_ast::ExprKind::Call { .. } => lower_call(e, insts, next),
        typed_ast::ExprKind::Binary { op, lhs, rhs } => {
            proof {
                lemma_lowered_len(**lhs, start);
            }
            let lhs = lower_expr(lhs, insts, next);
            let rhs = lower_expr(rhs, insts, next);
            let dest = next_value_id(next);
            let inst = Inst::Binary { dest, op: *op, lhs, rhs, span: e.span };
            proof {
                lemma_views_push(insts@, inst);
            }
            insts.push(inst);
            proof {
                assert(ir::views(insts@) =~= ir::views(before) + lowered(*e, start));
            }
            dest
        },
    }
}

/// Lowers a call: its arguments in order, then the call.
fn lower_call(e: &typed_ast::Expr, insts: &mut Vec<Inst>, next: &mut u32) -> (v: ValueId)
    requires
        *old(next) + size(*e) <= u32::MAX,
        e.kind is Call,
    ensures
        ir::views(final(insts)@) == ir::views(old(insts)@) + lowered(*e, *old(next) as int),
        *final(next) == *old(next) + size(*e),
        v == vid(*final(next) - 1),
    decreases e, 0int,
{
    let ghost start = *next as int;
    let ghost before = insts@;
    let (callee, args) = match &e.kind {
        typed_ast::ExprKind::Call { callee, args } => (callee, args),
        _ => {
            return ValueId(0);
        },
    };
    let ghost full = lowered_args(args@, 0, start);
    proof {
        lemma_lowered_args_len(args@, 0, start);
    }
    let mut ids: Vec<ValueId> = Vec::new();
    let mut k: usize = 0;
    let ghost mut done: Seq<InstV> = Seq::empty();
    proof {
        assert(full.0 =~= done + lowered_args(args@, 0, start).0);
        assert(full.1 =~= ids@ + lowered_args(args@, 0, start).1);
    }
    while k < args.len()
        invariant
            e.kind == (typed_ast::ExprKind::Call { callee: *callee, args: *args }),
            k <= args@.len(),
            start + size(*e) <= u32::MAX,
            size(*e) == args_size(args@, 0) + 1,
            full == lowered_args(args@, 0, start),
            full.0 == done + lowered_args(args@, k as int, *next as int).0,
            full.1 == ids@ + lowered_args(args@, k as int, *next as int).1,
            *next as int == start + done.len(),
            args_size(args@, 0) == done.len() + args_size(args@, k as int),
            ir::views(insts@) == ir::views(before) + done,
        decreases args@.len() - k,
    {
        proof {
            assert(decreases_to!(e => e.kind));
            assert(decreases_to!(e.kind => *args));
            assert(decreases_to!(*args => args@));
            assert(decreases_to!(args@ => args@[k as int]));
            lemma_lowered_len(args@[k as int], *next as int);
            lemma_lowered_args_len(args@, k + 1, *next + size(args@[k as int]));
        }
        let ghost at = *next as int;
        let id = lower_expr(&args[k], insts, next);
        let ghost x = lowered(args@[k as int], at);
        let ghost rest = lowered_args(args@, k + 1, at + x.len());
        proof {
            assert(lowered_args(args@, k as int, at) == (x + rest.0, seq![vid(at + x.len() - 1)] + rest.1));
            done = done + x;
            assert(full.0 =~= done + rest.0);
        }
        ids.push(id);
        proof {
            assert(full.1 =~= ids@ + rest.1);
        }
        k = k + 1;
    }
    proof {
        assert(done =~= full.0);
        assert(ids@ =~= full.1);
    }
    let dest = next_value_id(next);
    let inst = Inst::Call { dest, callee: *callee, args: ids, span: e.span };
    proof {
        lemma_views_push(insts@, inst);
    }
    insts.push(inst);
    proof {
        assert(ir::views(insts@) =~= ir::views(before) + lowered(*e, start));
    }
    dest
}

/// The next `ValueId`, advancing `next` past it.
fn next_value_id(next: &mut u32) -> (v: ValueId)
    requires
        *old(next) < u32::MAX,
    ensures
        v == vid(*old(next) as int),
        *final(next) == *old(next) + 1,
{
    let dest = ValueId(*next);
    *next = *next + 1;
    dest
}

// ---------------------------------------------------------------------------
// Lowering a well-typed program meets the IR invariant.
// ---------------------------------------------------------------------------

/// The functions of `out` have the signatures of those of `program`.
pub open spec fn same_signatures(program: typed_ast::Program, out: ir::Program) -> bool {
    &&& out.funcs@.len() == program.funcs@.len()
    &&& forall|c: int|
        0 <= c < program.funcs@.len() ==> {
            &&& (#[trigger] out.funcs@[c]).params@ == typed_ast::param_types(program.funcs@[c])
            &&& out.funcs@[c].ret == program.funcs@[c].ret
        }
}

/// The instructions of `func` from `index` on begin with `seg`.
pub open spec fn at(func: ir::Function, index: int, seg: Seq<InstV>) -> bool {
    &&& 0 <= index
    &&& index + seg.len() <= func.insts@.len()
    &&& forall|k: int| 0 <= k < seg.len() ==> func.insts@[index + k]@ == #[trigger] seg[k]
}

/// The live values the arguments from the `i`th on leave, values numbered
/// from `next`: each one's value and type, in order.
pub open spec fn arg_values(args: Seq<typed_ast::Expr>, i: int, next: int) -> Seq<ir::Live> {
    let ids = lowered_args(args, i, next).1;
    Seq::new(ids.len(), |k: int| (ids[k], args[i + k].ty))
}

proof fn lemma_at_split(func: ir::Function, index: int, a: Seq<InstV>, b: Seq<InstV>)
    requires
        at(func, index, a + b),
    ensures
        at(func, index, a),
        at(func, index + a.len(), b),
{
    assert forall|k: int| 0 <= k < a.len() implies func.insts@[index + k]@ == #[trigger] a[k] by {
        assert((a + b)[k] == a[k]);
    }
    assert forall|k: int| 0 <= k < b.len() implies func.insts@[index + a.len() + k]@ == #[trigger] b[k] by {
        assert((a + b)[a.len() + k] == b[k]);
        assert(index + (a.len() + k) == index + a.len() + k);
    }
}

proof fn lemma_operands_match(
    stack: Seq<ir::Live>,
    top: int,
    index: int,
    operands: Seq<ValueId>,
    expected: Seq<Type>,
    p: int,
)
    requires
        0 <= p,
        0 <= top,
        top + operands.len() <= stack.len(),
        operands.len() == expected.len(),
        forall|q: int| p <= q < operands.len() ==> stack[top + q] == (#[trigger] operands[q], expected[q]),
    ensures
        ir::operand_mismatch(stack, top, index, operands, expected, p) is None,
    decreases operands.len() - p,
{
    if p < operands.len() {
        assert(stack[top + p] == (operands[p], expected[p]));
        lemma_operands_match(stack, top, index, operands, expected, p + 1);
    }
}

/// Running the instructions `e` lowers to, on any stack, pushes the value
/// it produces, of its type.
proof fn lemma_expr_runs(
    program: ir::Program,
    func: ir::Function,
    tp: typed_ast::Program,
    e: typed_ast::Expr,
    next: int,
    index: int,
    stack: Seq<ir::Live>,
)
    requires
        same_signatures(tp, program),
        typed_ast::expr_well_typed(tp, func.params@, func.locals@, e),
        0 <= next,
        next + size(e) <= u32::MAX + 1,
        at(func, index, lowered(e, next)),
    ensures
        ir::spec_run(&program, &func, index, stack, next as nat) == ir::spec_run(
            &program,
            &func,
            index + size(e),
            stack.push((vid(next + size(e) - 1), e.ty)),
            (next + size(e)) as nat,
        ),
    decreases e, 1int,
{
    match e.kind {
        typed_ast::ExprKind::Unary { .. } => lemma_unary_runs(program, func, tp, e, next, index, stack),
        typed_ast::ExprKind::Binary { .. } => lemma_binary_runs(program, func, tp, e, next, index, stack),
        typed_ast::ExprKind::Call { .. } => lemma_call_runs(program, func, tp, e, next, index, stack),
        _ => lemma_leaf_runs(program, func, tp, e, next, index, stack),
    }
}

proof fn lemma_leaf_runs(
    program: ir::Program,
    func: ir::Function,
    tp: typed_ast::Program,
    e: typed_ast::Expr,
    next: int,
    index: int,
    stack: Seq<ir::Live>,
)
    requires
        same_signatures(tp, program),
        typed_ast::expr_well_typed(tp, func.params@, func.locals@, e),
        0 <= next,
        next + size(e) <= u32::MAX + 1,
        at(func, index, lowered(e, next)),
        !(e.kind is Unary || e.kind is Binary || e.kind is Call),
    ensures
        ir::spec_run(&program, &func, index, stack, next as nat) == ir::spec_run(
            &program,
            &func,
            index + size(e),
            stack.push((vid(next + size(e) - 1), e.ty)),
            (next + size(e)) as nat,
        ),
{
    let x = lowered(e, next);
    assert(func.insts@[index + 0]@ == x[0]);
}

proof fn lemma_unary_runs(
    program: ir::Program,
    func: ir::Function,
    tp: typed_ast::Program,
    e: typed_ast::Expr,
    next: int,
    index: int,
    stack: Seq<ir::Live>,
)
    requires
        same_signatures(tp, program),
        typed_ast::expr_well_typed(tp, func.params@, func.locals@, e),
        0 <= next,
        next + size(e) <= u32::MAX + 1,
        at(func, index, lowered(e, next)),
        e.kind is Unary,
    ensures
        ir::spec_run(&program, &func, index, stack, next as nat) == ir::spec_run(
            &program,
            &func,
            index + size(e),
            stack.push((vid(next + size(e) - 1), e.ty)),
            (next + size(e)) as nat,
        ),
    decreases e, 0int,
{
    lemma_lowered_len(e, next);
    let x = lowered(e, next);
    if let typed_ast::ExprKind::Unary { op, operand } = e.kind {
        let o = lowered(*operand, next);
        lemma_lowered_len(*operand, next);
        let last = seq![x[x.len() - 1]];
        assert(x =~= o + last);
        lemma_at_split(func, index, o, last);
        assert(func.insts@[index + o.len() + 0]@ == last[0]);
        lemma_expr_runs(program, func, tp, *operand, next, index, stack);
        let s1 = stack.push((vid(next + o.len() - 1), operand.ty));
        lemma_operands_match(s1, stack.len() as int, index + o.len(), seq![vid(next + o.len() - 1)], seq![Type::Bool], 0);
        assert(s1.take(stack.len() as int) =~= stack);
    }
}

proof fn lemma_binary_runs(
    program: ir::Program,
    func: ir::Function,
    tp: typed_ast::Program,
    e: typed_ast::Expr,
    next: int,
    index: int,
    stack: Seq<ir::Live>,
)
    requires
        same_signatures(tp, program),
        typed_ast::expr_well_typed(tp, func.params@, func.locals@, e),
        0 <= next,
        next + size(e) <= u32::MAX + 1,
        at(func, index, lowered(e, next)),
        e.kind is Binary,
    ensures
        ir::spec_run(&program, &func, index, stack, next as nat) == ir::spec_run(
            &program,
            &func,
            index + size(e),
            stack.push((vid(next + size(e) - 1), e.ty)),
            (next + size(e)) as nat,
        ),
    decreases e, 0int,
{
    lemma_lowered_len(e, next);
    let x = lowered(e, next);
    if let typed_ast::ExprKind::Binary { op, lhs, rhs } = e.kind {
        let l = lowered(*lhs, next);
        lemma_lowered_len(*lhs, next);
        let r = lowered(*rhs, next + l.len());
        lemma_lowered_len(*rhs, next + l.len());
        let last = seq![x[x.len() - 1]];
        assert(x =~= l + (r + last));
        lemma_at_split(func, index, l, r + last);
        lemma_at_split(func, index + l.len(), r, last);
        assert(func.insts@[index + l.len() + r.len() + 0]@ == last[0]);
        lemma_expr_runs(program, func, tp, *lhs, next, index, stack);
        let a = (vid(next + l.len() - 1), lhs.ty);
        let s1 = stack.push(a);
        lemma_expr_runs(program, func, tp, *rhs, next + l.len(), index + l.len(), s1);
        let b = (vid(next + l.len() + r.len() - 1), rhs.ty);
        let s2 = s1.push(b);
        let ty = ir::wanted_type(op, s2);
        assert(ty == lhs.ty);
        lemma_operands_match(s2, stack.len() as int, index + l.len() + r.len(), seq![a.0, b.0], seq![ty, ty], 0);
        assert(s2.take(stack.len() as int) =~= stack);
    }
}

proof fn lemma_call_runs(
    program: ir::Program,
    func: ir::Function,
    tp: typed_ast::Program,
    e: typed_ast::Expr,
    next: int,
    index: int,
    stack: Seq<ir::Live>,
)
    requires
        same_signatures(tp, program),
        typed_ast::expr_well_typed(tp, func.params@, func.locals@, e),
        0 <= next,
        next + size(e) <= u32::MAX + 1,
        at(func, index, lowered(e, next)),
        e.kind is Call,
    ensures
        ir::spec_run(&program, &func, index, stack, next as nat) == ir::spec_run(
            &program,
            &func,
            index + size(e),
            stack.push((vid(next + size(e) - 1), e.ty)),
            (next + size(e)) as nat,
        ),
    decreases e, 0int,
{
    lemma_lowered_len(e, next);
    let x = lowered(e, next);
    if let typed_ast::ExprKind::Call { callee, args } = e.kind {
        assert(decreases_to!(e => e.kind));
        let (a, ids) = lowered_args(args@, 0, next);
        lemma_lowered_args_len(args@, 0, next);
        let last = seq![x[x.len() - 1]];
        assert(x =~= a + last);
        lemma_at_split(func, index, a, last);
        assert(func.insts@[index + a.len() + 0]@ == last[0]);
        let sig = tp.funcs@[callee.0 as int];
        assert forall|k: int| 0 <= k < args@.len() implies typed_ast::expr_well_typed(
            tp,
            func.params@,
            func.locals@,
            #[trigger] args@[k],
        ) by {
            assert(args@[k].ty == sig.params@[k].ty);
        }
        lemma_args_run(program, func, tp, args@, 0, next, index, stack);
        let s1 = stack + arg_values(args@, 0, next);
        let called = program.funcs@[callee.0 as int];
        assert(called.params@ == typed_ast::param_types(sig));
        assert forall|q: int| 0 <= q < ids.len() implies s1[stack.len() + q] == (
            #[trigger] ids[q],
            called.params@[q],
        ) by {
            assert(args@[q].ty == sig.params@[q].ty);
        }
        lemma_operands_match(s1, stack.len() as int, index + a.len(), ids, called.params@, 0);
        assert(s1.take(stack.len() as int) =~= stack);
    }
}

/// Running the instructions the arguments from the `i`th on lower to, on
/// any stack, pushes the value each produces, in order.
proof fn lemma_args_run(
    program: ir::Program,
    func: ir::Function,
    tp: typed_ast::Program,
    args: Seq<typed_ast::Expr>,
    i: int,
    next: int,
    index: int,
    stack: Seq<ir::Live>,
)
    requires
        same_signatures(tp, program),
        0 <= i <= args.len(),
        forall|k: int|
            i <= k < args.len() ==> typed_ast::expr_well_typed(tp, func.params@, func.locals@, #[trigger] args[k]),
        0 <= next,
        next + args_size(args, i) <= u32::MAX + 1,
        at(func, index, lowered_args(args, i, next).0),
    ensures
        ir::spec_run(&program, &func, index, stack, next as nat) == ir::spec_run(
            &program,
            &func,
            index + args_size(args, i),
            stack + arg_values(args, i, next),
            (next + args_size(args, i)) as nat,
        ),
    decreases args, args.len() - i,
{
    lemma_lowered_args_len(args, i, next);
    if i == args.len() {
        assert(stack + arg_values(args, i, next) =~= stack);
    } else {
        let x = lowered(args[i], next);
        lemma_lowered_len(args[i], next);
        let (rest, ids) = lowered_args(args, i + 1, next + x.len());
        lemma_lowered_args_len(args, i + 1, next + x.len());
        lemma_at_split(func, index, x, rest);
        lemma_expr_runs(program, func, tp, args[i], next, index, stack);
        let v = (vid(next + x.len() - 1), args[i].ty);
        lemma_args_run(program, func, tp, args, i + 1, next + x.len(), index + x.len(), stack.push(v));
        assert(stack.push(v) + arg_values(args, i + 1, next + x.len()) =~= stack + arg_values(args, i, next));
    }
}

/// Running the instructions a well-typed statement lowers to, on an empty
/// stack, leaves it empty.
proof fn lemma_stmt_runs(
    program: ir::Program,
    func: ir::Function,
    tp: typed_ast::Program,
    f: typed_ast::FuncDecl,
    s: typed_ast::Stmt,
    next: int,
    index: int,
)
    requires
        same_signatures(tp, program),
        func.params@ == typed_ast::param_types(f),
        func.ret == f.ret,
        typed_ast::stmt_well_typed(tp, f, func.locals@, s),
        0 <= next,
        next + size(stmt_expr(s)) <= u32::MAX + 1,
        at(func, index, lowered_stmt(s, next)),
    ensures
        ir::spec_run(&program, &func, index, Seq::empty(), next as nat) == ir::spec_run(
            &program,
            &func,
            index + size(stmt_expr(s)) + 1,
            Seq::empty(),
            (next + size(stmt_expr(s))) as nat,
        ),
{
    let e = stmt_expr(s);
    let x = lowered(e, next);
    lemma_lowered_len(e, next);
    let whole = lowered_stmt(s, next);
    let last = seq![whole[x.len() as int]];
    assert(whole =~= x + last);
    lemma_at_split(func, index, x, last);
    assert(func.insts@[index + x.len() + 0]@ == last[0]);
    lemma_expr_runs(program, func, tp, e, next, index, Seq::empty());
    let v = vid(next + x.len() - 1);
    let s1 = Seq::<ir::Live>::empty().push((v, e.ty));
    match s {
        typed_ast::Stmt::Var { local, .. } => {
            lemma_operands_match(s1, 0, index + x.len(), seq![v], seq![func.locals@[local.0 as int]], 0);
        },
        typed_ast::Stmt::Return { .. } => {
            lemma_operands_match(s1, 0, index + x.len(), seq![v], seq![func.ret], 0);
        },
    }
    assert(s1.take(0) =~= Seq::<ir::Live>::empty());
}

proof fn lemma_lowered_body_len(body: Seq<typed_ast::Stmt>, n: int)
    requires
        0 <= n <= body.len(),
    ensures
        lowered_body(body, n).len() == body_size(body, n) + n,
    decreases n,
{
    if n > 0 {
        lemma_lowered_body_len(body, n - 1);
        lemma_lowered_len(stmt_expr(body[n - 1]), body_size(body, n - 1) as int);
    }
}

proof fn lemma_lowered_body_prefix(body: Seq<typed_ast::Stmt>, m: int, n: int)
    requires
        0 <= m <= n <= body.len(),
    ensures
        lowered_body(body, m).len() <= lowered_body(body, n).len(),
        forall|k: int| 0 <= k < lowered_body(body, m).len() ==> lowered_body(body, n)[k] == #[trigger] lowered_body(body, m)[k],
    decreases n - m,
{
    if m < n {
        lemma_lowered_body_prefix(body, m, n - 1);
    }
}

/// In a function lowered from `body`, what its `n`th statement lowers to
/// stands right after what the statements before it lower to.
proof fn lemma_at_stmt(func: ir::Function, body: Seq<typed_ast::Stmt>, n: int)
    requires
        ir::views(func.insts@) == lowered_body(body, body.len() as int),
        0 < n <= body.len(),
    ensures
        at(func, lowered_body(body, n - 1).len() as int, lowered_stmt(body[n - 1], body_size(body, n - 1) as int)),
{
    let head = lowered_body(body, n - 1);
    let st = lowered_stmt(body[n - 1], body_size(body, n - 1) as int);
    lemma_lowered_body_prefix(body, n, body.len() as int);
    assert forall|k: int| 0 <= k < st.len() implies func.insts@[head.len() + k]@ == #[trigger] st[k] by {
        assert(lowered_body(body, n)[head.len() + k] == st[k]);
        assert(ir::views(func.insts@)[head.len() + k] == func.insts@[head.len() + k]@);
    }
}

/// Running the instructions of the first `n` statements of a well-typed
/// body leaves the stack empty.
proof fn lemma_body_runs(
    program: ir::Program,
    func: ir::Function,
    tp: typed_ast::Program,
    f: typed_ast::FuncDecl,
    n: int,
)
    requires
        same_signatures(tp, program),
        func.params@ == typed_ast::param_types(f),
        func.ret == f.ret,
        ir::views(func.insts@) == lowered_body(f.body@, f.body@.len() as int),
        forall|i: int|
            0 <= i < f.body@.len() ==> typed_ast::stmt_well_typed(tp, f, func.locals@, #[trigger] f.body@[i]),
        body_size(f.body@, f.body@.len() as int) <= u32::MAX,
        0 <= n <= f.body@.len(),
    ensures
        ir::spec_run(&program, &func, 0, Seq::empty(), 0) == ir::spec_run(
            &program,
            &func,
            body_size(f.body@, n) + n,
            Seq::empty(),
            body_size(f.body@, n),
        ),
    decreases n,
{
    let body = f.body@;
    if n > 0 {
        lemma_body_runs(program, func, tp, f, n - 1);
        lemma_lowered_body_len(body, n - 1);
        lemma_at_stmt(func, body, n);
        lemma_body_size_mono(body, n, body.len() as int);
        lemma_stmt_runs(
            program,
            func,
            tp,
            f,
            body[n - 1],
            body_size(body, n - 1) as int,
            body_size(body, n - 1) + n - 1,
        );
    }
}

/// No instruction `e` lowers to returns.
proof fn lemma_expr_never_returns(e: typed_ast::Expr, next: int)
    ensures
        forall|k: int| 0 <= k < lowered(e, next).len() ==> !(#[trigger] lowered(e, next)[k] is Return),
    decreases e, 1int,
{
    let x = lowered(e, next);
    match e.kind {
        typed_ast::ExprKind::Unary { operand, .. } => {
            lemma_expr_never_returns(*operand, next);
            let o = lowered(*operand, next);
            assert forall|k: int| 0 <= k < x.len() implies !(#[trigger] x[k] is Return) by {
                if k < o.len() {
                    assert(x[k] == o[k]);
                }
            }
        },
        typed_ast::ExprKind::Binary { lhs, rhs, .. } => {
            let l = lowered(*lhs, next);
            let r = lowered(*rhs, next + l.len());
            lemma_expr_never_returns(*lhs, next);
            lemma_expr_never_returns(*rhs, next + l.len());
            assert forall|k: int| 0 <= k < x.len() implies !(#[trigger] x[k] is Return) by {
                if k < l.len() {
                    assert(x[k] == l[k]);
                } else if k < l.len() + r.len() {
                    assert(x[k] == r[k - l.len()]);
                }
            }
        },
        typed_ast::ExprKind::Call { args, .. } => {
            assert(decreases_to!(e => e.kind));
            let a = lowered_args(args@, 0, next).0;
            lemma_args_never_return(args@, 0, next);
            assert forall|k: int| 0 <= k < x.len() implies !(#[trigger] x[k] is Return) by {
                if k < a.len() {
                    assert(x[k] == a[k]);
                }
            }
        },
        _ => {},
    }
}

/// No instruction the arguments from the `i`th on lower to returns.
proof fn lemma_args_never_return(args: Seq<typed_ast::Expr>, i: int, next: int)
    ensures
        forall|k: int|
            0 <= k < lowered_args(args, i, next).0.len() ==> !(#[trigger] lowered_args(args, i, next).0[k] is Return),
    decreases args, args.len() - i,
{
    if 0 <= i < args.len() {
        let x = lowered(args[i], next);
        let rest = lowered_args(args, i + 1, next + x.len()).0;
        lemma_expr_never_returns(args[i], next);
        lemma_args_never_return(args, i + 1, next + x.len());
        let all = lowered_args(args, i, next).0;
        assert forall|k: int| 0 <= k < all.len() implies !(#[trigger] all[k] is Return) by {
            if k < x.len() {
                assert(all[k] == x[k]);
            } else {
                assert(all[k] == rest[k - x.len()]);
            }
        }
    }
}

/// No instruction the first `n` statements lower to returns, when none of
/// them is a `return`.
proof fn lemma_declarations_never_return(body: Seq<typed_ast::Stmt>, n: int)
    requires
        0 <= n <= body.len(),
        forall|i: int| 0 <= i < n ==> (#[trigger] body[i]) is Var,
    ensures
        forall|k: int| 0 <= k < lowered_body(body, n).len() ==> !(#[trigger] lowered_body(body, n)[k] is Return),
    decreases n,
{
    if n > 0 {
        lemma_declarations_never_return(body, n - 1);
        let head = lowered_body(body, n - 1);
        let e = stmt_expr(body[n - 1]);
        let next = body_size(body, n - 1) as int;
        lemma_expr_never_returns(e, next);
        let x = lowered(e, next);
        let all = lowered_body(body, n);
        assert forall|k: int| 0 <= k < all.len() implies !(#[trigger] all[k] is Return) by {
            if k < head.len() {
                assert(all[k] == head[k]);
            } else if k < head.len() + x.len() {
                assert(all[k] == x[k - head.len()]);
            }
        }
    }
}

proof fn lemma_no_misplaced_return(insts: Seq<Inst>, i: int)
    requires
        0 <= i,
        forall|k: int| i <= k < insts.len() - 1 ==> !(#[trigger] insts[k] is Return),
    ensures
        ir::misplaced_return(insts, i) is None,
    decreases insts.len() - i,
{
    if i < insts.len() - 1 {
        lemma_no_misplaced_return(insts, i + 1);
    }
}

/// A well-typed function lowers to one the verifier accepts.
proof fn lemma_func_verifies(program: typed_ast::Program, out: ir::Program, i: int)
    requires
        typed_ast::well_typed(program),
        numberable(program),
        program_lowered(program, out),
        same_signatures(program, out),
        0 <= i < out.funcs@.len(),
    ensures
        ir::spec_verify(&out, &out.funcs@[i]) is Ok,
{
    let f = program.funcs@[i];
    let func = out.funcs@[i];
    let body = f.body@;
    let n = body.len() as int;
    assert(typed_ast::func_well_typed(program, f));
    assert(func_lowered(f, func));
    assert(func.params@ =~= typed_ast::param_types(f));
    let insts = func.insts@;
    // The one `return` is the last instruction.
    lemma_declarations_never_return(body, n - 1);
    let head = lowered_body(body, n - 1);
    let e = stmt_expr(body[n - 1]);
    let next = body_size(body, n - 1) as int;
    lemma_expr_never_returns(e, next);
    lemma_lowered_len(e, next);
    let x = lowered(e, next);
    let all = lowered_body(body, n);
    assert(all.len() == head.len() + x.len() + 1);
    assert forall|k: int| 0 <= k < insts.len() - 1 implies !(#[trigger] insts[k] is Return) by {
        assert(ir::views(insts)[k] == insts[k]@);
        if k < head.len() {
            assert(all[k] == head[k]);
        } else {
            assert(all[k] == x[k - head.len()]);
        }
    }
    assert(ir::views(insts)[insts.len() - 1] == insts[insts.len() - 1]@);
    lemma_no_misplaced_return(insts, 0);
    assert(ir::spec_verify_return(insts) is Ok);
    // Running it leaves nothing behind.
    lemma_body_runs(out, func, program, f, n);
    lemma_lowered_body_len(body, n);
}

/// Lowering a well-typed program produces IR that meets the IR invariant:
/// the verifier accepts every function of it.
pub proof fn lowered_programs_verify(program: typed_ast::Program, out: ir::Program)
    requires
        typed_ast::well_typed(program),
        numberable(program),
        program_lowered(program, out),
    ensures
        ir::program_verifies(out),
{
    assert forall|c: int| 0 <= c < program.funcs@.len() implies {
        &&& (#[trigger] out.funcs@[c]).params@ == typed_ast::param_types(program.funcs@[c])
        &&& out.funcs@[c].ret == program.funcs@[c].ret
    } by {
        assert(func_lowered(program.funcs@[c], out.funcs@[c]));
        assert(out.funcs@[c].params@ =~= typed_ast::param_types(program.funcs@[c]));
    }
    assert forall|i: int| 0 <= i < out.funcs@.len() implies ir::spec_verify(&out, &#[trigger] out.funcs@[i]) is Ok by {
        lemma_func_verifies(program, out, i);
    }
}

} // verus!
