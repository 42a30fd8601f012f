//! Emission: IR to TEAL text, in a single linear pass.
//!
//! The text is stated as a spec function of the IR: a header that calls
//! the entry point, then the subroutine of each function the entry point
//! reaches, the entry point first and the rest in source order.

use crate::ast;
use crate::lexer;
use crate::diag;
use crate::graph;
use crate::ir::{self, Inst};
use crate::text;
use crate::typed_ast::{ParamId, Type};
use vstd::prelude::*;

verus! {

/// The TEAL version the output targets: the one MainNet runs.
pub const TEAL_VERSION: u64 = 13;

/// The function the program starts at.
pub const ENTRY_POINT: &'static str = "approval";

// ---------------------------------------------------------------------------
// The text.
// ---------------------------------------------------------------------------

/// The opcode a binary operator emits.
pub open spec fn spec_binary_opcode(op: ast::BinOp) -> &'static str {
    match op {
        ast::BinOp::Add => "+",
        ast::BinOp::Sub => "-",
        ast::BinOp::Mul => "*",
        ast::BinOp::Div => "/",
        ast::BinOp::Mod => "%",
        ast::BinOp::Eq => "==",
        ast::BinOp::Ne => "!=",
        ast::BinOp::Lt => "<",
        ast::BinOp::Le => "<=",
        ast::BinOp::Gt => ">",
        ast::BinOp::Ge => ">=",
        ast::BinOp::And => "&&",
        ast::BinOp::Or => "||",
    }
}

/// The opcode a binary operator emits.
#[verifier::when_used_as_spec(spec_binary_opcode)]
pub fn binary_opcode(op: ast::BinOp) -> (s: &'static str)
    ensures
        s == spec_binary_opcode(op),
{
    match op {
        ast::BinOp::Add => "+",
        ast::BinOp::Sub => "-",
        ast::BinOp::Mul => "*",
        ast::BinOp::Div => "/",
        ast::BinOp::Mod => "%",
        ast::BinOp::Eq => "==",
        ast::BinOp::Ne => "!=",
        ast::BinOp::Lt => "<",
        ast::BinOp::Le => "<=",
        ast::BinOp::Gt => ">",
        ast::BinOp::Ge => ">=",
        ast::BinOp::And => "&&",
        ast::BinOp::Or => "||",
    }
}

/// The opcode a prefix operator emits.
pub open spec fn spec_unary_opcode(op: ast::UnOp) -> &'static str {
    match op {
        ast::UnOp::Not => "!",
    }
}

/// The opcode a prefix operator emits.
#[verifier::when_used_as_spec(spec_unary_opcode)]
pub fn unary_opcode(op: ast::UnOp) -> (s: &'static str)
    ensures
        s == spec_unary_opcode(op),
{
    match op {
        ast::UnOp::Not => "!",
    }
}

/// The line that allocates a frame slot of type `ty`: every type starts as
/// zero, which for a `bool` is false.
pub open spec fn spec_placeholder(ty: Type) -> &'static str {
    match ty {
        Type::Uint64 => "pushint 0",
        Type::Bool => "pushint 0",
    }
}

/// The line that allocates a frame slot of type `ty`.
#[verifier::when_used_as_spec(spec_placeholder)]
pub fn placeholder(ty: Type) -> (s: &'static str)
    ensures
        s == spec_placeholder(ty),
{
    match ty {
        Type::Uint64 => "pushint 0",
        Type::Bool => "pushint 0",
    }
}

/// The `frame_dig` offset of `param` in a function taking `params` of them:
/// with `proto`, the arguments sit below the frame pointer, the first at
/// `-params` and the last at `-1`.
pub open spec fn spec_offset(param: ParamId, params: nat) -> int {
    param.0 - (if params <= i64::MAX {
        params as int
    } else {
        i64::MAX as int
    })
}

/// The name of the function a call calls, empty if the program does not
/// define it, which the verifier rejects.
pub open spec fn callee_name(program: &ir::Program, callee: int) -> Seq<char> {
    if 0 <= callee < program.funcs@.len() {
        program.funcs@[callee].name@
    } else {
        Seq::empty()
    }
}

/// The line an instruction of `func` emits, without its terminator.
/// `ValueId`s are not consulted: every instruction consumes its operands
/// from the top of the stack, where the instructions that defined them left
/// them.
pub open spec fn line(program: &ir::Program, func: &ir::Function, inst: Inst) -> Seq<char> {
    match inst {
        Inst::Const { value, .. } => "pushint "@ + text::decimal(value as nat),
        Inst::Binary { op, .. } => spec_binary_opcode(op)@,
        Inst::Unary { op, .. } => spec_unary_opcode(op)@,
        Inst::Store { local, .. } => "frame_bury "@ + text::decimal(local.0 as nat),
        Inst::Load { local, .. } => "frame_dig "@ + text::decimal(local.0 as nat),
        Inst::LoadParam { param, .. } => "frame_dig "@ + text::signed_decimal(
            spec_offset(param, func.params@.len()),
        ),
        Inst::Call { callee, .. } => "callsub "@ + callee_name(program, callee.0 as int),
        Inst::Return { .. } => "retsub"@,
    }
}

/// The lines the first `n` slots of `locals` emit.
pub open spec fn frame_text(locals: Seq<Type>, n: int) -> Seq<char>
    decreases n,
{
    if n <= 0 || n > locals.len() {
        Seq::empty()
    } else {
        frame_text(locals, n - 1) + spec_placeholder(locals[n - 1])@ + "\n"@
    }
}

/// The lines the first `n` instructions of `func` emit.
pub open spec fn insts_text(program: &ir::Program, func: &ir::Function, n: int) -> Seq<char>
    decreases n,
{
    if n <= 0 || n > func.insts@.len() {
        Seq::empty()
    } else {
        insts_text(program, func, n - 1) + line(program, func, func.insts@[n - 1]) + "\n"@
    }
}

/// The subroutine for `func`: its label, its frame, and its body.
pub open spec fn function_text(program: &ir::Program, func: &ir::Function) -> Seq<char> {
    func.name@ + ":\nproto "@ + text::decimal(func.params@.len()) + " 1\n"@ + frame_text(
        func.locals@,
        func.locals@.len() as int,
    ) + insts_text(program, func, func.insts@.len() as int)
}

// ---------------------------------------------------------------------------
// What is emitted.
// ---------------------------------------------------------------------------

/// The position of the first function from the `i`th on that is the entry
/// point.
pub open spec fn find_entry(program: &ir::Program, i: int) -> Option<int>
    decreases program.funcs@.len() - i,
{
    if i < 0 || i >= program.funcs@.len() {
        None
    } else if program.funcs@[i].name@ == ENTRY_POINT@ {
        Some(i)
    } else {
        find_entry(program, i + 1)
    }
}

/// Whether one of the first `k` instructions of `insts` calls the `j`th
/// function.
pub open spec fn calls_among(insts: Seq<Inst>, k: int, j: int) -> bool
    decreases k,
{
    if k <= 0 || k > insts.len() {
        false
    } else {
        calls_among(insts, k - 1, j) || (insts[k - 1] matches Inst::Call { callee, .. } && callee.0 == j)
    }
}

/// The calls between the functions of `program`, as the edges of a graph.
pub open spec fn call_edges(program: &ir::Program) -> spec_fn(int, int) -> bool {
    |i: int, j: int| calls_among(program.funcs@[i].insts@, program.funcs@[i].insts@.len() as int, j)
}

/// Whether the entry point, the `entry`th function, reaches the `j`th:
/// itself, or one a chain of calls leads to.
pub open spec fn reached(program: &ir::Program, entry: int, j: int) -> bool {
    j == entry || graph::leads(call_edges(program), program.funcs@.len() as int, entry, j)
}

/// The subroutines of the functions from the `j`th on that the entry point
/// reaches, other than itself, in source order.
pub open spec fn rest_text(program: &ir::Program, entry: int, j: int) -> Seq<char>
    decreases program.funcs@.len() - j,
{
    if j < 0 || j >= program.funcs@.len() {
        Seq::empty()
    } else {
        (if j != entry && reached(program, entry, j) {
            function_text(program, &program.funcs@[j])
        } else {
            Seq::empty()
        }) + rest_text(program, entry, j + 1)
    }
}

/// The header: the version, and a call to the entry point.
pub open spec fn header() -> Seq<char> {
    "#pragma version "@ + text::decimal(TEAL_VERSION as nat) + "\ncallsub "@ + ENTRY_POINT@ + "\nreturn\n"@
}

/// The text of a program whose entry point is the `entry`th function.
pub open spec fn teal(program: &ir::Program, entry: int) -> Seq<char> {
    header() + function_text(program, &program.funcs@[entry]) + rest_text(program, entry, 0)
}

/// What emitting `program` reports where it fails: no entry point, or an
/// entry point that takes parameters, which nothing could pass.
pub open spec fn emit_failure(program: &ir::Program) -> Option<diag::Entry> {
    match find_entry(program, 0) {
        None => Some(
            diag::Entry {
                kind: diag::Kind::MissingEntryPoint { name: ENTRY_POINT },
                span: diag::Span { start: 0, end: 0 },
            },
        ),
        Some(i) => if program.funcs@[i].params@.len() > 0 {
            Some(
                diag::Entry {
                    kind: diag::Kind::EntryPointTakesParameters { name: ENTRY_POINT },
                    span: program.funcs@[i].span,
                },
            )
        } else {
            None
        },
    }
}

// ---------------------------------------------------------------------------
// The pass.
// ---------------------------------------------------------------------------

/// Emits the TEAL text of `program`: a call to its entry point, then the
/// entry point's subroutine, then those of every function it reaches,
/// directly or transitively, in source order, each once.
///
/// A function nothing reaches is dead code and is not emitted.
pub fn emit(program: &ir::Program, diags: &mut diag::Sink) -> (r: Option<String>)
    ensures
        match emit_failure(program) {
            Some(d) => r is None && final(diags)@ == old(diags)@.push(d),
            None => {
                &&& final(diags)@ == old(diags)@
                &&& find_entry(program, 0) matches Some(entry)
                &&& r matches Some(s)
                &&& s@ == teal(program, entry)
            },
        },
{
    let entry = match entry_point(program, diags) {
        Some(e) => e,
        None => return None,
    };
    let mut out: Vec<char> = Vec::new();
    text::push_str(&mut out, "#pragma version ");
    text::push_u64(&mut out, TEAL_VERSION);
    text::push_str(&mut out, "\ncallsub ");
    text::push_str(&mut out, ENTRY_POINT);
    text::push_str(&mut out, "\nreturn\n");
    push_function(program, &program.funcs[entry], &mut out);
    let reach = reached_from(program, entry);
    let mut j: usize = 0;
    let ghost done = out@;
    proof {
        assert(out@ =~= header() + function_text(program, &program.funcs@[entry as int]));
    }
    while j < program.funcs.len()
        invariant
            entry < program.funcs@.len(),
            j <= program.funcs@.len(),
            reach@.len() == program.funcs@.len(),
            forall|k: int| 0 <= k < reach@.len() ==> reach@[k] == reached(program, entry as int, k),
            teal(program, entry as int) == out@ + rest_text(program, entry as int, j as int),
        decreases program.funcs@.len() - j,
    {
        let ghost before = out@;
        if j != entry && reach[j] {
            push_function(program, &program.funcs[j], &mut out);
        }
        proof {
            assert(teal(program, entry as int) =~= out@ + rest_text(program, entry as int, j + 1));
        }
        j = j + 1;
    }
    proof {
        assert(out@ + rest_text(program, entry as int, j as int) =~= out@);
    }
    Some(text::into_string(out))
}

/// Finds the entry point's position, reporting it if there is none, or if
/// it takes parameters: it is called with nothing on the stack.
fn entry_point(program: &ir::Program, diags: &mut diag::Sink) -> (r: Option<usize>)
    ensures
        match emit_failure(program) {
            Some(d) => r is None && final(diags)@ == old(diags)@.push(d),
            None => {
                &&& final(diags)@ == old(diags)@
                &&& r matches Some(i)
                &&& find_entry(program, 0) == Some(i as int)
                &&& i < program.funcs@.len()
            },
        },
{
    let entry = ENTRY_POINT.to_owned();
    let mut i: usize = 0;
    while i < program.funcs.len()
        invariant
            i <= program.funcs@.len(),
            entry@ == ENTRY_POINT@,
            diags@ == old(diags)@,
            find_entry(program, 0) == find_entry(program, i as int),
        decreases program.funcs@.len() - i,
    {
        if program.funcs[i].name == entry {
            if program.funcs[i].params.len() > 0 {
                diags.push(
                    diag::Entry {
                        kind: diag::Kind::EntryPointTakesParameters { name: ENTRY_POINT },
                        span: program.funcs[i].span,
                    },
                );
                return None;
            }
            return Some(i);
        }
        i = i + 1;
    }
    // There is no token to point at.
    diags.push(
        diag::Entry {
            kind: diag::Kind::MissingEntryPoint { name: ENTRY_POINT },
            span: diag::Span { start: 0, end: 0 },
        },
    );
    None
}

/// Whether the entry point reaches each function.
fn reached_from(program: &ir::Program, entry: usize) -> (r: Vec<bool>)
    requires
        entry < program.funcs@.len(),
    ensures
        r@.len() == program.funcs@.len(),
        forall|k: int| 0 <= k < r@.len() ==> r@[k] == reached(program, entry as int, k),
{
    let n = program.funcs.len();
    let mut g: Vec<Vec<bool>> = Vec::new();
    let mut i: usize = 0;
    while i < n
        invariant
            n == program.funcs@.len(),
            i <= n,
            g@.len() == i,
            forall|a: int| 0 <= a < i ==> (#[trigger] g@[a])@.len() == n,
            forall|a: int, b: int| 0 <= a < i && 0 <= b < n ==> (#[trigger] g@[a]@[b]) == call_edges(program)(a, b),
        decreases n - i,
    {
        let row = callees(&program.funcs[i].insts, n);
        g.push(row);
        i = i + 1;
    }
    let closed = graph::closure(&g, Ghost(call_edges(program)));
    let mut r: Vec<bool> = Vec::new();
    let mut k: usize = 0;
    while k < n
        invariant
            n == program.funcs@.len(),
            entry < n,
            k <= n,
            graph::holds(closed@, n as int, |a: int, b: int| graph::leads(call_edges(program), n as int, a, b)),
            r@.len() == k,
            forall|b: int| 0 <= b < k ==> r@[b] == reached(program, entry as int, b),
        decreases n - k,
    {
        r.push(k == entry || closed[entry][k]);
        k = k + 1;
    }
    r
}

/// Which of `n` functions the instructions `insts` call.
fn callees(insts: &Vec<Inst>, n: usize) -> (row: Vec<bool>)
    ensures
        row@.len() == n,
        forall|j: int| 0 <= j < n ==> row@[j] == calls_among(insts@, insts@.len() as int, j),
{
    let mut row: Vec<bool> = Vec::new();
    let mut j: usize = 0;
    while j < n
        invariant
            j <= n,
            row@.len() == j,
            forall|b: int| 0 <= b < j ==> !row@[b],
        decreases n - j,
    {
        row.push(false);
        j = j + 1;
    }
    let mut k: usize = 0;
    while k < insts.len()
        invariant
            k <= insts@.len(),
            row@.len() == n,
            forall|b: int| 0 <= b < n ==> row@[b] == calls_among(insts@, k as int, b),
        decreases insts@.len() - k,
    {
        if let Inst::Call { callee, .. } = &insts[k] {
            if (callee.0 as usize) < n {
                row.set(callee.0 as usize, true);
            }
        }
        k = k + 1;
    }
    row
}

/// The subroutine for `func`: its label, its frame, and its body.
/// `program` is the unit it belongs to, which names the functions it calls.
pub fn function(program: &ir::Program, func: &ir::Function) -> (s: String)
    ensures
        s@ == function_text(program, func),
{
    let mut out: Vec<char> = Vec::new();
    push_function(program, func, &mut out);
    text::into_string(out)
}

/// Appends the subroutine for `func` to `out`. `program` is the unit it
/// belongs to, which names the functions it calls.
fn push_function(program: &ir::Program, func: &ir::Function, out: &mut Vec<char>)
    ensures
        final(out)@ == old(out)@ + function_text(program, func),
{
    let ghost start = out@;
    text::push_string(out, &func.name);
    text::push_str(out, ":\nproto ");
    text::push_usize(out, func.params.len());
    text::push_str(out, " 1\n");
    let ghost head = out@;
    let mut k: usize = 0;
    while k < func.locals.len()
        invariant
            k <= func.locals@.len(),
            out@ == head + frame_text(func.locals@, k as int),
        decreases func.locals@.len() - k,
    {
        text::push_str(out, placeholder(func.locals[k]));
        text::push_str(out, "\n");
        proof {
            assert(out@ =~= head + frame_text(func.locals@, k + 1));
        }
        k = k + 1;
    }
    let ghost framed = out@;
    let mut k: usize = 0;
    while k < func.insts.len()
        invariant
            k <= func.insts@.len(),
            out@ == framed + insts_text(program, func, k as int),
        decreases func.insts@.len() - k,
    {
        push_line(program, func, &func.insts[k], out);
        text::push_str(out, "\n");
        proof {
            assert(out@ =~= framed + insts_text(program, func, k + 1));
        }
        k = k + 1;
    }
    proof {
        assert(out@ =~= start + function_text(program, func));
    }
}

/// Appends the line `inst` emits to `out`.
fn push_line(program: &ir::Program, func: &ir::Function, inst: &Inst, out: &mut Vec<char>)
    ensures
        final(out)@ == old(out)@ + line(program, func, *inst),
{
    let ghost start = out@;
    match inst {
        Inst::Const { value, .. } => {
            text::push_str(out, "pushint ");
            text::push_u64(out, *value);
        },
        Inst::Binary { op, .. } => text::push_str(out, binary_opcode(*op)),
        Inst::Unary { op, .. } => text::push_str(out, unary_opcode(*op)),
        Inst::Store { local, .. } => {
            text::push_str(out, "frame_bury ");
            text::push_u64(out, local.0 as u64);
        },
        Inst::Load { local, .. } => {
            text::push_str(out, "frame_dig ");
            text::push_u64(out, local.0 as u64);
        },
        Inst::LoadParam { param, .. } => {
            text::push_str(out, "frame_dig ");
            text::push_i64(out, offset(*param, func.params.len()));
        },
        Inst::Call { callee, .. } => {
            text::push_str(out, "callsub ");
            if (callee.0 as usize) < program.funcs.len() {
                text::push_string(out, &program.funcs[callee.0 as usize].name);
            }
        },
        Inst::Return { .. } => text::push_str(out, "retsub"),
    }
    proof {
        assert(out@ =~= start + line(program, func, *inst));
    }
}

/// The `frame_dig` offset of `param` in a function taking `params` of them.
fn offset(param: ParamId, params: usize) -> (r: i64)
    ensures
        r == spec_offset(param, params as nat),
        r > i64::MIN,
{
    let n: i64 = if params as u64 <= i64::MAX as u64 {
        params as i64
    } else {
        i64::MAX
    };
    param.0 as i64 - n
}

/// The characters of the ASCII bytes `bytes`.
pub open spec fn ascii_text(bytes: Seq<u8>) -> Seq<char> {
    Seq::new(bytes.len(), |k: int| bytes[k] as char)
}

/// An operator means what it spells: the bytes the lexer matches as an
/// operator's token are the text of the opcode that operator emits.
/// So `<=` in the source is `<=` in the TEAL, `!=` is `!=`, and so on.
pub proof fn an_operator_emits_what_it_spells(b: Seq<u8>, i: int)
    requires
        0 <= i < b.len(),
    ensures
        match lexer::step(b, i) {
            lexer::Step::Tok(kind, j) => {
                &&& ast::spec_binary_op(kind) is Some ==> ascii_text(b.subrange(i, j)) == spec_binary_opcode(
                    ast::spec_binary_op(kind)->0,
                )@
                &&& ast::spec_unary_op(kind) is Some ==> ascii_text(b.subrange(i, j)) == spec_unary_opcode(
                    ast::spec_unary_op(kind)->0,
                )@
            },
            _ => true,
        },
{
    reveal_strlit("+");
    reveal_strlit("-");
    reveal_strlit("*");
    reveal_strlit("/");
    reveal_strlit("%");
    reveal_strlit("==");
    reveal_strlit("!=");
    reveal_strlit("<");
    reveal_strlit("<=");
    reveal_strlit(">");
    reveal_strlit(">=");
    reveal_strlit("&&");
    reveal_strlit("||");
    reveal_strlit("!");
    if let lexer::Step::Tok(kind, j) = lexer::step(b, i) {
        if ast::spec_binary_op(kind) is Some {
            let t = ascii_text(b.subrange(i, j));
            let o = spec_binary_opcode(ast::spec_binary_op(kind)->0)@;
            if j == i + 1 {
                assert(t =~= seq![b[i] as char]);
            } else {
                assert(j == i + 2);
                assert(t =~= seq![b[i] as char, b[i + 1] as char]);
            }
            assert(t =~= o);
        }
        if ast::spec_unary_op(kind) is Some {
            let t = ascii_text(b.subrange(i, j));
            assert(j == i + 1);
            assert(t =~= seq![b[i] as char]);
            assert(t =~= spec_unary_opcode(ast::spec_unary_op(kind)->0)@);
        }
    }
}

} // verus!
