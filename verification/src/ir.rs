//! The IR: a flat single-assignment instruction list for a stack machine,
//! and the verifier that enforces its invariant.
//!
//! The invariant has five parts: definitions are dense, operands are
//! consumed in stack order, a function ends with its one `Return`, every
//! slot and parameter named is within the frame, and every operand has the
//! type its instruction needs.

use crate::ast;
use crate::diag;
use crate::text;
use crate::typed_ast::{self, FuncId, LocalId, ParamId, Type};
use vstd::prelude::*;

verus! {

/// The value a defining instruction produces. Numbered per function.
#[derive(Debug, Clone, Copy, PartialEq, Eq, Structural)]
pub struct ValueId(pub u32);

/// A single instruction.
#[derive(Debug, Clone, PartialEq, Eq)]
pub enum Inst {
    /// Defines `dest` as the constant `value` of type `ty`.
    Const {
        /// The value it defines.
        dest: ValueId,
        /// The type it has.
        ty: Type,
        /// The constant it holds: for a `Bool`, `0` or `1`.
        value: u64,
        /// The literal it came from.
        span: diag::Span,
    },
    /// Defines `dest` as `lhs op rhs`.
    Binary {
        /// The value it defines.
        dest: ValueId,
        /// The operator it applies.
        op: ast::BinOp,
        /// The left operand, consumed first.
        lhs: ValueId,
        /// The right operand, consumed second.
        rhs: ValueId,
        /// The expression it came from.
        span: diag::Span,
    },
    /// Defines `dest` as `op operand`.
    Unary {
        /// The value it defines.
        dest: ValueId,
        /// The operator it applies.
        op: ast::UnOp,
        /// The operand, consumed.
        operand: ValueId,
        /// The expression it came from.
        span: diag::Span,
    },
    /// Writes `value` into frame slot `local`.
    Store {
        /// The slot it writes.
        local: LocalId,
        /// The value it writes, consumed.
        value: ValueId,
        /// The declaration it came from.
        span: diag::Span,
    },
    /// Defines `dest` as a copy of frame slot `local`.
    Load {
        /// The value it defines.
        dest: ValueId,
        /// The slot it reads.
        local: LocalId,
        /// The expression it came from.
        span: diag::Span,
    },
    /// Defines `dest` as a copy of parameter `param`.
    LoadParam {
        /// The value it defines.
        dest: ValueId,
        /// The parameter it reads.
        param: ParamId,
        /// The expression it came from.
        span: diag::Span,
    },
    /// Defines `dest` as what `callee` returns for `args`.
    Call {
        /// The value it defines.
        dest: ValueId,
        /// The function it calls.
        callee: FuncId,
        /// The arguments, consumed in order.
        args: Vec<ValueId>,
        /// The call it came from.
        span: diag::Span,
    },
    /// Returns `value` from the enclosing function.
    Return {
        /// The value it returns.
        value: ValueId,
        /// The `return` statement it came from.
        span: diag::Span,
    },
}

impl Inst {
    /// The source it came from.
    pub open spec fn spec_span(&self) -> diag::Span {
        match self {
            Inst::Const { span, .. } => *span,
            Inst::Binary { span, .. } => *span,
            Inst::Unary { span, .. } => *span,
            Inst::Store { span, .. } => *span,
            Inst::Load { span, .. } => *span,
            Inst::LoadParam { span, .. } => *span,
            Inst::Call { span, .. } => *span,
            Inst::Return { span, .. } => *span,
        }
    }

    /// The source it came from.
    #[verifier::when_used_as_spec(spec_span)]
    pub fn span(&self) -> (s: diag::Span)
        ensures
            s == self.spec_span(),
    {
        match self {
            Inst::Const { span, .. } => *span,
            Inst::Binary { span, .. } => *span,
            Inst::Unary { span, .. } => *span,
            Inst::Store { span, .. } => *span,
            Inst::Load { span, .. } => *span,
            Inst::LoadParam { span, .. } => *span,
            Inst::Call { span, .. } => *span,
            Inst::Return { span, .. } => *span,
        }
    }
}

/// The view of an instruction: the same, with its arguments as a sequence.
pub enum InstV {
    Const { dest: ValueId, ty: Type, value: u64, span: diag::Span },
    Binary { dest: ValueId, op: ast::BinOp, lhs: ValueId, rhs: ValueId, span: diag::Span },
    Unary { dest: ValueId, op: ast::UnOp, operand: ValueId, span: diag::Span },
    Store { local: LocalId, value: ValueId, span: diag::Span },
    Load { dest: ValueId, local: LocalId, span: diag::Span },
    LoadParam { dest: ValueId, param: ParamId, span: diag::Span },
    Call { dest: ValueId, callee: FuncId, args: Seq<ValueId>, span: diag::Span },
    Return { value: ValueId, span: diag::Span },
}

impl View for Inst {
    type V = InstV;

    open spec fn view(&self) -> InstV {
        match *self {
            Inst::Const { dest, ty, value, span } => InstV::Const { dest, ty, value, span },
            Inst::Binary { dest, op, lhs, rhs, span } => InstV::Binary { dest, op, lhs, rhs, span },
            Inst::Unary { dest, op, operand, span } => InstV::Unary { dest, op, operand, span },
            Inst::Store { local, value, span } => InstV::Store { local, value, span },
            Inst::Load { dest, local, span } => InstV::Load { dest, local, span },
            Inst::LoadParam { dest, param, span } => InstV::LoadParam { dest, param, span },
            Inst::Call { dest, callee, args, span } => InstV::Call { dest, callee, args: args@, span },
            Inst::Return { value, span } => InstV::Return { value, span },
        }
    }
}

/// The views of `insts`.
pub open spec fn views(insts: Seq<Inst>) -> Seq<InstV> {
    insts.map_values(|i: Inst| i@)
}

/// A function's body, as instructions.
#[derive(Debug, Clone, PartialEq, Eq)]
pub struct Function {
    /// The declared name.
    pub name: String,
    /// The return type.
    pub ret: Type,
    /// The parameters' types, indexed by `ParamId`.
    pub params: Vec<Type>,
    /// The frame: one slot per variable, indexed by `LocalId`.
    pub locals: Vec<Type>,
    /// The instructions, in execution order.
    pub insts: Vec<Inst>,
    /// From `func` through the closing `}`.
    pub span: diag::Span,
}

/// A whole compilation unit.
#[derive(Debug, Clone, PartialEq, Eq)]
pub struct Program {
    /// The functions it defines, in source order, indexed by `FuncId`.
    pub funcs: Vec<Function>,
}

/// A way a function can fail the IR invariant.
#[derive(Debug, Clone, Copy, PartialEq, Eq, Structural)]
pub enum Violation {
    /// An instruction defines a value out of the dense numbering.
    SparseDefinition {
        /// The offending instruction's position.
        index: usize,
        /// The value it defines.
        dest: ValueId,
        /// The value it should have defined.
        expected: ValueId,
    },
    /// An instruction names an operand that is not the one on top of the
    /// stack.
    UseOutOfOrder {
        /// The offending instruction's position.
        index: usize,
        /// Which operand it is, counting from 0.
        position: usize,
        /// The value it uses.
        value: ValueId,
        /// The value it should have used.
        expected: ValueId,
    },
    /// An instruction names more operands than there are live values.
    StackUnderflow {
        /// The offending instruction's position.
        index: usize,
        /// How many operands it names.
        needed: usize,
        /// How many values are live.
        available: usize,
    },
    /// The function ends with values that nothing consumed.
    ValuesLeftOnStack {
        /// How many of them there are.
        count: usize,
    },
    /// An instruction returns without being the last one.
    ReturnNotLast {
        /// The offending instruction's position.
        index: usize,
    },
    /// The function's last instruction is not a `Return`.
    MissingReturn,
    /// The frame holds more slots than one can address.
    FrameTooLarge {
        /// How many slots it holds.
        count: usize,
    },
    /// An instruction names a slot the frame does not have.
    LocalOutOfRange {
        /// The offending instruction's position.
        index: usize,
        /// The slot it names.
        local: LocalId,
        /// How many slots the frame holds.
        count: usize,
    },
    /// The function takes more parameters than one can address.
    TooManyParams {
        /// How many it takes.
        count: usize,
    },
    /// An instruction names a parameter the function does not take.
    ParamOutOfRange {
        /// The offending instruction's position.
        index: usize,
        /// The parameter it names.
        param: ParamId,
        /// How many parameters the function takes.
        count: usize,
    },
    /// An instruction uses an operand of the wrong type.
    OperandType {
        /// The offending instruction's position.
        index: usize,
        /// Which operand it is, counting from 0.
        position: usize,
        /// The value it uses.
        value: ValueId,
        /// The type that value has.
        found: Type,
        /// The type the instruction needs.
        expected: Type,
    },
    /// An instruction calls a function the program does not define.
    UnknownCallee {
        /// The offending instruction's position.
        index: usize,
        /// The function it calls.
        callee: FuncId,
    },
    /// A `Bool` constant holds something other than `0` or `1`.
    BoolOutOfRange {
        /// The offending instruction's position.
        index: usize,
        /// The constant it holds.
        value: u64,
    },
}

/// `n` in decimal.
pub open spec fn dec(n: nat) -> Seq<char> {
    text::decimal(n)
}

impl Violation {
    /// The message the violation renders as: the part of the invariant it
    /// breaks, then how.
    pub open spec fn message(&self) -> Seq<char> {
        match *self {
            Violation::SparseDefinition { index, dest, expected } =>
                "dense single assignment: instruction "@ + dec(index as nat) + " defines %"@
                    + dec(dest.0 as nat) + ", expected %"@ + dec(expected.0 as nat),
            Violation::UseOutOfOrder { index, position, value, expected } =>
                "consumed in stack order: instruction "@ + dec(index as nat) + " uses %"@ + dec(
                    value.0 as nat,
                ) + " as operand "@ + dec(position as nat) + ", expected %"@ + dec(expected.0 as nat),
            Violation::StackUnderflow { index, needed, available } =>
                "consumed in stack order: instruction "@ + dec(index as nat) + " needs "@ + dec(
                    needed as nat,
                ) + " operands but "@ + dec(available as nat) + " values are live"@,
            Violation::ValuesLeftOnStack { count } =>
                "consumed in stack order: "@ + dec(count as nat) + " values are left unconsumed"@,
            Violation::ReturnNotLast { index } =>
                "ends with `Return`: instruction "@ + dec(index as nat) + " returns but is not the last"@,
            Violation::MissingReturn => "ends with `Return`: the function does not end with a return"@,
            Violation::FrameTooLarge { count } =>
                "addressed within the frame: "@ + dec(count as nat) + " locals exceed the capacity of "@
                    + dec(LocalId::CAPACITY as nat),
            Violation::LocalOutOfRange { index, local, count } =>
                "addressed within the frame: instruction "@ + dec(index as nat) + " names l"@ + dec(
                    local.0 as nat,
                ) + " but the frame has "@ + dec(count as nat) + " locals"@,
            Violation::TooManyParams { count } =>
                "addressed within the frame: "@ + dec(count as nat) + " parameters exceed the capacity of "@
                    + dec(ParamId::CAPACITY as nat),
            Violation::ParamOutOfRange { index, param, count } =>
                "addressed within the frame: instruction "@ + dec(index as nat) + " names p"@ + dec(
                    param.0 as nat,
                ) + " but the function takes "@ + dec(count as nat) + " parameters"@,
            Violation::OperandType { index, position, value, found, expected } =>
                "well typed: instruction "@ + dec(index as nat) + " uses %"@ + dec(value.0 as nat)
                    + " of type "@ + found.name() + " as operand "@ + dec(position as nat) + ", expected "@
                    + expected.name(),
            Violation::UnknownCallee { index, callee } =>
                "well typed: instruction "@ + dec(index as nat) + " calls f"@ + dec(callee.0 as nat)
                    + " but the program does not define it"@,
            Violation::BoolOutOfRange { index, value } =>
                "well typed: instruction "@ + dec(index as nat) + " defines a bool constant of "@ + dec(
                    value as nat,
                ) + ", expected 0 or 1"@,
        }
    }

    /// The message the violation renders as.
    pub fn to_string(&self) -> (s: String)
        ensures
            s@ == self.message(),
    {
        let mut out: Vec<char> = Vec::new();
        self.push_message(&mut out);
        text::into_string(out)
    }

    /// Appends the message the violation renders as to `out`.
    pub fn push_message(&self, out: &mut Vec<char>)
        ensures
            final(out)@ == old(out)@ + self.message(),
    {
        let ghost start = out@;
        match *self {
            Violation::SparseDefinition { index, dest, expected } => {
                text::push_str(out, "dense single assignment: instruction ");
                text::push_usize(out, index);
                text::push_str(out, " defines %");
                text::push_u64(out, dest.0 as u64);
                text::push_str(out, ", expected %");
                text::push_u64(out, expected.0 as u64);
            },
            Violation::UseOutOfOrder { index, position, value, expected } => {
                text::push_str(out, "consumed in stack order: instruction ");
                text::push_usize(out, index);
                text::push_str(out, " uses %");
                text::push_u64(out, value.0 as u64);
                text::push_str(out, " as operand ");
                text::push_usize(out, position);
                text::push_str(out, ", expected %");
                text::push_u64(out, expected.0 as u64);
            },
            Violation::StackUnderflow { index, needed, available } => {
                text::push_str(out, "consumed in stack order: instruction ");
                text::push_usize(out, index);
                text::push_str(out, " needs ");
                text::push_usize(out, needed);
                text::push_str(out, " operands but ");
                text::push_usize(out, available);
                text::push_str(out, " values are live");
            },
            Violation::ValuesLeftOnStack { count } => {
                text::push_str(out, "consumed in stack order: ");
                text::push_usize(out, count);
                text::push_str(out, " values are left unconsumed");
            },
            Violation::ReturnNotLast { index } => {
                text::push_str(out, "ends with `Return`: instruction ");
                text::push_usize(out, index);
                text::push_str(out, " returns but is not the last");
            },
            Violation::MissingReturn => {
                text::push_str(out, "ends with `Return`: the function does not end with a return");
            },
            Violation::FrameTooLarge { count } => {
                text::push_str(out, "addressed within the frame: ");
                text::push_usize(out, count);
                text::push_str(out, " locals exceed the capacity of ");
                text::push_usize(out, LocalId::CAPACITY);
            },
            Violation::LocalOutOfRange { index, local, count } => {
                text::push_str(out, "addressed within the frame: instruction ");
                text::push_usize(out, index);
                text::push_str(out, " names l");
                text::push_u64(out, local.0 as u64);
                text::push_str(out, " but the frame has ");
                text::push_usize(out, count);
                text::push_str(out, " locals");
            },
            Violation::TooManyParams { count } => {
                text::push_str(out, "addressed within the frame: ");
                text::push_usize(out, count);
                text::push_str(out, " parameters exceed the capacity of ");
                text::push_usize(out, ParamId::CAPACITY);
            },
            Violation::ParamOutOfRange { index, param, count } => {
                text::push_str(out, "addressed within the frame: instruction ");
                text::push_usize(out, index);
                text::push_str(out, " names p");
                text::push_u64(out, param.0 as u64);
                text::push_str(out, " but the function takes ");
                text::push_usize(out, count);
                text::push_str(out, " parameters");
            },
            Violation::OperandType { index, position, value, found, expected } => {
                text::push_str(out, "well typed: instruction ");
                text::push_usize(out, index);
                text::push_str(out, " uses %");
                text::push_u64(out, value.0 as u64);
                text::push_str(out, " of type ");
                found.push_name(out);
                text::push_str(out, " as operand ");
                text::push_usize(out, position);
                text::push_str(out, ", expected ");
                expected.push_name(out);
            },
            Violation::UnknownCallee { index, callee } => {
                text::push_str(out, "well typed: instruction ");
                text::push_usize(out, index);
                text::push_str(out, " calls f");
                text::push_u64(out, callee.0 as u64);
                text::push_str(out, " but the program does not define it");
            },
            Violation::BoolOutOfRange { index, value } => {
                text::push_str(out, "well typed: instruction ");
                text::push_usize(out, index);
                text::push_str(out, " defines a bool constant of ");
                text::push_u64(out, value);
                text::push_str(out, ", expected 0 or 1");
            },
        }
        assert(out@ =~= start + self.message());
    }
}

// ---------------------------------------------------------------------------
// The invariant, as a function of the instructions.
// ---------------------------------------------------------------------------

/// A live value and its type.
pub type Live = (ValueId, Type);

/// The first instruction from `i` on that returns without being the last.
pub open spec fn misplaced_return(insts: Seq<Inst>, i: int) -> Option<int>
    decreases insts.len() - i,
{
    if i < 0 || i >= insts.len() - 1 {
        None
    } else if insts[i] is Return {
        Some(i)
    } else {
        misplaced_return(insts, i + 1)
    }
}

/// The last instruction is a `Return`, and no other one is.
pub open spec fn spec_verify_return(insts: Seq<Inst>) -> Result<(), Violation> {
    match misplaced_return(insts, 0) {
        Some(i) => Err(Violation::ReturnNotLast { index: i as usize }),
        None => if insts.len() > 0 && insts.last() is Return {
            Ok(())
        } else {
            Err(Violation::MissingReturn)
        },
    }
}

/// The first of the operands from `p` on that is not the live value it
/// should be, or does not have the type wanted; the operands stand for the
/// values from `top` on, the `k`th for the `top + k`th.
pub open spec fn operand_mismatch(
    stack: Seq<Live>,
    top: int,
    index: int,
    operands: Seq<ValueId>,
    expected: Seq<Type>,
    p: int,
) -> Option<Violation>
    decreases operands.len() - p,
{
    if p < 0 || p >= operands.len() || p >= expected.len() {
        None
    } else {
        let (live, found) = stack[top + p];
        if operands[p] != live {
            Some(
                Violation::UseOutOfOrder {
                    index: index as usize,
                    position: p as usize,
                    value: operands[p],
                    expected: live,
                },
            )
        } else if found != expected[p] {
            Some(
                Violation::OperandType {
                    index: index as usize,
                    position: p as usize,
                    value: operands[p],
                    found,
                    expected: expected[p],
                },
            )
        } else {
            operand_mismatch(stack, top, index, operands, expected, p + 1)
        }
    }
}

/// Consumes `operands`, which instruction `index` names, off the top of
/// `stack`: the stack left, or the violation.
pub open spec fn spec_consume(stack: Seq<Live>, index: int, operands: Seq<ValueId>, expected: Seq<Type>) -> Result<
    Seq<Live>,
    Violation,
> {
    if stack.len() < operands.len() {
        Err(
            Violation::StackUnderflow {
                index: index as usize,
                needed: operands.len() as usize,
                available: stack.len() as usize,
            },
        )
    } else {
        let top = stack.len() - operands.len();
        match operand_mismatch(stack, top, index, operands, expected, 0) {
            Some(v) => Err(v),
            None => Ok(stack.take(top)),
        }
    }
}

/// The type a binary operator wants of both operands: its own, or for `==`
/// and `!=` that of the left operand, the value second from the top.
pub open spec fn wanted_type(op: ast::BinOp, stack: Seq<Live>) -> Type {
    match typed_ast::spec_operand_type(op) {
        Some(t) => t,
        None => if stack.len() >= 2 {
            stack[stack.len() - 2].1
        } else {
            Type::Uint64
        },
    }
}

/// Instruction `index` of `func`, run on `stack`: the stack after it has
/// consumed its operands and the value it defines, if it defines one.
pub open spec fn spec_step(program: &Program, func: &Function, index: int, stack: Seq<Live>) -> Result<
    (Seq<Live>, Option<Live>),
    Violation,
> {
    match func.insts@[index] {
        Inst::Const { dest, ty, value, .. } => if ty == Type::Bool && value > 1 {
            Err(Violation::BoolOutOfRange { index: index as usize, value })
        } else {
            Ok((stack, Some((dest, ty))))
        },
        Inst::Binary { dest, op, lhs, rhs, .. } => {
            let ty = wanted_type(op, stack);
            match spec_consume(stack, index, seq![lhs, rhs], seq![ty, ty]) {
                Ok(s) => Ok((s, Some((dest, typed_ast::spec_result_type(op))))),
                Err(v) => Err(v),
            }
        },
        Inst::Unary { dest, operand, .. } => match spec_consume(stack, index, seq![operand], seq![Type::Bool]) {
            Ok(s) => Ok((s, Some((dest, Type::Bool)))),
            Err(v) => Err(v),
        },
        Inst::Store { local, value, .. } => if local.0 < func.locals@.len() {
            match spec_consume(stack, index, seq![value], seq![func.locals@[local.0 as int]]) {
                Ok(s) => Ok((s, None)),
                Err(v) => Err(v),
            }
        } else {
            Err(Violation::LocalOutOfRange { index: index as usize, local, count: func.locals@.len() as usize })
        },
        Inst::Load { dest, local, .. } => if local.0 < func.locals@.len() {
            Ok((stack, Some((dest, func.locals@[local.0 as int]))))
        } else {
            Err(Violation::LocalOutOfRange { index: index as usize, local, count: func.locals@.len() as usize })
        },
        Inst::LoadParam { dest, param, .. } => if param.0 < func.params@.len() {
            Ok((stack, Some((dest, func.params@[param.0 as int]))))
        } else {
            Err(Violation::ParamOutOfRange { index: index as usize, param, count: func.params@.len() as usize })
        },
        Inst::Call { dest, callee, args, .. } => if callee.0 < program.funcs@.len() {
            let called = program.funcs@[callee.0 as int];
            match spec_consume(stack, index, args@, called.params@) {
                Ok(s) => Ok((s, Some((dest, called.ret)))),
                Err(v) => Err(v),
            }
        } else {
            Err(Violation::UnknownCallee { index: index as usize, callee })
        },
        Inst::Return { value, .. } => match spec_consume(stack, index, seq![value], seq![func.ret]) {
            Ok(s) => Ok((s, None)),
            Err(v) => Err(v),
        },
    }
}

/// The instructions of `func` from `index` on, run on `stack` after `defs`
/// definitions.
pub open spec fn spec_run(program: &Program, func: &Function, index: int, stack: Seq<Live>, defs: nat) -> Result<
    (),
    Violation,
>
    decreases func.insts@.len() - index,
{
    if index < 0 || index >= func.insts@.len() {
        if stack.len() == 0 {
            Ok(())
        } else {
            Err(Violation::ValuesLeftOnStack { count: stack.len() as usize })
        }
    } else {
        match spec_step(program, func, index, stack) {
            Err(v) => Err(v),
            Ok((s, None)) => spec_run(program, func, index + 1, s, defs),
            Ok((s, Some((dest, ty)))) => if dest.0 != defs {
                Err(
                    Violation::SparseDefinition {
                        index: index as usize,
                        dest,
                        expected: ValueId(defs as u32),
                    },
                )
            } else {
                spec_run(program, func, index + 1, s.push((dest, ty)), defs + 1)
            },
        }
    }
}

/// The verdict on `func`, a function of `program`: the first violation of
/// the invariant, or none.
pub open spec fn spec_verify(program: &Program, func: &Function) -> Result<(), Violation> {
    match spec_verify_return(func.insts@) {
        Err(v) => Err(v),
        Ok(()) => if func.params@.len() > ParamId::CAPACITY {
            Err(Violation::TooManyParams { count: func.params@.len() as usize })
        } else if func.locals@.len() > LocalId::CAPACITY {
            Err(Violation::FrameTooLarge { count: func.locals@.len() as usize })
        } else {
            spec_run(program, func, 0, Seq::empty(), 0)
        },
    }
}

/// Whether the verifier accepts every function of `program`.
pub open spec fn program_verifies(program: Program) -> bool {
    forall|i: int| #![trigger program.funcs@[i]] 0 <= i < program.funcs@.len() ==> spec_verify(&program, &program.funcs@[i]) is Ok
}

// ---------------------------------------------------------------------------
// The verifier.
// ---------------------------------------------------------------------------

/// Checks the IR invariant, returning the first violation. `program` is the
/// unit `func` belongs to, which holds the functions it calls.
pub fn verify(program: &Program, func: &Function) -> (r: Result<(), Violation>)
    requires
        func.insts@.len() <= u32::MAX,
    ensures
        r == spec_verify(program, func),
{
    match verify_return(func) {
        Err(v) => return Err(v),
        Ok(()) => {},
    }
    if func.params.len() > ParamId::CAPACITY {
        return Err(Violation::TooManyParams { count: func.params.len() });
    }
    if func.locals.len() > LocalId::CAPACITY {
        return Err(Violation::FrameTooLarge { count: func.locals.len() });
    }
    // The values defined and not yet consumed, most recent last, each with
    // its type.
    let mut stack: Vec<Live> = Vec::new();
    // The number of values defined so far: the next definition must be
    // `ValueId(defs)`.
    let mut defs: u32 = 0;
    let mut index: usize = 0;
    while index < func.insts.len()
        invariant
            index <= func.insts@.len() <= u32::MAX,
            defs <= index,
            spec_verify(program, func) == spec_run(program, func, index as int, stack@, defs as nat),
        decreases func.insts@.len() - index,
    {
        match step(program, func, index, &mut stack) {
            Err(v) => return Err(v),
            Ok(None) => {},
            Ok(Some((dest, ty))) => {
                if dest.0 != defs {
                    return Err(Violation::SparseDefinition { index, dest, expected: ValueId(defs) });
                }
                defs = defs + 1;
                stack.push((dest, ty));
            },
        }
        index = index + 1;
    }
    if stack.len() != 0 {
        return Err(Violation::ValuesLeftOnStack { count: stack.len() });
    }
    Ok(())
}

/// Runs instruction `index` of `func` on `stack`: consumes its operands and
/// returns the value it defines, if it defines one.
fn step(program: &Program, func: &Function, index: usize, stack: &mut Vec<Live>) -> (r: Result<
    Option<Live>,
    Violation,
>)
    requires
        index < func.insts@.len(),
    ensures
        match spec_step(program, func, index as int, old(stack)@) {
            Ok((s, d)) => r == Ok::<Option<Live>, Violation>(d) && final(stack)@ == s,
            Err(v) => r == Err::<Option<Live>, Violation>(v) && final(stack)@ == old(stack)@,
        },
{
    match &func.insts[index] {
        Inst::Const { dest, ty, value, .. } => {
            if *ty == Type::Bool && *value > 1 {
                return Err(Violation::BoolOutOfRange { index, value: *value });
            }
            Ok(Some((*dest, *ty)))
        },
        Inst::Binary { dest, op, lhs, rhs, .. } => {
            let ty = match typed_ast::operand_type(*op) {
                Some(t) => t,
                None => if stack.len() >= 2 {
                    stack[stack.len() - 2].1
                } else {
                    Type::Uint64
                },
            };
            let operands = vec![*lhs, *rhs];
            let expected = vec![ty, ty];
            proof {
                assert(operands@ =~= seq![*lhs, *rhs]);
                assert(expected@ =~= seq![ty, ty]);
            }
            consume(stack, index, operands.as_slice(), expected.as_slice())?;
            Ok(Some((*dest, typed_ast::result_type(*op))))
        },
        Inst::Unary { dest, operand, .. } => {
            let operands = vec![*operand];
            let expected = vec![Type::Bool];
            proof {
                assert(operands@ =~= seq![*operand]);
                assert(expected@ =~= seq![Type::Bool]);
            }
            consume(stack, index, operands.as_slice(), expected.as_slice())?;
            Ok(Some((*dest, Type::Bool)))
        },
        Inst::Store { local, value, .. } => {
            let ty = slot(&func.locals, *local, index)?;
            let operands = vec![*value];
            let expected = vec![ty];
            proof {
                assert(operands@ =~= seq![*value]);
                assert(expected@ =~= seq![ty]);
            }
            consume(stack, index, operands.as_slice(), expected.as_slice())?;
            Ok(None)
        },
        Inst::Load { dest, local, .. } => {
            let ty = slot(&func.locals, *local, index)?;
            Ok(Some((*dest, ty)))
        },
        Inst::LoadParam { dest, param, .. } => {
            let ty = parameter(&func.params, *param, index)?;
            Ok(Some((*dest, ty)))
        },
        Inst::Call { dest, callee, args, .. } => {
            if (callee.0 as usize) < program.funcs.len() {
                let called = &program.funcs[callee.0 as usize];
                consume(stack, index, args.as_slice(), called.params.as_slice())?;
                Ok(Some((*dest, called.ret)))
            } else {
                Err(Violation::UnknownCallee { index, callee: *callee })
            }
        },
        Inst::Return { value, .. } => {
            let operands = vec![*value];
            let expected = vec![func.ret];
            proof {
                assert(operands@ =~= seq![*value]);
                assert(expected@ =~= seq![func.ret]);
            }
            consume(stack, index, operands.as_slice(), expected.as_slice())?;
            Ok(None)
        },
    }
}

/// Consumes `operands` off `stack`, checking that they are the values on top
/// of it, in order, and that they have the types `expected`.
fn consume(stack: &mut Vec<Live>, index: usize, operands: &[ValueId], expected: &[Type]) -> (r: Result<
    (),
    Violation,
>)
    ensures
        match spec_consume(old(stack)@, index as int, operands@, expected@) {
            Ok(s) => r is Ok && final(stack)@ == s,
            Err(v) => r == Err::<(), Violation>(v) && final(stack)@ == old(stack)@,
        },
{
    let available = stack.len();
    if available < operands.len() {
        return Err(Violation::StackUnderflow { index, needed: operands.len(), available });
    }
    let top = available - operands.len();
    let mut position: usize = 0;
    while position < operands.len() && position < expected.len()
        invariant
            stack@ == old(stack)@,
            available == stack@.len(),
            top == stack@.len() - operands@.len(),
            position <= operands@.len(),
            operand_mismatch(stack@, top as int, index as int, operands@, expected@, 0)
                == operand_mismatch(stack@, top as int, index as int, operands@, expected@, position as int),
        decreases operands@.len() - position,
    {
        let (live, found) = stack[top + position];
        if operands[position] != live {
            return Err(
                Violation::UseOutOfOrder { index, position, value: operands[position], expected: live },
            );
        }
        if found != expected[position] {
            return Err(
                Violation::OperandType {
                    index,
                    position,
                    value: operands[position],
                    found,
                    expected: expected[position],
                },
            );
        }
        position = position + 1;
    }
    stack.truncate(top);
    Ok(())
}

/// Checks that `local` is a slot of the frame, returning its type.
fn slot(locals: &Vec<Type>, local: LocalId, index: usize) -> (r: Result<Type, Violation>)
    ensures
        local.0 < locals@.len() ==> r == Ok::<Type, Violation>(locals@[local.0 as int]),
        local.0 >= locals@.len() ==> r == Err::<Type, Violation>(
            Violation::LocalOutOfRange { index, local, count: locals@.len() as usize },
        ),
{
    if (local.0 as usize) < locals.len() {
        Ok(locals[local.0 as usize])
    } else {
        Err(Violation::LocalOutOfRange { index, local, count: locals.len() })
    }
}

/// Checks that `param` is one the function takes, returning its type.
fn parameter(params: &Vec<Type>, param: ParamId, index: usize) -> (r: Result<Type, Violation>)
    ensures
        param.0 < params@.len() ==> r == Ok::<Type, Violation>(params@[param.0 as int]),
        param.0 >= params@.len() ==> r == Err::<Type, Violation>(
            Violation::ParamOutOfRange { index, param, count: params@.len() as usize },
        ),
{
    if (param.0 as usize) < params.len() {
        Ok(params[param.0 as usize])
    } else {
        Err(Violation::ParamOutOfRange { index, param, count: params.len() })
    }
}

/// Checks that the last instruction is a `Return`, and no other one is.
fn verify_return(func: &Function) -> (r: Result<(), Violation>)
    ensures
        r == spec_verify_return(func.insts@),
{
    let len = func.insts.len();
    let mut index: usize = 0;
    while len > 0 && index < len - 1
        invariant
            len == func.insts@.len(),
            misplaced_return(func.insts@, 0) == misplaced_return(func.insts@, index as int),
        decreases len - index,
    {
        if let Inst::Return { .. } = func.insts[index] {
            return Err(Violation::ReturnNotLast { index });
        }
        index = index + 1;
    }
    if len > 0 {
        if let Inst::Return { .. } = func.insts[len - 1] {
            return Ok(());
        }
    }
    Err(Violation::MissingReturn)
}

// ---------------------------------------------------------------------------
// The invariant, stated over the whole function.
// ---------------------------------------------------------------------------

/// The values `inst` consumes, in order.
pub open spec fn operands(inst: Inst) -> Seq<ValueId> {
    match inst {
        Inst::Binary { lhs, rhs, .. } => seq![lhs, rhs],
        Inst::Unary { operand, .. } => seq![operand],
        Inst::Store { value, .. } => seq![value],
        Inst::Call { args, .. } => args@,
        Inst::Return { value, .. } => seq![value],
        _ => Seq::empty(),
    }
}

/// The types `inst`, an instruction of `func`, wants of its operands, where
/// the values live before it are `stack`.
pub open spec fn wanted(program: &Program, func: &Function, inst: Inst, stack: Seq<Live>) -> Seq<Type> {
    match inst {
        Inst::Binary { op, .. } => {
            let t = wanted_type(op, stack);
            seq![t, t]
        },
        Inst::Unary { .. } => seq![Type::Bool],
        Inst::Store { local, .. } => seq![func.locals@[local.0 as int]],
        Inst::Call { callee, .. } => program.funcs@[callee.0 as int].params@,
        Inst::Return { .. } => seq![func.ret],
        _ => Seq::empty(),
    }
}

/// The value `inst`, an instruction of `func`, defines, with its type, if
/// it defines one.
pub open spec fn defined(program: &Program, func: &Function, inst: Inst) -> Option<Live> {
    match inst {
        Inst::Const { dest, ty, .. } => Some((dest, ty)),
        Inst::Binary { dest, op, .. } => Some((dest, typed_ast::spec_result_type(op))),
        Inst::Unary { dest, .. } => Some((dest, Type::Bool)),
        Inst::Load { dest, local, .. } => Some((dest, func.locals@[local.0 as int])),
        Inst::LoadParam { dest, param, .. } => Some((dest, func.params@[param.0 as int])),
        Inst::Call { dest, callee, .. } => Some((dest, program.funcs@[callee.0 as int].ret)),
        _ => None,
    }
}

/// Whether `inst` names only slots, parameters and functions that exist,
/// and, if it is a boolean constant, is 0 or 1.
pub open spec fn names_exist(program: &Program, func: &Function, inst: Inst) -> bool {
    match inst {
        Inst::Const { ty, value, .. } => !(ty == Type::Bool && value > 1),
        Inst::Store { local, .. } => local.0 < func.locals@.len(),
        Inst::Load { local, .. } => local.0 < func.locals@.len(),
        Inst::LoadParam { param, .. } => param.0 < func.params@.len(),
        Inst::Call { callee, .. } => callee.0 < program.funcs@.len(),
        _ => true,
    }
}

/// The values live before instruction `i` of `func`, each with its type:
/// each instruction before it takes its operands off the top and pushes
/// what it defines.
pub open spec fn live(program: &Program, func: &Function, i: int) -> Seq<Live>
    decreases i,
{
    if i <= 0 || i > func.insts@.len() {
        Seq::empty()
    } else {
        let s = live(program, func, i - 1);
        let inst = func.insts@[i - 1];
        let rest = s.take(s.len() - operands(inst).len());
        match defined(program, func, inst) {
            Some(d) => rest.push(d),
            None => rest,
        }
    }
}

/// How many of the first `i` instructions of `func` define a value.
pub open spec fn defined_before(program: &Program, func: &Function, i: int) -> nat
    decreases i,
{
    if i <= 0 || i > func.insts@.len() {
        0
    } else {
        defined_before(program, func, i - 1) + if defined(program, func, func.insts@[i - 1]) is Some {
            1nat
        } else {
            0nat
        }
    }
}

/// Whether instruction `i` of `func` consumes what it should: it names what
/// exists, its operands are the values on top of the stack, in order, with
/// the types it wants.
pub open spec fn consumes_rightly(program: &Program, func: &Function, i: int) -> bool {
    let inst = func.insts@[i];
    let s = live(program, func, i);
    let ops = operands(inst);
    let want = wanted(program, func, inst, s);
    &&& names_exist(program, func, inst)
    &&& ops.len() <= s.len()
    &&& forall|p: int| 0 <= p < ops.len() ==> s[s.len() - ops.len() + p] == (#[trigger] ops[p], want[p])
}

/// Whether instruction `i` of `func` meets the invariant where it stands: it
/// consumes rightly, and a value it defines is numbered by how many were
/// defined before it.
pub open spec fn step_meets(program: &Program, func: &Function, i: int) -> bool {
    &&& consumes_rightly(program, func, i)
    &&& defined(program, func, func.insts@[i]) matches Some(d) ==> d.0.0 == defined_before(program, func, i)
}

/// The IR invariant of `func`, a function of `program`: it ends with its
/// one `Return`; its parameters and frame fit their ids; every instruction
/// meets the invariant; and nothing is live at the end.
pub open spec fn meets_invariant(program: &Program, func: &Function) -> bool {
    let n = func.insts@.len() as int;
    &&& n > 0
    &&& func.insts@[n - 1] is Return
    &&& forall|i: int| 0 <= i < n - 1 ==> !(#[trigger] func.insts@[i] is Return)
    &&& func.params@.len() <= ParamId::CAPACITY
    &&& func.locals@.len() <= LocalId::CAPACITY
    &&& forall|i: int| 0 <= i < n ==> #[trigger] step_meets(program, func, i)
    &&& live(program, func, n).len() == 0
}

/// Whether every call in `func` passes as many arguments as its callee, if
/// it exists, takes parameters.
pub open spec fn calls_match_arity(program: &Program, func: &Function) -> bool {
    forall|i: int|
        0 <= i < func.insts@.len() ==> match #[trigger] func.insts@[i] {
            Inst::Call { callee, args, .. } => callee.0 < program.funcs@.len() ==> args@.len()
                == program.funcs@[callee.0 as int].params@.len(),
            _ => true,
        }
}

proof fn lemma_mismatch_none(
    stack: Seq<Live>,
    top: int,
    index: int,
    operands: Seq<ValueId>,
    expected: Seq<Type>,
    p: int,
)
    requires
        0 <= p,
        0 <= top,
        top + operands.len() <= stack.len(),
        operands.len() == expected.len(),
    ensures
        operand_mismatch(stack, top, index, operands, expected, p) is None <==> forall|q: int|
            p <= q < operands.len() ==> stack[top + q] == (#[trigger] operands[q], expected[q]),
    decreases operands.len() - p,
{
    if p < operands.len() {
        lemma_mismatch_none(stack, top, index, operands, expected, p + 1);
        if operand_mismatch(stack, top, index, operands, expected, p) is None {
            assert forall|q: int| p <= q < operands.len() implies stack[top + q] == (
                #[trigger] operands[q],
                expected[q],
            ) by {
                if q == p {
                    let (live, found) = stack[top + p];
                    assert(operands[p] == live && found == expected[p]);
                }
            }
        } else {
            if forall|q: int| p <= q < operands.len() ==> stack[top + q] == (#[trigger] operands[q], expected[q]) {
                assert(stack[top + p] == (operands[p], expected[p]));
            }
        }
    }
}

proof fn lemma_consume(stack: Seq<Live>, index: int, operands: Seq<ValueId>, expected: Seq<Type>)
    requires
        operands.len() == expected.len(),
    ensures
        spec_consume(stack, index, operands, expected) is Ok <==> operands.len() <= stack.len() && forall|p: int|
            0 <= p < operands.len() ==> stack[stack.len() - operands.len() + p] == (
                #[trigger] operands[p],
                expected[p],
            ),
        spec_consume(stack, index, operands, expected) matches Ok(s) ==> s == stack.take(
            stack.len() - operands.len(),
        ),
{
    if operands.len() <= stack.len() {
        let top = stack.len() - operands.len();
        lemma_mismatch_none(stack, top, index, operands, expected, 0);
    }
}

proof fn lemma_step(program: &Program, func: &Function, i: int)
    requires
        0 <= i < func.insts@.len(),
        calls_match_arity(program, func),
    ensures
        spec_step(program, func, i, live(program, func, i)) is Ok <==> consumes_rightly(program, func, i),
        spec_step(program, func, i, live(program, func, i)) matches Ok((s, d)) ==> d == defined(
            program,
            func,
            func.insts@[i],
        ) && live(program, func, i + 1) == match d {
            Some(x) => s.push(x),
            None => s,
        },
{
    let inst = func.insts@[i];
    let st = live(program, func, i);
    let ops = operands(inst);
    assert(live(program, func, i + 1) == {
        let rest = st.take(st.len() - ops.len());
        match defined(program, func, inst) {
            Some(d) => rest.push(d),
            None => rest,
        }
    });
    match inst {
        Inst::Const { .. } => {},
        Inst::Load { .. } => {},
        Inst::LoadParam { .. } => {},
        Inst::Call { callee, args, .. } => {
            assert(match func.insts@[i] {
                Inst::Call { callee, args, .. } => callee.0 < program.funcs@.len() ==> args@.len()
                    == program.funcs@[callee.0 as int].params@.len(),
                _ => true,
            });
            if callee.0 < program.funcs@.len() {
                lemma_consume(st, i, ops, wanted(program, func, inst, st));
            }
        },
        Inst::Store { local, .. } => {
            if local.0 < func.locals@.len() {
                lemma_consume(st, i, ops, wanted(program, func, inst, st));
            }
        },
        _ => {
            lemma_consume(st, i, ops, wanted(program, func, inst, st));
        },
    }
}

proof fn lemma_run(program: &Program, func: &Function, i: int)
    requires
        0 <= i <= func.insts@.len(),
        calls_match_arity(program, func),
    ensures
        spec_run(program, func, i, live(program, func, i), defined_before(program, func, i)) is Ok <==> {
            &&& forall|j: int| i <= j < func.insts@.len() ==> #[trigger] step_meets(program, func, j)
            &&& live(program, func, func.insts@.len() as int).len() == 0
        },
    decreases func.insts@.len() - i,
{
    let n = func.insts@.len() as int;
    if i < n {
        lemma_run(program, func, i + 1);
        lemma_step(program, func, i);
        assert(defined_before(program, func, i + 1) == defined_before(program, func, i) + if defined(
            program,
            func,
            func.insts@[i],
        ) is Some {
            1nat
        } else {
            0nat
        });
        if spec_run(program, func, i, live(program, func, i), defined_before(program, func, i)) is Ok {
            assert forall|j: int| i <= j < n implies #[trigger] step_meets(program, func, j) by {
                if j > i {
                    assert(step_meets(program, func, j));
                }
            }
        }
        if (forall|j: int| i <= j < n ==> #[trigger] step_meets(program, func, j)) && live(program, func, n).len()
            == 0 {
            assert(step_meets(program, func, i));
        }
    }
}

proof fn lemma_return_placement(insts: Seq<Inst>, i: int)
    requires
        0 <= i,
    ensures
        misplaced_return(insts, i) is None <==> forall|k: int| i <= k < insts.len() - 1 ==> !(#[trigger] insts[k] is Return),
    decreases insts.len() - i,
{
    if i < insts.len() - 1 {
        lemma_return_placement(insts, i + 1);
    }
}

/// The verifier accepts exactly the functions that meet the IR invariant,
/// stated over the whole function: one `Return`, last; parameters and frame
/// within their ids; each instruction names what exists, consumes exactly
/// the live values on top of the stack, in operand order and with the types
/// it wants, and numbers what it defines by how many values were defined
/// before it; and nothing live at the end. Calls are taken to pass as many
/// arguments as their callee takes parameters.
pub proof fn verify_accepts_exactly_the_invariant(program: &Program, func: &Function)
    requires
        calls_match_arity(program, func),
    ensures
        spec_verify(program, func) is Ok <==> meets_invariant(program, func),
{
    let insts = func.insts@;
    lemma_return_placement(insts, 0);
    lemma_run(program, func, 0);
    assert(live(program, func, 0) == Seq::<Live>::empty());
    assert(defined_before(program, func, 0) == 0);
}

} // verus!
