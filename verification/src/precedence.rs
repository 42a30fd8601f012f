//! The language's expression precedence: a partial order over operator groups.
//!
//! Two operators the order does not relate are a compile error rather than a
//! silent grouping, so this module knows nothing about tokens or parsing.

use crate::ast;
use crate::typed_ast;
use vstd::prelude::*;

verus! {

/// A node in the precedence graph. Operators in one group share a precedence.
#[derive(Debug, Clone, Copy, PartialEq, Eq, Structural)]
pub enum Group {
    /// `+` and `-`.
    Additive,
    /// `*` and `/`.
    Multiplicative,
    /// `%`.
    Modulo,
    /// `==`, `!=`, `<`, `<=`, `>`, and `>=`.
    Comparison,
    /// `!`.
    Not,
    /// `&&`.
    And,
    /// `||`.
    Or,
}

/// Which of two adjacent operators binds tighter.
#[derive(Debug, Clone, Copy, PartialEq, Eq, Structural)]
pub enum Priority {
    /// The enclosing operator binds tighter.
    Left,
    /// The following operator binds tighter.
    Right,
    /// The two are unordered; the source must parenthesize.
    Ambiguous,
}

/// The group an operator belongs to.
pub open spec fn spec_group(op: ast::BinOp) -> Group {
    match op {
        ast::BinOp::Add | ast::BinOp::Sub => Group::Additive,
        ast::BinOp::Mul | ast::BinOp::Div => Group::Multiplicative,
        ast::BinOp::Mod => Group::Modulo,
        ast::BinOp::Eq | ast::BinOp::Ne | ast::BinOp::Lt | ast::BinOp::Le | ast::BinOp::Gt
        | ast::BinOp::Ge => Group::Comparison,
        ast::BinOp::And => Group::And,
        ast::BinOp::Or => Group::Or,
    }
}

/// The group a prefix operator belongs to.
pub open spec fn spec_unary_group(op: ast::UnOp) -> Group {
    match op {
        ast::UnOp::Not => Group::Not,
    }
}

/// How `left`, the enclosing operator, binds against `right`, the operator
/// that follows it. `Left` on the diagonal is left-associativity;
/// `Ambiguous` on it is non-associativity.
pub open spec fn spec_priority(left: Group, right: Group) -> Priority {
    match (left, right) {
        (Group::Additive, Group::Additive) => Priority::Left,
        (Group::Additive, Group::Multiplicative) => Priority::Right,
        (Group::Additive, Group::Modulo) => Priority::Ambiguous,
        (Group::Additive, Group::Comparison) => Priority::Left,
        (Group::Additive, Group::Not) => Priority::Ambiguous,
        (Group::Additive, Group::And) => Priority::Left,
        (Group::Additive, Group::Or) => Priority::Left,
        (Group::Multiplicative, Group::Additive) => Priority::Left,
        (Group::Multiplicative, Group::Multiplicative) => Priority::Left,
        (Group::Multiplicative, Group::Modulo) => Priority::Ambiguous,
        (Group::Multiplicative, Group::Comparison) => Priority::Left,
        (Group::Multiplicative, Group::Not) => Priority::Ambiguous,
        (Group::Multiplicative, Group::And) => Priority::Left,
        (Group::Multiplicative, Group::Or) => Priority::Left,
        (Group::Modulo, Group::Additive) => Priority::Ambiguous,
        (Group::Modulo, Group::Multiplicative) => Priority::Ambiguous,
        (Group::Modulo, Group::Modulo) => Priority::Ambiguous,
        (Group::Modulo, Group::Comparison) => Priority::Left,
        (Group::Modulo, Group::Not) => Priority::Ambiguous,
        (Group::Modulo, Group::And) => Priority::Left,
        (Group::Modulo, Group::Or) => Priority::Left,
        (Group::Comparison, Group::Additive) => Priority::Right,
        (Group::Comparison, Group::Multiplicative) => Priority::Right,
        (Group::Comparison, Group::Modulo) => Priority::Right,
        (Group::Comparison, Group::Comparison) => Priority::Ambiguous,
        (Group::Comparison, Group::Not) => Priority::Ambiguous,
        (Group::Comparison, Group::And) => Priority::Left,
        (Group::Comparison, Group::Or) => Priority::Left,
        (Group::Not, Group::Additive) => Priority::Ambiguous,
        (Group::Not, Group::Multiplicative) => Priority::Ambiguous,
        (Group::Not, Group::Modulo) => Priority::Ambiguous,
        (Group::Not, Group::Comparison) => Priority::Ambiguous,
        (Group::Not, Group::Not) => Priority::Ambiguous,
        (Group::Not, Group::And) => Priority::Left,
        (Group::Not, Group::Or) => Priority::Left,
        (Group::And, Group::Additive) => Priority::Right,
        (Group::And, Group::Multiplicative) => Priority::Right,
        (Group::And, Group::Modulo) => Priority::Right,
        (Group::And, Group::Comparison) => Priority::Right,
        (Group::And, Group::Not) => Priority::Right,
        (Group::And, Group::And) => Priority::Left,
        (Group::And, Group::Or) => Priority::Ambiguous,
        (Group::Or, Group::Additive) => Priority::Right,
        (Group::Or, Group::Multiplicative) => Priority::Right,
        (Group::Or, Group::Modulo) => Priority::Right,
        (Group::Or, Group::Comparison) => Priority::Right,
        (Group::Or, Group::Not) => Priority::Right,
        (Group::Or, Group::And) => Priority::Ambiguous,
        (Group::Or, Group::Or) => Priority::Left,
    }
}

/// The group an operator belongs to.
#[verifier::when_used_as_spec(spec_group)]
pub fn group(op: ast::BinOp) -> (g: Group)
    ensures
        g == spec_group(op),
{
    match op {
        ast::BinOp::Add | ast::BinOp::Sub => Group::Additive,
        ast::BinOp::Mul | ast::BinOp::Div => Group::Multiplicative,
        ast::BinOp::Mod => Group::Modulo,
        ast::BinOp::Eq | ast::BinOp::Ne | ast::BinOp::Lt | ast::BinOp::Le | ast::BinOp::Gt
        | ast::BinOp::Ge => Group::Comparison,
        ast::BinOp::And => Group::And,
        ast::BinOp::Or => Group::Or,
    }
}

/// The group a prefix operator belongs to.
#[verifier::when_used_as_spec(spec_unary_group)]
pub fn unary_group(op: ast::UnOp) -> (g: Group)
    ensures
        g == spec_unary_group(op),
{
    match op {
        ast::UnOp::Not => Group::Not,
    }
}

/// How `left`, the enclosing operator, binds against `right`, the operator
/// that follows it.
///
/// `Left` on the diagonal is left-associativity; `Ambiguous` on it is
/// non-associativity.
#[verifier::when_used_as_spec(spec_priority)]
pub fn priority(left: Group, right: Group) -> (p: Priority)
    ensures
        p == spec_priority(left, right),
{
    match (left, right) {
        (Group::Additive, Group::Additive) => Priority::Left,
        (Group::Additive, Group::Multiplicative) => Priority::Right,
        (Group::Additive, Group::Modulo) => Priority::Ambiguous,
        (Group::Additive, Group::Comparison) => Priority::Left,
        (Group::Additive, Group::Not) => Priority::Ambiguous,
        (Group::Additive, Group::And) => Priority::Left,
        (Group::Additive, Group::Or) => Priority::Left,
        (Group::Multiplicative, Group::Additive) => Priority::Left,
        (Group::Multiplicative, Group::Multiplicative) => Priority::Left,
        (Group::Multiplicative, Group::Modulo) => Priority::Ambiguous,
        (Group::Multiplicative, Group::Comparison) => Priority::Left,
        (Group::Multiplicative, Group::Not) => Priority::Ambiguous,
        (Group::Multiplicative, Group::And) => Priority::Left,
        (Group::Multiplicative, Group::Or) => Priority::Left,
        (Group::Modulo, Group::Additive) => Priority::Ambiguous,
        (Group::Modulo, Group::Multiplicative) => Priority::Ambiguous,
        (Group::Modulo, Group::Modulo) => Priority::Ambiguous,
        (Group::Modulo, Group::Comparison) => Priority::Left,
        (Group::Modulo, Group::Not) => Priority::Ambiguous,
        (Group::Modulo, Group::And) => Priority::Left,
        (Group::Modulo, Group::Or) => Priority::Left,
        (Group::Comparison, Group::Additive) => Priority::Right,
        (Group::Comparison, Group::Multiplicative) => Priority::Right,
        (Group::Comparison, Group::Modulo) => Priority::Right,
        (Group::Comparison, Group::Comparison) => Priority::Ambiguous,
        (Group::Comparison, Group::Not) => Priority::Ambiguous,
        (Group::Comparison, Group::And) => Priority::Left,
        (Group::Comparison, Group::Or) => Priority::Left,
        (Group::Not, Group::Additive) => Priority::Ambiguous,
        (Group::Not, Group::Multiplicative) => Priority::Ambiguous,
        (Group::Not, Group::Modulo) => Priority::Ambiguous,
        (Group::Not, Group::Comparison) => Priority::Ambiguous,
        (Group::Not, Group::Not) => Priority::Ambiguous,
        (Group::Not, Group::And) => Priority::Left,
        (Group::Not, Group::Or) => Priority::Left,
        (Group::And, Group::Additive) => Priority::Right,
        (Group::And, Group::Multiplicative) => Priority::Right,
        (Group::And, Group::Modulo) => Priority::Right,
        (Group::And, Group::Comparison) => Priority::Right,
        (Group::And, Group::Not) => Priority::Right,
        (Group::And, Group::And) => Priority::Left,
        (Group::And, Group::Or) => Priority::Ambiguous,
        (Group::Or, Group::Additive) => Priority::Right,
        (Group::Or, Group::Multiplicative) => Priority::Right,
        (Group::Or, Group::Modulo) => Priority::Right,
        (Group::Or, Group::Comparison) => Priority::Right,
        (Group::Or, Group::Not) => Priority::Right,
        (Group::Or, Group::And) => Priority::Ambiguous,
        (Group::Or, Group::Or) => Priority::Left,
    }
}

/// The order is antisymmetric: when the following operator binds tighter,
/// the two operators the other way round bind tighter on the left.
pub proof fn ordered_pairs_are_antisymmetric(left: Group, right: Group)
    ensures
        spec_priority(left, right) == Priority::Right ==> spec_priority(right, left)
            == Priority::Left,
{
}

/// Ambiguity is symmetric: two operators that need parentheses one way
/// round need them the other way round too.
pub proof fn ambiguity_is_symmetric(left: Group, right: Group)
    ensures
        spec_priority(left, right) == Priority::Ambiguous ==> spec_priority(right, left)
            == Priority::Ambiguous,
{
}

/// Nothing binds tighter than the operand of a prefix operator: no
/// enclosing operator takes the operand of a `!` that follows it.
pub proof fn nothing_binds_tighter_than_the_operand_of_a_prefix_operator(left: Group)
    ensures
        spec_priority(left, Group::Not) != Priority::Left,
{
}

/// Within a group that is ordered against itself, operators associate to
/// the left.
pub proof fn a_group_is_left_associative_or_unordered(g: Group)
    ensures
        spec_priority(g, g) == Priority::Left || spec_priority(g, g) == Priority::Ambiguous,
{
}

/// An operator binds tighter than one that takes its result as an operand,
/// where it cannot take that one's result itself: arithmetic binds tighter
/// than a comparison, and a comparison tighter than `&&` and `||`. So
/// `a < b && c` is `(a < b) && c` and `a + b < c` is `(a + b) < c`,
/// whichever operator comes first.
pub proof fn operators_bind_tighter_than_what_consumes_them(inner: ast::BinOp, outer: ast::BinOp)
    requires
        typed_ast::spec_operand_type(outer) == Some(typed_ast::spec_result_type(inner)),
        typed_ast::spec_operand_type(inner) != Some(typed_ast::spec_result_type(outer)),
    ensures
        spec_priority(spec_group(inner), spec_group(outer)) == Priority::Left,
        spec_priority(spec_group(outer), spec_group(inner)) == Priority::Right,
{
}

/// `+` or `-`.
pub open spec fn is_additive(op: ast::BinOp) -> bool {
    op == ast::BinOp::Add || op == ast::BinOp::Sub
}

/// `*` or `/`.
pub open spec fn is_multiplicative(op: ast::BinOp) -> bool {
    op == ast::BinOp::Mul || op == ast::BinOp::Div
}

/// An operator that computes an integer.
pub open spec fn is_arithmetic(op: ast::BinOp) -> bool {
    typed_ast::spec_result_type(op) == typed_ast::Type::Uint64
}

/// An operator that combines booleans.
pub open spec fn is_logical(op: ast::BinOp) -> bool {
    typed_ast::spec_operand_type(op) == Some(typed_ast::Type::Bool)
}

/// An operator that compares two values into a boolean.
pub open spec fn is_comparison(op: ast::BinOp) -> bool {
    typed_ast::spec_result_type(op) == typed_ast::Type::Bool && !is_logical(op)
}

/// Arithmetic follows the usual order: `*` and `/` bind tighter than `+`
/// and `-`, each of the four associates to the left, and `%` is unordered
/// against all arithmetic, itself included, so it must be parenthesized.
pub proof fn arithmetic_binds_in_the_usual_order(a: ast::BinOp, b: ast::BinOp)
    ensures
        is_multiplicative(a) && is_additive(b) ==> spec_priority(spec_group(a), spec_group(b)) == Priority::Left
            && spec_priority(spec_group(b), spec_group(a)) == Priority::Right,
        (is_multiplicative(a) && is_multiplicative(b)) || (is_additive(a) && is_additive(b)) ==> spec_priority(
            spec_group(a),
            spec_group(b),
        ) == Priority::Left,
        a == ast::BinOp::Mod && is_arithmetic(b) ==> spec_priority(spec_group(a), spec_group(b)) == Priority::Ambiguous
            && spec_priority(spec_group(b), spec_group(a)) == Priority::Ambiguous,
{
}

/// Arithmetic binds tighter than `&&` and `||` too; comparisons do not
/// chain; `&&` and `||` each associate to the left and are unordered
/// against each other.
pub proof fn logic_binds_loosest(a: ast::BinOp, b: ast::BinOp)
    ensures
        is_arithmetic(a) && is_logical(b) ==> spec_priority(spec_group(a), spec_group(b)) == Priority::Left
            && spec_priority(spec_group(b), spec_group(a)) == Priority::Right,
        is_comparison(a) && is_comparison(b) ==> spec_priority(spec_group(a), spec_group(b)) == Priority::Ambiguous,
        is_logical(a) && a == b ==> spec_priority(spec_group(a), spec_group(b)) == Priority::Left,
        is_logical(a) && is_logical(b) && a != b ==> spec_priority(spec_group(a), spec_group(b))
            == Priority::Ambiguous,
{
}

/// `!` binds tighter than `&&` and `||`, and is unordered against the
/// operators that take integers, and against itself.
pub proof fn not_binds_tighter_than_logic_only(op: ast::BinOp)
    ensures
        is_logical(op) ==> spec_priority(spec_unary_group(ast::UnOp::Not), spec_group(op)) == Priority::Left
            && spec_priority(spec_group(op), spec_unary_group(ast::UnOp::Not)) == Priority::Right,
        !is_logical(op) ==> spec_priority(spec_unary_group(ast::UnOp::Not), spec_group(op)) == Priority::Ambiguous
            && spec_priority(spec_group(op), spec_unary_group(ast::UnOp::Not)) == Priority::Ambiguous,
        spec_priority(spec_unary_group(ast::UnOp::Not), spec_unary_group(ast::UnOp::Not)) == Priority::Ambiguous,
{
}

} // verus!
