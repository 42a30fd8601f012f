//! The first diagnostic catalogue: the nine problems the first compiler
//! stages could report, under the codes they were given then.
//!
//! Spans, severities and codes are those of [`crate::diag`], which the
//! current stages report into.

use crate::text;
use vstd::prelude::*;

pub use crate::diag::{Code, Severity, Span};

verus! {

/// A single problem found in the source.
#[derive(Debug, Clone, PartialEq, Eq)]
pub struct Diagnostic {
    pub kind: DiagnosticKind,
    /// The source location the diagnostic refers to.
    pub span: Span,
}

/// Every diagnostic the catalogue holds, with the data its message needs.
#[derive(Debug, Clone, PartialEq, Eq)]
pub enum DiagnosticKind {
    UnexpectedCharacter,
    UnexpectedToken {
        expected: &'static str,
        found: &'static str,
    },
    IntegerLiteralOutOfRange,
    UnknownType {
        name: String,
    },
    MissingReturn,
    UnreachableStatement,
    DuplicateFunction {
        name: String,
    },
    MissingEntryPoint {
        name: &'static str,
    },
    OpcodeUnavailable {
        opcode: &'static str,
        min: u8,
        target: u8,
    },
}

impl DiagnosticKind {
    /// The number of the stable code.
    pub open spec fn number(&self) -> u16 {
        match self {
            DiagnosticKind::UnexpectedCharacter => 1,
            DiagnosticKind::UnexpectedToken { .. } => 2,
            DiagnosticKind::IntegerLiteralOutOfRange => 3,
            DiagnosticKind::UnknownType { .. } => 4,
            DiagnosticKind::MissingReturn => 5,
            DiagnosticKind::UnreachableStatement => 6,
            DiagnosticKind::DuplicateFunction { .. } => 7,
            DiagnosticKind::MissingEntryPoint { .. } => 8,
            DiagnosticKind::OpcodeUnavailable { .. } => 9,
        }
    }

    /// Whether `self` and `other` are the same variant, whatever their data.
    pub open spec fn same_variant(&self, other: &DiagnosticKind) -> bool {
        match (self, other) {
            (DiagnosticKind::UnexpectedCharacter, DiagnosticKind::UnexpectedCharacter) => true,
            (DiagnosticKind::UnexpectedToken { .. }, DiagnosticKind::UnexpectedToken { .. }) => true,
            (DiagnosticKind::IntegerLiteralOutOfRange, DiagnosticKind::IntegerLiteralOutOfRange) => true,
            (DiagnosticKind::UnknownType { .. }, DiagnosticKind::UnknownType { .. }) => true,
            (DiagnosticKind::MissingReturn, DiagnosticKind::MissingReturn) => true,
            (DiagnosticKind::UnreachableStatement, DiagnosticKind::UnreachableStatement) => true,
            (DiagnosticKind::DuplicateFunction { .. }, DiagnosticKind::DuplicateFunction { .. }) => true,
            (DiagnosticKind::MissingEntryPoint { .. }, DiagnosticKind::MissingEntryPoint { .. }) => true,
            (DiagnosticKind::OpcodeUnavailable { .. }, DiagnosticKind::OpcodeUnavailable { .. }) => true,
            _ => false,
        }
    }

    /// The stable code. Every kind is an error.
    pub open spec fn spec_code(&self) -> Code {
        Code { severity: Severity::Error, number: self.number() }
    }

    /// The message the diagnostic renders as.
    pub open spec fn message(&self) -> Seq<char> {
        match self {
            DiagnosticKind::UnexpectedCharacter => "unexpected character"@,
            DiagnosticKind::UnexpectedToken { expected, found } =>
                "expected "@ + expected@ + ", found "@ + found@,
            DiagnosticKind::IntegerLiteralOutOfRange => "integer literal out of range"@,
            DiagnosticKind::UnknownType { name } => "unknown type `"@ + name@ + "`"@,
            DiagnosticKind::MissingReturn => "missing return"@,
            DiagnosticKind::UnreachableStatement => "unreachable statement"@,
            DiagnosticKind::DuplicateFunction { name } => "duplicate function `"@ + name@ + "`"@,
            DiagnosticKind::MissingEntryPoint { name } => "missing entry point `"@ + name@ + "`"@,
            DiagnosticKind::OpcodeUnavailable { opcode, min, target } =>
                "`"@ + opcode@ + "` requires TEAL version "@ + text::decimal(*min as nat)
                    + ", target is "@ + text::decimal(*target as nat),
        }
    }

    /// The stable code. A code is never reused for a different meaning.
    pub fn code(&self) -> (c: Code)
        ensures
            c == self.spec_code(),
    {
        let number: u16 = match self {
            DiagnosticKind::UnexpectedCharacter => 1,
            DiagnosticKind::UnexpectedToken { .. } => 2,
            DiagnosticKind::IntegerLiteralOutOfRange => 3,
            DiagnosticKind::UnknownType { .. } => 4,
            DiagnosticKind::MissingReturn => 5,
            DiagnosticKind::UnreachableStatement => 6,
            DiagnosticKind::DuplicateFunction { .. } => 7,
            DiagnosticKind::MissingEntryPoint { .. } => 8,
            DiagnosticKind::OpcodeUnavailable { .. } => 9,
        };
        Code { severity: Severity::Error, number }
    }

    /// The message the diagnostic renders as.
    pub fn to_string(&self) -> (s: String)
        ensures
            s@ == self.message(),
    {
        let mut out: Vec<char> = Vec::new();
        match self {
            DiagnosticKind::UnexpectedCharacter => text::push_str(&mut out, "unexpected character"),
            DiagnosticKind::UnexpectedToken { expected, found } => {
                text::push_str(&mut out, "expected ");
                text::push_str(&mut out, expected);
                text::push_str(&mut out, ", found ");
                text::push_str(&mut out, found);
            },
            DiagnosticKind::IntegerLiteralOutOfRange => {
                text::push_str(&mut out, "integer literal out of range")
            },
            DiagnosticKind::UnknownType { name } => {
                text::push_str(&mut out, "unknown type `");
                text::push_string(&mut out, name);
                text::push_str(&mut out, "`");
            },
            DiagnosticKind::MissingReturn => text::push_str(&mut out, "missing return"),
            DiagnosticKind::UnreachableStatement => text::push_str(&mut out, "unreachable statement"),
            DiagnosticKind::DuplicateFunction { name } => {
                text::push_str(&mut out, "duplicate function `");
                text::push_string(&mut out, name);
                text::push_str(&mut out, "`");
            },
            DiagnosticKind::MissingEntryPoint { name } => {
                text::push_str(&mut out, "missing entry point `");
                text::push_str(&mut out, name);
                text::push_str(&mut out, "`");
            },
            DiagnosticKind::OpcodeUnavailable { opcode, min, target } => {
                text::push_str(&mut out, "`");
                text::push_str(&mut out, opcode);
                text::push_str(&mut out, "` requires TEAL version ");
                text::push_u64(&mut out, *min as u64);
                text::push_str(&mut out, ", target is ");
                text::push_u64(&mut out, *target as u64);
            },
        }
        assert(out@ =~= self.message());
        text::into_string(out)
    }
}

/// No two kinds of diagnostic share a code: the code names the variant.
pub proof fn no_two_kinds_share_a_code(a: DiagnosticKind, b: DiagnosticKind)
    ensures
        a.spec_code() == b.spec_code() <==> a.same_variant(&b),
{
}

/// The diagnostics reported by a stage, in the order they were found.
#[derive(Debug)]
pub struct Diagnostics {
    items: Vec<Diagnostic>,
}

impl View for Diagnostics {
    type V = Seq<Diagnostic>;

    closed spec fn view(&self) -> Seq<Diagnostic> {
        self.items@
    }
}

impl Default for Diagnostics {
    fn default() -> (d: Diagnostics)
        ensures
            d@ == Seq::<Diagnostic>::empty(),
    {
        Diagnostics { items: Vec::new() }
    }
}

impl Diagnostics {
    /// Records one diagnostic.
    pub fn push(&mut self, diagnostic: Diagnostic)
        ensures
            final(self)@ == old(self)@.push(diagnostic),
    {
        self.items.push(diagnostic);
    }

    /// Returns `true` when nothing has been reported.
    pub fn is_empty(&self) -> (r: bool)
        ensures
            r == (self@.len() == 0),
    {
        self.items.len() == 0
    }

    /// Iterates the diagnostics in the order they were reported.
    pub fn iter(&self) -> (it: std::slice::Iter<'_, Diagnostic>)
        ensures
            vstd::std_specs::slice::into_iter_elts(it) == self@,
    {
        self.items.iter()
    }
}

} // verus!
