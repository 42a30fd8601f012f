//! Spans and diagnostics, shared by every compiler stage.

use crate::text;
use crate::typed_ast;
use vstd::prelude::*;

verus! {

/// A half-open range of byte offsets into the source text.
#[derive(Debug, Clone, Copy, PartialEq, Eq, Structural)]
pub struct Span {
    /// Byte offset of the first byte, inclusive.
    pub start: usize,
    /// Byte offset one past the last byte, exclusive.
    pub end: usize,
}

/// Whether a diagnostic fails the compilation.
#[derive(Debug, Clone, Copy, PartialEq, Eq, Structural)]
pub enum Severity {
    Error,
    Warning,
}

impl Severity {
    /// The word the severity is rendered as.
    pub open spec fn name(&self) -> Seq<char> {
        match self {
            Severity::Error => "error"@,
            Severity::Warning => "warning"@,
        }
    }

    /// The letter a code of this severity starts with.
    pub open spec fn letter(&self) -> char {
        match self {
            Severity::Error => 'E',
            Severity::Warning => 'W',
        }
    }

    /// The word the severity is rendered as.
    pub fn to_string(&self) -> (s: String)
        ensures
            s@ == self.name(),
    {
        let mut out: Vec<char> = Vec::new();
        self.push_name(&mut out);
        text::into_string(out)
    }

    /// Appends the word the severity is rendered as to `out`.
    pub fn push_name(&self, out: &mut Vec<char>)
        ensures
            final(out)@ == old(out)@ + self.name(),
    {
        match self {
            Severity::Error => text::push_str(out, "error"),
            Severity::Warning => text::push_str(out, "warning"),
        }
    }
}

/// A stable identifier: the severity's letter (`E` or `W`) then four digits.
/// Errors and warnings are numbered independently.
#[derive(Debug, Clone, Copy, PartialEq, Eq, Structural)]
pub struct Code {
    pub severity: Severity,
    pub number: u16,
}

impl Code {
    /// The rendered code: the letter, then the number padded to four digits.
    pub open spec fn rendered(&self) -> Seq<char> {
        seq![self.severity.letter()] + text::zero_padded(self.number as nat, 4)
    }

    /// The rendered code: the letter, then the number padded to four digits.
    pub fn to_string(&self) -> (s: String)
        ensures
            s@ == self.rendered(),
    {
        let mut out: Vec<char> = Vec::new();
        self.push_rendered(&mut out);
        text::into_string(out)
    }

    /// Appends the rendered code to `out`.
    pub fn push_rendered(&self, out: &mut Vec<char>)
        ensures
            final(out)@ == old(out)@ + self.rendered(),
    {
        let letter = match self.severity {
            Severity::Error => 'E',
            Severity::Warning => 'W',
        };
        let ghost start = out@;
        out.push(letter);
        text::push_u16_four_digits(out, self.number);
        assert(out@ =~= start + self.rendered());
    }
}

/// A code below ten thousand renders as its letter and exactly four digits.
pub proof fn code_is_a_letter_and_four_digits(code: Code)
    requires
        code.number < 10000,
    ensures
        code.rendered().len() == 5,
        code.rendered()[0] == code.severity.letter(),
{
    text::lemma_decimal_len(code.number as nat);
}

/// Every diagnostic the compiler can report, with the data its message needs.
#[derive(Debug, Clone, PartialEq, Eq)]
pub enum Kind {
    UnexpectedCharacter,
    UnexpectedToken {
        expected: &'static str,
        found: &'static str,
    },
    IntegerLiteralOutOfRange,
    UnknownType {
        name: String,
    },
    MissingReturn,
    UnreachableStatement,
    DuplicateFunction {
        name: String,
    },
    MissingEntryPoint {
        name: &'static str,
    },
    /// `left` and `right` describe the two operators, backticks included.
    AmbiguousPrecedence {
        left: &'static str,
        right: &'static str,
    },
    UndefinedVariable {
        name: String,
    },
    DuplicateVariable {
        name: String,
    },
    TooManyVariables {
        max: usize,
    },
    TypeMismatch {
        expected: typed_ast::Type,
        found: typed_ast::Type,
    },
    TooManyParameters {
        max: usize,
    },
    EntryPointTakesParameters {
        name: &'static str,
    },
    UndefinedFunction {
        name: String,
    },
    WrongArgumentCount {
        name: String,
        expected: usize,
        found: usize,
    },
    RecursiveCall {
        name: String,
    },
}

impl Kind {
    /// The number of the stable code. A code is never reused for a different
    /// meaning.
    pub open spec fn number(&self) -> u16 {
        match self {
            Kind::UnexpectedCharacter => 1,
            Kind::UnexpectedToken { .. } => 2,
            Kind::IntegerLiteralOutOfRange => 3,
            Kind::UnknownType { .. } => 4,
            Kind::MissingReturn => 5,
            Kind::UnreachableStatement => 6,
            Kind::DuplicateFunction { .. } => 7,
            Kind::MissingEntryPoint { .. } => 8,
            Kind::AmbiguousPrecedence { .. } => 9,
            Kind::UndefinedVariable { .. } => 10,
            Kind::DuplicateVariable { .. } => 11,
            Kind::TooManyVariables { .. } => 12,
            Kind::TypeMismatch { .. } => 13,
            Kind::TooManyParameters { .. } => 14,
            Kind::EntryPointTakesParameters { .. } => 15,
            Kind::UndefinedFunction { .. } => 16,
            Kind::WrongArgumentCount { .. } => 17,
            Kind::RecursiveCall { .. } => 18,
        }
    }

    /// Whether `self` and `other` are the same variant, whatever their data.
    pub open spec fn same_variant(&self, other: &Kind) -> bool {
        match (self, other) {
            (Kind::UnexpectedCharacter, Kind::UnexpectedCharacter) => true,
            (Kind::UnexpectedToken { .. }, Kind::UnexpectedToken { .. }) => true,
            (Kind::IntegerLiteralOutOfRange, Kind::IntegerLiteralOutOfRange) => true,
            (Kind::UnknownType { .. }, Kind::UnknownType { .. }) => true,
            (Kind::MissingReturn, Kind::MissingReturn) => true,
            (Kind::UnreachableStatement, Kind::UnreachableStatement) => true,
            (Kind::DuplicateFunction { .. }, Kind::DuplicateFunction { .. }) => true,
            (Kind::MissingEntryPoint { .. }, Kind::MissingEntryPoint { .. }) => true,
            (Kind::AmbiguousPrecedence { .. }, Kind::AmbiguousPrecedence { .. }) => true,
            (Kind::UndefinedVariable { .. }, Kind::UndefinedVariable { .. }) => true,
            (Kind::DuplicateVariable { .. }, Kind::DuplicateVariable { .. }) => true,
            (Kind::TooManyVariables { .. }, Kind::TooManyVariables { .. }) => true,
            (Kind::TypeMismatch { .. }, Kind::TypeMismatch { .. }) => true,
            (Kind::TooManyParameters { .. }, Kind::TooManyParameters { .. }) => true,
            (Kind::EntryPointTakesParameters { .. }, Kind::EntryPointTakesParameters { .. }) => true,
            (Kind::UndefinedFunction { .. }, Kind::UndefinedFunction { .. }) => true,
            (Kind::WrongArgumentCount { .. }, Kind::WrongArgumentCount { .. }) => true,
            (Kind::RecursiveCall { .. }, Kind::RecursiveCall { .. }) => true,
            _ => false,
        }
    }

    /// The message the diagnostic renders as.
    pub open spec fn message(&self) -> Seq<char> {
        match self {
            Kind::UnexpectedCharacter => "unexpected character"@,
            Kind::UnexpectedToken { expected, found } =>
                "expected "@ + expected@ + ", found "@ + found@,
            Kind::IntegerLiteralOutOfRange => "integer literal out of range"@,
            Kind::UnknownType { name } => "unknown type `"@ + name@ + "`"@,
            Kind::MissingReturn => "missing return"@,
            Kind::UnreachableStatement => "unreachable statement"@,
            Kind::DuplicateFunction { name } => "duplicate function `"@ + name@ + "`"@,
            Kind::MissingEntryPoint { name } => "missing entry point `"@ + name@ + "`"@,
            Kind::AmbiguousPrecedence { left, right } =>
                left@ + " and "@ + right@ + " need parentheses to disambiguate"@,
            Kind::UndefinedVariable { name } => "undefined variable `"@ + name@ + "`"@,
            Kind::DuplicateVariable { name } => "duplicate variable `"@ + name@ + "`"@,
            Kind::TooManyVariables { max } =>
                "a function may declare at most "@ + text::decimal(*max as nat) + " variables"@,
            Kind::TypeMismatch { expected, found } =>
                "mismatched types: expected `"@ + expected.name() + "`, found `"@ + found.name()
                    + "`"@,
            Kind::TooManyParameters { max } =>
                "a function may declare at most "@ + text::decimal(*max as nat) + " parameters"@,
            Kind::EntryPointTakesParameters { name } =>
                "entry point `"@ + name@ + "` takes parameters"@,
            Kind::UndefinedFunction { name } => "undefined function `"@ + name@ + "`"@,
            Kind::WrongArgumentCount { name, expected, found } =>
                "wrong number of arguments to `"@ + name@ + "`: expected "@
                    + text::decimal(*expected as nat) + ", found "@ + text::decimal(*found as nat),
            Kind::RecursiveCall { name } =>
                "recursive call to `"@ + name@ + "`: recursion is not supported"@,
        }
    }

    /// The stable code. Every kind is an error.
    pub open spec fn spec_code(&self) -> Code {
        Code { severity: Severity::Error, number: self.number() }
    }

    /// The stable code. A code is never reused for a different meaning.
    pub fn code(&self) -> (c: Code)
        ensures
            c == self.spec_code(),
    {
        let number: u16 = match self {
            Kind::UnexpectedCharacter => 1,
            Kind::UnexpectedToken { .. } => 2,
            Kind::IntegerLiteralOutOfRange => 3,
            Kind::UnknownType { .. } => 4,
            Kind::MissingReturn => 5,
            Kind::UnreachableStatement => 6,
            Kind::DuplicateFunction { .. } => 7,
            Kind::MissingEntryPoint { .. } => 8,
            Kind::AmbiguousPrecedence { .. } => 9,
            Kind::UndefinedVariable { .. } => 10,
            Kind::DuplicateVariable { .. } => 11,
            Kind::TooManyVariables { .. } => 12,
            Kind::TypeMismatch { .. } => 13,
            Kind::TooManyParameters { .. } => 14,
            Kind::EntryPointTakesParameters { .. } => 15,
            Kind::UndefinedFunction { .. } => 16,
            Kind::WrongArgumentCount { .. } => 17,
            Kind::RecursiveCall { .. } => 18,
        };
        Code { severity: Severity::Error, number }
    }

    /// The message the diagnostic renders as.
    pub fn to_string(&self) -> (s: String)
        ensures
            s@ == self.message(),
    {
        let mut out: Vec<char> = Vec::new();
        self.push_message(&mut out);
        text::into_string(out)
    }

    /// Appends the message the diagnostic renders as to `out`.
    pub fn push_message(&self, out: &mut Vec<char>)
        ensures
            final(out)@ == old(out)@ + self.message(),
    {
        let ghost start = out@;
        match self {
            Kind::UnexpectedCharacter => text::push_str(out, "unexpected character"),
            Kind::UnexpectedToken { expected, found } => {
                text::push_str(out, "expected ");
                text::push_str(out, expected);
                text::push_str(out, ", found ");
                text::push_str(out, found);
            },
            Kind::IntegerLiteralOutOfRange => text::push_str(out, "integer literal out of range"),
            Kind::UnknownType { name } => {
                text::push_str(out, "unknown type `");
                text::push_string(out, name);
                text::push_str(out, "`");
            },
            Kind::MissingReturn => text::push_str(out, "missing return"),
            Kind::UnreachableStatement => text::push_str(out, "unreachable statement"),
            Kind::DuplicateFunction { name } => {
                text::push_str(out, "duplicate function `");
                text::push_string(out, name);
                text::push_str(out, "`");
            },
            Kind::MissingEntryPoint { name } => {
                text::push_str(out, "missing entry point `");
                text::push_str(out, name);
                text::push_str(out, "`");
            },
            Kind::AmbiguousPrecedence { left, right } => {
                text::push_str(out, left);
                text::push_str(out, " and ");
                text::push_str(out, right);
                text::push_str(out, " need parentheses to disambiguate");
            },
            Kind::UndefinedVariable { name } => {
                text::push_str(out, "undefined variable `");
                text::push_string(out, name);
                text::push_str(out, "`");
            },
            Kind::DuplicateVariable { name } => {
                text::push_str(out, "duplicate variable `");
                text::push_string(out, name);
                text::push_str(out, "`");
            },
            Kind::TooManyVariables { max } => {
                text::push_str(out, "a function may declare at most ");
                text::push_usize(out, *max);
                text::push_str(out, " variables");
            },
            Kind::TypeMismatch { expected, found } => {
                text::push_str(out, "mismatched types: expected `");
                expected.push_name(out);
                text::push_str(out, "`, found `");
                found.push_name(out);
                text::push_str(out, "`");
            },
            Kind::TooManyParameters { max } => {
                text::push_str(out, "a function may declare at most ");
                text::push_usize(out, *max);
                text::push_str(out, " parameters");
            },
            Kind::EntryPointTakesParameters { name } => {
                text::push_str(out, "entry point `");
                text::push_str(out, name);
                text::push_str(out, "` takes parameters");
            },
            Kind::UndefinedFunction { name } => {
                text::push_str(out, "undefined function `");
                text::push_string(out, name);
                text::push_str(out, "`");
            },
            Kind::WrongArgumentCount { name, expected, found } => {
                text::push_str(out, "wrong number of arguments to `");
                text::push_string(out, name);
                text::push_str(out, "`: expected ");
                text::push_usize(out, *expected);
                text::push_str(out, ", found ");
                text::push_usize(out, *found);
            },
            Kind::RecursiveCall { name } => {
                text::push_str(out, "recursive call to `");
                text::push_string(out, name);
                text::push_str(out, "`: recursion is not supported");
            },
        }
        assert(out@ =~= start + self.message());
    }
}

/// No two kinds of diagnostic share a code: the code names the variant.
pub proof fn no_two_kinds_share_a_code(a: Kind, b: Kind)
    ensures
        a.spec_code() == b.spec_code() <==> a.same_variant(&b),
{
}

/// A single problem found in the source.
#[derive(Debug, Clone, PartialEq, Eq)]
pub struct Entry {
    pub kind: Kind,
    /// The source location the diagnostic refers to.
    pub span: Span,
}

/// The diagnostics reported by the stages, in the order they were found.
#[derive(Debug)]
pub struct Sink {
    items: Vec<Entry>,
}

impl View for Sink {
    type V = Seq<Entry>;

    closed spec fn view(&self) -> Seq<Entry> {
        self.items@
    }
}

impl Default for Sink {
    fn default() -> (s: Sink)
        ensures
            s@ == Seq::<Entry>::empty(),
    {
        Sink { items: Vec::new() }
    }
}

impl Sink {
    /// An empty sink.
    pub fn new() -> (s: Sink)
        ensures
            s@ == Seq::<Entry>::empty(),
    {
        Sink { items: Vec::new() }
    }

    /// Records one diagnostic.
    pub fn push(&mut self, entry: Entry)
        ensures
            final(self)@ == old(self)@.push(entry),
    {
        self.items.push(entry);
    }

    /// Returns `true` when nothing has been reported.
    pub fn is_empty(&self) -> (r: bool)
        ensures
            r == (self@.len() == 0),
    {
        self.items.len() == 0
    }

    /// The number of diagnostics reported.
    pub fn len(&self) -> (r: usize)
        ensures
            r == self@.len(),
    {
        self.items.len()
    }

    /// Iterates the diagnostics in the order they were reported.
    pub fn iter(&self) -> (it: std::slice::Iter<'_, Entry>)
        ensures
            vstd::std_specs::slice::into_iter_elts(it) == self@,
    {
        self.items.iter()
    }
}

} // verus!
