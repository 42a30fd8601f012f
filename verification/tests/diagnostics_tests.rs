//! Tests for the catalogue of the first diagnostics.

use avmc::diagnostics::{Code, DiagnosticKind, Severity};


/// One sample of every variant, with the code and message it renders as.
///
/// A new variant does not compile until the match below covers it, which
/// is the reminder to list a sample for it here.
fn samples() -> Vec<(DiagnosticKind, &'static str, &'static str)> {
    let samples = vec![
        (
            DiagnosticKind::UnexpectedCharacter,
            "E0001",
            "unexpected character",
        ),
        (
            DiagnosticKind::UnexpectedToken {
                expected: "`)`",
                found: "an identifier",
            },
            "E0002",
            "expected `)`, found an identifier",
        ),
        (
            DiagnosticKind::IntegerLiteralOutOfRange,
            "E0003",
            "integer literal out of range",
        ),
        (
            DiagnosticKind::UnknownType {
                name: "bytes".to_string(),
            },
            "E0004",
            "unknown type `bytes`",
        ),
        (DiagnosticKind::MissingReturn, "E0005", "missing return"),
        (
            DiagnosticKind::UnreachableStatement,
            "E0006",
            "unreachable statement",
        ),
        (
            DiagnosticKind::DuplicateFunction {
                name: "a".to_string(),
            },
            "E0007",
            "duplicate function `a`",
        ),
        (
            DiagnosticKind::MissingEntryPoint { name: "approval" },
            "E0008",
            "missing entry point `approval`",
        ),
        (
            DiagnosticKind::OpcodeUnavailable {
                opcode: "pushint",
                min: 3,
                target: 2,
            },
            "E0009",
            "`pushint` requires TEAL version 3, target is 2",
        ),
    ];

    // Exhaustive, with no wildcard arm, so that adding a variant to
    // `DiagnosticKind` stops the tests from compiling.
    for (kind, _, _) in &samples {
        match kind {
            DiagnosticKind::UnexpectedCharacter
            | DiagnosticKind::UnexpectedToken { .. }
            | DiagnosticKind::IntegerLiteralOutOfRange
            | DiagnosticKind::UnknownType { .. }
            | DiagnosticKind::MissingReturn
            | DiagnosticKind::UnreachableStatement
            | DiagnosticKind::DuplicateFunction { .. }
            | DiagnosticKind::MissingEntryPoint { .. }
            | DiagnosticKind::OpcodeUnavailable { .. } => {}
        }
    }

    samples
}

#[test]
fn diagnostics_every_variant_has_its_code_and_message() {
    for (kind, code, message) in samples() {
        assert_eq!(kind.code().to_string(), code, "code of {kind:?}");
        assert_eq!(kind.to_string(), message, "message of {kind:?}");
    }
}

#[test]
fn diagnostics_no_two_variants_share_a_code() {
    let mut codes: Vec<String> = samples()
        .iter()
        .map(|(kind, _, _)| kind.code().to_string())
        .collect();
    let total = codes.len();
    codes.sort();
    codes.dedup();
    assert_eq!(codes.len(), total);
}

#[test]
fn diagnostics_a_code_is_a_letter_and_four_digits() {
    let code = |severity, number| Code { severity, number }.to_string();
    assert_eq!(code(Severity::Error, 1), "E0001");
    assert_eq!(code(Severity::Warning, 1), "W0001");
    assert_eq!(code(Severity::Error, 1234), "E1234");
}

#[test]
fn diagnostics_a_severity_names_itself() {
    assert_eq!(Severity::Error.to_string(), "error");
    assert_eq!(Severity::Warning.to_string(), "warning");
}
