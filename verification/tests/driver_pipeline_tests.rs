//! Tests for compiling a source file and rendering what it reports.

use avmc::diag;
use avmc::driver::{compile, render};

/// The example program of the first milestone.
const EXAMPLE: &str = "func approval() uint64 { return 1 }";

/// The span of the `nth` occurrence of `text` in `source`, counting from 0.
fn span_of(source: &str, text: &str, nth: usize) -> diag::Span {
    let start = source
        .match_indices(text)
        .nth(nth)
        .expect("text in source")
        .0;
    diag::Span {
        start,
        end: start + text.len(),
    }
}


/// The diagnostics reported while compiling `source`, asserting that
/// nothing was emitted.
fn compile_err(source: &str) -> Vec<diag::Kind> {
    let mut diags = diag::Sink::default();
    assert_eq!(compile(source, &mut diags), None);
    diags
        .iter()
        .map(|diagnostic| diagnostic.kind.clone())
        .collect()
}

/// A diagnostic covering `span`, for [`render`] to format.
fn diagnostic(span: diag::Span) -> diag::Entry {
    diag::Entry {
        kind: diag::Kind::MissingEntryPoint { name: "approval" },
        span,
    }
}

#[test]
fn driver_example_program_compiles() {
    let mut diags = diag::Sink::default();
    assert_eq!(
        compile(EXAMPLE, &mut diags),
        Some(
            "#pragma version 13\ncallsub approval\nreturn\napproval:\nproto 0 1\npushint 1\nretsub\n"
                .to_string()
        )
    );
    assert!(diags.is_empty());
}

#[test]
fn driver_lexing_stops_the_pipeline() {
    assert_eq!(
        compile_err("func approval() uint64 { return @ }"),
        [diag::Kind::UnexpectedCharacter]
    );
}

#[test]
fn driver_renders_the_start_of_an_empty_source() {
    assert_eq!(
        render(&diagnostic(diag::Span { start: 0, end: 0 }), "a.txt", ""),
        "a.txt:1:1: error[E0008]: missing entry point `approval`"
    );
}

#[test]
fn driver_renders_a_position_on_a_later_line() {
    let source = "func f() {\n  return @\n}";
    assert_eq!(
        render(
            &diagnostic(span_of(source, "@", 0)),
            "a.txt",
            source
        ),
        "a.txt:2:10: error[E0008]: missing entry point `approval`"
    );
}

#[test]
fn driver_counts_columns_in_chars_not_bytes() {
    let source = "é@";
    assert_eq!(
        render(
            &diagnostic(span_of(source, "@", 0)),
            "a.txt",
            source
        ),
        "a.txt:1:2: error[E0008]: missing entry point `approval`"
    );
}

#[test]
fn driver_renders_the_end_of_input() {
    let source = "ab\n";
    let span = diag::Span {
        start: source.len(),
        end: source.len(),
    };
    assert_eq!(
        render(&diagnostic(span), "a.txt", source),
        "a.txt:2:1: error[E0008]: missing entry point `approval`"
    );
}

#[test]
fn driver_renders_a_non_boundary_offset_as_the_end_of_input() {
    let source = "é\n";
    let span = diag::Span { start: 1, end: 1 };
    assert_eq!(
        render(&diagnostic(span), "a.txt", source),
        "a.txt:2:1: error[E0008]: missing entry point `approval`"
    );
}

#[test]
fn driver_comments_do_not_change_the_output() {
    let commented = "// The approval program.\nfunc approval() uint64 {\n  var x uint64 = 1 + 2 // one more than two\n  return x\n}\n";
    let bare = "func approval() uint64 {\n  var x uint64 = 1 + 2\n  return x\n}\n";

    let mut diags = diag::Sink::default();
    let expected = compile(bare, &mut diags);
    assert_eq!(compile(commented, &mut diags), expected);
    assert!(expected.is_some());
    assert!(diags.is_empty());
}
