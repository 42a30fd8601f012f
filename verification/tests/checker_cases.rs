//! What the checker reports about calls, parameters and recursion, and the
//! edges of the text helpers and of rendering.

use avmc::ast;
use avmc::diag;
use avmc::driver;
use avmc::formatter;
use avmc::text;
use avmc::typeck;
use avmc::typed_ast::Type;

/// The AST of `source`, asserting that it lexed, parsed and built.
fn lex_parse(source: &str) -> ast::Program {
    let mut diags = diag::Sink::default();
    let tokens = avmc::lexer::lex(source, &mut diags).expect("lexing succeeded");
    let tree = avmc::parser::parse(&tokens, &mut diags).expect("parsing succeeded");
    let program = ast::from_cst(source, &tree, &mut diags).expect("building succeeded");
    assert!(diags.is_empty());
    program
}

/// What checking `source` reports, asserting that it produced nothing.
fn check_err(source: &str) -> Vec<diag::Entry> {
    let mut diags = diag::Sink::default();
    assert_eq!(typeck::check(&lex_parse(source), &mut diags), None);
    diags.iter().cloned().collect()
}

/// The span of the `nth` occurrence of `text` in `source`, counting from 0.
fn span_of(source: &str, text: &str, nth: usize) -> diag::Span {
    let start = source.match_indices(text).nth(nth).expect("text in source").0;
    diag::Span {
        start,
        end: start + text.len(),
    }
}

/// The span of the first character of the first occurrence of `text` in
/// `source`.
fn first_char(source: &str, text: &str) -> diag::Span {
    let start = source.find(text).expect("text in source");
    diag::Span {
        start,
        end: start + 1,
    }
}

fn entry(kind: diag::Kind, span: diag::Span) -> diag::Entry {
    diag::Entry { kind, span }
}

#[test]
fn a_call_of_an_undeclared_function_is_reported_at_its_name() {
    let source = "func approval() uint64 { return f(1) }";
    assert_eq!(
        check_err(source),
        [entry(
            diag::Kind::UndefinedFunction {
                name: "f".to_string()
            },
            diag::Span { start: 32, end: 33 }
        )]
    );
}

#[test]
fn a_call_with_the_wrong_number_of_arguments_is_reported_at_the_call() {
    let source = "func f(a uint64) uint64 { return a }\nfunc approval() uint64 { return f(1, 2) }";
    assert_eq!(
        check_err(source),
        [entry(
            diag::Kind::WrongArgumentCount {
                name: "f".to_string(),
                expected: 1,
                found: 2,
            },
            span_of(source, "f(1, 2)", 0)
        )]
    );
}

#[test]
fn an_argument_of_the_wrong_type_is_reported_at_the_argument() {
    let source = "func f(a uint64) uint64 { return a }\nfunc approval() uint64 { return f(true) }";
    assert_eq!(
        check_err(source),
        [entry(
            diag::Kind::TypeMismatch {
                expected: Type::Uint64,
                found: Type::Bool,
            },
            span_of(source, "true", 0)
        )]
    );
}

#[test]
fn a_cycle_of_calls_is_reported_once_at_its_first_function() {
    let source = "func approval() uint64 {\n\treturn f(1)\n}\n\n\
                  func f(n uint64) uint64 {\n\treturn g(n)\n}\n\n\
                  func g(n uint64) uint64 {\n\treturn f(n)\n}\n";
    assert_eq!(
        check_err(source),
        [entry(
            diag::Kind::RecursiveCall {
                name: "f".to_string()
            },
            first_char(source, "f(n uint64)")
        )]
    );
}

#[test]
fn a_function_that_calls_itself_is_reported() {
    let source = "func approval() uint64 { return approval() }";
    assert_eq!(
        check_err(source),
        [entry(
            diag::Kind::RecursiveCall {
                name: "approval".to_string()
            },
            span_of(source, "approval", 0)
        )]
    );
}

#[test]
fn a_function_declared_twice_is_reported_at_the_second() {
    let source = "func f() uint64 { return 1 }\nfunc f() bool { return true }\nfunc approval() uint64 { return 1 }";
    assert_eq!(
        check_err(source),
        [entry(
            diag::Kind::DuplicateFunction {
                name: "f".to_string()
            },
            span_of(source, "f()", 1)
        )]
    );
}

#[test]
fn a_parameter_declared_twice_is_reported_at_the_second() {
    let source = "func approval(a uint64, a bool) uint64 { return 1 }";
    assert_eq!(
        check_err(source),
        [entry(
            diag::Kind::DuplicateVariable {
                name: "a".to_string()
            },
            first_char(source, "a bool")
        )]
    );
}

#[test]
fn a_variable_may_not_reuse_a_parameter_name() {
    let source = "func approval(a uint64) uint64 {\n  var a uint64 = 1\n  return a\n}\n";
    assert_eq!(
        check_err(source),
        [entry(
            diag::Kind::DuplicateVariable {
                name: "a".to_string()
            },
            first_char(source, "a uint64 = 1")
        )]
    );
}

#[test]
fn one_parameter_past_the_capacity_is_reported_at_the_name() {
    let params: Vec<String> = (0..129).map(|i| format!("p{i} uint64")).collect();
    let source = format!("func approval({}) uint64 {{ return 1 }}", params.join(", "));
    assert_eq!(
        check_err(&source),
        [entry(
            diag::Kind::TooManyParameters { max: 128 },
            span_of(&source, "approval", 0)
        )]
    );
}

#[test]
fn a_function_may_take_as_many_parameters_as_a_frame_numbers() {
    let params: Vec<String> = (0..128).map(|i| format!("p{i} uint64")).collect();
    let source = format!("func f({}) uint64 {{ return p127 }}", params.join(", "));
    let mut diags = diag::Sink::default();
    let checked = typeck::check(&lex_parse(&source), &mut diags).expect("checking succeeded");
    assert!(diags.is_empty());
    assert_eq!(checked.funcs[0].params.len(), 128);
}

#[test]
fn an_integer_reads_with_an_optional_plus_and_must_fit() {
    assert_eq!(text::parse_u64("0"), Some(0));
    assert_eq!(text::parse_u64("+17"), Some(17));
    assert_eq!(text::parse_u64("007"), Some(7));
    assert_eq!(text::parse_u64("18446744073709551615"), Some(u64::MAX));
    assert_eq!(text::parse_u64("18446744073709551616"), None);
    assert_eq!(text::parse_u64(""), None);
    assert_eq!(text::parse_u64("+"), None);
    assert_eq!(text::parse_u64("-1"), None);
    assert_eq!(text::parse_u64("1_000"), None);
    assert_eq!(text::parse_u64(" 1"), None);
}

#[test]
fn a_slice_must_fall_on_character_boundaries() {
    let source = "aé!";
    assert_eq!(text::slice(source, 0, 1), "a");
    assert_eq!(text::slice(source, 1, 3), "é");
    assert_eq!(text::slice(source, 1, 2), "");
    assert_eq!(text::slice(source, 3, 1), "");
    assert_eq!(text::slice(source, 0, 9), "");
}

#[test]
fn positions_count_characters_and_lines() {
    assert_eq!(driver::position("é\nx", 0), (1, 1));
    assert_eq!(driver::position("é\nx", 2), (1, 2));
    assert_eq!(driver::position("é\nx", 3), (2, 1));
    assert_eq!(driver::position("é\nx", 4), (2, 2));
}

#[test]
fn an_offset_inside_a_character_is_the_end_of_input() {
    assert_eq!(driver::position("é\nx", 1), (2, 2));
    assert_eq!(driver::position("ab", 7), (1, 3));
}

#[test]
fn a_diagnostic_renders_with_its_position_code_and_message() {
    let source = "func approval() uint64 {\n  return f(1)\n}\n";
    let diagnostic = entry(
        diag::Kind::UndefinedFunction {
            name: "f".to_string(),
        },
        span_of(source, "f(", 0),
    );
    assert_eq!(
        driver::render(&diagnostic, "calls.avm", source),
        "calls.avm:2:10: error[E0016]: undefined function `f`"
    );
}

#[test]
fn calls_are_formatted_like_the_parameter_lists() {
    let mut diags = diag::Sink::default();
    let formatted = formatter::format(
        "func approval() uint64 { return f( 1 ,g(2,3) ) }",
        &mut diags,
    );
    assert!(diags.is_empty());
    assert_eq!(
        formatted.as_deref(),
        Some("func approval() uint64 {\n\treturn f(1, g(2, 3))\n}\n")
    );
}

#[test]
fn a_program_that_does_not_lex_is_not_formatted() {
    let mut diags = diag::Sink::default();
    assert_eq!(formatter::format("func f() uint64 { return @ }", &mut diags), None);
    assert_eq!(
        diags.iter().cloned().collect::<Vec<_>>(),
        [entry(diag::Kind::UnexpectedCharacter, diag::Span { start: 25, end: 26 })]
    );
}

#[test]
fn an_entry_point_with_parameters_does_not_compile() {
    let mut diags = diag::Sink::default();
    assert_eq!(
        driver::compile("func approval(a uint64) uint64 { return a }", &mut diags),
        None
    );
    let kinds: Vec<diag::Kind> = diags.iter().map(|d| d.kind.clone()).collect();
    assert_eq!(
        kinds,
        [diag::Kind::EntryPointTakesParameters { name: "approval" }]
    );
}
