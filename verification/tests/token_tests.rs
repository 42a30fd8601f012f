//! Tests for the lexer that produces bare tokens: each a kind and a span.

use avmc::diag;
use avmc::token::{lex, Kind as TokenKind, Token};

fn token(kind: TokenKind, start: usize, end: usize) -> Token {
    Token {
        kind,
        span: diag::Span { start, end },
    }
}

fn unexpected_character(start: usize, end: usize) -> diag::Entry {
    diag::Entry {
        kind: diag::Kind::UnexpectedCharacter,
        span: diag::Span { start, end },
    }
}


/// Lexes `source`, asserting that it produced no diagnostics.
fn lex_ok(source: &str) -> Vec<Token> {
    let mut diags = diag::Sink::default();
    let tokens = lex(source, &mut diags);
    assert!(diags.iter().next().is_none());
    tokens.expect("lexing succeeded")
}

/// Lexes `source`, asserting that it produced no tokens, and returns the
/// diagnostics it reported.
fn lex_err(source: &str) -> Vec<diag::Entry> {
    let mut diags = diag::Sink::default();
    assert_eq!(lex(source, &mut diags), None);
    diags.iter().cloned().collect()
}

fn spans(source: &str, kinds: &[(TokenKind, &str)]) -> Vec<Token> {
    let mut offset = 0;
    let mut expected = Vec::new();
    for &(kind, text) in kinds {
        let start = source[offset..]
            .find(text)
            .expect("expected token text in source")
            + offset;
        let end = start + text.len();
        expected.push(token(kind, start, end));
        offset = end;
    }
    expected
}

#[test]
fn lexer_lexes_the_approval_program() {
    let source = "func approval() uint64 {\n  return 1\n}\n";
    let expected = spans(
        source,
        &[
            (TokenKind::Func, "func"),
            (TokenKind::Ident, "approval"),
            (TokenKind::LParen, "("),
            (TokenKind::RParen, ")"),
            (TokenKind::Ident, "uint64"),
            (TokenKind::LBrace, "{"),
            (TokenKind::Return, "return"),
            (TokenKind::IntLit, "1"),
            (TokenKind::RBrace, "}"),
        ],
    );
    assert_eq!(lex_ok(source), expected);
}

#[test]
fn lexer_whitespace_only_shifts_spans() {
    let source = "func approval ( ) uint64 { return 1 }";
    let expected = spans(
        source,
        &[
            (TokenKind::Func, "func"),
            (TokenKind::Ident, "approval"),
            (TokenKind::LParen, "("),
            (TokenKind::RParen, ")"),
            (TokenKind::Ident, "uint64"),
            (TokenKind::LBrace, "{"),
            (TokenKind::Return, "return"),
            (TokenKind::IntLit, "1"),
            (TokenKind::RBrace, "}"),
        ],
    );
    assert_eq!(lex_ok(source), expected);
}

#[test]
fn lexer_empty_input_produces_no_tokens() {
    assert_eq!(lex_ok(""), Vec::new());
}

#[test]
fn lexer_keyword_prefixes_are_identifiers() {
    assert_eq!(
        lex_ok("func_ returns"),
        vec![
            token(TokenKind::Ident, 0, 5),
            token(TokenKind::Ident, 6, 13)
        ]
    );
}

#[test]
fn lexer_adjacent_integers_stay_separate() {
    assert_eq!(
        lex_ok("1 2"),
        vec![
            token(TokenKind::IntLit, 0, 1),
            token(TokenKind::IntLit, 2, 3)
        ]
    );
}

#[test]
fn lexer_lexes_an_arithmetic_program() {
    let source = "func approval() uint64 {\n  return (1 + 2) * 3 - 4 / 5\n}\n";
    let expected = spans(
        source,
        &[
            (TokenKind::Func, "func"),
            (TokenKind::Ident, "approval"),
            (TokenKind::LParen, "("),
            (TokenKind::RParen, ")"),
            (TokenKind::Ident, "uint64"),
            (TokenKind::LBrace, "{"),
            (TokenKind::Return, "return"),
            (TokenKind::LParen, "("),
            (TokenKind::IntLit, "1"),
            (TokenKind::Plus, "+"),
            (TokenKind::IntLit, "2"),
            (TokenKind::RParen, ")"),
            (TokenKind::Star, "*"),
            (TokenKind::IntLit, "3"),
            (TokenKind::Minus, "-"),
            (TokenKind::IntLit, "4"),
            (TokenKind::Slash, "/"),
            (TokenKind::IntLit, "5"),
            (TokenKind::RBrace, "}"),
        ],
    );
    assert_eq!(lex_ok(source), expected);
}

#[test]
fn lexer_operators_need_no_surrounding_whitespace() {
    assert_eq!(
        lex_ok("1+2*3-4/5"),
        vec![
            token(TokenKind::IntLit, 0, 1),
            token(TokenKind::Plus, 1, 2),
            token(TokenKind::IntLit, 2, 3),
            token(TokenKind::Star, 3, 4),
            token(TokenKind::IntLit, 4, 5),
            token(TokenKind::Minus, 5, 6),
            token(TokenKind::IntLit, 6, 7),
            token(TokenKind::Slash, 7, 8),
            token(TokenKind::IntLit, 8, 9),
        ]
    );
}

#[test]
fn lexer_a_minus_is_never_part_of_a_literal() {
    assert_eq!(
        lex_ok("-1"),
        vec![
            token(TokenKind::Minus, 0, 1),
            token(TokenKind::IntLit, 1, 2)
        ]
    );
}

#[test]
fn lexer_repeated_operators_are_separate_tokens() {
    assert_eq!(
        lex_ok("--"),
        vec![token(TokenKind::Minus, 0, 1), token(TokenKind::Minus, 1, 2)]
    );
    assert_eq!(
        lex_ok("//"),
        vec![token(TokenKind::Slash, 0, 1), token(TokenKind::Slash, 1, 2)]
    );
}

#[test]
fn lexer_a_percent_is_a_token() {
    assert_eq!(lex_ok("%"), vec![token(TokenKind::Percent, 0, 1)]);
    assert_eq!(
        lex_ok("1%2"),
        vec![
            token(TokenKind::IntLit, 0, 1),
            token(TokenKind::Percent, 1, 2),
            token(TokenKind::IntLit, 2, 3),
        ]
    );
}

#[test]
fn lexer_lexes_a_variable_declaration() {
    let source = "var x uint64 = 1";
    let expected = spans(
        source,
        &[
            (TokenKind::Var, "var"),
            (TokenKind::Ident, "x"),
            (TokenKind::Ident, "uint64"),
            (TokenKind::Equals, "="),
            (TokenKind::IntLit, "1"),
        ],
    );
    assert_eq!(lex_ok(source), expected);
}

#[test]
fn lexer_var_prefixes_are_identifiers() {
    assert_eq!(
        lex_ok("var_ variable"),
        vec![
            token(TokenKind::Ident, 0, 4),
            token(TokenKind::Ident, 5, 13)
        ]
    );
}

#[test]
fn lexer_lexes_the_boolean_literals() {
    let source = "return true";
    let expected = spans(
        source,
        &[(TokenKind::Return, "return"), (TokenKind::True, "true")],
    );
    assert_eq!(lex_ok(source), expected);

    let source = "var ok bool = false";
    let expected = spans(
        source,
        &[
            (TokenKind::Var, "var"),
            (TokenKind::Ident, "ok"),
            (TokenKind::Ident, "bool"),
            (TokenKind::Equals, "="),
            (TokenKind::False, "false"),
        ],
    );
    assert_eq!(lex_ok(source), expected);
}

#[test]
fn lexer_only_the_whole_lowercase_keyword_is_a_boolean_literal() {
    let source = "truest false_ True";
    let expected = spans(
        source,
        &[
            (TokenKind::Ident, "truest"),
            (TokenKind::Ident, "false_"),
            (TokenKind::Ident, "True"),
        ],
    );
    assert_eq!(lex_ok(source), expected);
}

#[test]
fn lexer_an_equals_needs_no_surrounding_whitespace() {
    assert_eq!(
        lex_ok("x=1"),
        vec![
            token(TokenKind::Ident, 0, 1),
            token(TokenKind::Equals, 1, 2),
            token(TokenKind::IntLit, 2, 3),
        ]
    );
}

#[test]
fn lexer_lexes_the_comparison_and_logic_program() {
    let source = "func approval() bool {\n  var x uint64 = 1 + 2\n  return x >= 3 && !(x == 4) || x != 5\n}\n";
    let expected = spans(
        source,
        &[
            (TokenKind::Func, "func"),
            (TokenKind::Ident, "approval"),
            (TokenKind::LParen, "("),
            (TokenKind::RParen, ")"),
            (TokenKind::Ident, "bool"),
            (TokenKind::LBrace, "{"),
            (TokenKind::Var, "var"),
            (TokenKind::Ident, "x"),
            (TokenKind::Ident, "uint64"),
            (TokenKind::Equals, "="),
            (TokenKind::IntLit, "1"),
            (TokenKind::Plus, "+"),
            (TokenKind::IntLit, "2"),
            (TokenKind::Return, "return"),
            (TokenKind::Ident, "x"),
            (TokenKind::GtEq, ">="),
            (TokenKind::IntLit, "3"),
            (TokenKind::AmpAmp, "&&"),
            (TokenKind::Bang, "!"),
            (TokenKind::LParen, "("),
            (TokenKind::Ident, "x"),
            (TokenKind::EqEq, "=="),
            (TokenKind::IntLit, "4"),
            (TokenKind::RParen, ")"),
            (TokenKind::PipePipe, "||"),
            (TokenKind::Ident, "x"),
            (TokenKind::BangEq, "!="),
            (TokenKind::IntLit, "5"),
            (TokenKind::RBrace, "}"),
        ],
    );
    assert_eq!(lex_ok(source), expected);
}

#[test]
fn lexer_comparisons_need_no_surrounding_whitespace() {
    assert_eq!(
        lex_ok("1==2!=3<4<=5>6>=7"),
        vec![
            token(TokenKind::IntLit, 0, 1),
            token(TokenKind::EqEq, 1, 3),
            token(TokenKind::IntLit, 3, 4),
            token(TokenKind::BangEq, 4, 6),
            token(TokenKind::IntLit, 6, 7),
            token(TokenKind::Lt, 7, 8),
            token(TokenKind::IntLit, 8, 9),
            token(TokenKind::LtEq, 9, 11),
            token(TokenKind::IntLit, 11, 12),
            token(TokenKind::Gt, 12, 13),
            token(TokenKind::IntLit, 13, 14),
            token(TokenKind::GtEq, 14, 16),
            token(TokenKind::IntLit, 16, 17),
        ]
    );
}

#[test]
fn lexer_logical_operators_need_no_surrounding_whitespace() {
    assert_eq!(
        lex_ok("a&&b||!c"),
        vec![
            token(TokenKind::Ident, 0, 1),
            token(TokenKind::AmpAmp, 1, 3),
            token(TokenKind::Ident, 3, 4),
            token(TokenKind::PipePipe, 4, 6),
            token(TokenKind::Bang, 6, 7),
            token(TokenKind::Ident, 7, 8),
        ]
    );
}

#[test]
fn lexer_two_character_tokens_are_matched_greedily() {
    assert_eq!(
        lex_ok("==="),
        vec![token(TokenKind::EqEq, 0, 2), token(TokenKind::Equals, 2, 3)]
    );
    assert_eq!(
        lex_ok("!!"),
        vec![token(TokenKind::Bang, 0, 1), token(TokenKind::Bang, 1, 2)]
    );
    assert_eq!(
        lex_ok("<=="),
        vec![token(TokenKind::LtEq, 0, 2), token(TokenKind::Equals, 2, 3)]
    );
    assert_eq!(
        lex_ok("=!"),
        vec![token(TokenKind::Equals, 0, 1), token(TokenKind::Bang, 1, 2)]
    );
    assert_eq!(
        lex_ok("<>"),
        vec![token(TokenKind::Lt, 0, 1), token(TokenKind::Gt, 1, 2)]
    );
}

#[test]
fn lexer_whitespace_breaks_a_two_character_token() {
    assert_eq!(
        lex_ok("= ="),
        vec![
            token(TokenKind::Equals, 0, 1),
            token(TokenKind::Equals, 2, 3)
        ]
    );
}

#[test]
fn lexer_a_lone_ampersand_or_pipe_is_reported() {
    assert_eq!(lex_err("1 & 2"), vec![unexpected_character(2, 3)]);
    assert_eq!(lex_err("1 | 2"), vec![unexpected_character(2, 3)]);
}

#[test]
fn lexer_an_unpaired_ampersand_beside_a_pair_is_reported() {
    assert_eq!(lex_err("&&&"), vec![unexpected_character(2, 3)]);
    assert_eq!(lex_err("&="), vec![unexpected_character(0, 1)]);
}

#[test]
fn lexer_lexing_stops_at_the_first_unexpected_character() {
    assert_eq!(lex_err("@é"), vec![unexpected_character(0, 1)]);
}

#[test]
fn lexer_tokens_after_the_first_error_are_not_lexed() {
    assert_eq!(lex_err("1 & 2 |"), vec![unexpected_character(2, 3)]);
}
