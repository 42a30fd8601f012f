//! The first lexer: source text to a flat token stream, without trivia.
//!
//! It knows no comments and no commas: `//` is two divisions, and `,` is
//! an unexpected character. The byte classes are those of [`crate::lexer`].

use crate::diag;
use crate::lexer::{
    byte_is, char_width, clamped_end, digits_end, ident_end, is_digit, is_ident_start,
    is_whitespace,
};
use vstd::prelude::*;
use vstd::string::StringSliceAdditionalSpecFns;

verus! {

/// The kind of a lexical token.
#[derive(Debug, Clone, Copy, PartialEq, Eq, Structural)]
pub enum Kind {
    /// The keyword `func`.
    Func,
    /// The keyword `return`.
    Return,
    /// The keyword `var`.
    Var,
    /// The keyword `true`.
    True,
    /// The keyword `false`.
    False,
    /// An identifier: `[A-Za-z_][A-Za-z0-9_]*`, keywords excluded.
    Ident,
    /// An integer literal: `[0-9]+`. The value is not parsed here.
    IntLit,
    /// `(`
    LParen,
    /// `)`
    RParen,
    /// `{`
    LBrace,
    /// `}`
    RBrace,
    /// `+`
    Plus,
    /// `-`
    Minus,
    /// `*`
    Star,
    /// `/`
    Slash,
    /// `%`
    Percent,
    /// `=`
    Equals,
    /// `==`
    EqEq,
    /// `!=`
    BangEq,
    /// `<`
    Lt,
    /// `<=`
    LtEq,
    /// `>`
    Gt,
    /// `>=`
    GtEq,
    /// `!`
    Bang,
    /// `&&`
    AmpAmp,
    /// `||`
    PipePipe,
}

/// A token: a kind and the source range it covers.
///
/// Tokens carry no text; later stages slice the source with the span.
#[derive(Debug, Clone, Copy, PartialEq, Eq, Structural)]
pub struct Token {
    /// What was matched.
    pub kind: Kind,
    /// Where it was matched.
    pub span: diag::Span,
}

/// The kind of the identifier-shaped word `w`: a keyword, or `Ident`.
pub open spec fn keyword(w: Seq<u8>) -> Kind {
    // "func", "return", "var", "true", "false".
    if w == seq![102u8, 117, 110, 99] {
        Kind::Func
    } else if w == seq![114u8, 101, 116, 117, 114, 110] {
        Kind::Return
    } else if w == seq![118u8, 97, 114] {
        Kind::Var
    } else if w == seq![116u8, 114, 117, 101] {
        Kind::True
    } else if w == seq![102u8, 97, 108, 115, 101] {
        Kind::False
    } else {
        Kind::Ident
    }
}

/// The kind of a token that is one byte long, for the bytes that are one.
pub open spec fn single(c: u8) -> Option<Kind> {
    if c == 40 {
        Some(Kind::LParen)
    } else if c == 41 {
        Some(Kind::RParen)
    } else if c == 123 {
        Some(Kind::LBrace)
    } else if c == 125 {
        Some(Kind::RBrace)
    } else if c == 43 {
        Some(Kind::Plus)
    } else if c == 45 {
        Some(Kind::Minus)
    } else if c == 42 {
        Some(Kind::Star)
    } else if c == 47 {
        Some(Kind::Slash)
    } else if c == 37 {
        Some(Kind::Percent)
    } else {
        None
    }
}

/// For `=`, `!`, `<` and `>`: the kinds of the token alone, and followed
/// by `=`.
pub open spec fn with_equals(c: u8) -> Option<(Kind, Kind)> {
    if c == 61 {
        Some((Kind::Equals, Kind::EqEq))
    } else if c == 33 {
        Some((Kind::Bang, Kind::BangEq))
    } else if c == 60 {
        Some((Kind::Lt, Kind::LtEq))
    } else if c == 62 {
        Some((Kind::Gt, Kind::GtEq))
    } else {
        None
    }
}

/// What the lexer does at a position.
pub enum Step {
    /// Skips whitespace, resuming at the position given.
    Skip(int),
    /// Matches a token of the kind given, ending at the position given.
    Tok(Kind, int),
    /// Finds an unexpected character, ending at the position given.
    Bad(int),
}

/// What the lexer does at position `i`, which holds a byte.
pub open spec fn step(b: Seq<u8>, i: int) -> Step {
    let c = b[i];
    if is_whitespace(c) {
        Step::Skip(i + 1)
    } else if let Some(kind) = single(c) {
        Step::Tok(kind, i + 1)
    } else if let Some((alone, doubled)) = with_equals(c) {
        if byte_is(b, i + 1, 61) {
            Step::Tok(doubled, i + 2)
        } else {
            Step::Tok(alone, i + 1)
        }
    } else if c == 38 {
        if byte_is(b, i + 1, 38) {
            Step::Tok(Kind::AmpAmp, i + 2)
        } else {
            Step::Bad(i + 1)
        }
    } else if c == 124 {
        if byte_is(b, i + 1, 124) {
            Step::Tok(Kind::PipePipe, i + 2)
        } else {
            Step::Bad(i + 1)
        }
    } else if is_ident_start(c) {
        let end = ident_end(b, i + 1);
        Step::Tok(keyword(b.subrange(i, end)), end)
    } else if is_digit(c) {
        Step::Tok(Kind::IntLit, digits_end(b, i + 1))
    } else {
        Step::Bad(clamped_end(b, i + char_width(c)))
    }
}

/// The token of `kind` covering `start..end`.
pub open spec fn spec_token(kind: Kind, start: int, end: int) -> Token {
    Token { kind, span: diag::Span { start: start as usize, end: end as usize } }
}

/// The tokens of `b` from position `i` on, or the span of the first
/// unexpected character.
pub open spec fn lex_from(b: Seq<u8>, i: int) -> Result<Seq<Token>, diag::Span>
    decreases b.len() - i,
{
    if i < 0 || i >= b.len() {
        Ok(Seq::empty())
    } else {
        match step(b, i) {
            Step::Skip(j) => if i < j <= b.len() {
                lex_from(b, j)
            } else {
                Ok(Seq::empty())
            },
            Step::Tok(kind, j) => if i < j <= b.len() {
                prepend(seq![spec_token(kind, i, j)], lex_from(b, j))
            } else {
                Ok(Seq::empty())
            },
            Step::Bad(j) => Err(diag::Span { start: i as usize, end: j as usize }),
        }
    }
}

/// `prefix` followed by the tokens of `rest`, or the error of `rest`.
pub open spec fn prepend(prefix: Seq<Token>, rest: Result<Seq<Token>, diag::Span>) -> Result<
    Seq<Token>,
    diag::Span,
> {
    match rest {
        Ok(tokens) => Ok(prefix + tokens),
        Err(span) => Err(span),
    }
}

/// The tokens of the source whose bytes are `b`, or the span of its first
/// unexpected character.
pub open spec fn spec_lex(b: Seq<u8>) -> Result<Seq<Token>, diag::Span> {
    lex_from(b, 0)
}

/// Tokenises `source`.
///
/// Stops at the first error and returns `None`: where a token ends after
/// an error is not known, so nothing lexed past it is trustworthy.
pub fn lex(source: &str, diags: &mut diag::Sink) -> (r: Option<Vec<Token>>)
    ensures
        match spec_lex(source.spec_bytes()) {
            Ok(tokens) => r matches Some(v) && v@ == tokens && final(diags)@ == old(diags)@,
            Err(span) => r is None && final(diags)@ == old(diags)@.push(
                crate::lexer::unexpected_at(span),
            ),
        },
{
    let b = source.as_bytes();
    let len = b.len();
    let mut tokens: Vec<Token> = Vec::new();
    let mut i: usize = 0;
    while i < len
        invariant
            b@ == source.spec_bytes(),
            len == b@.len(),
            i <= len,
            lex_from(b@, 0) == prepend(tokens@, lex_from(b@, i as int)),
            diags@ == old(diags)@,
        decreases len - i,
    {
        let ghost bs = b@;
        let ghost before = tokens@;
        let c = b[i];
        if c == 32 || c == 9 || c == 10 || c == 13 {
            i = i + 1;
        } else if let Some(kind) = single_kind(c) {
            tokens.push(token(kind, i, i + 1));
            proof { lemma_prepend_push(before, spec_token(kind, i as int, i + 1), lex_from(bs, i + 1)); }
            i = i + 1;
        } else if let Some(pair) = equals_kinds(c) {
            if i + 1 < len && b[i + 1] == 61 {
                tokens.push(token(pair.1, i, i + 2));
                proof { lemma_prepend_push(before, spec_token(pair.1, i as int, i + 2), lex_from(bs, i + 2)); }
                i = i + 2;
            } else {
                tokens.push(token(pair.0, i, i + 1));
                proof { lemma_prepend_push(before, spec_token(pair.0, i as int, i + 1), lex_from(bs, i + 1)); }
                i = i + 1;
            }
        } else if c == 38 || c == 124 {
            if i + 1 < len && b[i + 1] == c {
                let kind = if c == 38 {
                    Kind::AmpAmp
                } else {
                    Kind::PipePipe
                };
                tokens.push(token(kind, i, i + 2));
                proof { lemma_prepend_push(before, spec_token(kind, i as int, i + 2), lex_from(bs, i + 2)); }
                i = i + 2;
            } else {
                proof {
                    assert(step(bs, i as int) == Step::Bad(i + 1));
                    assert(lex_from(bs, i as int) == Err::<Seq<Token>, diag::Span>(
                        diag::Span { start: i, end: (i + 1) as usize },
                    ));
                }
                diags.push(unexpected_character(i, i + 1));
                return None;
            }
        } else if crate::lexer::is_ident_start_byte(c) {
            let end = consume_ident(b, i + 1);
            let kind = keyword_kind(b, i, end);
            tokens.push(token(kind, i, end));
            proof { lemma_prepend_push(before, spec_token(kind, i as int, end as int), lex_from(bs, end as int)); }
            i = end;
        } else if 48 <= c && c <= 57 {
            let end = consume_digits(b, i + 1);
            tokens.push(token(Kind::IntLit, i, end));
            proof { lemma_prepend_push(before, spec_token(Kind::IntLit, i as int, end as int), lex_from(bs, end as int)); }
            i = end;
        } else {
            let width: usize = if c < 128 {
                1
            } else if c >= 240 {
                4
            } else if c >= 224 {
                3
            } else {
                2
            };
            let end = if width <= len - i {
                i + width
            } else {
                len
            };
            proof {
                assert(step(bs, i as int) == Step::Bad(end as int));
                assert(lex_from(bs, i as int) == Err::<Seq<Token>, diag::Span>(
                    diag::Span { start: i, end },
                ));
            }
            diags.push(unexpected_character(i, end));
            return None;
        }
    }
    proof {
        assert(lex_from(b@, i as int) == Ok::<Seq<Token>, diag::Span>(Seq::<Token>::empty()));
        assert(tokens@ + Seq::<Token>::empty() =~= tokens@);
    }
    Some(tokens)
}

/// The token of `kind` covering `start..end`.
pub fn token(kind: Kind, start: usize, end: usize) -> (t: Token)
    ensures
        t == spec_token(kind, start as int, end as int),
{
    Token { kind, span: diag::Span { start, end } }
}

/// The diagnostic for an unexpected character at `start..end`.
pub fn unexpected_character(start: usize, end: usize) -> (e: diag::Entry)
    ensures
        e == crate::lexer::unexpected_at(diag::Span { start, end }),
{
    crate::lexer::unexpected_character(start, end)
}

/// The kind of the one-byte token `c`, for the bytes that are one.
fn single_kind(c: u8) -> (r: Option<Kind>)
    ensures
        r == single(c),
{
    if c == 40 {
        Some(Kind::LParen)
    } else if c == 41 {
        Some(Kind::RParen)
    } else if c == 123 {
        Some(Kind::LBrace)
    } else if c == 125 {
        Some(Kind::RBrace)
    } else if c == 43 {
        Some(Kind::Plus)
    } else if c == 45 {
        Some(Kind::Minus)
    } else if c == 42 {
        Some(Kind::Star)
    } else if c == 47 {
        Some(Kind::Slash)
    } else if c == 37 {
        Some(Kind::Percent)
    } else {
        None
    }
}

/// For `=`, `!`, `<` and `>`: the kinds of the token alone, and followed
/// by `=`.
fn equals_kinds(c: u8) -> (r: Option<(Kind, Kind)>)
    ensures
        r == with_equals(c),
{
    if c == 61 {
        Some((Kind::Equals, Kind::EqEq))
    } else if c == 33 {
        Some((Kind::Bang, Kind::BangEq))
    } else if c == 60 {
        Some((Kind::Lt, Kind::LtEq))
    } else if c == 62 {
        Some((Kind::Gt, Kind::GtEq))
    } else {
        None
    }
}

/// Consumes identifier bytes from `i`, returning the position one past the
/// last one.
fn consume_ident(b: &[u8], i: usize) -> (end: usize)
    requires
        i <= b@.len(),
    ensures
        end == ident_end(b@, i as int),
        i <= end <= b@.len(),
{
    let mut j = i;
    while j < b.len() && crate::lexer::is_ident_continue_byte(b[j])
        invariant
            i <= j <= b@.len(),
            ident_end(b@, i as int) == ident_end(b@, j as int),
        decreases b@.len() - j,
    {
        j = j + 1;
    }
    j
}

/// Consumes digits from `i`, returning the position one past the last one.
fn consume_digits(b: &[u8], i: usize) -> (end: usize)
    requires
        i <= b@.len(),
    ensures
        end == digits_end(b@, i as int),
        i <= end <= b@.len(),
{
    let mut j = i;
    while j < b.len() && 48 <= b[j] && b[j] <= 57
        invariant
            i <= j <= b@.len(),
            digits_end(b@, i as int) == digits_end(b@, j as int),
        decreases b@.len() - j,
    {
        j = j + 1;
    }
    j
}

/// The kind of the identifier-shaped word `b[start..end]`: a keyword, or
/// `Ident`.
fn keyword_kind(b: &[u8], start: usize, end: usize) -> (k: Kind)
    requires
        start <= end <= b@.len(),
    ensures
        k == keyword(b@.subrange(start as int, end as int)),
{
    match crate::lexer::keyword_kind(b, start, end) {
        crate::lexer::TokenKind::Func => Kind::Func,
        crate::lexer::TokenKind::Return => Kind::Return,
        crate::lexer::TokenKind::Var => Kind::Var,
        crate::lexer::TokenKind::True => Kind::True,
        crate::lexer::TokenKind::False => Kind::False,
        _ => Kind::Ident,
    }
}

proof fn lemma_prepend_push(before: Seq<Token>, t: Token, rest: Result<Seq<Token>, diag::Span>)
    ensures
        prepend(before, prepend(seq![t], rest)) == prepend(before.push(t), rest),
{
    match rest {
        Ok(tokens) => {
            assert(before + (seq![t] + tokens) =~= before.push(t) + tokens);
        },
        Err(_) => {},
    }
}

/// A space, a tab, a newline and a carriage return are each skipped: the
/// tokens after one are those after the next byte.
pub proof fn white_space_is_skipped(b: Seq<u8>, i: int)
    requires
        0 <= i < b.len(),
        b[i] == 32 || b[i] == 9 || b[i] == 10 || b[i] == 13,
    ensures
        step(b, i) == Step::Skip(i + 1),
        lex_from(b, i) == lex_from(b, i + 1),
{
}

} // verus!
