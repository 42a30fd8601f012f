//! Lexing: source text to tokens.
//!
//! The lexer reads the source's UTF-8 bytes. Every token is ASCII, so a
//! token's span always starts and ends on a character boundary; only a
//! comment, which is trivia, may hold other characters.

use crate::diag;
use vstd::prelude::*;
use vstd::string::StringSliceAdditionalSpecFns;

verus! {

/// The kind of a lexical token.
#[derive(Debug, Clone, Copy, PartialEq, Eq, Structural)]
pub enum TokenKind {
    /// The keyword `func`.
    Func,
    /// The keyword `return`.
    Return,
    /// The keyword `var`.
    Var,
    /// The keyword `true`.
    True,
    /// The keyword `false`.
    False,
    /// An identifier: `[A-Za-z_][A-Za-z0-9_]*`, keywords excluded.
    Ident,
    /// An integer literal: `[0-9]+`. The value is not parsed here.
    IntLit,
    /// `(`
    LParen,
    /// `)`
    RParen,
    /// `{`
    LBrace,
    /// `}`
    RBrace,
    /// `,`
    Comma,
    /// `+`
    Plus,
    /// `-`
    Minus,
    /// `*`
    Star,
    /// `/`
    Slash,
    /// `%`
    Percent,
    /// `=`
    Equals,
    /// `==`
    EqEq,
    /// `!=`
    BangEq,
    /// `<`
    Lt,
    /// `<=`
    LtEq,
    /// `>`
    Gt,
    /// `>=`
    GtEq,
    /// `!`
    Bang,
    /// `&&`
    AmpAmp,
    /// `||`
    PipePipe,
    /// The end of the input.
    Eof,
}

/// A token: a kind and the source range it covers.
///
/// Tokens carry no text; later stages slice the source with the span.
#[derive(Debug, Clone, Copy, PartialEq, Eq, Structural)]
pub struct Token {
    /// What was matched.
    pub kind: TokenKind,
    /// Where it was matched.
    pub span: diag::Span,
    /// The whitespace and comments between the previous token and this one.
    /// Empty when there are none.
    pub trivia: diag::Span,
}

// ---------------------------------------------------------------------------
// The lexical grammar, over the source's bytes.
// ---------------------------------------------------------------------------

/// `[A-Za-z_]`.
pub open spec fn is_ident_start(c: u8) -> bool {
    (65 <= c <= 90) || (97 <= c <= 122) || c == 95
}

/// `[0-9]`.
pub open spec fn is_digit(c: u8) -> bool {
    48 <= c <= 57
}

/// `[A-Za-z0-9_]`.
pub open spec fn is_ident_continue(c: u8) -> bool {
    is_ident_start(c) || is_digit(c)
}

/// Space, tab, newline, or carriage return.
pub open spec fn is_whitespace(c: u8) -> bool {
    c == 32 || c == 9 || c == 10 || c == 13
}

/// The end of the run of identifier bytes that starts at `i`.
pub open spec fn ident_end(b: Seq<u8>, i: int) -> int
    decreases b.len() - i,
{
    if 0 <= i < b.len() && is_ident_continue(b[i]) {
        ident_end(b, i + 1)
    } else {
        i
    }
}

/// The end of the run of digits that starts at `i`.
pub open spec fn digits_end(b: Seq<u8>, i: int) -> int
    decreases b.len() - i,
{
    if 0 <= i < b.len() && is_digit(b[i]) {
        digits_end(b, i + 1)
    } else {
        i
    }
}

/// The position of the first newline at or after `i`, or the end of input.
pub open spec fn line_end(b: Seq<u8>, i: int) -> int
    decreases b.len() - i,
{
    if 0 <= i < b.len() && b[i] != 10 {
        line_end(b, i + 1)
    } else {
        i
    }
}

/// The number of bytes of the UTF-8 character whose first byte is `c`.
pub open spec fn char_width(c: u8) -> int {
    if c < 128 {
        1
    } else if c >= 240 {
        4
    } else if c >= 224 {
        3
    } else {
        2
    }
}

/// The kind of the identifier-shaped word `w`: a keyword, or `Ident`.
pub open spec fn keyword(w: Seq<u8>) -> TokenKind {
    // "func", "return", "var", "true", "false".
    if w == seq![102u8, 117, 110, 99] {
        TokenKind::Func
    } else if w == seq![114u8, 101, 116, 117, 114, 110] {
        TokenKind::Return
    } else if w == seq![118u8, 97, 114] {
        TokenKind::Var
    } else if w == seq![116u8, 114, 117, 101] {
        TokenKind::True
    } else if w == seq![102u8, 97, 108, 115, 101] {
        TokenKind::False
    } else {
        TokenKind::Ident
    }
}

/// What the lexer does at a position.
pub enum Step {
    /// Skips trivia, resuming at the position given.
    Skip(int),
    /// Matches a token of the kind given, ending at the position given.
    Tok(TokenKind, int),
    /// Finds an unexpected character, ending at the position given.
    Bad(int),
}

/// The kind of a token that is one byte long, for the bytes that are one.
pub open spec fn single(c: u8) -> Option<TokenKind> {
    if c == 40 {
        Some(TokenKind::LParen)
    } else if c == 41 {
        Some(TokenKind::RParen)
    } else if c == 123 {
        Some(TokenKind::LBrace)
    } else if c == 125 {
        Some(TokenKind::RBrace)
    } else if c == 44 {
        Some(TokenKind::Comma)
    } else if c == 43 {
        Some(TokenKind::Plus)
    } else if c == 45 {
        Some(TokenKind::Minus)
    } else if c == 42 {
        Some(TokenKind::Star)
    } else if c == 37 {
        Some(TokenKind::Percent)
    } else {
        None
    }
}

/// For `=`, `!`, `<` and `>`: the kinds of the token alone, and followed
/// by `=`.
pub open spec fn with_equals(c: u8) -> Option<(TokenKind, TokenKind)> {
    if c == 61 {
        Some((TokenKind::Equals, TokenKind::EqEq))
    } else if c == 33 {
        Some((TokenKind::Bang, TokenKind::BangEq))
    } else if c == 60 {
        Some((TokenKind::Lt, TokenKind::LtEq))
    } else if c == 62 {
        Some((TokenKind::Gt, TokenKind::GtEq))
    } else {
        None
    }
}

/// Whether the byte at `i` is `c`.
pub open spec fn byte_is(b: Seq<u8>, i: int, c: u8) -> bool {
    0 <= i < b.len() && b[i] == c
}

/// What the lexer does at position `i`, which holds a byte.
pub open spec fn step(b: Seq<u8>, i: int) -> Step {
    let c = b[i];
    if is_whitespace(c) {
        Step::Skip(i + 1)
    } else if single(c) is Some {
        Step::Tok(single(c)->0, i + 1)
    } else if c == 47 {
        // `//` starts a comment, which runs to the end of the line.
        if byte_is(b, i + 1, 47) {
            Step::Skip(line_end(b, i + 2))
        } else {
            Step::Tok(TokenKind::Slash, i + 1)
        }
    } else if let Some((alone, doubled)) = with_equals(c) {
        if byte_is(b, i + 1, 61) {
            Step::Tok(doubled, i + 2)
        } else {
            Step::Tok(alone, i + 1)
        }
    } else if c == 38 {
        // `&` and `|` are tokens only in pairs.
        if byte_is(b, i + 1, 38) {
            Step::Tok(TokenKind::AmpAmp, i + 2)
        } else {
            Step::Bad(i + 1)
        }
    } else if c == 124 {
        if byte_is(b, i + 1, 124) {
            Step::Tok(TokenKind::PipePipe, i + 2)
        } else {
            Step::Bad(i + 1)
        }
    } else if is_ident_start(c) {
        let end = ident_end(b, i + 1);
        Step::Tok(keyword(b.subrange(i, end)), end)
    } else if is_digit(c) {
        Step::Tok(TokenKind::IntLit, digits_end(b, i + 1))
    } else {
        Step::Bad(clamped_end(b, i + char_width(c)))
    }
}

/// `end`, or the end of input if `end` is past it. In valid UTF-8 a
/// character never runs past the end, so the clamp never applies.
pub open spec fn clamped_end(b: Seq<u8>, end: int) -> int {
    if end <= b.len() {
        end
    } else {
        b.len() as int
    }
}

/// A token whose trivia is not known yet: empty, at its start.
pub open spec fn raw_token(kind: TokenKind, start: int, end: int) -> Token {
    Token {
        kind,
        span: diag::Span { start: start as usize, end: end as usize },
        trivia: diag::Span { start: start as usize, end: start as usize },
    }
}

/// The tokens of `b` from position `i` on, their trivia not yet known, or
/// the span of the first unexpected character.
pub open spec fn raw_from(b: Seq<u8>, i: int) -> Result<Seq<Token>, diag::Span>
    decreases b.len() - i,
{
    if i < 0 || i >= b.len() {
        Ok(Seq::empty())
    } else {
        match step(b, i) {
            Step::Skip(j) => if i < j <= b.len() {
                raw_from(b, j)
            } else {
                Ok(Seq::empty())
            },
            Step::Tok(kind, j) => if i < j <= b.len() {
                prepend(seq![raw_token(kind, i, j)], raw_from(b, j))
            } else {
                Ok(Seq::empty())
            },
            Step::Bad(j) => Err(diag::Span { start: i as usize, end: j as usize }),
        }
    }
}

/// `prefix` followed by the tokens of `rest`, or the error of `rest`.
pub open spec fn prepend(prefix: Seq<Token>, rest: Result<Seq<Token>, diag::Span>) -> Result<
    Seq<Token>,
    diag::Span,
> {
    match rest {
        Ok(tokens) => Ok(prefix + tokens),
        Err(span) => Err(span),
    }
}

/// Where the trivia before token `k` of `raw` starts: where the token
/// before it ends, or the start of input.
pub open spec fn trivia_start(raw: Seq<Token>, k: int) -> usize {
    if k == 0 {
        0
    } else {
        raw[k - 1].span.end
    }
}

/// `raw` with each token's trivia filled in as the gap before it, and the
/// stream ended with `Eof`, whose trivia is everything after the last token.
pub open spec fn finished(raw: Seq<Token>, len: usize) -> Seq<Token> {
    Seq::new(
        raw.len() + 1,
        |k: int|
            if k < raw.len() {
                Token {
                    kind: raw[k].kind,
                    span: raw[k].span,
                    trivia: diag::Span { start: trivia_start(raw, k), end: raw[k].span.start },
                }
            } else {
                Token {
                    kind: TokenKind::Eof,
                    span: diag::Span { start: len, end: len },
                    trivia: diag::Span { start: trivia_start(raw, k), end: len },
                }
            },
    )
}

/// The tokens of the source whose bytes are `b`, or the span of its first
/// unexpected character.
pub open spec fn spec_lex(b: Seq<u8>) -> Result<Seq<Token>, diag::Span> {
    match raw_from(b, 0) {
        Ok(raw) => Ok(finished(raw, b.len() as usize)),
        Err(span) => Err(span),
    }
}

/// The bytes of `b` that `span` covers.
pub open spec fn covered(b: Seq<u8>, span: diag::Span) -> Seq<u8> {
    b.subrange(span.start as int, span.end as int)
}

/// The bytes of the first `n` tokens of `tokens`, each preceded by its
/// trivia.
pub open spec fn reassembled(b: Seq<u8>, tokens: Seq<Token>, n: int) -> Seq<u8>
    decreases n,
{
    if n <= 0 {
        Seq::empty()
    } else {
        reassembled(b, tokens, n - 1) + covered(b, tokens[n - 1].trivia) + covered(b, tokens[n - 1].span)
    }
}

/// The tokens tile a source of `len` bytes: the first trivia starts it,
/// each token's trivia runs up to the token, each token up to the next
/// trivia, and the stream ends with an empty `Eof` at the end of input.
/// Every token but `Eof` covers at least one byte.
pub open spec fn tiles(tokens: Seq<Token>, len: int) -> bool {
    &&& tokens.len() >= 1
    &&& tokens[0].trivia.start == 0
    &&& forall|k: int|
        0 <= k < tokens.len() ==> {
            &&& #[trigger] tokens[k].trivia.start <= tokens[k].trivia.end
            &&& tokens[k].trivia.end == tokens[k].span.start
            &&& tokens[k].span.start <= tokens[k].span.end <= len
        }
    &&& forall|k: int|
        0 <= k < tokens.len() - 1 ==> {
            &&& #[trigger] tokens[k].span.end == tokens[k + 1].trivia.start
            &&& tokens[k].span.start < tokens[k].span.end
            &&& tokens[k].kind != TokenKind::Eof
        }
    &&& tokens.last().kind == TokenKind::Eof
    &&& tokens.last().span == diag::Span { start: len as usize, end: len as usize }
}

/// The raw tokens from `i` lie, in order and each at least one byte long,
/// between `i` and the end of input; none of them is `Eof`.
pub open spec fn raw_ordered(raw: Seq<Token>, i: int, len: int) -> bool {
    &&& forall|k: int|
        0 <= k < raw.len() ==> {
            &&& i <= #[trigger] raw[k].span.start < raw[k].span.end <= len
            &&& raw[k].kind != TokenKind::Eof
        }
    &&& forall|k: int| 0 <= k < raw.len() - 1 ==> #[trigger] raw[k].span.end <= raw[k + 1].span.start
}

proof fn lemma_raw_ordered(b: Seq<u8>, i: int)
    requires
        0 <= i,
        b.len() <= usize::MAX,
    ensures
        raw_from(b, i) matches Ok(raw) ==> raw_ordered(raw, i, b.len() as int),
    decreases b.len() - i,
{
    if 0 <= i < b.len() {
        match step(b, i) {
            Step::Skip(j) => {
                if i < j <= b.len() {
                    lemma_raw_ordered(b, j);
                }
            },
            Step::Tok(kind, j) => {
                if i < j <= b.len() {
                    lemma_raw_ordered(b, j);
                    if let Ok(rest) = raw_from(b, j) {
                        let raw = seq![raw_token(kind, i, j)] + rest;
                        assert(kind != TokenKind::Eof) by {
                            lemma_step_kind_not_eof(b, i);
                        }
                        assert forall|k: int| 0 <= k < raw.len() - 1 implies #[trigger] raw[k].span.end
                            <= raw[k + 1].span.start by {
                            if k > 0 {
                                assert(raw[k] == rest[k - 1]);
                                assert(raw[k + 1] == rest[k]);
                            }
                        }
                        assert forall|k: int| 0 <= k < raw.len() implies {
                            &&& i <= #[trigger] raw[k].span.start < raw[k].span.end <= b.len()
                            &&& raw[k].kind != TokenKind::Eof
                        } by {
                            if k > 0 {
                                assert(raw[k] == rest[k - 1]);
                            }
                        }
                    }
                }
            },
            Step::Bad(_) => {},
        }
    }
}

proof fn lemma_step_kind_not_eof(b: Seq<u8>, i: int)
    requires
        0 <= i < b.len(),
    ensures
        step(b, i) matches Step::Tok(kind, _) ==> kind != TokenKind::Eof,
{
    let c = b[i];
    if is_ident_start(c) && !is_whitespace(c) && single(c) is None && c != 47 && with_equals(c) is None {
        let w = b.subrange(i, ident_end(b, i + 1));
        assert(keyword(w) != TokenKind::Eof);
    }
}

/// Lexing is lossless: the tokens of a source that lexes tile it, so the
/// trivia and text of its tokens, in order, are the source again.
pub proof fn lexing_is_lossless(b: Seq<u8>)
    requires
        b.len() <= usize::MAX,
    ensures
        spec_lex(b) matches Ok(tokens) ==> {
            &&& tiles(tokens, b.len() as int)
            &&& reassembled(b, tokens, tokens.len() as int) == b
        },
{
    lemma_raw_ordered(b, 0);
    if let Ok(raw) = raw_from(b, 0) {
        let len = b.len() as usize;
        let tokens = finished(raw, len);
        assert forall|k: int| 0 <= k < tokens.len() implies {
            &&& #[trigger] tokens[k].trivia.start <= tokens[k].trivia.end
            &&& tokens[k].trivia.end == tokens[k].span.start
            &&& tokens[k].span.start <= tokens[k].span.end <= b.len()
        } by {
            if k > 0 && k < raw.len() {
                assert(raw[k - 1].span.end <= raw[k].span.start);
            }
            if k > 0 && k == raw.len() {
                assert(0 <= raw[k - 1].span.start < raw[k - 1].span.end);
                assert(raw[k - 1].span.end <= b.len());
            }
        }
        assert forall|k: int| 0 <= k < tokens.len() - 1 implies {
            &&& #[trigger] tokens[k].span.end == tokens[k + 1].trivia.start
            &&& tokens[k].span.start < tokens[k].span.end
            &&& tokens[k].kind != TokenKind::Eof
        } by {
        }
        lemma_reassembled(b, tokens, tokens.len() as int);
        assert(b.subrange(0, b.len() as int) =~= b);
    }
}

proof fn lemma_reassembled(b: Seq<u8>, tokens: Seq<Token>, n: int)
    requires
        tiles(tokens, b.len() as int),
        1 <= n <= tokens.len(),
    ensures
        reassembled(b, tokens, n) == b.subrange(0, tokens[n - 1].span.end as int),
    decreases n,
{
    let t = tokens[n - 1];
    if n == 1 {
        assert(reassembled(b, tokens, 0) =~= Seq::<u8>::empty());
        assert(covered(b, t.trivia) + covered(b, t.span) =~= b.subrange(0, t.span.end as int));
        assert(Seq::<u8>::empty() + covered(b, t.trivia) =~= covered(b, t.trivia));
    } else {
        lemma_reassembled(b, tokens, n - 1);
        let prev = tokens[n - 2];
        assert(prev.span.end == t.trivia.start);
        assert(b.subrange(0, prev.span.end as int) + covered(b, t.trivia) + covered(b, t.span)
            =~= b.subrange(0, t.span.end as int));
    }
}

/// The diagnostic for an unexpected character at `span`.
pub open spec fn unexpected_at(span: diag::Span) -> diag::Entry {
    diag::Entry { kind: diag::Kind::UnexpectedCharacter, span }
}

// ---------------------------------------------------------------------------
// The lexer.
// ---------------------------------------------------------------------------

/// Tokenises `source`.
///
/// Stops at the first error and returns `None`: where a token ends after
/// an error is not known, so nothing lexed past it is trustworthy.
pub fn lex(source: &str, diags: &mut diag::Sink) -> (r: Option<Vec<Token>>)
    ensures
        match spec_lex(source.spec_bytes()) {
            Ok(tokens) => r matches Some(v) && v@ == tokens && final(diags)@ == old(diags)@,
            Err(span) => r is None && final(diags)@ == old(diags)@.push(unexpected_at(span)),
        },
{
    let b = source.as_bytes();
    let len = b.len();
    let mut tokens: Vec<Token> = Vec::new();
    let mut i: usize = 0;
    while i < len
        invariant
            b@ == source.spec_bytes(),
            len == b@.len(),
            i <= len,
            raw_from(b@, 0) == prepend(tokens@, raw_from(b@, i as int)),
            diags@ == old(diags)@,
        decreases len - i,
    {
        let ghost bs = b@;
        let ghost before = tokens@;
        let c = b[i];
        let ghost st = step(bs, i as int);
        if c == 32 || c == 9 || c == 10 || c == 13 {
            i = i + 1;
        } else if let Some(kind) = single_kind(c) {
            tokens.push(token(kind, i, i + 1));
            proof { lemma_prepend_push(before, raw_token(kind, i as int, i + 1), raw_from(bs, i + 1)); }
            i = i + 1;
        } else if c == 47 {
            if i + 1 < len && b[i + 1] == 47 {
                let end = consume_while_not_newline(b, i + 2);
                i = end;
            } else {
                tokens.push(token(TokenKind::Slash, i, i + 1));
                proof { lemma_prepend_push(before, raw_token(TokenKind::Slash, i as int, i + 1), raw_from(bs, i + 1)); }
                i = i + 1;
            }
        } else if let Some(pair) = equals_kinds(c) {
            if i + 1 < len && b[i + 1] == 61 {
                tokens.push(token(pair.1, i, i + 2));
                proof { lemma_prepend_push(before, raw_token(pair.1, i as int, i + 2), raw_from(bs, i + 2)); }
                i = i + 2;
            } else {
                tokens.push(token(pair.0, i, i + 1));
                proof { lemma_prepend_push(before, raw_token(pair.0, i as int, i + 1), raw_from(bs, i + 1)); }
                i = i + 1;
            }
        } else if c == 38 || c == 124 {
            if i + 1 < len && b[i + 1] == c {
                let kind = if c == 38 {
                    TokenKind::AmpAmp
                } else {
                    TokenKind::PipePipe
                };
                tokens.push(token(kind, i, i + 2));
                proof { lemma_prepend_push(before, raw_token(kind, i as int, i + 2), raw_from(bs, i + 2)); }
                i = i + 2;
            } else {
                proof {
                    assert(step(bs, i as int) == Step::Bad(i + 1));
                    assert(raw_from(bs, i as int) == Err::<Seq<Token>, diag::Span>(
                        diag::Span { start: i, end: (i + 1) as usize },
                    ));
                }
                diags.push(unexpected_character(i, i + 1));
                return None;
            }
        } else if is_ident_start_byte(c) {
            let end = consume_ident(b, i + 1);
            let kind = keyword_kind(b, i, end);
            tokens.push(token(kind, i, end));
            proof { lemma_prepend_push(before, raw_token(kind, i as int, end as int), raw_from(bs, end as int)); }
            i = end;
        } else if 48 <= c && c <= 57 {
            let end = consume_digits(b, i + 1);
            tokens.push(token(TokenKind::IntLit, i, end));
            proof { lemma_prepend_push(before, raw_token(TokenKind::IntLit, i as int, end as int), raw_from(bs, end as int)); }
            i = end;
        } else {
            let width: usize = if c < 128 {
                1
            } else if c >= 240 {
                4
            } else if c >= 224 {
                3
            } else {
                2
            };
            let end = if width <= len - i {
                i + width
            } else {
                len
            };
            proof {
                assert(step(bs, i as int) == Step::Bad(end as int));
                assert(raw_from(bs, i as int) == Err::<Seq<Token>, diag::Span>(
                    diag::Span { start: i, end },
                ));
            }
            diags.push(unexpected_character(i, end));
            return None;
        }
    }
    proof {
        assert(raw_from(b@, i as int) == Ok::<Seq<Token>, diag::Span>(Seq::<Token>::empty()));
        assert(tokens@ + Seq::<Token>::empty() =~= tokens@);
        assert(raw_from(b@, 0) == Ok::<Seq<Token>, diag::Span>(tokens@));
    }
    let r = finish(tokens, len);
    Some(r)
}


/// The kind of the one-byte token `c`, for the bytes that are one.
fn single_kind(c: u8) -> (r: Option<TokenKind>)
    ensures
        r == single(c),
{
    if c == 40 {
        Some(TokenKind::LParen)
    } else if c == 41 {
        Some(TokenKind::RParen)
    } else if c == 123 {
        Some(TokenKind::LBrace)
    } else if c == 125 {
        Some(TokenKind::RBrace)
    } else if c == 44 {
        Some(TokenKind::Comma)
    } else if c == 43 {
        Some(TokenKind::Plus)
    } else if c == 45 {
        Some(TokenKind::Minus)
    } else if c == 42 {
        Some(TokenKind::Star)
    } else if c == 37 {
        Some(TokenKind::Percent)
    } else {
        None
    }
}

/// For `=`, `!`, `<` and `>`: the kinds of the token alone, and followed
/// by `=`.
fn equals_kinds(c: u8) -> (r: Option<(TokenKind, TokenKind)>)
    ensures
        r == with_equals(c),
{
    if c == 61 {
        Some((TokenKind::Equals, TokenKind::EqEq))
    } else if c == 33 {
        Some((TokenKind::Bang, TokenKind::BangEq))
    } else if c == 60 {
        Some((TokenKind::Lt, TokenKind::LtEq))
    } else if c == 62 {
        Some((TokenKind::Gt, TokenKind::GtEq))
    } else {
        None
    }
}

/// A token with empty trivia; [`finish`] fills it in once the gaps are known.
pub fn token(kind: TokenKind, start: usize, end: usize) -> (t: Token)
    ensures
        t == raw_token(kind, start as int, end as int),
{
    Token {
        kind,
        span: diag::Span { start, end },
        trivia: diag::Span { start, end: start },
    }
}

/// The diagnostic for an unexpected character at `start..end`.
pub fn unexpected_character(start: usize, end: usize) -> (e: diag::Entry)
    ensures
        e == unexpected_at(diag::Span { start, end }),
{
    diag::Entry { kind: diag::Kind::UnexpectedCharacter, span: diag::Span { start, end } }
}

/// `[A-Za-z_]`.
pub fn is_ident_start_byte(c: u8) -> (r: bool)
    ensures
        r == is_ident_start(c),
{
    (65 <= c && c <= 90) || (97 <= c && c <= 122) || c == 95
}

/// `[A-Za-z0-9_]`.
pub fn is_ident_continue_byte(c: u8) -> (r: bool)
    ensures
        r == is_ident_continue(c),
{
    is_ident_start_byte(c) || (48 <= c && c <= 57)
}

/// Consumes identifier bytes from `i`, returning the position one past the
/// last one.
fn consume_ident(b: &[u8], i: usize) -> (end: usize)
    requires
        i <= b@.len(),
    ensures
        end == ident_end(b@, i as int),
        i <= end <= b@.len(),
{
    let mut j = i;
    while j < b.len() && is_ident_continue_byte(b[j])
        invariant
            i <= j <= b@.len(),
            ident_end(b@, i as int) == ident_end(b@, j as int),
        decreases b@.len() - j,
    {
        j = j + 1;
    }
    j
}

/// Consumes digits from `i`, returning the position one past the last one.
fn consume_digits(b: &[u8], i: usize) -> (end: usize)
    requires
        i <= b@.len(),
    ensures
        end == digits_end(b@, i as int),
        i <= end <= b@.len(),
{
    let mut j = i;
    while j < b.len() && 48 <= b[j] && b[j] <= 57
        invariant
            i <= j <= b@.len(),
            digits_end(b@, i as int) == digits_end(b@, j as int),
        decreases b@.len() - j,
    {
        j = j + 1;
    }
    j
}

/// Consumes the rest of a comment from `i`: everything up to the next
/// newline, which is left for the whitespace it is.
fn consume_while_not_newline(b: &[u8], i: usize) -> (end: usize)
    requires
        i <= b@.len(),
    ensures
        end == line_end(b@, i as int),
        i <= end <= b@.len(),
{
    let mut j = i;
    while j < b.len() && b[j] != 10
        invariant
            i <= j <= b@.len(),
            line_end(b@, i as int) == line_end(b@, j as int),
        decreases b@.len() - j,
    {
        j = j + 1;
    }
    j
}

/// Whether `b[start..end]` is the bytes of `word`.
fn bytes_are(b: &[u8], start: usize, end: usize, word: &[u8]) -> (r: bool)
    requires
        start <= end <= b@.len(),
    ensures
        r == (b@.subrange(start as int, end as int) == word@),
{
    if end - start != word.len() {
        assert(b@.subrange(start as int, end as int).len() != word@.len());
        return false;
    }
    let mut k: usize = 0;
    while k < word.len()
        invariant
            end - start == word@.len(),
            start <= end <= b@.len(),
            k <= word@.len(),
            forall|m: int| 0 <= m < k ==> b@[start + m] == word@[m],
        decreases word@.len() - k,
    {
        if b[start + k] != word[k] {
            assert(b@.subrange(start as int, end as int)[k as int] != word@[k as int]);
            return false;
        }
        k = k + 1;
    }
    assert(b@.subrange(start as int, end as int) =~= word@);
    true
}

/// The kind of the identifier-shaped word `b[start..end]`: a keyword, or
/// `Ident`.
pub fn keyword_kind(b: &[u8], start: usize, end: usize) -> (k: TokenKind)
    requires
        start <= end <= b@.len(),
    ensures
        k == keyword(b@.subrange(start as int, end as int)),
{
    let func: [u8; 4] = [102, 117, 110, 99];
    let ret: [u8; 6] = [114, 101, 116, 117, 114, 110];
    let var: [u8; 3] = [118, 97, 114];
    let tru: [u8; 4] = [116, 114, 117, 101];
    let fals: [u8; 5] = [102, 97, 108, 115, 101];
    assert(func@ =~= seq![102u8, 117, 110, 99]);
    assert(ret@ =~= seq![114u8, 101, 116, 117, 114, 110]);
    assert(var@ =~= seq![118u8, 97, 114]);
    assert(tru@ =~= seq![116u8, 114, 117, 101]);
    assert(fals@ =~= seq![102u8, 97, 108, 115, 101]);
    if bytes_are(b, start, end, func.as_slice()) {
        TokenKind::Func
    } else if bytes_are(b, start, end, ret.as_slice()) {
        TokenKind::Return
    } else if bytes_are(b, start, end, var.as_slice()) {
        TokenKind::Var
    } else if bytes_are(b, start, end, tru.as_slice()) {
        TokenKind::True
    } else if bytes_are(b, start, end, fals.as_slice()) {
        TokenKind::False
    } else {
        TokenKind::Ident
    }
}

proof fn lemma_prepend_push(before: Seq<Token>, t: Token, rest: Result<Seq<Token>, diag::Span>)
    ensures
        prepend(before, prepend(seq![t], rest)) == prepend(before.push(t), rest),
{
    match rest {
        Ok(tokens) => {
            assert(before + (seq![t] + tokens) =~= before.push(t) + tokens);
        },
        Err(_) => {},
    }
}

/// Fills in the trivia `lex` left empty (the gap before each token) and
/// ends the stream with `Eof`, whose trivia is everything after the last
/// token.
pub fn finish(tokens: Vec<Token>, source_len: usize) -> (r: Vec<Token>)
    ensures
        r@ == finished(tokens@, source_len),
{
    let mut out: Vec<Token> = Vec::new();
    let mut end: usize = 0;
    let mut k: usize = 0;
    while k < tokens.len()
        invariant
            k <= tokens@.len(),
            end == trivia_start(tokens@, k as int),
            out@.len() == k,
            forall|m: int| 0 <= m < k ==> out@[m] == #[trigger] finished(tokens@, source_len)[m],
        decreases tokens@.len() - k,
    {
        let t = tokens[k];
        out.push(Token { kind: t.kind, span: t.span, trivia: diag::Span { start: end, end: t.span.start } });
        end = t.span.end;
        k = k + 1;
    }
    out.push(Token {
        kind: TokenKind::Eof,
        span: diag::Span { start: source_len, end: source_len },
        trivia: diag::Span { start: end, end: source_len },
    });
    assert(out@ =~= finished(tokens@, source_len));
    out
}

// ---------------------------------------------------------------------------
// White space.
// ---------------------------------------------------------------------------

/// A space, a tab, a newline and a carriage return are each trivia: the
/// lexer skips them, and the tokens after one are those after the next
/// byte.
pub proof fn white_space_is_skipped(b: Seq<u8>, i: int)
    requires
        0 <= i < b.len(),
        b[i] == 32 || b[i] == 9 || b[i] == 10 || b[i] == 13,
    ensures
        step(b, i) == Step::Skip(i + 1),
        raw_from(b, i) == raw_from(b, i + 1),
{
}

proof fn lemma_ident_run(b: Seq<u8>, m: int)
    requires
        0 <= m,
    ensures
        m <= ident_end(b, m),
        m <= b.len() ==> ident_end(b, m) <= b.len(),
        forall|p: int| m <= p < ident_end(b, m) ==> 0 <= p < b.len() && is_ident_continue(#[trigger] b[p]),
    decreases b.len() - m,
{
    if 0 <= m < b.len() && is_ident_continue(b[m]) {
        lemma_ident_run(b, m + 1);
        assert forall|p: int| m <= p < ident_end(b, m) implies 0 <= p < b.len() && is_ident_continue(
            #[trigger] b[p],
        ) by {
            if p > m {
                assert(m + 1 <= p < ident_end(b, m + 1));
            }
        }
    }
}

/// Replacing the blank byte at `i` by a space: a tab or a carriage return.
pub open spec fn spaced(b: Seq<u8>, i: int) -> Seq<u8> {
    b.update(i, 32)
}

proof fn lemma_ends_spaced(b: Seq<u8>, i: int, m: int)
    requires
        0 <= i < b.len(),
        b[i] == 9 || b[i] == 13,
    ensures
        line_end(spaced(b, i), m) == line_end(b, m),
        ident_end(spaced(b, i), m) == ident_end(b, m),
        digits_end(spaced(b, i), m) == digits_end(b, m),
    decreases b.len() - m,
{
    if 0 <= m < b.len() {
        lemma_ends_spaced(b, i, m + 1);
    }
}

proof fn lemma_step_spaced(b: Seq<u8>, i: int, k: int)
    requires
        0 <= i < b.len(),
        b[i] == 9 || b[i] == 13,
        0 <= k < b.len(),
    ensures
        step(spaced(b, i), k) == step(b, k),
{
    let b2 = spaced(b, i);
    lemma_ends_spaced(b, i, k + 1);
    lemma_ends_spaced(b, i, k + 2);
    if k != i {
        lemma_ident_run(b, k + 1);
        let end = ident_end(b, k + 1);
        if is_ident_start(b[k]) {
            assert(!is_ident_continue(b[i]));
            assert forall|p: int| k <= p < end implies b2[p] == b[p] by {
                if p > k {
                    assert(is_ident_continue(b[p]));
                }
            }
            assert(b2.subrange(k, end) =~= b.subrange(k, end));
        }
    }
}

proof fn lemma_raw_spaced(b: Seq<u8>, i: int, k: int)
    requires
        0 <= i < b.len(),
        b[i] == 9 || b[i] == 13,
    ensures
        raw_from(spaced(b, i), k) == raw_from(b, k),
    decreases b.len() - k,
{
    if 0 <= k < b.len() {
        lemma_step_spaced(b, i, k);
        match step(b, k) {
            Step::Skip(j) => if k < j <= b.len() {
                lemma_raw_spaced(b, i, j);
            },
            Step::Tok(_, j) => if k < j <= b.len() {
                lemma_raw_spaced(b, i, j);
            },
            Step::Bad(_) => {},
        }
    }
}

/// A tab or a carriage return lexes as a space does: writing a space in
/// its place changes neither the tokens, nor their spans and trivia, nor
/// any error. So a file with CRLF line ends lexes as one with LF ends and
/// a space before each newline.
pub proof fn tabs_and_carriage_returns_lex_as_spaces(b: Seq<u8>, i: int)
    requires
        0 <= i < b.len(),
        b[i] == 9 || b[i] == 13,
    ensures
        spec_lex(b.update(i, 32)) == spec_lex(b),
{
    lemma_raw_spaced(b, i, 0);
}

} // verus!
