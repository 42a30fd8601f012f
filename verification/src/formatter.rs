//! The formatter: source text to canonical source text.
//!
//! A printer walks the concrete syntax tree, writing each token with the
//! separation the rules give it and keeping the comments of the trivia
//! before it. The text it writes is stated by spec functions that follow
//! the printer through the tree, one operation at a time.

use crate::cst::{self, ArgV, ExprV, FuncDeclV, ProgramV, StmtV};
use crate::diag;
use crate::lexer::{self, Token};
use crate::parser;
use crate::text;
use vstd::prelude::*;
use vstd::string::StringSliceAdditionalSpecFns;

verus! {

// ---------------------------------------------------------------------------
// Comments and lines of trivia.
// ---------------------------------------------------------------------------

/// Whether `c` is white space, as Unicode's White_Space property has it.
pub open spec fn spec_is_whitespace(c: char) -> bool {
    ||| c == '\t' || c == '\n' || c == '\u{0B}' || c == '\u{0C}' || c == '\r' || c == ' '
    ||| c == '\u{85}' || c == '\u{A0}' || c == '\u{1680}'
    ||| ('\u{2000}' <= c && c <= '\u{200A}')
    ||| c == '\u{2028}' || c == '\u{2029}' || c == '\u{202F}' || c == '\u{205F}' || c == '\u{3000}'
}

/// Whether `c` is white space, as Unicode's White_Space property has it.
#[verifier::when_used_as_spec(spec_is_whitespace)]
pub fn is_whitespace(c: char) -> (r: bool)
    ensures
        r == spec_is_whitespace(c),
{
    c == '\t' || c == '\n' || c == '\u{0B}' || c == '\u{0C}' || c == '\r' || c == ' ' || c == '\u{85}' || c
        == '\u{A0}' || c == '\u{1680}' || ('\u{2000}' <= c && c <= '\u{200A}') || c == '\u{2028}' || c
        == '\u{2029}' || c == '\u{202F}' || c == '\u{205F}' || c == '\u{3000}'
}

/// `s` without the white space it ends with.
pub open spec fn trim_end(s: Seq<char>) -> Seq<char>
    decreases s.len(),
{
    if s.len() > 0 && spec_is_whitespace(s.last()) {
        trim_end(s.drop_last())
    } else {
        s
    }
}

/// The position of the first `//` in `s` from `i` on.
pub open spec fn find_slashes(s: Seq<char>, i: int) -> Option<int>
    decreases s.len() - i,
{
    if i < 0 || i + 1 >= s.len() {
        None
    } else if s[i] == '/' && s[i + 1] == '/' {
        Some(i)
    } else {
        find_slashes(s, i + 1)
    }
}

/// The comment in `line`, from `//` to its end, with trailing white space
/// trimmed. `line` holds no newline, so the comment ends where it does.
pub open spec fn comment(line: Seq<char>) -> Option<Seq<char>> {
    match find_slashes(line, 0) {
        Some(i) => Some(trim_end(line.skip(i))),
        None => None,
    }
}

/// The position of the first `c` in `s` from `i` on.
pub open spec fn find_char(s: Seq<char>, c: char, i: int) -> Option<int>
    decreases s.len() - i,
{
    if i < 0 || i >= s.len() {
        None
    } else if s[i] == c {
        Some(i)
    } else {
        find_char(s, c, i + 1)
    }
}

/// The position of the last `c` in the first `n` characters of `s`.
pub open spec fn rfind_char(s: Seq<char>, c: char, n: int) -> Option<int>
    decreases n,
{
    if n <= 0 || n > s.len() {
        None
    } else if s[n - 1] == c {
        Some(n - 1)
    } else {
        rfind_char(s, c, n - 1)
    }
}

/// `s` split at each newline, as `str::split` splits it.
pub open spec fn split_lines(s: Seq<char>) -> Seq<Seq<char>>
    decreases s.len(),
{
    match find_char(s, '\n', 0) {
        Some(i) => {
            proof {
                lemma_find_char_bounds(s, '\n', 0);
            }
            seq![s.take(i)] + split_lines(s.skip(i + 1))
        },
        None => seq![s],
    }
}

/// The part of trivia `t` on the line of the token before it, and the rest.
pub open spec fn head_tail(t: Seq<char>) -> (Seq<char>, Seq<char>) {
    match find_char(t, '\n', 0) {
        Some(i) => (t.take(i), t.skip(i + 1)),
        None => (t, Seq::empty()),
    }
}

/// The whole lines of the rest of a trivia: what its last newline ends,
/// split at each newline. After the last newline is only the indentation
/// of the token.
pub open spec fn whole_lines(tail: Seq<char>) -> Seq<Seq<char>> {
    match rfind_char(tail, '\n', tail.len() as int) {
        Some(j) => split_lines(tail.take(j)),
        None => Seq::empty(),
    }
}

/// The position of the first line from the `k`th on that holds a comment.
pub open spec fn first_comment(lines: Seq<Seq<char>>, k: int) -> Option<int>
    decreases lines.len() - k,
{
    if k < 0 || k >= lines.len() {
        None
    } else if comment(lines[k]) is Some {
        Some(k)
    } else {
        first_comment(lines, k + 1)
    }
}

/// The position of the last line among the first `n` that holds a comment.
pub open spec fn last_comment(lines: Seq<Seq<char>>, n: int) -> Option<int>
    decreases n,
{
    if n <= 0 || n > lines.len() {
        None
    } else if comment(lines[n - 1]) is Some {
        Some(n - 1)
    } else {
        last_comment(lines, n - 1)
    }
}

pub proof fn lemma_find_char_bounds(s: Seq<char>, c: char, i: int)
    ensures
        find_char(s, c, i) matches Some(k) ==> i <= k < s.len() && s[k] == c,
    decreases s.len() - i,
{
    if 0 <= i < s.len() && s[i] != c {
        lemma_find_char_bounds(s, c, i + 1);
    }
}

pub proof fn lemma_rfind_char_bounds(s: Seq<char>, c: char, n: int)
    ensures
        rfind_char(s, c, n) matches Some(k) ==> 0 <= k < n && k < s.len() && s[k] == c,
    decreases n,
{
    if 0 < n <= s.len() && s[n - 1] != c {
        lemma_rfind_char_bounds(s, c, n - 1);
    }
}

// ---------------------------------------------------------------------------
// The printer, as a state.
// ---------------------------------------------------------------------------

/// What separates a token from what precedes it on the same line.
#[derive(Debug, Clone, Copy, PartialEq, Eq, Structural)]
pub enum Sep {
    /// One space.
    Space,
    /// Nothing.
    Tight,
}

/// Which of the blank lines in a token's trivia are printed. Runs of them
/// collapse to one wherever they are kept.
#[derive(Debug, Clone, Copy, PartialEq, Eq, Structural)]
pub enum Blanks {
    /// All of them.
    All,
    /// All but the ones directly after the previous token.
    NotLeading,
    /// All but the ones directly before this token.
    NotTrailing,
    /// None.
    Nothing,
    /// None; one blank line is printed in their place.
    Separator,
}

/// Where the printer is on the line it is writing.
#[derive(Debug, Clone, Copy, PartialEq, Eq, Structural)]
pub enum State {
    /// Nothing has been printed.
    Empty,
    /// The line has text on it.
    InLine,
    /// The line is finished. Its newline is written once the next line
    /// starts, so a comment can still be appended to it.
    Ended,
}

/// The printer's state: what it wrote, how many tabs start a line, and
/// where it is on the line.
pub struct P {
    pub out: Seq<char>,
    pub indent: nat,
    pub state: State,
}

/// `n` tabs.
pub open spec fn tabs(n: nat) -> Seq<char> {
    Seq::new(n, |i: int| '\t')
}

/// Writes `t`, starting a new line if the last one is finished.
#[verifier::opaque]
pub open spec fn p_text(p: P, t: Seq<char>, sep: Sep) -> P {
    let before = match p.state {
        State::Empty => tabs(p.indent),
        State::Ended => seq!['\n'] + tabs(p.indent),
        State::InLine => if sep == Sep::Space {
            seq![' ']
        } else {
            Seq::empty()
        },
    };
    P { out: p.out + before + t, indent: p.indent, state: State::InLine }
}

/// Finishes the current line. Its newline waits for the next one.
pub open spec fn p_end_line(p: P) -> P {
    if p.state != State::Empty {
        P { state: State::Ended, ..p }
    } else {
        p
    }
}

/// Leaves an empty line, if there is a finished line to leave it after.
pub open spec fn p_blank_line(p: P) -> P {
    if p.state == State::Ended {
        P { out: p.out.push('\n'), ..p }
    } else {
        p
    }
}

/// Appends the comment `c` to the line already written, or starts the
/// output with it when there is no such line.
pub open spec fn p_trailing_comment(p: P, c: Seq<char>) -> P {
    let q = match p.state {
        State::Empty => p_text(p, c, Sep::Tight),
        _ => P { out: p.out + seq![' '] + c, ..p },
    };
    p_end_line(q)
}

/// Writes the comment `c` on a line of its own, at the current indentation.
pub open spec fn p_comment_line(p: P, c: Seq<char>) -> P {
    p_end_line(p_text(p_end_line(p), c, Sep::Tight))
}

/// Whether the blank `k`th line of a trivia is kept, under `blanks`, its
/// first and last comment lines being `fc` and `lc`.
pub open spec fn keeps(blanks: Blanks, k: int, fc: Option<int>, lc: Option<int>) -> bool {
    match blanks {
        Blanks::All => true,
        Blanks::NotLeading => fc matches Some(f) && k > f,
        Blanks::NotTrailing => lc matches Some(l) && k < l,
        _ => false,
    }
}

/// Writes the lines of a trivia from the `k`th on: each comment on a line
/// of its own, and a run of kept blank lines as one, if something follows
/// it. `blank` is whether such a run is pending.
pub open spec fn p_lines(
    p: P,
    lines: Seq<Seq<char>>,
    k: int,
    blanks: Blanks,
    fc: Option<int>,
    lc: Option<int>,
    blank: bool,
) -> P
    decreases lines.len() - k,
{
    if k < 0 || k >= lines.len() {
        if blank {
            p_blank_line(p)
        } else {
            p
        }
    } else {
        match comment(lines[k]) {
            None => p_lines(p, lines, k + 1, blanks, fc, lc, blank || keeps(blanks, k, fc, lc)),
            Some(c) => {
                let q = if blank {
                    p_blank_line(p)
                } else {
                    p
                };
                p_lines(p_comment_line(q, c), lines, k + 1, blanks, fc, lc, false)
            },
        }
    }
}

/// Writes the comments and blank lines of the trivia `t`.
#[verifier::opaque]
pub open spec fn p_trivia(p: P, t: Seq<char>, blanks: Blanks) -> P {
    let (head, tail) = head_tail(t);
    let p1 = match comment(head) {
        Some(c) => p_trailing_comment(p, c),
        None => p,
    };
    let p2 = if blanks == Blanks::Separator {
        p_blank_line(p1)
    } else {
        p1
    };
    let lines = whole_lines(tail);
    p_lines(p2, lines, 0, blanks, first_comment(lines, 0), last_comment(lines, lines.len() as int), false)
}

/// Writes `token` and the trivia before it, of the source whose bytes are
/// `b`.
#[verifier::opaque]
pub open spec fn p_token(p: P, b: Seq<u8>, token: Token, sep: Sep, blanks: Blanks) -> P {
    let t = text::spec_slice(b, token.trivia.start as int, token.trivia.end as int);
    p_text(p_trivia(p, t, blanks), text::spec_slice(b, token.span.start as int, token.span.end as int), sep)
}

/// Writes `e`, `sep` separating its first token from what precedes it.
pub open spec fn p_expr(p: P, b: Seq<u8>, e: ExprV, sep: Sep) -> P
    decreases e, 1int,
{
    match e {
        ExprV::IntLit(t) => p_token(p, b, t, sep, Blanks::All),
        ExprV::BoolLit(t) => p_token(p, b, t, sep, Blanks::All),
        ExprV::Var(t) => p_token(p, b, t, sep, Blanks::All),
        ExprV::Binary { lhs, op, rhs } => p_expr(
            p_token(p_expr(p, b, *lhs, sep), b, op, Sep::Space, Blanks::All),
            b,
            *rhs,
            Sep::Space,
        ),
        ExprV::Unary { op, operand } => p_expr(p_token(p, b, op, sep, Blanks::All), b, *operand, Sep::Tight),
        ExprV::Call { callee, lparen, args, rparen } => {
            let q = p_token(p_token(p, b, callee, sep, Blanks::All), b, lparen, Sep::Tight, Blanks::All);
            p_token(p_args(q, b, args, 0), b, rparen, Sep::Tight, Blanks::All)
        },
        ExprV::Paren { lparen, inner, rparen } => p_token(
            p_expr(p_token(p, b, lparen, sep, Blanks::All), b, *inner, Sep::Tight),
            b,
            rparen,
            Sep::Tight,
            Blanks::All,
        ),
    }
}

/// Writes the arguments from the `k`th on: each after one space but the
/// first, each comma tight against its argument.
pub open spec fn p_args(p: P, b: Seq<u8>, args: Seq<ArgV>, k: int) -> P
    decreases args, args.len() - k,
{
    if k < 0 || k >= args.len() {
        p
    } else {
        let sep = if k == 0 {
            Sep::Tight
        } else {
            Sep::Space
        };
        let q = p_expr(p, b, args[k].expr, sep);
        let r = match args[k].comma {
            Some(c) => p_token(q, b, c, Sep::Tight, Blanks::All),
            None => q,
        };
        p_args(r, b, args, k + 1)
    }
}

/// Writes `s` on a line of its own; `blanks` governs the blank lines
/// before it.
#[verifier::opaque]
pub open spec fn p_stmt(p: P, b: Seq<u8>, s: StmtV, blanks: Blanks) -> P {
    match s {
        StmtV::Var { var, name, ty, equals, init } => {
            let q = p_token(p, b, var, Sep::Tight, blanks);
            let q = p_token(q, b, name, Sep::Space, Blanks::All);
            let q = p_token(q, b, ty, Sep::Space, Blanks::All);
            let q = p_token(q, b, equals, Sep::Space, Blanks::All);
            p_expr(q, b, init, Sep::Space)
        },
        StmtV::Return { ret, expr } => p_expr(p_token(p, b, ret, Sep::Tight, blanks), b, expr, Sep::Space),
    }
}

/// Writes the first `n` parameters: each after one space but the first,
/// each comma tight against it.
pub open spec fn p_params(p: P, b: Seq<u8>, params: Seq<cst::Param>, n: int) -> P
    decreases n,
{
    if n <= 0 || n > params.len() {
        p
    } else {
        let q = p_params(p, b, params, n - 1);
        let k = n - 1;
        let sep = if k == 0 {
            Sep::Tight
        } else {
            Sep::Space
        };
        let q = p_token(p_token(q, b, params[k].name, sep, Blanks::All), b, params[k].ty, Sep::Space, Blanks::All);
        match params[k].comma {
            Some(c) => p_token(q, b, c, Sep::Tight, Blanks::All),
            None => q,
        }
    }
}

/// Writes the first `n` statements of a body, each on a line of its own;
/// blank lines before the first one are dropped.
pub open spec fn p_body(p: P, b: Seq<u8>, body: Seq<StmtV>, n: int) -> P
    decreases n,
{
    if n <= 0 || n > body.len() {
        p
    } else {
        let blanks = if n - 1 == 0 {
            Blanks::NotLeading
        } else {
            Blanks::All
        };
        p_end_line(p_stmt(p_body(p, b, body, n - 1), b, body[n - 1], blanks))
    }
}

/// Writes `f`; `blanks` governs the blank lines before it. Its body is
/// indented one tab, and a comment before its `}` as the statements are.
#[verifier::opaque]
pub open spec fn p_func(p: P, b: Seq<u8>, f: FuncDeclV, blanks: Blanks) -> P {
    let q = p_token(p, b, f.func, Sep::Tight, blanks);
    let q = p_token(q, b, f.name, Sep::Space, Blanks::All);
    let q = p_token(q, b, f.lparen, Sep::Tight, Blanks::All);
    let q = p_params(q, b, f.params, f.params.len() as int);
    let q = p_token(q, b, f.rparen, Sep::Tight, Blanks::All);
    let q = p_token(q, b, f.ret, Sep::Space, Blanks::All);
    let q = p_end_line(p_token(q, b, f.lbrace, Sep::Space, Blanks::All));
    let q = P { indent: q.indent + 1, ..q };
    let q = p_body(q, b, f.body, f.body.len() as int);
    let t = text::spec_slice(b, f.rbrace.trivia.start as int, f.rbrace.trivia.end as int);
    let q = p_trivia(q, t, Blanks::NotTrailing);
    let q = P { indent: (q.indent - 1) as nat, ..q };
    p_end_line(p_text(q, text::spec_slice(b, f.rbrace.span.start as int, f.rbrace.span.end as int), Sep::Tight))
}

/// Writes the first `n` functions, one blank line between each two.
pub open spec fn p_funcs(p: P, b: Seq<u8>, funcs: Seq<FuncDeclV>, n: int) -> P
    decreases n,
{
    if n <= 0 || n > funcs.len() {
        p
    } else {
        let blanks = if n - 1 == 0 {
            Blanks::Nothing
        } else {
            Blanks::Separator
        };
        p_func(p_funcs(p, b, funcs, n - 1), b, funcs[n - 1], blanks)
    }
}

/// The printer before it has written anything.
pub open spec fn start() -> P {
    P { out: Seq::empty(), indent: 0, state: State::Empty }
}

/// The formatted text of `program`, of the source whose bytes are `b`: its
/// functions, then whatever the file ends with, and one newline to end it
/// unless it is empty.
pub open spec fn formatted(b: Seq<u8>, program: ProgramV) -> Seq<char> {
    let q = p_funcs(start(), b, program.funcs, program.funcs.len() as int);
    let t = text::spec_slice(b, program.eof.trivia.start as int, program.eof.trivia.end as int);
    let q = p_trivia(q, t, Blanks::NotTrailing);
    if q.state != State::Empty {
        q.out.push('\n')
    } else {
        q.out
    }
}

// ---------------------------------------------------------------------------
// Lines and comments, computed.
// ---------------------------------------------------------------------------

/// The characters of `s`.
fn chars_of(s: &String) -> (v: Vec<char>)
    ensures
        v@ == s@,
{
    let mut v: Vec<char> = Vec::new();
    for c in it: s.as_str().chars()
        invariant
            it.seq() == s@,
            v@ == s@.take(it.index() as int),
    {
        v.push(c);
    }
    assert(v@ =~= s@);
    v
}

/// The characters of `v` from `from` up to `to`.
fn part(v: &Vec<char>, from: usize, to: usize) -> (r: Vec<char>)
    requires
        from <= to <= v@.len(),
    ensures
        r@ == v@.subrange(from as int, to as int),
{
    let mut r: Vec<char> = Vec::new();
    let mut k = from;
    while k < to
        invariant
            from <= k <= to <= v@.len(),
            r@ == v@.subrange(from as int, k as int),
        decreases to - k,
    {
        r.push(v[k]);
        k = k + 1;
        proof {
            assert(r@ =~= v@.subrange(from as int, k as int));
        }
    }
    r
}

/// The position of the first `c` in `v` from `from` on.
fn find_in(v: &Vec<char>, c: char, from: usize) -> (r: Option<usize>)
    ensures
        match r {
            Some(k) => find_char(v@, c, from as int) == Some(k as int),
            None => find_char(v@, c, from as int) is None,
        },
{
    let mut k = from;
    while k < v.len()
        invariant
            from <= k,
            find_char(v@, c, from as int) == find_char(v@, c, k as int),
        decreases v@.len() - k,
    {
        if v[k] == c {
            return Some(k);
        }
        k = k + 1;
    }
    None
}

/// The position of the last `c` in `v`.
fn rfind_in(v: &Vec<char>, c: char) -> (r: Option<usize>)
    ensures
        match r {
            Some(k) => rfind_char(v@, c, v@.len() as int) == Some(k as int),
            None => rfind_char(v@, c, v@.len() as int) is None,
        },
{
    let mut n = v.len();
    while n > 0
        invariant
            n <= v@.len(),
            rfind_char(v@, c, v@.len() as int) == rfind_char(v@, c, n as int),
        decreases n,
    {
        if v[n - 1] == c {
            return Some(n - 1);
        }
        n = n - 1;
    }
    None
}

/// The position of the first `//` in `line`.
fn slashes_in(line: &Vec<char>) -> (r: Option<usize>)
    ensures
        match r {
            Some(i) => find_slashes(line@, 0) == Some(i as int) && i + 1 < line@.len(),
            None => find_slashes(line@, 0) is None,
        },
{
    let mut i: usize = 0;
    while i < line.len()
        invariant
            find_slashes(line@, 0) == find_slashes(line@, i as int),
        decreases line@.len() - i,
    {
        if i + 1 < line.len() && line[i] == '/' && line[i + 1] == '/' {
            return Some(i);
        }
        i = i + 1;
    }
    None
}

/// The comment in `line`, if it holds one.
fn comment_of(line: &Vec<char>) -> (r: Option<Vec<char>>)
    ensures
        match comment(line@) {
            Some(c) => r matches Some(v) && v@ == c,
            None => r is None,
        },
{
    let i = match slashes_in(line) {
        Some(i) => i,
        None => return None,
    };
    let mut e = line.len();
    proof {
        assert(line@.skip(i as int) =~= line@.subrange(i as int, e as int));
    }
    while e > i && is_whitespace(line[e - 1])
        invariant
            i <= e <= line@.len(),
            trim_end(line@.skip(i as int)) == trim_end(line@.subrange(i as int, e as int)),
        decreases e,
    {
        proof {
            assert(line@.subrange(i as int, e as int).drop_last() =~= line@.subrange(i as int, e - 1));
        }
        e = e - 1;
    }
    Some(part(line, i, e))
}

/// `s` split at each newline.
fn split_lines_of(s: &Vec<char>) -> (r: Vec<Vec<char>>)
    ensures
        r@.map_values(|v: Vec<char>| v@) == split_lines(s@),
{
    let mut lines: Vec<Vec<char>> = Vec::new();
    let mut start: usize = 0;
    let mut k: usize = 0;
    let ghost mut done: Seq<Seq<char>> = Seq::empty();
    proof {
        assert(s@.skip(0) =~= s@);
    }
    while k < s.len()
        invariant
            start <= k <= s@.len(),
            split_lines(s@) == done + split_lines(s@.skip(start as int)),
            lines@.map_values(|v: Vec<char>| v@) == done,
            forall|j: int| start <= j < k ==> s@[j] != '\n',
        decreases s@.len() - k,
    {
        if s[k] == '\n' {
            let line = part(s, start, k);
            proof {
                let rest = s@.skip(start as int);
                lemma_find_char_first(rest, '\n', 0, k - start);
                assert(rest.take(k - start) =~= s@.subrange(start as int, k as int));
                assert(rest.skip(k - start + 1) =~= s@.skip(k + 1));
                done = done.push(line@);
                assert(split_lines(s@) =~= done + split_lines(s@.skip(k + 1)));
            }
            lines.push(line);
            proof {
                assert(lines@.map_values(|v: Vec<char>| v@) =~= done);
            }
            start = k + 1;
        }
        k = k + 1;
    }
    let last = part(s, start, k);
    proof {
        let rest = s@.skip(start as int);
        lemma_find_char_none(rest, '\n', 0);
        assert(rest =~= last@);
    }
    lines.push(last);
    proof {
        assert(lines@.map_values(|v: Vec<char>| v@) =~= split_lines(s@));
    }
    lines
}

proof fn lemma_find_char_first(s: Seq<char>, c: char, i: int, m: int)
    requires
        0 <= i <= m < s.len(),
        s[m] == c,
        forall|j: int| i <= j < m ==> s[j] != c,
    ensures
        find_char(s, c, i) == Some(m),
    decreases m - i,
{
    if i < m {
        lemma_find_char_first(s, c, i + 1, m);
    }
}

proof fn lemma_find_char_none(s: Seq<char>, c: char, i: int)
    requires
        0 <= i,
        forall|j: int| i <= j < s.len() ==> s[j] != c,
    ensures
        find_char(s, c, i) is None,
    decreases s.len() - i,
{
    if i < s.len() {
        lemma_find_char_none(s, c, i + 1);
    }
}

// ---------------------------------------------------------------------------
// The printer.
// ---------------------------------------------------------------------------

/// Formats `source`, or reports why it cannot be lexed or parsed.
pub fn format(source: &str, diags: &mut diag::Sink) -> (r: Option<String>)
    ensures
        match lexer::spec_lex(source.spec_bytes()) {
            Err(span) => r is None && final(diags)@ == old(diags)@.push(lexer::unexpected_at(span)),
            Ok(ts) => match parser::p_program(ts) {
                Err(e) => r is None && final(diags)@ == old(diags)@.push(e),
                Ok((v, _)) => {
                    &&& final(diags)@ == old(diags)@
                    &&& r matches Some(s)
                    &&& s@ == formatted(source.spec_bytes(), v)
                    &&& exists|at: Seq<int>|
                        holds_in_order(
                            s@,
                            pieces(source.spec_bytes(), ts.drop_last()) + trivia_comments(
                                text::spec_slice(
                                    source.spec_bytes(),
                                    ts.last().trivia.start as int,
                                    ts.last().trivia.end as int,
                                ),
                            ),
                            at,
                        )
                },
            },
        },
{
    // The source's length is a `usize`, as the law below asks.
    let length = source.as_bytes().len();
    proof {
        assert(length as nat == source.spec_bytes().len());
        formatting_keeps_tokens_and_comments_in_order(source.spec_bytes());
    }
    let tokens = match lexer::lex(source, diags) {
        Some(t) => t,
        None => return None,
    };
    let program = match parser::parse(tokens.as_slice(), diags) {
        Some(p) => p,
        None => return None,
    };
    let mut printer = Printer { out: Vec::new(), indent: 0, state: State::Empty };
    printer.program(source, &program);
    Some(printer.finish())
}

/// The printer: what it wrote, how many tabs start a line, and where it is
/// on the line.
struct Printer {
    out: Vec<char>,
    indent: usize,
    state: State,
}

impl View for Printer {
    type V = P;

    closed spec fn view(&self) -> P {
        P { out: self.out@, indent: self.indent as nat, state: self.state }
    }
}

impl Printer {
    fn program(&mut self, source: &str, program: &cst::Program)
        requires
            old(self)@ == start(),
        ensures
            ({
                let b = source.spec_bytes();
                let q = p_funcs(start(), b, program@.funcs, program@.funcs.len() as int);
                let t = text::spec_slice(b, program.eof.trivia.start as int, program.eof.trivia.end as int);
                final(self)@ == p_trivia(q, t, Blanks::NotTrailing)
            }),
    {
        let ghost b = source.spec_bytes();
        let ghost fv = program@.funcs;
        let mut k: usize = 0;
        while k < program.funcs.len()
            invariant
                b == source.spec_bytes(),
                fv == program@.funcs,
                fv.len() == program.funcs@.len(),
                k <= fv.len(),
                self.indent == 0,
                self@ == p_funcs(start(), b, fv, k as int),
            decreases fv.len() - k,
        {
            let blanks = if k == 0 {
                Blanks::Nothing
            } else {
                Blanks::Separator
            };
            self.func(source, &program.funcs[k], blanks);
            k = k + 1;
        }
        // Whatever the file ends with: comments after the last function.
        self.trivia(source, program.eof.trivia, Blanks::NotTrailing);
    }

    fn func(&mut self, source: &str, func: &cst::FuncDecl, blanks: Blanks)
        requires
            old(self).indent == 0,
        ensures
            final(self).indent == 0,
            final(self)@ == p_func(old(self)@, source.spec_bytes(), func@, blanks),
    {
        reveal(p_func);
        let ghost b = source.spec_bytes();
        self.token(source, &func.func, Sep::Tight, blanks);
        self.token(source, &func.name, Sep::Space, Blanks::All);
        self.token(source, &func.lparen, Sep::Tight, Blanks::All);
        let ghost before_params = self@;
        let mut k: usize = 0;
        while k < func.params.len()
            invariant
                b == source.spec_bytes(),
                k <= func.params@.len(),
                self.indent == 0,
                self@ == p_params(before_params, b, func.params@, k as int),
            decreases func.params@.len() - k,
        {
            let param = func.params[k];
            let sep = if k == 0 {
                Sep::Tight
            } else {
                Sep::Space
            };
            self.token(source, &param.name, sep, Blanks::All);
            self.token(source, &param.ty, Sep::Space, Blanks::All);
            if let Some(comma) = param.comma {
                self.token(source, &comma, Sep::Tight, Blanks::All);
            }
            k = k + 1;
        }
        self.token(source, &func.rparen, Sep::Tight, Blanks::All);
        self.token(source, &func.ret, Sep::Space, Blanks::All);
        self.token(source, &func.lbrace, Sep::Space, Blanks::All);
        self.end_line();
        self.indent = 1;
        let ghost before_body = self@;
        let ghost bv = func@.body;
        let mut k: usize = 0;
        while k < func.body.len()
            invariant
                b == source.spec_bytes(),
                bv == func@.body,
                bv.len() == func.body@.len(),
                k <= bv.len(),
                self.indent == 1,
                self@ == p_body(before_body, b, bv, k as int),
            decreases bv.len() - k,
        {
            let blanks = if k == 0 {
                Blanks::NotLeading
            } else {
                Blanks::All
            };
            self.stmt(source, &func.body[k], blanks);
            self.end_line();
            k = k + 1;
        }
        // A comment before `}` is indented as the statements are.
        self.trivia(source, func.rbrace.trivia, Blanks::NotTrailing);
        self.indent = 0;
        let text = chars_of(&text::slice(source, func.rbrace.span.start, func.rbrace.span.end));
        self.text(&text, Sep::Tight);
        self.end_line();
    }

    /// Writes `stmt` on a line of its own. `blanks` governs the blank lines
    /// before it.
    fn stmt(&mut self, source: &str, stmt: &cst::Stmt, blanks: Blanks)
        ensures
            final(self).indent == old(self).indent,
            final(self)@ == p_stmt(old(self)@, source.spec_bytes(), stmt@, blanks),
    {
        reveal(p_stmt);
        match stmt {
            cst::Stmt::Var { var, name, ty, equals, init } => {
                self.token(source, var, Sep::Tight, blanks);
                self.token(source, name, Sep::Space, Blanks::All);
                self.token(source, ty, Sep::Space, Blanks::All);
                self.token(source, equals, Sep::Space, Blanks::All);
                self.expr(source, init, Sep::Space);
            },
            cst::Stmt::Return { ret, expr } => {
                self.token(source, ret, Sep::Tight, blanks);
                self.expr(source, expr, Sep::Space);
            },
        }
    }

    /// Writes `expr`, `sep` separating its first token from what precedes
    /// it.
    #[verifier::loop_isolation(false)]
    fn expr(&mut self, source: &str, expr: &cst::Expr, sep: Sep)
        ensures
            final(self).indent == old(self).indent,
            final(self)@ == p_expr(old(self)@, source.spec_bytes(), expr@, sep),
        decreases expr,
    {
        match expr {
            cst::Expr::IntLit(token) => self.token(source, token, sep, Blanks::All),
            cst::Expr::BoolLit(token) => self.token(source, token, sep, Blanks::All),
            cst::Expr::Var(token) => self.token(source, token, sep, Blanks::All),
            cst::Expr::Binary { lhs, op, rhs } => {
                self.expr(source, lhs, sep);
                self.token(source, op, Sep::Space, Blanks::All);
                self.expr(source, rhs, Sep::Space);
            },
            cst::Expr::Unary { op, operand } => {
                self.token(source, op, sep, Blanks::All);
                self.expr(source, operand, Sep::Tight);
            },
            cst::Expr::Call { callee, lparen, args, rparen } => {
                let ghost b = source.spec_bytes();
                let ghost av = cst::args_view(args@, args@.len() as int);
                proof {
                    cst::lemma_args_view_len(args@, args@.len() as int);
                }
                self.token(source, callee, sep, Blanks::All);
                self.token(source, lparen, Sep::Tight, Blanks::All);
                let ghost target = p_args(self@, b, av, 0);
                let mut k: usize = 0;
                while k < args.len()
                    invariant
                        k <= args@.len(),
                        av.len() == args@.len(),
                        self.indent == old(self).indent,
                        target == p_args(self@, b, av, k as int),
                    decreases args@.len() - k,
                {
                    proof {
                        cst::lemma_args_view_index(args@, args@.len() as int, k as int);
                        assert(decreases_to!(expr => args));
                        assert(decreases_to!(args => args@));
                        assert(decreases_to!(args@ => args@[k as int]));
                        assert(decreases_to!(args@[k as int] => args@[k as int].expr));
                    }
                    let arg_sep = if k == 0 {
                        Sep::Tight
                    } else {
                        Sep::Space
                    };
                    self.expr(source, &args[k].expr, arg_sep);
                    if let Some(comma) = args[k].comma {
                        self.token(source, &comma, Sep::Tight, Blanks::All);
                    }
                    k = k + 1;
                }
                self.token(source, rparen, Sep::Tight, Blanks::All);
            },
            cst::Expr::Paren { lparen, inner, rparen } => {
                self.token(source, lparen, sep, Blanks::All);
                self.expr(source, inner, Sep::Tight);
                self.token(source, rparen, Sep::Tight, Blanks::All);
            },
        }
    }

    /// Writes `token` and the trivia before it; `blanks` governs its blank
    /// lines.
    fn token(&mut self, source: &str, token: &Token, sep: Sep, blanks: Blanks)
        ensures
            final(self).indent == old(self).indent,
            final(self)@ == p_token(old(self)@, source.spec_bytes(), *token, sep, blanks),
    {
        reveal(p_token);
        self.trivia(source, token.trivia, blanks);
        let text = chars_of(&text::slice(source, token.span.start, token.span.end));
        self.text(&text, sep);
    }

    /// Writes the comments and blank lines that `trivia` covers.
    fn trivia(&mut self, source: &str, trivia: diag::Span, blanks: Blanks)
        ensures
            final(self).indent == old(self).indent,
            final(self)@ == p_trivia(
                old(self)@,
                text::spec_slice(source.spec_bytes(), trivia.start as int, trivia.end as int),
                blanks,
            ),
    {
        reveal(p_trivia);
        let t = chars_of(&text::slice(source, trivia.start, trivia.end));
        // The head is on the previous token's line. The tail holds whole
        // lines, and after its last newline the indentation before the token.
        let (head, tail) = match find_in(&t, '\n', 0) {
            Some(i) => {
                proof {
                    lemma_find_char_bounds(t@, '\n', 0);
                    assert(find_char(t@, '\n', 0) == Some(i as int));
                }
                assert(i < t.len());
                (part(&t, 0, i), part(&t, i + 1, t.len()))
            },
            None => (part(&t, 0, t.len()), Vec::new()),
        };
        proof {
            assert(head@ =~= head_tail(t@).0);
            assert(tail@ =~= head_tail(t@).1);
        }
        if let Some(c) = comment_of(&head) {
            self.trailing_comment(&c);
        }
        if blanks == Blanks::Separator {
            self.blank_line();
        }
        let lines = match rfind_in(&tail, '\n') {
            Some(j) => {
                proof {
                    lemma_rfind_char_bounds(tail@, '\n', tail@.len() as int);
                }
                split_lines_of(&part(&tail, 0, j))
            },
            None => Vec::new(),
        };
        let ghost lv = lines@.map_values(|v: Vec<char>| v@);
        proof {
            assert(lv =~= whole_lines(tail@));
        }
        let fc = first_comment_in(&lines);
        let lc = last_comment_in(&lines);
        self.lines(&lines, blanks, fc, lc);
    }

    /// Writes the lines of a trivia, under `blanks`, its first and last
    /// comment lines being `fc` and `lc`.
    fn lines(&mut self, lines: &Vec<Vec<char>>, blanks: Blanks, fc: Option<usize>, lc: Option<usize>)
        ensures
            final(self).indent == old(self).indent,
            final(self)@ == p_lines(
                old(self)@,
                lines@.map_values(|v: Vec<char>| v@),
                0,
                blanks,
                to_int(fc),
                to_int(lc),
                false,
            ),
    {
        let ghost lv = lines@.map_values(|v: Vec<char>| v@);
        let ghost target = p_lines(self@, lv, 0, blanks, to_int(fc), to_int(lc), false);
        // A run of blank lines is one pending blank line, printed only if
        // something follows it.
        let mut blank = false;
        let mut k: usize = 0;
        while k < lines.len()
            invariant
                k <= lines@.len(),
                lv == lines@.map_values(|v: Vec<char>| v@),
                self.indent == old(self).indent,
                target == p_lines(self@, lv, k as int, blanks, to_int(fc), to_int(lc), blank),
            decreases lines@.len() - k,
        {
            match comment_of(&lines[k]) {
                None => {
                    let keep = match blanks {
                        Blanks::All => true,
                        Blanks::NotLeading => match fc {
                            Some(f) => k > f,
                            None => false,
                        },
                        Blanks::NotTrailing => match lc {
                            Some(l) => k < l,
                            None => false,
                        },
                        _ => false,
                    };
                    blank = blank || keep;
                },
                Some(c) => {
                    if blank {
                        self.blank_line();
                        blank = false;
                    }
                    self.comment_line(&c);
                },
            }
            k = k + 1;
        }
        if blank {
            self.blank_line();
        }
    }

    /// Appends `comment` to the line already written, or starts the output
    /// with it when there is no such line.
    fn trailing_comment(&mut self, comment: &Vec<char>)
        ensures
            final(self).indent == old(self).indent,
            final(self)@ == p_trailing_comment(old(self)@, comment@),
    {
        match self.state {
            State::Empty => self.text(comment, Sep::Tight),
            _ => {
                let ghost before = self.out@;
                self.out.push(' ');
                push_chars(&mut self.out, comment);
                proof {
                    assert(self.out@ =~= before + seq![' '] + comment@);
                }
            },
        }
        self.end_line();
    }

    /// Writes `comment` on a line of its own, at the current indentation.
    fn comment_line(&mut self, comment: &Vec<char>)
        ensures
            final(self).indent == old(self).indent,
            final(self)@ == p_comment_line(old(self)@, comment@),
    {
        self.end_line();
        self.text(comment, Sep::Tight);
        self.end_line();
    }

    /// Writes `text`, starting a new line if the last one is finished.
    fn text(&mut self, text: &Vec<char>, sep: Sep)
        ensures
            final(self).indent == old(self).indent,
            final(self)@ == p_text(old(self)@, text@, sep),
    {
        reveal(p_text);
        let ghost start = self.out@;
        match self.state {
            State::Empty => self.push_indent(),
            State::Ended => {
                self.out.push('\n');
                self.push_indent();
            },
            State::InLine => {
                if sep == Sep::Space {
                    self.out.push(' ');
                }
            },
        }
        push_chars(&mut self.out, text);
        self.state = State::InLine;
        proof {
            assert(self@.out =~= p_text(old(self)@, text@, sep).out);
        }
    }

    /// Finishes the current line. Its newline waits for the next one.
    fn end_line(&mut self)
        ensures
            final(self).indent == old(self).indent,
            final(self)@ == p_end_line(old(self)@),
    {
        if self.state != State::Empty {
            self.state = State::Ended;
        }
    }

    /// Leaves an empty line, if there is a finished line to leave it after.
    fn blank_line(&mut self)
        ensures
            final(self).indent == old(self).indent,
            final(self)@ == p_blank_line(old(self)@),
    {
        if self.state == State::Ended {
            self.out.push('\n');
        }
    }

    fn push_indent(&mut self)
        ensures
            final(self).indent == old(self).indent,
            final(self).state == old(self).state,
            final(self).out@ == old(self).out@ + tabs(old(self).indent as nat),
    {
        let ghost start = self.out@;
        let mut k: usize = 0;
        while k < self.indent
            invariant
                k <= self.indent,
                self.indent == old(self).indent,
                self.state == old(self).state,
                self.out@ == start + tabs(k as nat),
            decreases self.indent - k,
        {
            self.out.push('\t');
            k = k + 1;
            proof {
                assert(self.out@ =~= start + tabs(k as nat));
            }
        }
    }

    /// The formatted source: one newline ends it, unless it is empty.
    fn finish(self) -> (s: String)
        ensures
            s@ == (if self@.state != State::Empty {
                self@.out.push('\n')
            } else {
                self@.out
            }),
    {
        let mut out = self.out;
        if self.state != State::Empty {
            out.push('\n');
        }
        text::into_string(out)
    }
}

/// An index as an integer.
pub open spec fn to_int(i: Option<usize>) -> Option<int> {
    match i {
        Some(k) => Some(k as int),
        None => None,
    }
}

/// The position of the first line that holds a comment.
fn first_comment_in(lines: &Vec<Vec<char>>) -> (r: Option<usize>)
    ensures
        to_int(r) == first_comment(lines@.map_values(|v: Vec<char>| v@), 0),
{
    let ghost lv = lines@.map_values(|v: Vec<char>| v@);
    let mut k: usize = 0;
    while k < lines.len()
        invariant
            k <= lines@.len(),
            lv == lines@.map_values(|v: Vec<char>| v@),
            first_comment(lv, 0) == first_comment(lv, k as int),
        decreases lines@.len() - k,
    {
        if comment_of(&lines[k]).is_some() {
            return Some(k);
        }
        k = k + 1;
    }
    None
}

/// The position of the last line that holds a comment.
fn last_comment_in(lines: &Vec<Vec<char>>) -> (r: Option<usize>)
    ensures
        to_int(r) == last_comment(lines@.map_values(|v: Vec<char>| v@), lines@.len() as int),
{
    let ghost lv = lines@.map_values(|v: Vec<char>| v@);
    let mut n = lines.len();
    while n > 0
        invariant
            n <= lines@.len(),
            lv == lines@.map_values(|v: Vec<char>| v@),
            last_comment(lv, lines@.len() as int) == last_comment(lv, n as int),
        decreases n,
    {
        if comment_of(&lines[n - 1]).is_some() {
            return Some(n - 1);
        }
        n = n - 1;
    }
    None
}

/// Appends the characters of `v` to `out`.
fn push_chars(out: &mut Vec<char>, v: &Vec<char>)
    ensures
        final(out)@ == old(out)@ + v@,
{
    let ghost start = out@;
    let mut k: usize = 0;
    while k < v.len()
        invariant
            k <= v@.len(),
            out@ == start + v@.take(k as int),
        decreases v@.len() - k,
    {
        out.push(v[k]);
        k = k + 1;
        proof {
            assert(out@ =~= start + v@.take(k as int));
        }
    }
    proof {
        assert(v@.take(k as int) =~= v@);
    }
}

// ---------------------------------------------------------------------------
// Formatting keeps every token and every comment, in order.
// ---------------------------------------------------------------------------

/// The comments of the lines of `lines` from the `k`th on, in order.
pub open spec fn line_comments(lines: Seq<Seq<char>>, k: int) -> Seq<Seq<char>>
    decreases lines.len() - k,
{
    if k < 0 || k >= lines.len() {
        Seq::empty()
    } else {
        match comment(lines[k]) {
            Some(c) => seq![c] + line_comments(lines, k + 1),
            None => line_comments(lines, k + 1),
        }
    }
}

/// The comments of the trivia `t`, in order, each from `//` to the end of
/// its line with trailing white space trimmed: the one on the line of the
/// token before, then one per whole line that holds one.
pub open spec fn trivia_comments(t: Seq<char>) -> Seq<Seq<char>> {
    let (head, tail) = head_tail(t);
    let first = match comment(head) {
        Some(c) => seq![c],
        None => Seq::empty(),
    };
    first + line_comments(whole_lines(tail), 0)
}

/// What of `token` a reader of the source sees, in order: the comments
/// before it, then its text.
pub open spec fn token_pieces(b: Seq<u8>, token: Token) -> Seq<Seq<char>> {
    trivia_comments(text::spec_slice(b, token.trivia.start as int, token.trivia.end as int)).push(
        text::spec_slice(b, token.span.start as int, token.span.end as int),
    )
}

/// The comments and texts of `tokens`, in order.
pub open spec fn pieces(b: Seq<u8>, tokens: Seq<Token>) -> Seq<Seq<char>>
    decreases tokens.len(),
{
    if tokens.len() == 0 {
        Seq::empty()
    } else {
        pieces(b, tokens.drop_last()) + token_pieces(b, tokens.last())
    }
}

/// Whether `c` is layout the formatter writes: a space, a tab or a newline.
pub open spec fn is_layout(c: char) -> bool {
    c == ' ' || c == '\t' || c == '\n'
}

/// Whether every character of `x` is layout.
pub open spec fn all_layout(x: Seq<char>) -> bool {
    forall|i: int| 0 <= i < x.len() ==> is_layout(#[trigger] x[i])
}

/// Where the last of `parts` ends in a text that holds them at `at`, or 0.
pub open spec fn parts_end(parts: Seq<Seq<char>>, at: Seq<int>) -> int {
    if parts.len() == 0 {
        0
    } else {
        at[parts.len() - 1] + parts[parts.len() - 1].len()
    }
}

/// Whether `out` is `parts`, in order and without overlap, the `k`th
/// starting at position `at[k]`, with only layout before, between and
/// after them.
pub open spec fn holds_in_order(out: Seq<char>, parts: Seq<Seq<char>>, at: Seq<int>) -> bool {
    &&& at.len() == parts.len()
    &&& forall|k: int|
        0 <= k < parts.len() ==> {
            &&& 0 <= #[trigger] at[k]
            &&& at[k] + parts[k].len() <= out.len()
            &&& out.subrange(at[k], at[k] + parts[k].len()) == parts[k]
        }
    &&& forall|k: int| 0 <= k < parts.len() - 1 ==> at[k] + parts[k].len() <= #[trigger] at[k + 1]
    &&& parts.len() > 0 ==> forall|i: int| 0 <= i < at[0] ==> is_layout(#[trigger] out[i])
    &&& forall|k: int, i: int|
        #![trigger at[k], out[i]]
        0 <= k < parts.len() - 1 && at[k] + parts[k].len() <= i < at[k + 1] ==> is_layout(out[i])
    &&& parts_end(parts, at) <= out.len()
    &&& forall|i: int| parts_end(parts, at) <= i < out.len() ==> is_layout(#[trigger] out[i])
}

proof fn lemma_pieces_add(b: Seq<u8>, x: Seq<Token>, y: Seq<Token>)
    ensures
        pieces(b, x + y) == pieces(b, x) + pieces(b, y),
    decreases y.len(),
{
    if y.len() == 0 {
        assert(x + y =~= x);
        assert(pieces(b, x) + pieces(b, y) =~= pieces(b, x));
    } else {
        assert((x + y).drop_last() =~= x + y.drop_last());
        assert((x + y).last() == y.last());
        lemma_pieces_add(b, x, y.drop_last());
        assert(pieces(b, x + y) =~= pieces(b, x) + pieces(b, y));
    }
}

proof fn lemma_pieces_one(b: Seq<u8>, t: Token)
    ensures
        pieces(b, seq![t]) == token_pieces(b, t),
{
    assert(seq![t].drop_last() =~= Seq::<Token>::empty());
    assert(pieces(b, Seq::<Token>::empty()) + token_pieces(b, t) =~= token_pieces(b, t));
}

/// Writing more layout keeps what was held.
proof fn lemma_hold_extend(out: Seq<char>, x: Seq<char>, parts: Seq<Seq<char>>, at: Seq<int>)
    requires
        holds_in_order(out, parts, at),
        all_layout(x),
    ensures
        holds_in_order(out + x, parts, at),
{
    let o = out + x;
    assert forall|k: int| 0 <= k < parts.len() implies o.subrange(at[k], at[k] + parts[k].len()) == parts[k] by {
        assert(o.subrange(at[k], at[k] + parts[k].len()) =~= out.subrange(at[k], at[k] + parts[k].len()));
    }
    if parts.len() > 0 {
        assert forall|i: int| 0 <= i < at[0] implies is_layout(#[trigger] o[i]) by {
            assert(o[i] == out[i]);
        }
    }
    assert forall|k: int, i: int|
        #![trigger at[k], o[i]]
        0 <= k < parts.len() - 1 && at[k] + parts[k].len() <= i < at[k + 1] implies is_layout(o[i]) by {
        assert(o[i] == out[i]);
    }
    assert forall|i: int| parts_end(parts, at) <= i < o.len() implies is_layout(#[trigger] o[i]) by {
        if i < out.len() {
            assert(o[i] == out[i]);
        } else {
            assert(o[i] == x[i - out.len()]);
        }
    }
}

/// Writing layout `x` then `t` holds `t` as one more part.
proof fn lemma_hold_push(out: Seq<char>, x: Seq<char>, t: Seq<char>, parts: Seq<Seq<char>>, at: Seq<int>) -> (at2: Seq<int>)
    requires
        holds_in_order(out, parts, at),
        all_layout(x),
    ensures
        holds_in_order(out + x + t, parts.push(t), at2),
{
    let at2 = at.push((out.len() + x.len()) as int);
    let o = out + x + t;
    let ps = parts.push(t);
    let n = parts.len() as int;
    assert forall|k: int| 0 <= k < ps.len() implies {
        &&& 0 <= #[trigger] at2[k]
        &&& at2[k] + ps[k].len() <= o.len()
        &&& o.subrange(at2[k], at2[k] + ps[k].len()) == ps[k]
    } by {
        if k < n {
            assert(o.subrange(at[k], at[k] + parts[k].len()) =~= out.subrange(at[k], at[k] + parts[k].len()));
        } else {
            assert(o.subrange(at2[k], at2[k] + t.len()) =~= t);
        }
    }
    assert forall|k: int| 0 <= k < ps.len() - 1 implies at2[k] + ps[k].len() <= #[trigger] at2[k + 1] by {
        if k < n - 1 {
            assert(at2[k + 1] == at[k + 1]);
        }
    }
    assert forall|i: int| 0 <= i < at2[0] implies is_layout(#[trigger] o[i]) by {
        if n > 0 {
            assert(o[i] == out[i]);
        } else if i < out.len() {
            assert(o[i] == out[i]);
        } else {
            assert(o[i] == x[i - out.len()]);
        }
    }
    assert forall|k: int, i: int|
        #![trigger at2[k], o[i]]
        0 <= k < ps.len() - 1 && at2[k] + ps[k].len() <= i < at2[k + 1] implies is_layout(o[i]) by {
        if k < n - 1 {
            assert(at2[k + 1] == at[k + 1]);
            assert(o[i] == out[i]);
        } else {
            if i < out.len() {
                assert(o[i] == out[i]);
            } else {
                assert(o[i] == x[i - out.len()]);
            }
        }
    }
    assert forall|i: int| parts_end(ps, at2) <= i < o.len() implies is_layout(#[trigger] o[i]) by {}
    at2
}

proof fn lemma_hold_same(parts: Seq<Seq<char>>)
    ensures
        parts + Seq::<Seq<char>>::empty() == parts,
{
    assert(parts + Seq::<Seq<char>>::empty() =~= parts);
}

/// Writing text `t` holds it as one more part.
proof fn lemma_text_holds(p: P, t: Seq<char>, sep: Sep, parts: Seq<Seq<char>>, at: Seq<int>) -> (at2: Seq<int>)
    requires
        holds_in_order(p.out, parts, at),
    ensures
        holds_in_order(p_text(p, t, sep).out, parts.push(t), at2),
{
    reveal(p_text);
    let before = match p.state {
        State::Empty => tabs(p.indent),
        State::Ended => seq!['\n'] + tabs(p.indent),
        State::InLine => if sep == Sep::Space {
            seq![' ']
        } else {
            Seq::empty()
        },
    };
    assert(all_layout(before));
    lemma_hold_push(p.out, before, t, parts, at)
}

proof fn lemma_blank_holds(p: P, parts: Seq<Seq<char>>, at: Seq<int>)
    requires
        holds_in_order(p.out, parts, at),
    ensures
        holds_in_order(p_blank_line(p).out, parts, at),
{
    assert(all_layout(seq!['\n']));
    lemma_hold_extend(p.out, seq!['\n'], parts, at);
    assert(p.out.push('\n') =~= p.out + seq!['\n']);
}

proof fn lemma_lines_hold(
    p: P,
    lines: Seq<Seq<char>>,
    k: int,
    blanks: Blanks,
    fc: Option<int>,
    lc: Option<int>,
    blank: bool,
    parts: Seq<Seq<char>>,
    at: Seq<int>,
) -> (at2: Seq<int>)
    requires
        holds_in_order(p.out, parts, at),
    ensures
        holds_in_order(p_lines(p, lines, k, blanks, fc, lc, blank).out, parts + line_comments(lines, k), at2),
    decreases lines.len() - k,
{
    if k < 0 || k >= lines.len() {
        lemma_hold_same(parts);
        lemma_blank_holds(p, parts, at);
        at
    } else {
        match comment(lines[k]) {
            None => lemma_lines_hold(p, lines, k + 1, blanks, fc, lc, blank || keeps(blanks, k, fc, lc), parts, at),
            Some(c) => {
                let q = if blank {
                    p_blank_line(p)
                } else {
                    p
                };
                lemma_blank_holds(p, parts, at);
                assert(holds_in_order(q.out, parts, at));
                let e = p_end_line(q);
                let at1 = lemma_text_holds(e, c, Sep::Tight, parts, at);
                let at3 = lemma_lines_hold(
                    p_comment_line(q, c),
                    lines,
                    k + 1,
                    blanks,
                    fc,
                    lc,
                    false,
                    parts.push(c),
                    at1,
                );
                assert(parts.push(c) + line_comments(lines, k + 1) =~= parts + line_comments(lines, k));
                at3
            },
        }
    }
}

proof fn lemma_trivia_holds(p: P, t: Seq<char>, blanks: Blanks, parts: Seq<Seq<char>>, at: Seq<int>) -> (at2: Seq<int>)
    requires
        holds_in_order(p.out, parts, at),
    ensures
        holds_in_order(p_trivia(p, t, blanks).out, parts + trivia_comments(t), at2),
{
    reveal(p_trivia);
    let (head, tail) = head_tail(t);
    let lines = whole_lines(tail);
    let (p1, parts1, at1) = match comment(head) {
        Some(c) => {
            let q = match p.state {
                State::Empty => p_text(p, c, Sep::Tight),
                _ => P { out: p.out + seq![' '] + c, ..p },
            };
            let a = match p.state {
                State::Empty => lemma_text_holds(p, c, Sep::Tight, parts, at),
                _ => {
                    assert(all_layout(seq![' ']));
                    lemma_hold_push(p.out, seq![' '], c, parts, at)
                },
            };
            (p_trailing_comment(p, c), parts.push(c), a)
        },
        None => (p, parts, at),
    };
    assert(holds_in_order(p1.out, parts1, at1));
    let p2 = if blanks == Blanks::Separator {
        p_blank_line(p1)
    } else {
        p1
    };
    lemma_blank_holds(p1, parts1, at1);
    assert(holds_in_order(p2.out, parts1, at1));
    let at3 = lemma_lines_hold(
        p2,
        lines,
        0,
        blanks,
        first_comment(lines, 0),
        last_comment(lines, lines.len() as int),
        false,
        parts1,
        at1,
    );
    let first = match comment(head) {
        Some(c) => seq![c],
        None => Seq::<Seq<char>>::empty(),
    };
    assert(parts1 + line_comments(lines, 0) =~= parts + (first + line_comments(lines, 0)));
    at3
}

proof fn lemma_token_holds(p: P, b: Seq<u8>, token: Token, sep: Sep, blanks: Blanks, parts: Seq<Seq<char>>, at: Seq<int>) -> (at2: Seq<int>)
    requires
        holds_in_order(p.out, parts, at),
    ensures
        holds_in_order(p_token(p, b, token, sep, blanks).out, parts + pieces(b, seq![token]), at2),
{
    reveal(p_token);
    let t = text::spec_slice(b, token.trivia.start as int, token.trivia.end as int);
    let x = text::spec_slice(b, token.span.start as int, token.span.end as int);
    let at1 = lemma_trivia_holds(p, t, blanks, parts, at);
    let at3 = lemma_text_holds(p_trivia(p, t, blanks), x, sep, parts + trivia_comments(t), at1);
    lemma_pieces_one(b, token);
    assert((parts + trivia_comments(t)).push(x) =~= parts + token_pieces(b, token));
    at3
}

proof fn lemma_regroup(b: Seq<u8>, parts: Seq<Seq<char>>, x: Seq<Token>, y: Seq<Token>)
    ensures
        (parts + pieces(b, x)) + pieces(b, y) == parts + pieces(b, x + y),
{
    lemma_pieces_add(b, x, y);
    assert((parts + pieces(b, x)) + pieces(b, y) =~= parts + (pieces(b, x) + pieces(b, y)));
}

/// A token written after what holds `parts + pieces(done)`.
proof fn lemma_then_token(
    p: P,
    b: Seq<u8>,
    token: Token,
    sep: Sep,
    blanks: Blanks,
    parts: Seq<Seq<char>>,
    done: Seq<Token>,
    at: Seq<int>,
) -> (at2: Seq<int>)
    requires
        holds_in_order(p.out, parts + pieces(b, done), at),
    ensures
        holds_in_order(p_token(p, b, token, sep, blanks).out, parts + pieces(b, done.push(token)), at2),
{
    let at2 = lemma_token_holds(p, b, token, sep, blanks, parts + pieces(b, done), at);
    lemma_regroup(b, parts, done, seq![token]);
    assert(done + seq![token] =~= done.push(token));
    at2
}

/// An expression written after what holds `parts + pieces(done)`.
proof fn lemma_then_expr(p: P, b: Seq<u8>, e: ExprV, sep: Sep, parts: Seq<Seq<char>>, done: Seq<Token>, at: Seq<int>) -> (at2: Seq<int>)
    requires
        holds_in_order(p.out, parts + pieces(b, done), at),
    ensures
        holds_in_order(p_expr(p, b, e, sep).out, parts + pieces(b, done + cst::expr_tokens(e)), at2),
    decreases e, 2int,
{
    let at2 = lemma_expr_holds(p, b, e, sep, parts + pieces(b, done), at);
    lemma_regroup(b, parts, done, cst::expr_tokens(e));
    at2
}

proof fn lemma_expr_holds(p: P, b: Seq<u8>, e: ExprV, sep: Sep, parts: Seq<Seq<char>>, at: Seq<int>) -> (at2: Seq<int>)
    requires
        holds_in_order(p.out, parts, at),
    ensures
        holds_in_order(p_expr(p, b, e, sep).out, parts + pieces(b, cst::expr_tokens(e)), at2),
    decreases e, 1int,
{
    let none = Seq::<Token>::empty();
    assert(parts + pieces(b, none) =~= parts);
    match e {
        ExprV::IntLit(t) => {
            let a = lemma_then_token(p, b, t, sep, Blanks::All, parts, none, at);
            assert(none.push(t) =~= cst::expr_tokens(e));
            a
        },
        ExprV::BoolLit(t) => {
            let a = lemma_then_token(p, b, t, sep, Blanks::All, parts, none, at);
            assert(none.push(t) =~= cst::expr_tokens(e));
            a
        },
        ExprV::Var(t) => {
            let a = lemma_then_token(p, b, t, sep, Blanks::All, parts, none, at);
            assert(none.push(t) =~= cst::expr_tokens(e));
            a
        },
        ExprV::Binary { lhs, op, rhs } => {
            let a1 = lemma_then_expr(p, b, *lhs, sep, parts, none, at);
            let d1 = none + cst::expr_tokens(*lhs);
            let q1 = p_expr(p, b, *lhs, sep);
            let a2 = lemma_then_token(q1, b, op, Sep::Space, Blanks::All, parts, d1, a1);
            let q2 = p_token(q1, b, op, Sep::Space, Blanks::All);
            let a3 = lemma_then_expr(q2, b, *rhs, Sep::Space, parts, d1.push(op), a2);
            assert(d1.push(op) + cst::expr_tokens(*rhs) =~= cst::expr_tokens(e));
            a3
        },
        ExprV::Unary { op, operand } => {
            let a1 = lemma_then_token(p, b, op, sep, Blanks::All, parts, none, at);
            let q1 = p_token(p, b, op, sep, Blanks::All);
            let a2 = lemma_then_expr(q1, b, *operand, Sep::Tight, parts, none.push(op), a1);
            assert(none.push(op) + cst::expr_tokens(*operand) =~= cst::expr_tokens(e));
            a2
        },
        ExprV::Call { callee, lparen, args, rparen } => {
            let a1 = lemma_then_token(p, b, callee, sep, Blanks::All, parts, none, at);
            let q1 = p_token(p, b, callee, sep, Blanks::All);
            let a2 = lemma_then_token(q1, b, lparen, Sep::Tight, Blanks::All, parts, none.push(callee), a1);
            let q2 = p_token(q1, b, lparen, Sep::Tight, Blanks::All);
            let d2 = none.push(callee).push(lparen);
            assert(d2 + cst::args_tokens(args, 0) =~= d2);
            let a3 = lemma_args_holds(q2, b, args, 0, parts, d2, a2);
            let q3 = p_args(q2, b, args, 0);
            let d3 = d2 + cst::args_tokens(args, args.len() as int);
            let a4 = lemma_then_token(q3, b, rparen, Sep::Tight, Blanks::All, parts, d3, a3);
            assert(d3.push(rparen) =~= cst::expr_tokens(e));
            a4
        },
        ExprV::Paren { lparen, inner, rparen } => {
            let a1 = lemma_then_token(p, b, lparen, sep, Blanks::All, parts, none, at);
            let q1 = p_token(p, b, lparen, sep, Blanks::All);
            let a2 = lemma_then_expr(q1, b, *inner, Sep::Tight, parts, none.push(lparen), a1);
            let q2 = p_expr(q1, b, *inner, Sep::Tight);
            let d2 = none.push(lparen) + cst::expr_tokens(*inner);
            let a3 = lemma_then_token(q2, b, rparen, Sep::Tight, Blanks::All, parts, d2, a2);
            assert(d2.push(rparen) =~= cst::expr_tokens(e));
            a3
        },
    }
}

proof fn lemma_args_holds(
    p: P,
    b: Seq<u8>,
    args: Seq<ArgV>,
    k: int,
    parts: Seq<Seq<char>>,
    done: Seq<Token>,
    at: Seq<int>,
) -> (at2: Seq<int>)
    requires
        0 <= k <= args.len(),
        holds_in_order(p.out, parts + pieces(b, done + cst::args_tokens(args, k)), at),
    ensures
        holds_in_order(p_args(p, b, args, k).out, parts + pieces(b, done + cst::args_tokens(args, args.len() as int)), at2),
    decreases args, args.len() - k,
{
    if k >= args.len() {
        at
    } else {
        let sep = if k == 0 {
            Sep::Tight
        } else {
            Sep::Space
        };
        let d0 = done + cst::args_tokens(args, k);
        let a1 = lemma_then_expr(p, b, args[k].expr, sep, parts, d0, at);
        let q = p_expr(p, b, args[k].expr, sep);
        let d1 = d0 + cst::expr_tokens(args[k].expr);
        let (r, a2) = match args[k].comma {
            Some(c) => (p_token(q, b, c, Sep::Tight, Blanks::All), lemma_then_token(q, b, c, Sep::Tight, Blanks::All, parts, d1, a1)),
            None => (q, a1),
        };
        assert(done + cst::args_tokens(args, k + 1) =~= match args[k].comma {
            Some(c) => d1.push(c),
            None => d1,
        });
        lemma_args_holds(r, b, args, k + 1, parts, done, a2)
    }
}

proof fn lemma_stmt_holds(p: P, b: Seq<u8>, st: StmtV, blanks: Blanks, parts: Seq<Seq<char>>, done: Seq<Token>, at: Seq<int>) -> (at2: Seq<int>)
    requires
        holds_in_order(p.out, parts + pieces(b, done), at),
    ensures
        holds_in_order(p_stmt(p, b, st, blanks).out, parts + pieces(b, done + cst::stmt_tokens(st)), at2),
{
    reveal(p_stmt);
    match st {
        StmtV::Var { var, name, ty, equals, init } => {
            let a1 = lemma_then_token(p, b, var, Sep::Tight, blanks, parts, done, at);
            let q1 = p_token(p, b, var, Sep::Tight, blanks);
            let a2 = lemma_then_token(q1, b, name, Sep::Space, Blanks::All, parts, done.push(var), a1);
            let q2 = p_token(q1, b, name, Sep::Space, Blanks::All);
            let a3 = lemma_then_token(q2, b, ty, Sep::Space, Blanks::All, parts, done.push(var).push(name), a2);
            let q3 = p_token(q2, b, ty, Sep::Space, Blanks::All);
            let d3 = done.push(var).push(name).push(ty);
            let a4 = lemma_then_token(q3, b, equals, Sep::Space, Blanks::All, parts, d3, a3);
            let q4 = p_token(q3, b, equals, Sep::Space, Blanks::All);
            let a5 = lemma_then_expr(q4, b, init, Sep::Space, parts, d3.push(equals), a4);
            assert(d3.push(equals) + cst::expr_tokens(init) =~= done + cst::stmt_tokens(st));
            a5
        },
        StmtV::Return { ret, expr } => {
            let a1 = lemma_then_token(p, b, ret, Sep::Tight, blanks, parts, done, at);
            let q1 = p_token(p, b, ret, Sep::Tight, blanks);
            let a2 = lemma_then_expr(q1, b, expr, Sep::Space, parts, done.push(ret), a1);
            assert(done.push(ret) + cst::expr_tokens(expr) =~= done + cst::stmt_tokens(st));
            a2
        },
    }
}

proof fn lemma_params_holds(p: P, b: Seq<u8>, params: Seq<cst::Param>, n: int, parts: Seq<Seq<char>>, done: Seq<Token>, at: Seq<int>) -> (at2: Seq<int>)
    requires
        holds_in_order(p.out, parts + pieces(b, done), at),
    ensures
        holds_in_order(p_params(p, b, params, n).out, parts + pieces(b, done + cst::params_tokens(params, n)), at2),
    decreases n,
{
    if n <= 0 || n > params.len() {
        assert(done + cst::params_tokens(params, n) =~= done);
        at
    } else {
        let a0 = lemma_params_holds(p, b, params, n - 1, parts, done, at);
        let q0 = p_params(p, b, params, n - 1);
        let d0 = done + cst::params_tokens(params, n - 1);
        let k = n - 1;
        let sep = if k == 0 {
            Sep::Tight
        } else {
            Sep::Space
        };
        let a1 = lemma_then_token(q0, b, params[k].name, sep, Blanks::All, parts, d0, a0);
        let q1 = p_token(q0, b, params[k].name, sep, Blanks::All);
        let a2 = lemma_then_token(q1, b, params[k].ty, Sep::Space, Blanks::All, parts, d0.push(params[k].name), a1);
        let q2 = p_token(q1, b, params[k].ty, Sep::Space, Blanks::All);
        let d2 = d0.push(params[k].name).push(params[k].ty);
        match params[k].comma {
            Some(c) => {
                let a3 = lemma_then_token(q2, b, c, Sep::Tight, Blanks::All, parts, d2, a2);
                assert(d2.push(c) =~= done + cst::params_tokens(params, n));
                a3
            },
            None => {
                assert(d2 =~= done + cst::params_tokens(params, n));
                a2
            },
        }
    }
}

proof fn lemma_body_holds(p: P, b: Seq<u8>, body: Seq<StmtV>, n: int, parts: Seq<Seq<char>>, done: Seq<Token>, at: Seq<int>) -> (at2: Seq<int>)
    requires
        holds_in_order(p.out, parts + pieces(b, done), at),
    ensures
        holds_in_order(p_body(p, b, body, n).out, parts + pieces(b, done + cst::body_tokens(body, n)), at2),
    decreases n,
{
    if n <= 0 || n > body.len() {
        assert(done + cst::body_tokens(body, n) =~= done);
        at
    } else {
        let a0 = lemma_body_holds(p, b, body, n - 1, parts, done, at);
        let q0 = p_body(p, b, body, n - 1);
        let d0 = done + cst::body_tokens(body, n - 1);
        let blanks = if n - 1 == 0 {
            Blanks::NotLeading
        } else {
            Blanks::All
        };
        let a1 = lemma_stmt_holds(q0, b, body[n - 1], blanks, parts, d0, a0);
        assert(d0 + cst::stmt_tokens(body[n - 1]) =~= done + cst::body_tokens(body, n));
        a1
    }
}

proof fn lemma_func_holds(p: P, b: Seq<u8>, f: FuncDeclV, blanks: Blanks, parts: Seq<Seq<char>>, done: Seq<Token>, at: Seq<int>) -> (at2: Seq<int>)
    requires
        holds_in_order(p.out, parts + pieces(b, done), at),
    ensures
        holds_in_order(p_func(p, b, f, blanks).out, parts + pieces(b, done + cst::func_tokens(f)), at2),
{
    reveal(p_func);
    let a1 = lemma_then_token(p, b, f.func, Sep::Tight, blanks, parts, done, at);
    let q1 = p_token(p, b, f.func, Sep::Tight, blanks);
    let d1 = done.push(f.func);
    let a2 = lemma_then_token(q1, b, f.name, Sep::Space, Blanks::All, parts, d1, a1);
    let q2 = p_token(q1, b, f.name, Sep::Space, Blanks::All);
    let d2 = d1.push(f.name);
    let a3 = lemma_then_token(q2, b, f.lparen, Sep::Tight, Blanks::All, parts, d2, a2);
    let q3 = p_token(q2, b, f.lparen, Sep::Tight, Blanks::All);
    let d3 = d2.push(f.lparen);
    let a4 = lemma_params_holds(q3, b, f.params, f.params.len() as int, parts, d3, a3);
    let q4 = p_params(q3, b, f.params, f.params.len() as int);
    let d4 = d3 + cst::params_tokens(f.params, f.params.len() as int);
    let a5 = lemma_then_token(q4, b, f.rparen, Sep::Tight, Blanks::All, parts, d4, a4);
    let q5 = p_token(q4, b, f.rparen, Sep::Tight, Blanks::All);
    let d5 = d4.push(f.rparen);
    let a6 = lemma_then_token(q5, b, f.ret, Sep::Space, Blanks::All, parts, d5, a5);
    let q6 = p_token(q5, b, f.ret, Sep::Space, Blanks::All);
    let d6 = d5.push(f.ret);
    let a7 = lemma_then_token(q6, b, f.lbrace, Sep::Space, Blanks::All, parts, d6, a6);
    let q7 = p_end_line(p_token(q6, b, f.lbrace, Sep::Space, Blanks::All));
    let d7 = d6.push(f.lbrace);
    let q8 = P { indent: q7.indent + 1, ..q7 };
    let a8 = lemma_body_holds(q8, b, f.body, f.body.len() as int, parts, d7, a7);
    let q9 = p_body(q8, b, f.body, f.body.len() as int);
    let d9 = d7 + cst::body_tokens(f.body, f.body.len() as int);
    let t = text::spec_slice(b, f.rbrace.trivia.start as int, f.rbrace.trivia.end as int);
    let x = text::spec_slice(b, f.rbrace.span.start as int, f.rbrace.span.end as int);
    let a9 = lemma_trivia_holds(q9, t, Blanks::NotTrailing, parts + pieces(b, d9), a8);
    let q10 = p_trivia(q9, t, Blanks::NotTrailing);
    let q11 = P { indent: (q10.indent - 1) as nat, ..q10 };
    let a10 = lemma_text_holds(q11, x, Sep::Tight, parts + pieces(b, d9) + trivia_comments(t), a9);
    lemma_pieces_one(b, f.rbrace);
    lemma_regroup(b, parts, d9, seq![f.rbrace]);
    assert((parts + pieces(b, d9) + trivia_comments(t)).push(x) =~= (parts + pieces(b, d9)) + pieces(b, seq![f.rbrace]));
    assert(d9 + seq![f.rbrace] =~= done + cst::func_tokens(f));
    a10
}

proof fn lemma_funcs_holds(p: P, b: Seq<u8>, funcs: Seq<FuncDeclV>, n: int, at: Seq<int>) -> (at2: Seq<int>)
    requires
        holds_in_order(p.out, Seq::empty(), at),
    ensures
        holds_in_order(p_funcs(p, b, funcs, n).out, pieces(b, cst::funcs_tokens(funcs, n)), at2),
    decreases n,
{
    let none = Seq::<Seq<char>>::empty();
    if n <= 0 || n > funcs.len() {
        assert(pieces(b, cst::funcs_tokens(funcs, n)) =~= none);
        at
    } else {
        let a0 = lemma_funcs_holds(p, b, funcs, n - 1, at);
        let d0 = cst::funcs_tokens(funcs, n - 1);
        assert(none + pieces(b, d0) =~= pieces(b, d0));
        let blanks = if n - 1 == 0 {
            Blanks::Nothing
        } else {
            Blanks::Separator
        };
        let a1 = lemma_func_holds(p_funcs(p, b, funcs, n - 1), b, funcs[n - 1], blanks, none, d0, a0);
        assert(none + pieces(b, d0 + cst::func_tokens(funcs[n - 1])) =~= pieces(b, cst::funcs_tokens(funcs, n)));
        a1
    }
}

/// Formatting keeps every token and every comment of the source, in order,
/// and changes nothing but layout: the formatted text is, one after
/// another, the comments before each token and its text, then the comments
/// at the end of the file, with only spaces, tabs and newlines before,
/// between and after them. A comment keeps its text from `//` on, trailing
/// white space trimmed.
pub proof fn formatting_keeps_tokens_and_comments_in_order(b: Seq<u8>)
    requires
        b.len() <= usize::MAX,
    ensures
        lexer::spec_lex(b) matches Ok(ts) ==> (parser::p_program(ts) matches Ok((v, _)) ==> exists|at: Seq<int>|
            holds_in_order(
                formatted(b, v),
                pieces(b, ts.drop_last()) + trivia_comments(
                    text::spec_slice(b, ts.last().trivia.start as int, ts.last().trivia.end as int),
                ),
                at,
            )),
{
    parser::the_tree_is_lossless(b);
    if let Ok(ts) = lexer::spec_lex(b) {
        if let Ok((v, _)) = parser::p_program(ts) {
            let n = v.funcs.len() as int;
            let none = Seq::<Seq<char>>::empty();
            let a0 = lemma_funcs_holds(start(), b, v.funcs, n, Seq::empty());
            let q = p_funcs(start(), b, v.funcs, n);
            let t = text::spec_slice(b, v.eof.trivia.start as int, v.eof.trivia.end as int);
            let a1 = lemma_trivia_holds(q, t, Blanks::NotTrailing, pieces(b, cst::funcs_tokens(v.funcs, n)), a0);
            let q2 = p_trivia(q, t, Blanks::NotTrailing);
            let parts = pieces(b, cst::funcs_tokens(v.funcs, n)) + trivia_comments(t);
            assert(all_layout(seq!['\n']));
            lemma_hold_extend(q2.out, seq!['\n'], parts, a1);
            assert(q2.out.push('\n') =~= q2.out + seq!['\n']);
            assert(cst::program_tokens(v) == ts);
            assert(ts.drop_last() =~= cst::funcs_tokens(v.funcs, n));
            assert(ts.last() == v.eof);
            assert(holds_in_order(formatted(b, v), parts, a1));
        }
    }
}

} // verus!
