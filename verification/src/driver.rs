//! The driver: chains the stages and renders diagnostics for display.
//!
//! Both functions are pure; all I/O lives in the command line program.

use crate::ast;
use crate::diag::{self, Entry};
use crate::emit;
use crate::ir;
use crate::lexer;
use crate::lower;
use crate::parser;
use crate::text;
use crate::typeck;
use crate::typed_ast;
use vstd::prelude::*;
use vstd::string::StringSliceAdditionalSpecFns;

verus! {

// ---------------------------------------------------------------------------
// The pipeline.
// ---------------------------------------------------------------------------

/// What emitting `p` leaves, from a sink that held `before`: its
/// diagnostic, or the text.
pub open spec fn emitted(p: ir::Program, before: Seq<Entry>, after: Seq<Entry>, r: Option<String>) -> bool {
    match emit::emit_failure(&p) {
        Some(d) => r is None && after == before.push(d),
        None => {
            &&& after == before
            &&& emit::find_entry(&p, 0) matches Some(entry)
            &&& r matches Some(s)
            &&& s@ == emit::teal(&p, entry)
        },
    }
}

/// What the stages after the type checker leave, from the typed AST `t`,
/// through IR that the verifier accepts. A program too large for its values
/// to be numbered yields nothing.
pub open spec fn after_check(t: typed_ast::Program, before: Seq<Entry>, after: Seq<Entry>, r: Option<String>) -> bool {
    if !lower::numberable(t) {
        r is None && after == before
    } else {
        exists|p: ir::Program|
            lower::program_lowered(t, p) && ir::program_verifies(p) && #[trigger] emitted(p, before, after, r)
    }
}

/// What the stages from the type checker on leave, from the AST `a`. A
/// program with more functions than a `FuncId` numbers yields nothing.
pub open spec fn after_build(a: ast::Program, before: Seq<Entry>, after: Seq<Entry>, r: Option<String>) -> bool {
    if a.funcs@.len() > u32::MAX {
        r is None && after == before
    } else if !typeck::checks(a) {
        r is None && after == before + typeck::check_reports(a)
    } else {
        exists|t: typed_ast::Program|
            typeck::program_typed(a, t) && #[trigger] after_check(t, before + typeck::check_reports(a), after, r)
    }
}

/// What compiling the source whose bytes are `b` leaves: the diagnostic of
/// the first stage that fails, or the text.
pub open spec fn compiled(b: Seq<u8>, before: Seq<Entry>, after: Seq<Entry>, r: Option<String>) -> bool {
    match lexer::spec_lex(b) {
        Err(span) => r is None && after == before.push(lexer::unexpected_at(span)),
        Ok(ts) => match parser::p_program(ts) {
            Err(e) => r is None && after == before.push(e),
            Ok((v, _)) => match ast::funcs_failure(b, v.funcs, 0) {
                Some(f) => r is None && after == ast::reported(before, Some(f)),
                None => exists|a: ast::Program|
                    ast::program_built(b, v, a) && #[trigger] after_build(a, before, after, r),
            },
        },
    }
}

/// Compiles `source` to TEAL text, stopping at the first stage that fails.
pub fn compile(source: &str, diags: &mut diag::Sink) -> (r: Option<String>)
    ensures
        compiled(source.spec_bytes(), old(diags)@, final(diags)@, r),
{
    let tokens = match lexer::lex(source, diags) {
        Some(t) => t,
        None => return None,
    };
    let parsed = match parser::parse(tokens.as_slice(), diags) {
        Some(p) => p,
        None => return None,
    };
    let program = match ast::from_cst(source, &parsed, diags) {
        Some(p) => p,
        None => return None,
    };
    let ghost after_ast = diags@;
    if program.funcs.len() > u32::MAX as usize {
        proof {
            assert(after_build(program, after_ast, diags@, None));
        }
        return None;
    }
    let checked = match typeck::check(&program, diags) {
        Some(c) => c,
        None => {
            proof {
                assert(after_build(program, after_ast, diags@, None));
            }
            return None;
        },
    };
    if !lower::is_numberable(&checked) {
        proof {
            assert(after_check(checked, after_ast + typeck::check_reports(program), diags@, None));
            assert(after_build(program, after_ast, diags@, None));
        }
        return None;
    }
    let ghost after_typeck = diags@;
    let ir = match lower::lower(&checked, diags) {
        Some(p) => p,
        None => return None,
    };
    let r = emit::emit(&ir, diags);
    proof {
        assert(emitted(ir, after_typeck, diags@, r));
        assert(after_check(checked, after_typeck, diags@, r));
        assert(after_build(program, after_ast, diags@, r));
    }
    r
}

// ---------------------------------------------------------------------------
// Rendering.
// ---------------------------------------------------------------------------

/// `n`, or the largest `usize` where it is larger.
pub open spec fn clamp(n: nat) -> nat {
    if n > usize::MAX {
        usize::MAX as nat
    } else {
        n
    }
}

/// How many newlines `s` holds.
pub open spec fn newlines(s: Seq<char>) -> nat
    decreases s.len(),
{
    if s.len() == 0 {
        0
    } else {
        newlines(s.drop_last()) + if s.last() == '\n' {
            1nat
        } else {
            0nat
        }
    }
}

/// How many characters follow the last newline of `s`, or all of them if
/// there is none.
pub open spec fn last_line(s: Seq<char>) -> nat
    decreases s.len(),
{
    if s.len() == 0 {
        0
    } else if s.last() == '\n' {
        0
    } else {
        last_line(s.drop_last()) + 1
    }
}

/// The text before byte `offset` of the source whose characters are
/// `chars` and bytes `b`: all of it where `offset` is not a character
/// boundary, which only a compiler bug produces.
pub open spec fn before(b: Seq<u8>, chars: Seq<char>, offset: int) -> Seq<char> {
    if vstd::utf8::is_char_boundary(b, offset) {
        text::spec_slice(b, 0, offset)
    } else {
        chars
    }
}

/// The 1-based line and column, counted in characters, of byte `offset`.
pub open spec fn spec_position(b: Seq<u8>, chars: Seq<char>, offset: int) -> (nat, nat) {
    let s = before(b, chars, offset);
    (clamp(1 + newlines(s)), clamp(1 + last_line(s)))
}

/// The line a diagnostic renders as, in a file named `file_name`.
pub open spec fn rendered(d: Entry, file_name: Seq<char>, b: Seq<u8>, chars: Seq<char>) -> Seq<char> {
    let (line, column) = spec_position(b, chars, d.span.start as int);
    let code = d.kind.spec_code();
    file_name + ":"@ + text::decimal(line) + ":"@ + text::decimal(column) + ": "@ + code.severity.name() + "["@
        + code.rendered() + "]: "@ + d.kind.message()
}

/// Renders `diagnostic` as one line, without a trailing newline:
/// `file:line:column: severity[code]: message`.
pub fn render(diagnostic: &Entry, file_name: &str, source: &str) -> (s: String)
    ensures
        s@ == rendered(*diagnostic, file_name@, source.spec_bytes(), source@),
{
    let (line, column) = position(source, diagnostic.span.start);
    let code = diagnostic.kind.code();
    let mut out: Vec<char> = Vec::new();
    text::push_str(&mut out, file_name);
    text::push_str(&mut out, ":");
    text::push_usize(&mut out, line);
    text::push_str(&mut out, ":");
    text::push_usize(&mut out, column);
    text::push_str(&mut out, ": ");
    code.severity.push_name(&mut out);
    text::push_str(&mut out, "[");
    code.push_rendered(&mut out);
    text::push_str(&mut out, "]: ");
    diagnostic.kind.push_message(&mut out);
    proof {
        assert(out@ =~= rendered(*diagnostic, file_name@, source.spec_bytes(), source@));
    }
    text::into_string(out)
}

/// The 1-based line and column of `offset` in `source`.
///
/// An offset that is not a char boundary of `source`, which only a compiler
/// bug produces, is reported as the end of input rather than panicking.
pub fn position(source: &str, offset: usize) -> (r: (usize, usize))
    ensures
        r.0 as nat == spec_position(source.spec_bytes(), source@, offset as int).0,
        r.1 as nat == spec_position(source.spec_bytes(), source@, offset as int).1,
{
    let prefix = if source.is_char_boundary(offset) {
        text::slice(source, 0, offset)
    } else {
        source.to_owned()
    };
    let ghost s = prefix@;
    let mut line: usize = 1;
    let mut column: usize = 1;
    for c in it: prefix.as_str().chars()
        invariant
            it.seq() == s,
            line as nat == clamp(1 + newlines(s.take(it.index() as int))),
            column as nat == clamp(1 + last_line(s.take(it.index() as int))),
    {
        let ghost k = it.index() as int;
        proof {
            assert(s.take(k + 1).drop_last() =~= s.take(k));
            assert(s.take(k + 1).last() == c);
        }
        if c == '\n' {
            line = line.saturating_add(1);
            column = 1;
        } else {
            column = column.saturating_add(1);
        }
    }
    proof {
        assert(s.take(s.len() as int) =~= s);
    }
    (line, column)
}

} // verus!
