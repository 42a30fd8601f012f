//! The parser: tokens to a concrete syntax tree by recursive descent.
//!
//! The grammar is stated as spec functions over the token sequence, each
//! giving the tree it parses and the position after it, or the one
//! diagnostic that stops the parse. The parser computes exactly these.

use crate::ast;
use crate::cst::{self, ArgV, ExprV, FuncDeclV, ProgramV, StmtV};
use crate::diag;
use crate::lexer::{lexing_is_lossless, reassembled, spec_lex, Token, TokenKind};
use crate::precedence::{self, Group, Priority};
use vstd::prelude::*;

verus! {

/// What the grammar allows where an operand is expected.
pub const OPERAND: &'static str = "a literal, an identifier, `!`, or `(`";

/// A parse of a `T` that ends at the position given, or the diagnostic that
/// stops the parse.
pub type Parsed<T> = Result<(T, int), diag::Entry>;

// ---------------------------------------------------------------------------
// Token classes.
// ---------------------------------------------------------------------------

/// How a token kind is named in a diagnostic.
pub open spec fn spec_describe(kind: TokenKind) -> &'static str {
    match kind {
        TokenKind::Func => "`func`",
        TokenKind::Return => "`return`",
        TokenKind::Var => "`var`",
        TokenKind::True => "`true`",
        TokenKind::False => "`false`",
        TokenKind::Ident => "an identifier",
        TokenKind::IntLit => "an integer literal",
        TokenKind::LParen => "`(`",
        TokenKind::RParen => "`)`",
        TokenKind::LBrace => "`{`",
        TokenKind::RBrace => "`}`",
        TokenKind::Comma => "`,`",
        TokenKind::Plus => "`+`",
        TokenKind::Minus => "`-`",
        TokenKind::Star => "`*`",
        TokenKind::Slash => "`/`",
        TokenKind::Percent => "`%`",
        TokenKind::Equals => "`=`",
        TokenKind::EqEq => "`==`",
        TokenKind::BangEq => "`!=`",
        TokenKind::Lt => "`<`",
        TokenKind::LtEq => "`<=`",
        TokenKind::Gt => "`>`",
        TokenKind::GtEq => "`>=`",
        TokenKind::Bang => "`!`",
        TokenKind::AmpAmp => "`&&`",
        TokenKind::PipePipe => "`||`",
        TokenKind::Eof => "end of input",
    }
}

/// How a token kind is named in a diagnostic.
#[verifier::when_used_as_spec(spec_describe)]
pub fn describe(kind: TokenKind) -> (s: &'static str)
    ensures
        s == spec_describe(kind),
{
    match kind {
        TokenKind::Func => "`func`",
        TokenKind::Return => "`return`",
        TokenKind::Var => "`var`",
        TokenKind::True => "`true`",
        TokenKind::False => "`false`",
        TokenKind::Ident => "an identifier",
        TokenKind::IntLit => "an integer literal",
        TokenKind::LParen => "`(`",
        TokenKind::RParen => "`)`",
        TokenKind::LBrace => "`{`",
        TokenKind::RBrace => "`}`",
        TokenKind::Comma => "`,`",
        TokenKind::Plus => "`+`",
        TokenKind::Minus => "`-`",
        TokenKind::Star => "`*`",
        TokenKind::Slash => "`/`",
        TokenKind::Percent => "`%`",
        TokenKind::Equals => "`=`",
        TokenKind::EqEq => "`==`",
        TokenKind::BangEq => "`!=`",
        TokenKind::Lt => "`<`",
        TokenKind::LtEq => "`<=`",
        TokenKind::Gt => "`>`",
        TokenKind::GtEq => "`>=`",
        TokenKind::Bang => "`!`",
        TokenKind::AmpAmp => "`&&`",
        TokenKind::PipePipe => "`||`",
        TokenKind::Eof => "end of input",
    }
}


/// The precedence group of an operator token, if it is one.
pub open spec fn spec_operator_group(kind: TokenKind) -> Option<Group> {
    if kind == TokenKind::Bang {
        Some(Group::Not)
    } else {
        match ast::spec_binary_op(kind) {
            Some(op) => Some(precedence::spec_group(op)),
            None => None,
        }
    }
}

/// The precedence group of an operator token, if it is one.
#[verifier::when_used_as_spec(spec_operator_group)]
pub fn operator_group(kind: TokenKind) -> (g: Option<Group>)
    ensures
        g == spec_operator_group(kind),
{
    if kind == TokenKind::Bang {
        Some(precedence::unary_group(ast::UnOp::Not))
    } else {
        match ast::binary_op(kind) {
            Some(op) => Some(precedence::group(op)),
            None => None,
        }
    }
}

// ---------------------------------------------------------------------------
// The grammar.
// ---------------------------------------------------------------------------

/// The token at `pos`, if there is one.
pub open spec fn peek(ts: Seq<Token>, pos: int) -> Option<Token> {
    if 0 <= pos < ts.len() {
        Some(ts[pos])
    } else {
        None
    }
}

/// Whether the token at `pos` is a `kind`.
pub open spec fn peek_is(ts: Seq<Token>, pos: int, kind: TokenKind) -> bool {
    peek(ts, pos) matches Some(t) && t.kind == kind
}

/// The span of the last token in the stream, empty if there is none.
pub open spec fn spec_last_span(ts: Seq<Token>) -> diag::Span {
    if ts.len() > 0 {
        ts.last().span
    } else {
        diag::Span { start: 0, end: 0 }
    }
}

/// The diagnostic for the token at `pos` where the grammar allows what
/// `expected` describes. A stream that ran out has no `Eof` to point at,
/// so the last token there is stands in for the end of input.
pub open spec fn unexpected(ts: Seq<Token>, pos: int, expected: &'static str) -> diag::Entry {
    match peek(ts, pos) {
        Some(t) => diag::Entry {
            kind: diag::Kind::UnexpectedToken { expected, found: spec_describe(t.kind) },
            span: t.span,
        },
        None => diag::Entry {
            kind: diag::Kind::UnexpectedToken { expected, found: "end of input" },
            span: spec_last_span(ts),
        },
    }
}

/// The token at `pos` if it is a `kind`, or the diagnostic for it.
pub open spec fn p_expect(ts: Seq<Token>, pos: int, kind: TokenKind, expected: &'static str) -> Parsed<Token> {
    if peek_is(ts, pos, kind) {
        Ok((ts[pos], pos + 1))
    } else {
        Err(unexpected(ts, pos, expected))
    }
}

/// The diagnostic for two operators the precedence order does not relate.
pub open spec fn ambiguous(left: Token, right: Token) -> diag::Entry {
    diag::Entry {
        kind: diag::Kind::AmbiguousPrecedence {
            left: spec_describe(left.kind),
            right: spec_describe(right.kind),
        },
        span: right.span,
    }
}

/// The enclosing operator and its group, for an ambient operator token.
pub open spec fn enclosing(ambient: Option<Token>) -> Option<(Token, Group)> {
    match ambient {
        Some(t) => match spec_operator_group(t.kind) {
            Some(g) => Some((t, g)),
            None => None,
        },
        None => None,
    }
}

/// The enclosing operator's token.
pub open spec fn enclosing_token(enc: Option<(Token, Group)>) -> Token {
    match enc {
        Some((t, _)) => t,
        None => arbitrary(),
    }
}

/// Whether the enclosing operator is unordered against `!`.
pub open spec fn not_is_ambiguous(enc: Option<(Token, Group)>) -> bool {
    match enc {
        Some((_, g)) => precedence::spec_priority(g, Group::Not) == Priority::Ambiguous,
        None => false,
    }
}

/// A placeholder failure, for positions that cannot go backwards.
pub open spec fn stuck(ts: Seq<Token>, pos: int) -> diag::Entry {
    unexpected(ts, pos, OPERAND)
}

/// An expression at `pos`, folded left to right under the precedence
/// graph. `ambient` is the enclosing operator, or `None` at the start of an
/// expression and inside parentheses.
pub open spec fn p_expr(ts: Seq<Token>, pos: int, ambient: Option<Token>) -> Parsed<ExprV>
    decreases ts.len() - pos, 3int,
{
    if pos < 0 || pos > ts.len() {
        Err(stuck(ts, pos))
    } else {
        match p_operand(ts, pos, ambient) {
            Ok((lhs, p1)) => if pos < p1 <= ts.len() {
                p_loop(ts, lhs, p1, enclosing(ambient))
            } else {
                Err(stuck(ts, pos))
            },
            Err(e) => Err(e),
        }
    }
}

/// The binary operators that follow `lhs`, from `pos`: each one the
/// enclosing operator does not take becomes the root, with `lhs` on its left.
pub open spec fn p_loop(ts: Seq<Token>, lhs: ExprV, pos: int, enc: Option<(Token, Group)>) -> Parsed<ExprV>
    decreases ts.len() - pos, 0int,
{
    if pos < 0 || pos >= ts.len() {
        Ok((lhs, pos))
    } else {
        let token = ts[pos];
        match ast::spec_binary_op(token.kind) {
            None => Ok((lhs, pos)),
            Some(op) => {
                let verdict = match enc {
                    Some((_, left_group)) => precedence::spec_priority(left_group, precedence::spec_group(op)),
                    None => Priority::Right,
                };
                if verdict == Priority::Left {
                    Ok((lhs, pos))
                } else if verdict == Priority::Ambiguous {
                    Err(ambiguous(enclosing_token(enc), token))
                } else {
                    match p_expr(ts, pos + 1, Some(token)) {
                        Ok((rhs, p2)) => if pos < p2 <= ts.len() {
                            p_loop(
                                ts,
                                ExprV::Binary { lhs: Box::new(lhs), op: token, rhs: Box::new(rhs) },
                                p2,
                                enc,
                            )
                        } else {
                            Err(stuck(ts, pos))
                        },
                        Err(e) => Err(e),
                    }
                }
            },
        }
    }
}

/// A literal, a variable, a call, a parenthesized expression, or `!`
/// applied to one. `ambient` is the enclosing operator, as in `p_expr`.
pub open spec fn p_operand(ts: Seq<Token>, pos: int, ambient: Option<Token>) -> Parsed<ExprV>
    decreases ts.len() - pos, 2int,
{
    if pos < 0 || pos >= ts.len() {
        p_int_lit(ts, pos)
    } else {
        let t = ts[pos];
        if t.kind == TokenKind::Bang {
            p_not(ts, pos, ambient)
        } else if t.kind == TokenKind::LParen {
            match p_expr(ts, pos + 1, None) {
                Ok((inner, p1)) => match p_expect(ts, p1, TokenKind::RParen, "`)`") {
                    Ok((rparen, p2)) => Ok((ExprV::Paren { lparen: t, inner: Box::new(inner), rparen }, p2)),
                    Err(e) => Err(e),
                },
                Err(e) => Err(e),
            }
        } else if t.kind == TokenKind::True || t.kind == TokenKind::False {
            Ok((ExprV::BoolLit(t), pos + 1))
        } else if t.kind == TokenKind::Ident {
            if peek_is(ts, pos + 1, TokenKind::LParen) {
                if peek_is(ts, pos + 2, TokenKind::RParen) {
                    Ok((
                        ExprV::Call { callee: t, lparen: ts[pos + 1], args: Seq::empty(), rparen: ts[pos + 2] },
                        pos + 3,
                    ))
                } else {
                    match p_args(ts, pos + 2, Seq::empty()) {
                        Ok(((args, rparen), p1)) => Ok((
                            ExprV::Call { callee: t, lparen: ts[pos + 1], args, rparen },
                            p1,
                        )),
                        Err(e) => Err(e),
                    }
                }
            } else {
                Ok((ExprV::Var(t), pos + 1))
            }
        } else {
            p_int_lit(ts, pos)
        }
    }
}

/// An integer literal at `pos`, the last thing an operand can be.
pub open spec fn p_int_lit(ts: Seq<Token>, pos: int) -> Parsed<ExprV> {
    match p_expect(ts, pos, TokenKind::IntLit, OPERAND) {
        Ok((t, p)) => Ok((ExprV::IntLit(t), p)),
        Err(e) => Err(e),
    }
}

/// `!` applied to an operand, the `!` being the token at `pos`.
pub open spec fn p_not(ts: Seq<Token>, pos: int, ambient: Option<Token>) -> Parsed<ExprV>
    decreases ts.len() - pos, 1int,
{
    if pos < 0 || pos >= ts.len() {
        Err(stuck(ts, pos))
    } else {
        let bang = ts[pos];
        let enc = enclosing(ambient);
        if not_is_ambiguous(enc) {
            Err(ambiguous(enclosing_token(enc), bang))
        } else {
            match p_expr(ts, pos + 1, Some(bang)) {
                Ok((operand, p1)) => Ok((ExprV::Unary { op: bang, operand: Box::new(operand) }, p1)),
                Err(e) => Err(e),
            }
        }
    }
}

/// The arguments of a call from `pos` on, after `acc`, and the `)` that ends
/// them.
pub open spec fn p_args(ts: Seq<Token>, pos: int, acc: Seq<ArgV>) -> Parsed<(Seq<ArgV>, Token)>
    decreases ts.len() - pos, 4int,
{
    if pos < 0 || pos > ts.len() {
        Err(stuck(ts, pos))
    } else {
        match p_expr(ts, pos, None) {
            Ok((e, p1)) => if pos < p1 <= ts.len() {
                if peek_is(ts, p1, TokenKind::Comma) {
                    p_args(ts, p1 + 1, acc.push(ArgV { expr: e, comma: Some(ts[p1]) }))
                } else {
                    match p_expect(ts, p1, TokenKind::RParen, "`,` or `)`") {
                        Ok((rparen, p2)) => Ok(((acc.push(ArgV { expr: e, comma: None }), rparen), p2)),
                        Err(err) => Err(err),
                    }
                }
            } else {
                Err(stuck(ts, pos))
            },
            Err(err) => Err(err),
        }
    }
}

/// `var name type = init` at `pos`.
pub open spec fn p_var_stmt(ts: Seq<Token>, pos: int) -> Parsed<StmtV> {
    match p_expect(ts, pos, TokenKind::Var, "`var`") {
        Err(e) => Err(e),
        Ok((var, p1)) => match p_expect(ts, p1, TokenKind::Ident, "an identifier") {
            Err(e) => Err(e),
            Ok((name, p2)) => match p_expect(ts, p2, TokenKind::Ident, "an identifier") {
                Err(e) => Err(e),
                Ok((ty, p3)) => match p_expect(ts, p3, TokenKind::Equals, "`=`") {
                    Err(e) => Err(e),
                    Ok((equals, p4)) => match p_expr(ts, p4, None) {
                        Err(e) => Err(e),
                        Ok((init, p5)) => Ok((StmtV::Var { var, name, ty, equals, init }, p5)),
                    },
                },
            },
        },
    }
}

/// A statement at `pos`.
pub open spec fn p_stmt(ts: Seq<Token>, pos: int) -> Parsed<StmtV> {
    if peek_is(ts, pos, TokenKind::Var) {
        p_var_stmt(ts, pos)
    } else {
        match p_expect(ts, pos, TokenKind::Return, "`var`, `return` or `}`") {
            Err(e) => Err(e),
            Ok((ret, p1)) => match p_expr(ts, p1, None) {
                Err(e) => Err(e),
                Ok((expr, p2)) => Ok((StmtV::Return { ret, expr }, p2)),
            },
        }
    }
}

/// The statements of a body from `pos` up to its `}`, after `acc`.
pub open spec fn p_body(ts: Seq<Token>, pos: int, acc: Seq<StmtV>) -> Parsed<Seq<StmtV>>
    decreases ts.len() - pos,
{
    if peek_is(ts, pos, TokenKind::RBrace) {
        Ok((acc, pos))
    } else {
        match p_stmt(ts, pos) {
            Ok((s, p1)) => if pos < p1 <= ts.len() {
                p_body(ts, p1, acc.push(s))
            } else {
                Err(stuck(ts, pos))
            },
            Err(e) => Err(e),
        }
    }
}

/// The parameters from `pos` on, after `acc`, and the `)` that ends them.
pub open spec fn p_params(ts: Seq<Token>, pos: int, acc: Seq<cst::Param>) -> Parsed<(Seq<cst::Param>, Token)>
    decreases ts.len() - pos,
{
    match p_expect(ts, pos, TokenKind::Ident, "an identifier") {
        Err(e) => Err(e),
        Ok((name, p1)) => match p_expect(ts, p1, TokenKind::Ident, "an identifier") {
            Err(e) => Err(e),
            Ok((ty, p2)) => if peek_is(ts, p2, TokenKind::Comma) {
                if pos < p2 + 1 <= ts.len() {
                    p_params(ts, p2 + 1, acc.push(cst::Param { name, ty, comma: Some(ts[p2]) }))
                } else {
                    Err(stuck(ts, pos))
                }
            } else {
                match p_expect(ts, p2, TokenKind::RParen, "`,` or `)`") {
                    Err(e) => Err(e),
                    Ok((rparen, p3)) => Ok(((acc.push(cst::Param { name, ty, comma: None }), rparen), p3)),
                }
            },
        },
    }
}

/// The parameter list and the `)` that ends it, the `(` already consumed.
pub open spec fn p_param_list(ts: Seq<Token>, pos: int) -> Parsed<(Seq<cst::Param>, Token)> {
    if peek_is(ts, pos, TokenKind::RParen) {
        Ok(((Seq::empty(), ts[pos]), pos + 1))
    } else {
        p_params(ts, pos, Seq::empty())
    }
}

/// A function declaration at `pos`.
pub open spec fn p_func(ts: Seq<Token>, pos: int) -> Parsed<FuncDeclV> {
    match p_expect(ts, pos, TokenKind::Func, "`func`") {
        Err(e) => Err(e),
        Ok((func, p1)) => match p_expect(ts, p1, TokenKind::Ident, "an identifier") {
            Err(e) => Err(e),
            Ok((name, p2)) => match p_expect(ts, p2, TokenKind::LParen, "`(`") {
                Err(e) => Err(e),
                Ok((lparen, p3)) => match p_param_list(ts, p3) {
                    Err(e) => Err(e),
                    Ok(((params, rparen), p4)) => match p_expect(ts, p4, TokenKind::Ident, "an identifier") {
                        Err(e) => Err(e),
                        Ok((ret, p5)) => match p_expect(ts, p5, TokenKind::LBrace, "`{`") {
                            Err(e) => Err(e),
                            Ok((lbrace, p6)) => match p_body(ts, p6, Seq::empty()) {
                                Err(e) => Err(e),
                                Ok((body, p7)) => match p_expect(ts, p7, TokenKind::RBrace, "`}`") {
                                    Err(e) => Err(e),
                                    Ok((rbrace, p8)) => Ok((
                                        FuncDeclV { func, name, lparen, params, rparen, ret, lbrace, body, rbrace },
                                        p8,
                                    )),
                                },
                            },
                        },
                    },
                },
            },
        },
    }
}

/// The function declarations from `pos` up to `Eof`, after `acc`.
pub open spec fn p_funcs(ts: Seq<Token>, pos: int, acc: Seq<FuncDeclV>) -> Parsed<Seq<FuncDeclV>>
    decreases ts.len() - pos,
{
    if peek_is(ts, pos, TokenKind::Eof) {
        Ok((acc, pos))
    } else {
        match p_func(ts, pos) {
            Ok((f, p1)) => if pos < p1 <= ts.len() {
                p_funcs(ts, p1, acc.push(f))
            } else {
                Err(stuck(ts, pos))
            },
            Err(e) => Err(e),
        }
    }
}

/// The program `ts` holds: its function declarations, then `Eof`.
pub open spec fn p_program(ts: Seq<Token>) -> Parsed<ProgramV> {
    match p_funcs(ts, 0, Seq::empty()) {
        Err(e) => Err(e),
        Ok((funcs, p1)) => match p_expect(ts, p1, TokenKind::Eof, "`func`") {
            Err(e) => Err(e),
            Ok((eof, p2)) => Ok((ProgramV { funcs, eof }, p2)),
        },
    }
}


// ---------------------------------------------------------------------------
// The tree is lossless.
// ---------------------------------------------------------------------------

/// What a parse from `pos` that ends at `end` holds is exactly the tokens
/// between the two.
proof fn lemma_expr_tokens(ts: Seq<Token>, pos: int, ambient: Option<Token>)
    ensures
        p_expr(ts, pos, ambient) matches Ok((v, end)) ==> pos < end <= ts.len() && cst::expr_tokens(v)
            == ts.subrange(pos, end),
    decreases ts.len() - pos, 3int,
{
    if 0 <= pos <= ts.len() {
        lemma_operand_tokens(ts, pos, ambient);
        if let Ok((lhs, p1)) = p_operand(ts, pos, ambient) {
            if pos < p1 <= ts.len() {
                lemma_loop_tokens(ts, lhs, p1, enclosing(ambient));
                if let Ok((v, end)) = p_loop(ts, lhs, p1, enclosing(ambient)) {
                    assert(ts.subrange(pos, p1) + ts.subrange(p1, end) =~= ts.subrange(pos, end));
                }
            }
        }
    }
}

proof fn lemma_loop_tokens(ts: Seq<Token>, lhs: ExprV, pos: int, enc: Option<(Token, Group)>)
    requires
        0 <= pos <= ts.len(),
    ensures
        p_loop(ts, lhs, pos, enc) matches Ok((v, end)) ==> pos <= end <= ts.len() && cst::expr_tokens(v)
            == cst::expr_tokens(lhs) + ts.subrange(pos, end),
    decreases ts.len() - pos, 0int,
{
    assert(cst::expr_tokens(lhs) + ts.subrange(pos, pos) =~= cst::expr_tokens(lhs));
    if pos < ts.len() {
        let token = ts[pos];
        if let Some(op) = ast::spec_binary_op(token.kind) {
            lemma_expr_tokens(ts, pos + 1, Some(token));
            if let Ok((rhs, p2)) = p_expr(ts, pos + 1, Some(token)) {
                let bin = ExprV::Binary { lhs: Box::new(lhs), op: token, rhs: Box::new(rhs) };
                lemma_loop_tokens(ts, bin, p2, enc);
                if let Ok((v, end)) = p_loop(ts, bin, p2, enc) {
                    assert(cst::expr_tokens(lhs) + seq![token] + ts.subrange(pos + 1, p2) + ts.subrange(p2, end)
                        =~= cst::expr_tokens(lhs) + ts.subrange(pos, end));
                }
            }
        }
    }
}

proof fn lemma_operand_tokens(ts: Seq<Token>, pos: int, ambient: Option<Token>)
    ensures
        p_operand(ts, pos, ambient) matches Ok((v, end)) ==> pos < end <= ts.len() && cst::expr_tokens(v)
            == ts.subrange(pos, end),
    decreases ts.len() - pos, 2int,
{
    if 0 <= pos < ts.len() {
        let t = ts[pos];
        if t.kind == TokenKind::Bang {
            lemma_not_tokens(ts, pos, ambient);
        } else if t.kind == TokenKind::LParen {
            lemma_expr_tokens(ts, pos + 1, None);
            if let Ok((inner, p1)) = p_expr(ts, pos + 1, None) {
                if let Ok((rparen, p2)) = p_expect(ts, p1, TokenKind::RParen, "`)`") {
                    assert(seq![t] + cst::expr_tokens(inner) + seq![rparen] =~= ts.subrange(pos, p2));
                }
            }
        } else if t.kind == TokenKind::True || t.kind == TokenKind::False {
            assert(seq![t] =~= ts.subrange(pos, pos + 1));
        } else if t.kind == TokenKind::Ident {
            if peek_is(ts, pos + 1, TokenKind::LParen) {
                if peek_is(ts, pos + 2, TokenKind::RParen) {
                    assert(seq![t, ts[pos + 1]] + cst::args_tokens(Seq::empty(), 0) + seq![ts[pos + 2]]
                        =~= ts.subrange(pos, pos + 3));
                } else {
                    lemma_args_tokens(ts, pos + 2, Seq::empty());
                    if let Ok(((args, rparen), p1)) = p_args(ts, pos + 2, Seq::empty()) {
                        assert(cst::args_tokens(Seq::<ArgV>::empty(), 0) + ts.subrange(pos + 2, p1)
                            =~= ts.subrange(pos + 2, p1));
                        assert(seq![t, ts[pos + 1]] + (cst::args_tokens(args, args.len() as int) + seq![rparen])
                            =~= ts.subrange(pos, p1));
                    }
                }
            } else {
                assert(seq![t] =~= ts.subrange(pos, pos + 1));
            }
        } else if t.kind == TokenKind::IntLit {
            assert(seq![t] =~= ts.subrange(pos, pos + 1));
        }
    }
}

proof fn lemma_not_tokens(ts: Seq<Token>, pos: int, ambient: Option<Token>)
    ensures
        p_not(ts, pos, ambient) matches Ok((v, end)) ==> pos < end <= ts.len() && cst::expr_tokens(v)
            == ts.subrange(pos, end),
    decreases ts.len() - pos, 1int,
{
    if 0 <= pos < ts.len() {
        let bang = ts[pos];
        lemma_expr_tokens(ts, pos + 1, Some(bang));
        if let Ok((operand, p1)) = p_expr(ts, pos + 1, Some(bang)) {
            assert(seq![bang] + cst::expr_tokens(operand) =~= ts.subrange(pos, p1));
        }
    }
}

proof fn lemma_args_tokens(ts: Seq<Token>, pos: int, acc: Seq<ArgV>)
    ensures
        p_args(ts, pos, acc) matches Ok(((args, rparen), end)) ==> pos < end <= ts.len() && cst::args_tokens(
            args,
            args.len() as int,
        ) + seq![rparen] == cst::args_tokens(acc, acc.len() as int) + ts.subrange(pos, end),
    decreases ts.len() - pos, 4int,
{
    if 0 <= pos <= ts.len() {
        lemma_expr_tokens(ts, pos, None);
        if let Ok((e, p1)) = p_expr(ts, pos, None) {
            if pos < p1 <= ts.len() {
                let n = acc.len() as int;
                if peek_is(ts, p1, TokenKind::Comma) {
                    let acc2 = acc.push(ArgV { expr: e, comma: Some(ts[p1]) });
                    lemma_args_tokens(ts, p1 + 1, acc2);
                    cst::lemma_args_tokens_push(acc, ArgV { expr: e, comma: Some(ts[p1]) }, n);
                    if let Ok(((args, rparen), end)) = p_args(ts, p1 + 1, acc2) {
                        assert(cst::args_tokens(acc2, n + 1) == cst::args_tokens(acc2, n) + cst::expr_tokens(e)
                            + seq![ts[p1]]);
                        assert(cst::args_tokens(acc, n) + ts.subrange(pos, p1) + seq![ts[p1]] + ts.subrange(
                            p1 + 1,
                            end,
                        ) =~= cst::args_tokens(acc, n) + ts.subrange(pos, end));
                    }
                } else if let Ok((rparen, p2)) = p_expect(ts, p1, TokenKind::RParen, "`,` or `)`") {
                    let args = acc.push(ArgV { expr: e, comma: None });
                    cst::lemma_args_tokens_push(acc, ArgV { expr: e, comma: None }, n);
                    assert(cst::args_tokens(args, n + 1) == cst::args_tokens(args, n) + cst::expr_tokens(e)
                        + cst::opt_tokens(None));
                    assert(cst::args_tokens(acc, n) + ts.subrange(pos, p1) + cst::opt_tokens(None) + seq![rparen]
                        =~= cst::args_tokens(acc, n) + ts.subrange(pos, p2));
                }
            }
        }
    }
}

proof fn lemma_stmt_tokens(ts: Seq<Token>, pos: int)
    ensures
        p_stmt(ts, pos) matches Ok((v, end)) ==> pos < end <= ts.len() && cst::stmt_tokens(v) == ts.subrange(
            pos,
            end,
        ),
{
    if peek_is(ts, pos, TokenKind::Var) {
        lemma_expr_tokens(ts, pos + 4, None);
        if let Ok((v, end)) = p_var_stmt(ts, pos) {
            assert(seq![ts[pos], ts[pos + 1], ts[pos + 2], ts[pos + 3]] + ts.subrange(pos + 4, end)
                =~= ts.subrange(pos, end));
        }
    } else {
        lemma_expr_tokens(ts, pos + 1, None);
        if let Ok((v, end)) = p_stmt(ts, pos) {
            assert(seq![ts[pos]] + ts.subrange(pos + 1, end) =~= ts.subrange(pos, end));
        }
    }
}

proof fn lemma_body_tokens(ts: Seq<Token>, pos: int, acc: Seq<StmtV>)
    requires
        0 <= pos <= ts.len(),
    ensures
        p_body(ts, pos, acc) matches Ok((body, end)) ==> pos <= end <= ts.len() && cst::body_tokens(
            body,
            body.len() as int,
        ) == cst::body_tokens(acc, acc.len() as int) + ts.subrange(pos, end),
    decreases ts.len() - pos,
{
    let n = acc.len() as int;
    if peek_is(ts, pos, TokenKind::RBrace) {
        assert(cst::body_tokens(acc, n) + ts.subrange(pos, pos) =~= cst::body_tokens(acc, n));
    } else {
        lemma_stmt_tokens(ts, pos);
        if let Ok((st, p1)) = p_stmt(ts, pos) {
            let acc2 = acc.push(st);
            lemma_body_tokens(ts, p1, acc2);
            cst::lemma_body_tokens_push(acc, st, n);
            if let Ok((body, end)) = p_body(ts, p1, acc2) {
                assert(cst::body_tokens(acc2, n + 1) == cst::body_tokens(acc2, n) + cst::stmt_tokens(st));
                assert(cst::body_tokens(acc, n) + ts.subrange(pos, p1) + ts.subrange(p1, end)
                    =~= cst::body_tokens(acc, n) + ts.subrange(pos, end));
            }
        }
    }
}

proof fn lemma_params_tokens(ts: Seq<Token>, pos: int, acc: Seq<cst::Param>)
    ensures
        p_params(ts, pos, acc) matches Ok(((params, rparen), end)) ==> pos < end <= ts.len()
            && cst::params_tokens(params, params.len() as int) + seq![rparen] == cst::params_tokens(
            acc,
            acc.len() as int,
        ) + ts.subrange(pos, end),
    decreases ts.len() - pos,
{
    let n = acc.len() as int;
    if peek_is(ts, pos, TokenKind::Ident) && peek_is(ts, pos + 1, TokenKind::Ident) {
        let p2 = pos + 2;
        let name = ts[pos];
        let ty = ts[pos + 1];
        if peek_is(ts, p2, TokenKind::Comma) {
            let param = cst::Param { name, ty, comma: Some(ts[p2]) };
            let acc2 = acc.push(param);
            lemma_params_tokens(ts, p2 + 1, acc2);
            cst::lemma_params_tokens_push(acc, param, n);
            if let Ok(((params, rparen), end)) = p_params(ts, p2 + 1, acc2) {
                assert(cst::params_tokens(acc2, n + 1) == cst::params_tokens(acc2, n) + seq![name, ty]
                    + cst::opt_tokens(Some(ts[p2])));
                assert(cst::params_tokens(acc, n) + seq![name, ty] + seq![ts[p2]] + ts.subrange(p2 + 1, end)
                    =~= cst::params_tokens(acc, n) + ts.subrange(pos, end));
            }
        } else if let Ok((rparen, p3)) = p_expect(ts, p2, TokenKind::RParen, "`,` or `)`") {
            let param = cst::Param { name, ty, comma: None };
            let params = acc.push(param);
            cst::lemma_params_tokens_push(acc, param, n);
            assert(cst::params_tokens(params, n + 1) == cst::params_tokens(params, n) + seq![name, ty]
                + cst::opt_tokens(None));
            assert(cst::params_tokens(acc, n) + seq![name, ty] + cst::opt_tokens(None) + seq![rparen]
                =~= cst::params_tokens(acc, n) + ts.subrange(pos, p3));
        }
    }
}

proof fn lemma_func_tokens(ts: Seq<Token>, pos: int)
    ensures
        p_func(ts, pos) matches Ok((f, end)) ==> pos < end <= ts.len() && cst::func_tokens(f) == ts.subrange(
            pos,
            end,
        ),
{
    if let Ok((f, end)) = p_func(ts, pos) {
        let p3 = pos + 3;
        if peek_is(ts, p3, TokenKind::RParen) {
            assert(cst::params_tokens(Seq::empty(), 0) + seq![ts[p3]] =~= ts.subrange(p3, p3 + 1));
        } else {
            lemma_params_tokens(ts, p3, Seq::empty());
            if let Ok(((params, rparen), p4)) = p_params(ts, p3, Seq::empty()) {
                assert(cst::params_tokens(Seq::<cst::Param>::empty(), 0) + ts.subrange(p3, p4) =~= ts.subrange(
                    p3,
                    p4,
                ));
            }
        }
        if let Ok(((params, rparen), p4)) = p_param_list(ts, p3) {
            let p6 = p4 + 2;
            lemma_body_tokens(ts, p6, Seq::empty());
            if let Ok((body, p7)) = p_body(ts, p6, Seq::empty()) {
                assert(cst::body_tokens(Seq::<StmtV>::empty(), 0) + ts.subrange(p6, p7) =~= ts.subrange(p6, p7));
                let pt = cst::params_tokens(params, params.len() as int);
                assert(pt + seq![rparen] == ts.subrange(p3, p4));
                assert(seq![ts[pos], ts[pos + 1], ts[pos + 2]] + pt + seq![rparen, ts[p4], ts[p4 + 1]]
                    + ts.subrange(p6, p7) + seq![ts[p7]] =~= seq![ts[pos], ts[pos + 1], ts[pos + 2]] + (pt
                    + seq![rparen]) + seq![ts[p4], ts[p4 + 1]] + ts.subrange(p6, p7) + seq![ts[p7]]);
                assert(seq![ts[pos], ts[pos + 1], ts[pos + 2]] + ts.subrange(p3, p4) + seq![ts[p4], ts[p4 + 1]]
                    + ts.subrange(p6, p7) + seq![ts[p7]] =~= ts.subrange(pos, end));
            }
        }
    }
}

proof fn lemma_funcs_tokens(ts: Seq<Token>, pos: int, acc: Seq<FuncDeclV>)
    requires
        0 <= pos <= ts.len(),
    ensures
        p_funcs(ts, pos, acc) matches Ok((funcs, end)) ==> pos <= end <= ts.len() && cst::funcs_tokens(
            funcs,
            funcs.len() as int,
        ) == cst::funcs_tokens(acc, acc.len() as int) + ts.subrange(pos, end),
    decreases ts.len() - pos,
{
    let n = acc.len() as int;
    if peek_is(ts, pos, TokenKind::Eof) {
        assert(cst::funcs_tokens(acc, n) + ts.subrange(pos, pos) =~= cst::funcs_tokens(acc, n));
    } else {
        lemma_func_tokens(ts, pos);
        if let Ok((f, p1)) = p_func(ts, pos) {
            let acc2 = acc.push(f);
            lemma_funcs_tokens(ts, p1, acc2);
            cst::lemma_funcs_tokens_push(acc, f, n);
            if let Ok((funcs, end)) = p_funcs(ts, p1, acc2) {
                assert(cst::funcs_tokens(acc2, n + 1) == cst::funcs_tokens(acc2, n) + cst::func_tokens(f));
                assert(cst::funcs_tokens(acc, n) + ts.subrange(pos, p1) + ts.subrange(p1, end)
                    =~= cst::funcs_tokens(acc, n) + ts.subrange(pos, end));
            }
        }
    }
}

/// Flattening the tree the parser builds gives back, in order, every token
/// it read: the concrete syntax tree is lossless. Of a lexed stream, whose
/// one `Eof` ends it, the parser reads every token.
pub proof fn parsing_is_lossless(ts: Seq<Token>)
    requires
        ts.len() >= 1,
        ts.last().kind == TokenKind::Eof,
        forall|k: int| 0 <= k < ts.len() - 1 ==> #[trigger] ts[k].kind != TokenKind::Eof,
    ensures
        p_program(ts) matches Ok((v, end)) ==> end == ts.len() && cst::program_tokens(v) == ts,
{
    lemma_funcs_tokens(ts, 0, Seq::empty());
    if let Ok((v, end)) = p_program(ts) {
        if let Ok((funcs, p1)) = p_funcs(ts, 0, Seq::empty()) {
            assert(cst::funcs_tokens(Seq::<FuncDeclV>::empty(), 0) + ts.subrange(0, p1) =~= ts.subrange(0, p1));
            assert(ts[p1].kind == TokenKind::Eof);
            assert(p1 == ts.len() - 1);
            assert(ts.subrange(0, p1) + seq![ts[p1]] =~= ts);
        }
    }
}

/// Lexing a source and parsing what came out gives a tree whose tokens,
/// each with the trivia before it, spell the source again byte for byte.
pub proof fn the_tree_is_lossless(b: Seq<u8>)
    requires
        b.len() <= usize::MAX,
    ensures
        spec_lex(b) matches Ok(ts) ==> (p_program(ts) matches Ok((v, _)) ==> {
            &&& cst::program_tokens(v) == ts
            &&& reassembled(b, cst::program_tokens(v), ts.len() as int) == b
        }),
{
    lexing_is_lossless(b);
    if let Ok(ts) = spec_lex(b) {
        assert forall|k: int| 0 <= k < ts.len() - 1 implies #[trigger] ts[k].kind != TokenKind::Eof by {
            assert(ts[k].span.end == ts[k + 1].trivia.start);
        }
        parsing_is_lossless(ts);
    }
}

// ---------------------------------------------------------------------------
// The parser.
// ---------------------------------------------------------------------------

/// Parses the token stream `lex` produced.
///
/// Returns `None` as soon as anything is wrong; one run reports at most
/// one diagnostic.
pub fn parse(tokens: &[Token], diags: &mut diag::Sink) -> (r: Option<cst::Program>)
    ensures
        match p_program(tokens@) {
            Ok((v, _)) => r matches Some(p) && p@ == v && final(diags)@ == old(diags)@,
            Err(e) => r is None && final(diags)@ == old(diags)@.push(e),
        },
        r is None ==> is_syntax_error(final(diags)@.last()),
{
    proof {
        parse_errors_are_syntax_errors(tokens@);
    }
    let mut parser = Parser { tokens, next: 0 };
    parser.program(diags)
}

/// The parser's state: the tokens, and the index of the one to be consumed
/// next.
struct Parser<'a> {
    tokens: &'a [Token],
    next: usize,
}

impl<'a> Parser<'a> {
    #[verifier::loop_isolation(false)]
    fn program(&mut self, diags: &mut diag::Sink) -> (r: Option<cst::Program>)
        requires
            old(self).next == 0,
        ensures
            match p_program(old(self).tokens@) {
                Ok((v, _)) => r matches Some(p) && p@ == v && final(diags)@ == old(diags)@,
                Err(e) => r is None && final(diags)@ == old(diags)@.push(e),
            },
    {
        let ghost ts = self.tokens@;
        let mut funcs: Vec<cst::FuncDecl> = Vec::new();
        assert(funcs@.map_values(|f: cst::FuncDecl| f@) =~= Seq::<FuncDeclV>::empty());
        while !self.peek_is(TokenKind::Eof)
            invariant
                self.tokens@ == ts,
                self.next <= ts.len(),
                p_funcs(ts, 0, Seq::empty()) == p_funcs(ts, self.next as int, funcs@.map_values(|f: cst::FuncDecl| f@)),
                diags@ == old(diags)@,
            decreases ts.len() - self.next,
        {
            let ghost before = funcs@;
            let ghost pos = self.next as int;
            let func = match self.func_decl(diags) {
                Some(f) => f,
                None => return None,
            };
            let ghost fv = func@;
            funcs.push(func);
            assert(funcs@.map_values(|f: cst::FuncDecl| f@) =~= before.map_values(|f: cst::FuncDecl| f@).push(fv));
        }
        let eof = match self.expect(diags, TokenKind::Eof, "`func`") {
            Some(t) => t,
            None => return None,
        };
        let r = cst::Program { funcs, eof };
        assert(r@.funcs =~= funcs@.map_values(|f: cst::FuncDecl| f@));
        Some(r)
    }

    #[verifier::loop_isolation(false)]
    fn func_decl(&mut self, diags: &mut diag::Sink) -> (r: Option<cst::FuncDecl>)
        requires
            old(self).next <= old(self).tokens@.len(),
        ensures
            final(self).tokens@ == old(self).tokens@,
            match p_func(old(self).tokens@, old(self).next as int) {
                Ok((v, end)) => r matches Some(f) && f@ == v && final(self).next == end && final(diags)@ == old(diags)@
                    && old(self).next < end <= old(self).tokens@.len(),
                Err(e) => r is None && final(diags)@ == old(diags)@.push(e),
            },
    {
        let ghost ts = self.tokens@;
        let func = match self.expect(diags, TokenKind::Func, "`func`") {
            Some(t) => t,
            None => return None,
        };
        let name = match self.expect(diags, TokenKind::Ident, "an identifier") {
            Some(t) => t,
            None => return None,
        };
        let lparen = match self.expect(diags, TokenKind::LParen, "`(`") {
            Some(t) => t,
            None => return None,
        };
        let (params, rparen) = match self.params(diags) {
            Some(pr) => pr,
            None => return None,
        };
        let ret = match self.expect(diags, TokenKind::Ident, "an identifier") {
            Some(t) => t,
            None => return None,
        };
        let lbrace = match self.expect(diags, TokenKind::LBrace, "`{`") {
            Some(t) => t,
            None => return None,
        };
        let ghost p6 = self.next as int;
        let mut body: Vec<cst::Stmt> = Vec::new();
        assert(body@.map_values(|s: cst::Stmt| s@) =~= Seq::<StmtV>::empty());
        while !self.peek_is(TokenKind::RBrace)
            invariant
                self.tokens@ == ts,
                p6 <= self.next <= ts.len(),
                p_body(ts, p6, Seq::empty()) == p_body(ts, self.next as int, body@.map_values(|s: cst::Stmt| s@)),
                diags@ == old(diags)@,
            decreases ts.len() - self.next,
        {
            let ghost before = body@;
            let stmt = match self.stmt(diags) {
                Some(s) => s,
                None => return None,
            };
            let ghost sv = stmt@;
            body.push(stmt);
            assert(body@.map_values(|s: cst::Stmt| s@) =~= before.map_values(|s: cst::Stmt| s@).push(sv));
        }
        let rbrace = match self.expect(diags, TokenKind::RBrace, "`}`") {
            Some(t) => t,
            None => return None,
        };
        let r = cst::FuncDecl { func, name, lparen, params, rparen, ret, lbrace, body, rbrace };
        Some(r)
    }

    /// The parameter list and the `)` that ends it, the `(` already consumed.
    #[verifier::loop_isolation(false)]
    fn params(&mut self, diags: &mut diag::Sink) -> (r: Option<(Vec<cst::Param>, Token)>)
        requires
            old(self).next <= old(self).tokens@.len(),
        ensures
            final(self).tokens@ == old(self).tokens@,
            match p_param_list(old(self).tokens@, old(self).next as int) {
                Ok((v, end)) => r matches Some(pr) && pr.0@ == v.0 && pr.1 == v.1 && final(self).next == end
                    && final(diags)@ == old(diags)@ && old(self).next < end <= old(self).tokens@.len(),
                Err(e) => r is None && final(diags)@ == old(diags)@.push(e),
            },
    {
        let ghost ts = self.tokens@;
        let mut params: Vec<cst::Param> = Vec::new();
        if let Some(rparen) = self.consume(TokenKind::RParen) {
            return Some((params, rparen));
        }
        let ghost p0 = self.next as int;
        loop
            invariant
                self.tokens@ == ts,
                p0 <= self.next <= ts.len(),
                p_param_list(ts, p0) == p_params(ts, self.next as int, params@),
                !peek_is(ts, p0, TokenKind::RParen),
                diags@ == old(diags)@,
            decreases ts.len() - self.next,
        {
            let ghost pos = self.next as int;
            let name = match self.expect(diags, TokenKind::Ident, "an identifier") {
                Some(t) => t,
                None => return None,
            };
            let ty = match self.expect(diags, TokenKind::Ident, "an identifier") {
                Some(t) => t,
                None => return None,
            };
            let comma = self.consume(TokenKind::Comma);
            params.push(cst::Param { name, ty, comma });
            if comma.is_none() {
                let rparen = match self.expect(diags, TokenKind::RParen, "`,` or `)`") {
                    Some(t) => t,
                    None => return None,
                };
                return Some((params, rparen));
            }
        }
    }

    fn stmt(&mut self, diags: &mut diag::Sink) -> (r: Option<cst::Stmt>)
        requires
            old(self).next <= old(self).tokens@.len(),
        ensures
            final(self).tokens@ == old(self).tokens@,
            match p_stmt(old(self).tokens@, old(self).next as int) {
                Ok((v, end)) => r matches Some(s) && s@ == v && final(self).next == end && final(diags)@ == old(diags)@
                    && old(self).next < end <= old(self).tokens@.len(),
                Err(e) => r is None && final(diags)@ == old(diags)@.push(e),
            },
    {
        if self.peek_is(TokenKind::Var) {
            return self.var_stmt(diags);
        }
        let ret = match self.expect(diags, TokenKind::Return, "`var`, `return` or `}`") {
            Some(t) => t,
            None => return None,
        };
        let expr = match self.expr(diags, None) {
            Some(e) => e,
            None => return None,
        };
        Some(cst::Stmt::Return { ret, expr })
    }

    /// `var name type = init`.
    fn var_stmt(&mut self, diags: &mut diag::Sink) -> (r: Option<cst::Stmt>)
        requires
            old(self).next <= old(self).tokens@.len(),
        ensures
            final(self).tokens@ == old(self).tokens@,
            match p_var_stmt(old(self).tokens@, old(self).next as int) {
                Ok((v, end)) => r matches Some(s) && s@ == v && final(self).next == end && final(diags)@ == old(diags)@
                    && old(self).next < end <= old(self).tokens@.len(),
                Err(e) => r is None && final(diags)@ == old(diags)@.push(e),
            },
    {
        let var = match self.expect(diags, TokenKind::Var, "`var`") {
            Some(t) => t,
            None => return None,
        };
        let name = match self.expect(diags, TokenKind::Ident, "an identifier") {
            Some(t) => t,
            None => return None,
        };
        let ty = match self.expect(diags, TokenKind::Ident, "an identifier") {
            Some(t) => t,
            None => return None,
        };
        let equals = match self.expect(diags, TokenKind::Equals, "`=`") {
            Some(t) => t,
            None => return None,
        };
        let init = match self.expr(diags, None) {
            Some(e) => e,
            None => return None,
        };
        Some(cst::Stmt::Var { var, name, ty, equals, init })
    }

    /// An expression, folded left to right under the precedence graph.
    ///
    /// `ambient` is the enclosing operator, or `None` at the start of an
    /// expression and inside parentheses.
    #[verifier::loop_isolation(false)]
    fn expr(&mut self, diags: &mut diag::Sink, ambient: Option<Token>) -> (r: Option<cst::Expr>)
        requires
            old(self).next <= old(self).tokens@.len(),
        ensures
            final(self).tokens@ == old(self).tokens@,
            match p_expr(old(self).tokens@, old(self).next as int, ambient) {
                Ok((v, end)) => r matches Some(e) && e@ == v && final(self).next == end && final(diags)@ == old(diags)@
                    && old(self).next < end <= old(self).tokens@.len(),
                Err(e) => r is None && final(diags)@ == old(diags)@.push(e),
            },
        decreases old(self).tokens@.len() - old(self).next, 3int,
    {
        let ghost ts = self.tokens@;
        let ghost pos0 = self.next as int;
        let first = match self.operand(diags, ambient) {
            Some(e) => e,
            None => return None,
        };
        // The caller only ever passes a token it consumed as an operator.
        let enc = match ambient {
            Some(t) => match operator_group(t.kind) {
                Some(g) => Some((t, g)),
                None => None,
            },
            None => None,
        };
        let mut lhs = first;
        loop
            invariant
                self.tokens@ == ts,
                pos0 < self.next <= ts.len(),
                enc == enclosing(ambient),
                p_expr(ts, pos0, ambient) == p_loop(ts, lhs@, self.next as int, enc),
                diags@ == old(diags)@,
            decreases ts.len() - self.next,
        {
            let token = match self.peek() {
                Some(t) => t,
                None => return Some(lhs),
            };
            let op = match ast::binary_op(token.kind) {
                Some(op) => op,
                None => return Some(lhs),
            };
            if let Some((left, left_group)) = enc {
                match precedence::priority(left_group, precedence::group(op)) {
                    // The enclosing operator takes the operand just parsed.
                    Priority::Left => return Some(lhs),
                    Priority::Ambiguous => {
                        let kind = diag::Kind::AmbiguousPrecedence {
                            left: describe(left.kind),
                            right: describe(token.kind),
                        };
                        diags.push(diag::Entry { kind, span: token.span });
                        return None;
                    },
                    Priority::Right => {},
                }
            }
            self.advance();
            let rhs = match self.expr(diags, Some(token)) {
                Some(e) => e,
                None => return None,
            };
            lhs = cst::Expr::Binary { lhs: Box::new(lhs), op: token, rhs: Box::new(rhs) };
        }
    }

    /// A literal, a variable, a call, a parenthesized expression, or `!`
    /// applied to one. `ambient` is the enclosing operator, as in `expr`.
    fn operand(&mut self, diags: &mut diag::Sink, ambient: Option<Token>) -> (r: Option<cst::Expr>)
        requires
            old(self).next <= old(self).tokens@.len(),
        ensures
            final(self).tokens@ == old(self).tokens@,
            match p_operand(old(self).tokens@, old(self).next as int, ambient) {
                Ok((v, end)) => r matches Some(e) && e@ == v && final(self).next == end && final(diags)@ == old(diags)@
                    && old(self).next < end <= old(self).tokens@.len(),
                Err(e) => r is None && final(diags)@ == old(diags)@.push(e),
            },
        decreases old(self).tokens@.len() - old(self).next, 2int,
    {
        let ghost ts = self.tokens@;
        let t = match self.peek() {
            Some(t) => t,
            None => return self.int_lit(diags),
        };
        if t.kind == TokenKind::Bang {
            return self.not(diags, t, ambient);
        }
        if t.kind == TokenKind::LParen {
            self.advance();
            let inner = match self.expr(diags, None) {
                Some(e) => e,
                None => return None,
            };
            let rparen = match self.expect(diags, TokenKind::RParen, "`)`") {
                Some(t) => t,
                None => return None,
            };
            return Some(cst::Expr::Paren { lparen: t, inner: Box::new(inner), rparen });
        }
        if t.kind == TokenKind::True || t.kind == TokenKind::False {
            self.advance();
            return Some(cst::Expr::BoolLit(t));
        }
        if t.kind == TokenKind::Ident {
            self.advance();
            let lparen = match self.consume(TokenKind::LParen) {
                Some(l) => l,
                None => return Some(cst::Expr::Var(t)),
            };
            return self.call(diags, t, lparen);
        }
        self.int_lit(diags)
    }

    /// An integer literal, the last thing an operand can be.
    fn int_lit(&mut self, diags: &mut diag::Sink) -> (r: Option<cst::Expr>)
        requires
            old(self).next <= old(self).tokens@.len(),
        ensures
            final(self).tokens@ == old(self).tokens@,
            match p_int_lit(old(self).tokens@, old(self).next as int) {
                Ok((v, end)) => r matches Some(e) && e@ == v && final(self).next == end && final(diags)@ == old(diags)@
                    && old(self).next < end <= old(self).tokens@.len(),
                Err(e) => r is None && final(diags)@ == old(diags)@.push(e),
            },
    {
        match self.expect(diags, TokenKind::IntLit, OPERAND) {
            Some(t) => Some(cst::Expr::IntLit(t)),
            None => None,
        }
    }

    /// The rest of a call, `callee` and its `(` already consumed.
    #[verifier::loop_isolation(false)]
    fn call(&mut self, diags: &mut diag::Sink, callee: Token, lparen: Token) -> (r: Option<cst::Expr>)
        requires
            2 <= old(self).next <= old(self).tokens@.len(),
            old(self).tokens@[old(self).next - 2] == callee,
            old(self).tokens@[old(self).next - 1] == lparen,
            callee.kind == TokenKind::Ident,
            lparen.kind == TokenKind::LParen,
        ensures
            final(self).tokens@ == old(self).tokens@,
            match p_operand(old(self).tokens@, old(self).next - 2, None) {
                Ok((v, end)) => r matches Some(e) && e@ == v && final(self).next == end && final(diags)@ == old(diags)@
                    && old(self).next - 2 < end <= old(self).tokens@.len(),
                Err(e) => r is None && final(diags)@ == old(diags)@.push(e),
            },
        decreases old(self).tokens@.len() - old(self).next, 5int,
    {
        let ghost ts = self.tokens@;
        let ghost p0 = self.next as int;
        let mut args: Vec<cst::Arg> = Vec::new();
        if let Some(rparen) = self.consume(TokenKind::RParen) {
            let r = cst::Expr::Call { callee, lparen, args, rparen };
            proof {
                cst::lemma_args_view_len(args@, 0);
                assert(cst::args_view(args@, 0) =~= Seq::<ArgV>::empty());
            }
            return Some(r);
        }
        loop
            invariant
                self.tokens@ == ts,
                p0 <= self.next <= ts.len(),
                p_args(ts, p0, Seq::empty()) == p_args(ts, self.next as int, cst::args_view(args@, args@.len() as int)),
                diags@ == old(diags)@,
            decreases ts.len() - self.next,
        {
            let ghost before = args@;
            let ghost pos = self.next as int;
            let expr = match self.expr(diags, None) {
                Some(e) => e,
                None => return None,
            };
            let comma = self.consume(TokenKind::Comma);
            let arg = cst::Arg { expr, comma };
            proof {
                cst::lemma_args_view_push(before, arg);
            }
            args.push(arg);
            if comma.is_none() {
                let rparen = match self.expect(diags, TokenKind::RParen, "`,` or `)`") {
                    Some(t) => t,
                    None => return None,
                };
                return Some(cst::Expr::Call { callee, lparen, args, rparen });
            }
        }
    }

    /// `!` applied to an operand, `bang` being the operator token, which is
    /// still to be consumed.
    fn not(&mut self, diags: &mut diag::Sink, bang: Token, ambient: Option<Token>) -> (r: Option<cst::Expr>)
        requires
            old(self).next < old(self).tokens@.len(),
            old(self).tokens@[old(self).next as int] == bang,
        ensures
            final(self).tokens@ == old(self).tokens@,
            match p_not(old(self).tokens@, old(self).next as int, ambient) {
                Ok((v, end)) => r matches Some(e) && e@ == v && final(self).next == end && final(diags)@ == old(diags)@
                    && old(self).next < end <= old(self).tokens@.len(),
                Err(e) => r is None && final(diags)@ == old(diags)@.push(e),
            },
        decreases old(self).tokens@.len() - old(self).next, 1int,
    {
        // An enclosing operator the graph does not order against `!` is the
        // whole point of a partial order: the source must parenthesize.
        if let Some(left) = ambient {
            if let Some(left_group) = operator_group(left.kind) {
                if precedence::priority(left_group, precedence::unary_group(ast::UnOp::Not))
                    == Priority::Ambiguous {
                    let kind = diag::Kind::AmbiguousPrecedence {
                        left: describe(left.kind),
                        right: describe(bang.kind),
                    };
                    diags.push(diag::Entry { kind, span: bang.span });
                    return None;
                }
            }
        }
        self.advance();
        // Parsing the operand with `!` enclosing it is what places the
        // operators that follow it.
        let operand = match self.expr(diags, Some(bang)) {
            Some(e) => e,
            None => return None,
        };
        Some(cst::Expr::Unary { op: bang, operand: Box::new(operand) })
    }

    /// Consumes the next token if it is a `kind`, and leaves it otherwise.
    fn consume(&mut self, kind: TokenKind) -> (r: Option<Token>)
        requires
            old(self).next <= old(self).tokens@.len(),
        ensures
            final(self).tokens@ == old(self).tokens@,
            peek_is(old(self).tokens@, old(self).next as int, kind) ==> r == Some(old(self).tokens@[old(self).next as int])
                && final(self).next == old(self).next + 1,
            !peek_is(old(self).tokens@, old(self).next as int, kind) ==> r is None && final(self).next == old(self).next,
    {
        if self.next < self.tokens.len() && self.tokens[self.next].kind == kind {
            let t = self.tokens[self.next];
            self.next = self.next + 1;
            Some(t)
        } else {
            None
        }
    }

    /// Consumes the next token if it is a `kind`, and reports the unexpected
    /// one otherwise. `expected` describes what the grammar allows here.
    fn expect(&mut self, diags: &mut diag::Sink, kind: TokenKind, expected: &'static str) -> (r: Option<Token>)
        requires
            old(self).next <= old(self).tokens@.len(),
        ensures
            final(self).tokens@ == old(self).tokens@,
            match p_expect(old(self).tokens@, old(self).next as int, kind, expected) {
                Ok((t, end)) => r == Some(t) && final(self).next == end && final(diags)@ == old(diags)@
                    && old(self).next < end <= old(self).tokens@.len(),
                Err(e) => r is None && final(diags)@ == old(diags)@.push(e),
            },
    {
        if self.next < self.tokens.len() {
            let t = self.tokens[self.next];
            if t.kind == kind {
                self.next = self.next + 1;
                return Some(t);
            }
            let found = describe(t.kind);
            diags.push(diag::Entry { kind: diag::Kind::UnexpectedToken { expected, found }, span: t.span });
            None
        } else {
            let span = self.last_span();
            diags.push(diag::Entry { kind: diag::Kind::UnexpectedToken { expected, found: "end of input" }, span });
            None
        }
    }

    /// Moves past the next token, which is there.
    fn advance(&mut self)
        requires
            old(self).next < old(self).tokens@.len(),
        ensures
            final(self).tokens@ == old(self).tokens@,
            final(self).next == old(self).next + 1,
    {
        proof {
            assert(self.tokens.len() == self.tokens@.len());
        }
        self.next = self.next + 1;
    }

    fn peek(&self) -> (r: Option<Token>)
        ensures
            r == peek(self.tokens@, self.next as int),
    {
        if self.next < self.tokens.len() {
            Some(self.tokens[self.next])
        } else {
            None
        }
    }

    fn peek_is(&self, kind: TokenKind) -> (r: bool)
        ensures
            r == peek_is(self.tokens@, self.next as int, kind),
    {
        self.next < self.tokens.len() && self.tokens[self.next].kind == kind
    }

    /// The span of the last token in the stream, empty if there is none.
    fn last_span(&self) -> (s: diag::Span)
        ensures
            s == spec_last_span(self.tokens@),
    {
        if self.tokens.len() > 0 {
            self.tokens[self.tokens.len() - 1].span
        } else {
            diag::Span { start: 0, end: 0 }
        }
    }
}

// ---------------------------------------------------------------------------
// What a failed parse reports.
// ---------------------------------------------------------------------------

/// Whether `e` is a syntax error: an unexpected token, or two operators
/// the precedence order does not relate.
pub open spec fn is_syntax_error(e: diag::Entry) -> bool {
    e.kind is UnexpectedToken || e.kind is AmbiguousPrecedence
}

proof fn lemma_expr_error(ts: Seq<Token>, pos: int, ambient: Option<Token>)
    ensures
        p_expr(ts, pos, ambient) matches Err(e) ==> is_syntax_error(e),
    decreases ts.len() - pos, 3int,
{
    if 0 <= pos <= ts.len() {
        lemma_operand_error(ts, pos, ambient);
        if let Ok((lhs, p1)) = p_operand(ts, pos, ambient) {
            if pos < p1 <= ts.len() {
                lemma_loop_error(ts, lhs, p1, enclosing(ambient));
            }
        }
    }
}

proof fn lemma_loop_error(ts: Seq<Token>, lhs: ExprV, pos: int, enc: Option<(Token, Group)>)
    ensures
        p_loop(ts, lhs, pos, enc) matches Err(e) ==> is_syntax_error(e),
    decreases ts.len() - pos, 0int,
{
    if 0 <= pos < ts.len() {
        let token = ts[pos];
        if let Some(op) = ast::spec_binary_op(token.kind) {
            lemma_expr_error(ts, pos + 1, Some(token));
            if let Ok((rhs, p2)) = p_expr(ts, pos + 1, Some(token)) {
                if pos < p2 <= ts.len() {
                    lemma_loop_error(ts, ExprV::Binary { lhs: Box::new(lhs), op: token, rhs: Box::new(rhs) }, p2, enc);
                }
            }
        }
    }
}

proof fn lemma_operand_error(ts: Seq<Token>, pos: int, ambient: Option<Token>)
    ensures
        p_operand(ts, pos, ambient) matches Err(e) ==> is_syntax_error(e),
    decreases ts.len() - pos, 2int,
{
    if 0 <= pos < ts.len() {
        let t = ts[pos];
        if t.kind == TokenKind::Bang {
            lemma_not_error(ts, pos, ambient);
        } else if t.kind == TokenKind::LParen {
            lemma_expr_error(ts, pos + 1, None);
        } else if t.kind == TokenKind::Ident && peek_is(ts, pos + 1, TokenKind::LParen) {
            lemma_args_error(ts, pos + 2, Seq::empty());
        }
    }
}

proof fn lemma_not_error(ts: Seq<Token>, pos: int, ambient: Option<Token>)
    ensures
        p_not(ts, pos, ambient) matches Err(e) ==> is_syntax_error(e),
    decreases ts.len() - pos, 1int,
{
    if 0 <= pos < ts.len() {
        lemma_expr_error(ts, pos + 1, Some(ts[pos]));
    }
}

proof fn lemma_args_error(ts: Seq<Token>, pos: int, acc: Seq<ArgV>)
    ensures
        p_args(ts, pos, acc) matches Err(e) ==> is_syntax_error(e),
    decreases ts.len() - pos, 4int,
{
    if 0 <= pos <= ts.len() {
        lemma_expr_error(ts, pos, None);
        if let Ok((e, p1)) = p_expr(ts, pos, None) {
            if pos < p1 <= ts.len() && peek_is(ts, p1, TokenKind::Comma) {
                lemma_args_error(ts, p1 + 1, acc.push(ArgV { expr: e, comma: Some(ts[p1]) }));
            }
        }
    }
}

proof fn lemma_stmt_error(ts: Seq<Token>, pos: int)
    ensures
        p_stmt(ts, pos) matches Err(e) ==> is_syntax_error(e),
{
    lemma_expr_error(ts, pos + 1, None);
    lemma_expr_error(ts, pos + 4, None);
}

proof fn lemma_body_error(ts: Seq<Token>, pos: int, acc: Seq<StmtV>)
    ensures
        p_body(ts, pos, acc) matches Err(e) ==> is_syntax_error(e),
    decreases ts.len() - pos,
{
    if !peek_is(ts, pos, TokenKind::RBrace) {
        lemma_stmt_error(ts, pos);
        if let Ok((s, p1)) = p_stmt(ts, pos) {
            if pos < p1 <= ts.len() {
                lemma_body_error(ts, p1, acc.push(s));
            }
        }
    }
}

proof fn lemma_params_error(ts: Seq<Token>, pos: int, acc: Seq<cst::Param>)
    ensures
        p_params(ts, pos, acc) matches Err(e) ==> is_syntax_error(e),
    decreases ts.len() - pos,
{
    if let Ok((name, p1)) = p_expect(ts, pos, TokenKind::Ident, "an identifier") {
        if let Ok((ty, p2)) = p_expect(ts, p1, TokenKind::Ident, "an identifier") {
            if peek_is(ts, p2, TokenKind::Comma) && pos < p2 + 1 <= ts.len() {
                lemma_params_error(ts, p2 + 1, acc.push(cst::Param { name, ty, comma: Some(ts[p2]) }));
            }
        }
    }
}

proof fn lemma_func_error(ts: Seq<Token>, pos: int)
    ensures
        p_func(ts, pos) matches Err(e) ==> is_syntax_error(e),
{
    if let Ok((func, p1)) = p_expect(ts, pos, TokenKind::Func, "`func`") {
        if let Ok((name, p2)) = p_expect(ts, p1, TokenKind::Ident, "an identifier") {
            if let Ok((lparen, p3)) = p_expect(ts, p2, TokenKind::LParen, "`(`") {
                lemma_params_error(ts, p3, Seq::empty());
                if let Ok(((params, rparen), p4)) = p_param_list(ts, p3) {
                    if let Ok((ret, p5)) = p_expect(ts, p4, TokenKind::Ident, "an identifier") {
                        if let Ok((lbrace, p6)) = p_expect(ts, p5, TokenKind::LBrace, "`{`") {
                            lemma_body_error(ts, p6, Seq::empty());
                        }
                    }
                }
            }
        }
    }
}

proof fn lemma_funcs_error(ts: Seq<Token>, pos: int, acc: Seq<FuncDeclV>)
    ensures
        p_funcs(ts, pos, acc) matches Err(e) ==> is_syntax_error(e),
    decreases ts.len() - pos,
{
    if !peek_is(ts, pos, TokenKind::Eof) {
        lemma_func_error(ts, pos);
        if let Ok((f, p1)) = p_func(ts, pos) {
            if pos < p1 <= ts.len() {
                lemma_funcs_error(ts, p1, acc.push(f));
            }
        }
    }
}

/// A parse that fails reports a syntax error: an unexpected token, or two
/// operators the precedence order does not relate.
pub proof fn parse_errors_are_syntax_errors(ts: Seq<Token>)
    ensures
        p_program(ts) matches Err(e) ==> is_syntax_error(e),
{
    lemma_funcs_error(ts, 0, Seq::empty());
}

// ---------------------------------------------------------------------------
// Building the AST from what the parser produces.
// ---------------------------------------------------------------------------

/// Whether `f`, the way building a node ends, is success or an integer
/// literal out of range: never a failure without a diagnostic.
pub open spec fn literal_failure(f: Option<ast::Failure>) -> bool {
    match f {
        Some(Some(en)) => en.kind is IntegerLiteralOutOfRange,
        Some(None) => false,
        None => true,
    }
}

proof fn lemma_args_literal(b: Seq<u8>, args: Seq<ArgV>, i: int)
    requires
        forall|k: int| 0 <= k < args.len() ==> literal_failure(ast::expr_failure(b, (#[trigger] args[k]).expr)),
    ensures
        literal_failure(ast::args_failure(b, args, i)),
    decreases args.len() - i,
{
    if 0 <= i < args.len() {
        assert(literal_failure(ast::expr_failure(b, args[i].expr)));
        lemma_args_literal(b, args, i + 1);
    }
}

proof fn lemma_body_literal(b: Seq<u8>, body: Seq<StmtV>, i: int)
    requires
        forall|k: int| 0 <= k < body.len() ==> literal_failure(ast::stmt_failure(b, #[trigger] body[k])),
    ensures
        literal_failure(ast::body_failure(b, body, i)),
    decreases body.len() - i,
{
    if 0 <= i < body.len() {
        assert(literal_failure(ast::stmt_failure(b, body[i])));
        lemma_body_literal(b, body, i + 1);
    }
}

proof fn lemma_funcs_literal(b: Seq<u8>, funcs: Seq<FuncDeclV>, i: int)
    requires
        forall|k: int| 0 <= k < funcs.len() ==> literal_failure(ast::body_failure(b, (#[trigger] funcs[k]).body, 0)),
    ensures
        literal_failure(ast::funcs_failure(b, funcs, i)),
    decreases funcs.len() - i,
{
    if 0 <= i < funcs.len() {
        assert(literal_failure(ast::body_failure(b, funcs[i].body, 0)));
        lemma_funcs_literal(b, funcs, i + 1);
    }
}

proof fn lemma_expr_literal(b: Seq<u8>, ts: Seq<Token>, pos: int, ambient: Option<Token>)
    ensures
        p_expr(ts, pos, ambient) matches Ok((v, _)) ==> literal_failure(ast::expr_failure(b, v)),
    decreases ts.len() - pos, 3int,
{
    if 0 <= pos <= ts.len() {
        lemma_operand_literal(b, ts, pos, ambient);
        if let Ok((lhs, p1)) = p_operand(ts, pos, ambient) {
            if pos < p1 <= ts.len() {
                lemma_loop_literal(b, ts, lhs, p1, enclosing(ambient));
            }
        }
    }
}

proof fn lemma_loop_literal(b: Seq<u8>, ts: Seq<Token>, lhs: ExprV, pos: int, enc: Option<(Token, Group)>)
    requires
        literal_failure(ast::expr_failure(b, lhs)),
    ensures
        p_loop(ts, lhs, pos, enc) matches Ok((v, _)) ==> literal_failure(ast::expr_failure(b, v)),
    decreases ts.len() - pos, 0int,
{
    if 0 <= pos < ts.len() {
        let token = ts[pos];
        if let Some(op) = ast::spec_binary_op(token.kind) {
            lemma_expr_literal(b, ts, pos + 1, Some(token));
            if let Ok((rhs, p2)) = p_expr(ts, pos + 1, Some(token)) {
                if pos < p2 <= ts.len() {
                    let node = ExprV::Binary { lhs: Box::new(lhs), op: token, rhs: Box::new(rhs) };
                    assert(literal_failure(ast::expr_failure(b, node)));
                    lemma_loop_literal(b, ts, node, p2, enc);
                }
            }
        }
    }
}

proof fn lemma_operand_literal(b: Seq<u8>, ts: Seq<Token>, pos: int, ambient: Option<Token>)
    ensures
        p_operand(ts, pos, ambient) matches Ok((v, _)) ==> literal_failure(ast::expr_failure(b, v)),
    decreases ts.len() - pos, 2int,
{
    if 0 <= pos < ts.len() {
        let t = ts[pos];
        if t.kind == TokenKind::Bang {
            lemma_not_literal(b, ts, pos, ambient);
        } else if t.kind == TokenKind::LParen {
            lemma_expr_literal(b, ts, pos + 1, None);
        } else if t.kind == TokenKind::Ident && peek_is(ts, pos + 1, TokenKind::LParen) {
            if peek_is(ts, pos + 2, TokenKind::RParen) {
                lemma_args_literal(b, Seq::empty(), 0);
            } else {
                lemma_args_literal_parsed(b, ts, pos + 2, Seq::empty());
                if let Ok(((args, rparen), p1)) = p_args(ts, pos + 2, Seq::empty()) {
                    lemma_args_literal(b, args, 0);
                }
            }
        }
    }
}

proof fn lemma_not_literal(b: Seq<u8>, ts: Seq<Token>, pos: int, ambient: Option<Token>)
    requires
        0 <= pos < ts.len(),
        ts[pos].kind == TokenKind::Bang,
    ensures
        p_not(ts, pos, ambient) matches Ok((v, _)) ==> literal_failure(ast::expr_failure(b, v)),
    decreases ts.len() - pos, 1int,
{
    lemma_expr_literal(b, ts, pos + 1, Some(ts[pos]));
    assert(ast::spec_unary_op(TokenKind::Bang) is Some);
}

proof fn lemma_args_literal_parsed(b: Seq<u8>, ts: Seq<Token>, pos: int, acc: Seq<ArgV>)
    requires
        forall|k: int| 0 <= k < acc.len() ==> literal_failure(ast::expr_failure(b, (#[trigger] acc[k]).expr)),
    ensures
        p_args(ts, pos, acc) matches Ok(((args, _), _)) ==> forall|k: int|
            0 <= k < args.len() ==> literal_failure(ast::expr_failure(b, (#[trigger] args[k]).expr)),
    decreases ts.len() - pos, 4int,
{
    if 0 <= pos <= ts.len() {
        lemma_expr_literal(b, ts, pos, None);
        if let Ok((e, p1)) = p_expr(ts, pos, None) {
            if pos < p1 <= ts.len() {
                if peek_is(ts, p1, TokenKind::Comma) {
                    let more = acc.push(ArgV { expr: e, comma: Some(ts[p1]) });
                    assert forall|k: int| 0 <= k < more.len() implies literal_failure(
                        ast::expr_failure(b, (#[trigger] more[k]).expr),
                    ) by {
                        if k < acc.len() {
                            assert(more[k] == acc[k]);
                        }
                    }
                    lemma_args_literal_parsed(b, ts, p1 + 1, more);
                } else {
                    let more = acc.push(ArgV { expr: e, comma: None });
                    assert forall|k: int| 0 <= k < more.len() implies literal_failure(
                        ast::expr_failure(b, (#[trigger] more[k]).expr),
                    ) by {
                        if k < acc.len() {
                            assert(more[k] == acc[k]);
                        }
                    }
                }
            }
        }
    }
}

proof fn lemma_stmt_literal(b: Seq<u8>, ts: Seq<Token>, pos: int)
    ensures
        p_stmt(ts, pos) matches Ok((s, _)) ==> literal_failure(ast::stmt_failure(b, s)),
{
    lemma_expr_literal(b, ts, pos + 1, None);
    lemma_expr_literal(b, ts, pos + 4, None);
}

proof fn lemma_body_literal_parsed(b: Seq<u8>, ts: Seq<Token>, pos: int, acc: Seq<StmtV>)
    requires
        forall|k: int| 0 <= k < acc.len() ==> literal_failure(ast::stmt_failure(b, #[trigger] acc[k])),
    ensures
        p_body(ts, pos, acc) matches Ok((body, _)) ==> forall|k: int|
            0 <= k < body.len() ==> literal_failure(ast::stmt_failure(b, #[trigger] body[k])),
    decreases ts.len() - pos,
{
    if !peek_is(ts, pos, TokenKind::RBrace) {
        lemma_stmt_literal(b, ts, pos);
        if let Ok((s, p1)) = p_stmt(ts, pos) {
            if pos < p1 <= ts.len() {
                let more = acc.push(s);
                assert forall|k: int| 0 <= k < more.len() implies literal_failure(
                    ast::stmt_failure(b, #[trigger] more[k]),
                ) by {
                    if k < acc.len() {
                        assert(more[k] == acc[k]);
                    }
                }
                lemma_body_literal_parsed(b, ts, p1, more);
            }
        }
    }
}

proof fn lemma_func_literal(b: Seq<u8>, ts: Seq<Token>, pos: int)
    ensures
        p_func(ts, pos) matches Ok((f, _)) ==> literal_failure(ast::body_failure(b, f.body, 0)),
{
    if let Ok((func, p1)) = p_expect(ts, pos, TokenKind::Func, "`func`") {
        if let Ok((name, p2)) = p_expect(ts, p1, TokenKind::Ident, "an identifier") {
            if let Ok((lparen, p3)) = p_expect(ts, p2, TokenKind::LParen, "`(`") {
                if let Ok(((params, rparen), p4)) = p_param_list(ts, p3) {
                    if let Ok((ret, p5)) = p_expect(ts, p4, TokenKind::Ident, "an identifier") {
                        if let Ok((lbrace, p6)) = p_expect(ts, p5, TokenKind::LBrace, "`{`") {
                            lemma_body_literal_parsed(b, ts, p6, Seq::empty());
                            if let Ok((body, p7)) = p_body(ts, p6, Seq::empty()) {
                                lemma_body_literal(b, body, 0);
                            }
                        }
                    }
                }
            }
        }
    }
}

proof fn lemma_funcs_literal_parsed(b: Seq<u8>, ts: Seq<Token>, pos: int, acc: Seq<FuncDeclV>)
    requires
        forall|k: int| 0 <= k < acc.len() ==> literal_failure(ast::body_failure(b, (#[trigger] acc[k]).body, 0)),
    ensures
        p_funcs(ts, pos, acc) matches Ok((funcs, _)) ==> forall|k: int|
            0 <= k < funcs.len() ==> literal_failure(ast::body_failure(b, (#[trigger] funcs[k]).body, 0)),
    decreases ts.len() - pos,
{
    if !peek_is(ts, pos, TokenKind::Eof) {
        lemma_func_literal(b, ts, pos);
        if let Ok((f, p1)) = p_func(ts, pos) {
            if pos < p1 <= ts.len() {
                let more = acc.push(f);
                assert forall|k: int| 0 <= k < more.len() implies literal_failure(
                    ast::body_failure(b, (#[trigger] more[k]).body, 0),
                ) by {
                    if k < acc.len() {
                        assert(more[k] == acc[k]);
                    }
                }
                lemma_funcs_literal_parsed(b, ts, p1, more);
            }
        }
    }
}

/// Building the AST from what the parser produces fails only on an integer
/// literal out of range, and then with that diagnostic: never silently,
/// whatever source text `b` the tokens are read against.
pub proof fn parsed_trees_fail_only_on_literals(b: Seq<u8>, ts: Seq<Token>)
    ensures
        p_program(ts) matches Ok((v, _)) ==> literal_failure(ast::funcs_failure(b, v.funcs, 0)),
{
    lemma_funcs_literal_parsed(b, ts, 0, Seq::empty());
    if let Ok((funcs, p1)) = p_funcs(ts, 0, Seq::empty()) {
        lemma_funcs_literal(b, funcs, 0);
    }
}

// ---------------------------------------------------------------------------
// A token is named by what it spells.
// ---------------------------------------------------------------------------

/// The characters of the ASCII bytes `bytes`.
pub open spec fn ascii_chars(bytes: Seq<u8>) -> Seq<char> {
    Seq::new(bytes.len(), |k: int| bytes[k] as char)
}

/// A token that is neither a name nor a literal is named in a diagnostic
/// by the text the lexer matched for it, in backquotes: a keyword by its
/// word, an operator or a punctuation mark by its characters.
pub proof fn a_token_is_named_by_what_it_spells(b: Seq<u8>, i: int)
    requires
        0 <= i < b.len(),
    ensures
        match crate::lexer::step(b, i) {
            crate::lexer::Step::Tok(kind, j) => kind != TokenKind::Ident && kind != TokenKind::IntLit ==> spec_describe(
                kind,
            )@ == seq!['`'] + ascii_chars(b.subrange(i, j)) + seq!['`'],
            _ => true,
        },
{
    reveal_strlit("`func`");
    reveal_strlit("`return`");
    reveal_strlit("`var`");
    reveal_strlit("`true`");
    reveal_strlit("`false`");
    reveal_strlit("`(`");
    reveal_strlit("`)`");
    reveal_strlit("`{`");
    reveal_strlit("`}`");
    reveal_strlit("`,`");
    reveal_strlit("`+`");
    reveal_strlit("`-`");
    reveal_strlit("`*`");
    reveal_strlit("`/`");
    reveal_strlit("`%`");
    reveal_strlit("`=`");
    reveal_strlit("`==`");
    reveal_strlit("`!=`");
    reveal_strlit("`<`");
    reveal_strlit("`<=`");
    reveal_strlit("`>`");
    reveal_strlit("`>=`");
    reveal_strlit("`!`");
    reveal_strlit("`&&`");
    reveal_strlit("`||`");
    if let crate::lexer::Step::Tok(kind, j) = crate::lexer::step(b, i) {
        if kind != TokenKind::Ident && kind != TokenKind::IntLit {
            let t = ascii_chars(b.subrange(i, j));
            if crate::lexer::is_ident_start(b[i]) {
                let w = b.subrange(i, j);
                assert(t =~= Seq::new(w.len(), |k: int| w[k] as char));
            } else if j == i + 1 {
                assert(t =~= seq![b[i] as char]);
            } else {
                assert(j == i + 2);
                assert(t =~= seq![b[i] as char, b[i + 1] as char]);
            }
            assert(spec_describe(kind)@ =~= seq!['`'] + t + seq!['`']);
        }
    }
}

} // verus!
