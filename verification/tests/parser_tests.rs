//! Tests for parsing source into the AST: the parser, then building the
//! AST from the tree it produces.

use avmc::ast;
use avmc::diag;
use avmc::lexer;
use avmc::parser::OPERAND;

/// Parses the tokens of `source` and builds its AST, as one stage.
fn parse(source: &str, tokens: &[lexer::Token], diags: &mut diag::Sink) -> Option<ast::Program> {
    let tree = avmc::parser::parse(tokens, diags)?;
    ast::from_cst(source, &tree, diags)
}

/// The span of the `nth` occurrence of `text` in `source`, counting from 0.
fn span_of(source: &str, text: &str, nth: usize) -> diag::Span {
    let start = source
        .match_indices(text)
        .nth(nth)
        .expect("text in source")
        .0;
    diag::Span {
        start,
        end: start + text.len(),
    }
}

/// Returns a closure giving the span of the next occurrence of its argument,
/// so expected spans are written in source order.
fn spans(source: &str) -> impl FnMut(&str) -> diag::Span + '_ {
    let mut offset = 0;
    move |text| {
        let start = source[offset..].find(text).expect("text in source") + offset;
        offset = start + text.len();
        diag::Span { start, end: offset }
    }
}

fn name(text: &str, span: diag::Span) -> ast::Name {
    ast::Name {
        text: text.to_string(),
        span,
    }
}


/// Lexes and parses `source`, asserting that it produced no diagnostics.
fn parse_ok(source: &str) -> ast::Program {
    let mut diags = diag::Sink::default();
    let tokens = lexer::lex(source, &mut diags).expect("lexing succeeded");
    let program = parse(source, &tokens, &mut diags);
    assert!(diags.is_empty());
    program.expect("parsing succeeded")
}

/// Lexes and parses `source`, asserting that it reported exactly one
/// diagnostic and produced nothing.
fn parse_err(source: &str) -> diag::Entry {
    let mut diags = diag::Sink::default();
    let tokens = lexer::lex(source, &mut diags).expect("lexing succeeded");
    assert_eq!(parse(source, &tokens, &mut diags), None);
    let mut reported = diags.iter();
    let diagnostic = reported.next().expect("one diagnostic").clone();
    assert!(reported.next().is_none());
    diagnostic
}


/// The example program of the variables milestone.
const VARIABLES: &str = "func approval() uint64 {\n  var x uint64 = 1 + 2\n  \
                         var y uint64 = x * 3\n  return y - x\n}\n";

/// The variable `text`, written at `span`.
fn var(text: &str, span: diag::Span) -> ast::Expr {
    ast::Expr::Var {
        name: name(text, span),
        span,
    }
}

/// `op operand`, the operator being the byte just before the operand.
fn unary(op: ast::UnOp, operand: ast::Expr) -> ast::Expr {
    let span = diag::Span {
        start: operand.span().start - 1,
        end: operand.span().end,
    };
    ast::Expr::Unary {
        op,
        operand: Box::new(operand),
        span,
    }
}

/// `lhs op rhs`, spanning from one operand to the other.
fn binary(op: ast::BinOp, lhs: ast::Expr, rhs: ast::Expr) -> ast::Expr {
    let span = diag::Span {
        start: lhs.span().start,
        end: rhs.span().end,
    };
    ast::Expr::Binary {
        op,
        lhs: Box::new(lhs),
        rhs: Box::new(rhs),
        span,
    }
}












/// The expression of the one `return` in `source`.
fn returned(source: &str) -> ast::Expr {
    let program = parse_ok(source);
    let funcs = program.funcs;
    assert_eq!(funcs.len(), 1);
    let mut body = funcs.into_iter().flat_map(|func| func.body);
    let Some(ast::Stmt::Return { expr, .. }) = body.next() else {
        panic!("one return statement")
    };
    assert!(body.next().is_none());
    expr
}

/// `func approval() uint64 { return <expr> }`.
fn wrap(expr: &str) -> String {
    format!("func approval() uint64 {{ return {expr} }}")
}

#[test]
fn parses_the_approval_program() {
    let source = "func approval() uint64 {\n  return 1\n}\n";
    let mut span = spans(source);

    let start = span("func").start;
    let func_name = name("approval", span("approval"));
    let ret = ast::TypeRef {
        name: name("uint64", span("uint64")),
    };
    let return_start = span("return").start;
    let literal = span("1");
    let end = span("}").end;

    assert_eq!(
        parse_ok(source),
        ast::Program {
            funcs: vec![ast::FuncDecl {
                name: func_name,
                params: vec![],
                ret,
                body: vec![ast::Stmt::Return {
                    expr: ast::Expr::IntLit {
                        value: 1,
                        span: literal
                    },
                    span: diag::Span {
                        start: return_start,
                        end: literal.end
                    },
                }],
                span: diag::Span { start, end },
            }]
        }
    );
}

#[test]
fn parses_the_variables_program() {
    let source = VARIABLES;
    let mut span = spans(source);

    let start = span("func").start;
    let func_name = name("approval", span("approval"));
    span("(");
    span(")");
    let ret = ast::TypeRef {
        name: name("uint64", span("uint64")),
    };
    span("{");

    let first_var = span("var").start;
    let x = name("x", span("x"));
    let x_ty = ast::TypeRef {
        name: name("uint64", span("uint64")),
    };
    span("=");
    let one = span("1");
    let two = span("2");

    let second_var = span("var").start;
    let y = name("y", span("y"));
    let y_ty = ast::TypeRef {
        name: name("uint64", span("uint64")),
    };
    span("=");
    let x_times = span("x");
    let three = span("3");

    let return_start = span("return").start;
    let y_minus = span("y");
    let x_minus = span("x");
    let end = span("}").end;

    let int = |value, span| ast::Expr::IntLit { value, span };
    let var = |text: &str, span| ast::Expr::Var {
        name: name(text, span),
        span,
    };

    assert_eq!(
        parse_ok(source),
        ast::Program {
            funcs: vec![ast::FuncDecl {
                name: func_name,
                params: vec![],
                ret,
                body: vec![
                    ast::Stmt::Var {
                        name: x,
                        ty: x_ty,
                        init: binary(ast::BinOp::Add, int(1, one), int(2, two)),
                        span: diag::Span {
                            start: first_var,
                            end: two.end
                        },
                    },
                    ast::Stmt::Var {
                        name: y,
                        ty: y_ty,
                        init: binary(ast::BinOp::Mul, var("x", x_times), int(3, three)),
                        span: diag::Span {
                            start: second_var,
                            end: three.end
                        },
                    },
                    ast::Stmt::Return {
                        expr: binary(ast::BinOp::Sub, var("y", y_minus), var("x", x_minus)),
                        span: diag::Span {
                            start: return_start,
                            end: x_minus.end
                        },
                    },
                ],
                span: diag::Span { start, end },
            }]
        }
    );
}

#[test]
fn a_variable_is_an_operand() {
    let source = wrap("x + 1");
    let mut span = spans(&source);
    span("(");
    span(")");
    let x = span("x");
    let one = span("1");

    assert_eq!(
        returned(&source),
        binary(
            ast::BinOp::Add,
            ast::Expr::Var {
                name: name("x", x),
                span: x
            },
            ast::Expr::IntLit {
                value: 1,
                span: one
            },
        )
    );
}

#[test]
fn a_declaration_without_a_type_is_reported() {
    let source = "func f() uint64 { var x = 1 }";
    let mut span = spans(source);
    assert_eq!(
        parse_err(source),
        diag::Entry {
            kind: diag::Kind::UnexpectedToken {
                expected: "an identifier",
                found: "`=`",
            },
            span: span("="),
        }
    );
}

#[test]
fn a_declaration_without_an_equals_is_reported() {
    let source = "func f() uint64 { var x uint64 1 }";
    let mut span = spans(source);
    assert_eq!(
        parse_err(source),
        diag::Entry {
            kind: diag::Kind::UnexpectedToken {
                expected: "`=`",
                found: "an integer literal",
            },
            span: span("1"),
        }
    );
}

#[test]
fn a_declaration_without_an_initializer_is_reported() {
    let source = "func f() uint64 { var x uint64 = }";
    let mut span = spans(source);
    span("{");
    assert_eq!(
        parse_err(source),
        diag::Entry {
            kind: diag::Kind::UnexpectedToken {
                expected: OPERAND,
                found: "`}`",
            },
            span: span("}"),
        }
    );
}

#[test]
fn a_statement_must_start_with_var_or_return() {
    let source = "func f() uint64 { 1 }";
    let mut span = spans(source);
    assert_eq!(
        parse_err(source),
        diag::Entry {
            kind: diag::Kind::UnexpectedToken {
                expected: "`var`, `return` or `}`",
                found: "an integer literal",
            },
            span: span("1"),
        }
    );
}

#[test]
fn parser_empty_input_produces_no_functions() {
    assert_eq!(parse_ok(""), ast::Program { funcs: Vec::new() });
}

#[test]
fn parses_two_functions() {
    let source = "func a() uint64 { return 1 }\nfunc b() uint64 { return 2 }";
    let program = parse_ok(source);

    let names: Vec<&str> = program
        .funcs
        .iter()
        .map(|func| func.name.text.as_str())
        .collect();
    assert_eq!(names, vec!["a", "b"]);
    assert_eq!(
        program.funcs[0].span,
        diag::Span { start: 0, end: 28 }
    );
    assert_eq!(
        program.funcs[1].span,
        diag::Span {
            start: 29,
            end: source.len()
        }
    );
}

#[test]
fn a_body_may_be_empty() {
    let source = "func f() uint64 {}";
    let mut span = spans(source);

    let start = span("func").start;
    let func_name = name("f", span("f"));
    let ret = ast::TypeRef {
        name: name("uint64", span("uint64")),
    };
    let end = span("}").end;

    assert_eq!(
        parse_ok(source),
        ast::Program {
            funcs: vec![ast::FuncDecl {
                name: func_name,
                params: vec![],
                ret,
                body: Vec::new(),
                span: diag::Span { start, end },
            }]
        }
    );
}

#[test]
fn an_operator_is_not_an_operand() {
    let source = wrap("+ 1");
    let mut span = spans(&source);
    assert_eq!(
        parse_err(&source),
        diag::Entry {
            kind: diag::Kind::UnexpectedToken {
                expected: OPERAND,
                found: "`+`",
            },
            span: span("+"),
        }
    );
}

#[test]
fn a_comparison_operator_is_not_an_operand() {
    let source = "func f() uint64 { return == 1 }";
    let mut span = spans(source);
    assert_eq!(
        parse_err(source),
        diag::Entry {
            kind: diag::Kind::UnexpectedToken {
                expected: OPERAND,
                found: "`==`",
            },
            span: span("=="),
        }
    );
}

#[test]
fn a_bang_needs_an_operand() {
    let source = "func f() uint64 { return ! }";
    let mut span = spans(source);
    span("{");
    assert_eq!(
        parse_err(source),
        diag::Entry {
            kind: diag::Kind::UnexpectedToken {
                expected: OPERAND,
                found: "`}`",
            },
            span: span("}"),
        }
    );
}

#[test]
fn a_logical_operator_is_not_an_operand() {
    let source = "func f() uint64 { return && true }";
    let mut span = spans(source);
    assert_eq!(
        parse_err(source),
        diag::Entry {
            kind: diag::Kind::UnexpectedToken {
                expected: OPERAND,
                found: "`&&`",
            },
            span: span("&&"),
        }
    );
}

#[test]
fn an_empty_operand_is_reported() {
    let source = wrap("()");
    let mut span = spans(&source);
    span("(");
    span(")");
    assert_eq!(
        parse_err(&source),
        diag::Entry {
            kind: diag::Kind::UnexpectedToken {
                expected: OPERAND,
                found: "`)`",
            },
            span: span(")"),
        }
    );
}

#[test]
fn parses_a_boolean_literal() {
    let source = "func f() bool { return true }";
    let literal = span_of(source, "true", 0);

    assert_eq!(
        parse_ok(source).funcs[0].body,
        vec![ast::Stmt::Return {
            expr: ast::Expr::BoolLit {
                value: true,
                span: literal,
            },
            span: span_of(source, "return true", 0),
        }]
    );
}

#[test]
fn a_boolean_literal_is_an_operand_of_arithmetic() {
    let source = wrap("true + 1");
    let mut span = spans(&source);
    span("(");
    span(")");
    let literal = span("true");
    span("+");
    let one = span("1");

    // The parser does not type: this is the type checker's to reject.
    assert_eq!(
        returned(&source),
        ast::Expr::Binary {
            op: ast::BinOp::Add,
            lhs: Box::new(ast::Expr::BoolLit {
                value: true,
                span: literal,
            }),
            rhs: Box::new(ast::Expr::IntLit {
                value: 1,
                span: one
            }),
            span: diag::Span {
                start: literal.start,
                end: one.end,
            },
        }
    );
}

#[test]
fn a_missing_operand_names_every_literal() {
    let source = "func f() uint64 { return }";
    let mut span = spans(source);
    span("{");

    assert_eq!(
        parse_err(source),
        diag::Entry {
            kind: diag::Kind::UnexpectedToken {
                expected: OPERAND,
                found: "`}`",
            },
            span: span("}"),
        }
    );
}

#[test]
fn multiplication_binds_tighter_than_addition() {
    let source = wrap("1 + 2 * 3");
    let mut span = spans(&source);
    span("(");
    span(")");
    let one = span("1");
    span("+");
    let two = span("2");
    span("*");
    let three = span("3");

    assert_eq!(
        returned(&source),
        ast::Expr::Binary {
            op: ast::BinOp::Add,
            lhs: Box::new(ast::Expr::IntLit {
                value: 1,
                span: one
            }),
            rhs: Box::new(ast::Expr::Binary {
                op: ast::BinOp::Mul,
                lhs: Box::new(ast::Expr::IntLit {
                    value: 2,
                    span: two
                }),
                rhs: Box::new(ast::Expr::IntLit {
                    value: 3,
                    span: three
                }),
                span: diag::Span {
                    start: two.start,
                    end: three.end
                },
            }),
            span: diag::Span {
                start: one.start,
                end: three.end
            },
        }
    );
}

#[test]
fn a_product_is_the_left_operand_of_a_sum() {
    let source = wrap("1 * 2 + 3");
    let mut span = spans(&source);
    span("(");
    span(")");
    let one = span("1");
    span("*");
    let two = span("2");
    span("+");
    let three = span("3");

    assert_eq!(
        returned(&source),
        ast::Expr::Binary {
            op: ast::BinOp::Add,
            lhs: Box::new(ast::Expr::Binary {
                op: ast::BinOp::Mul,
                lhs: Box::new(ast::Expr::IntLit {
                    value: 1,
                    span: one
                }),
                rhs: Box::new(ast::Expr::IntLit {
                    value: 2,
                    span: two
                }),
                span: diag::Span {
                    start: one.start,
                    end: two.end
                },
            }),
            rhs: Box::new(ast::Expr::IntLit {
                value: 3,
                span: three
            }),
            span: diag::Span {
                start: one.start,
                end: three.end
            },
        }
    );
}

#[test]
fn a_group_is_left_associative() {
    for (source, op) in [
        (wrap("1 - 2 - 3"), ast::BinOp::Sub),
        (wrap("1 / 2 / 3"), ast::BinOp::Div),
    ] {
        let mut span = spans(&source);
        span("(");
        span(")");
        let one = span("1");
        let two = span("2");
        let three = span("3");

        assert_eq!(
            returned(&source),
            ast::Expr::Binary {
                op,
                lhs: Box::new(ast::Expr::Binary {
                    op,
                    lhs: Box::new(ast::Expr::IntLit {
                        value: 1,
                        span: one
                    }),
                    rhs: Box::new(ast::Expr::IntLit {
                        value: 2,
                        span: two
                    }),
                    span: diag::Span {
                        start: one.start,
                        end: two.end
                    },
                }),
                rhs: Box::new(ast::Expr::IntLit {
                    value: 3,
                    span: three
                }),
                span: diag::Span {
                    start: one.start,
                    end: three.end
                },
            },
            "{source}"
        );
    }
}

#[test]
fn a_longer_expression_groups_by_precedence() {
    let source = wrap("1 + 2 * 3 - 4 / 5");
    let mut span = spans(&source);
    span("(");
    span(")");
    let one = span("1");
    let two = span("2");
    let three = span("3");
    let four = span("4");
    let five = span("5");

    let product = ast::Expr::Binary {
        op: ast::BinOp::Mul,
        lhs: Box::new(ast::Expr::IntLit {
            value: 2,
            span: two,
        }),
        rhs: Box::new(ast::Expr::IntLit {
            value: 3,
            span: three,
        }),
        span: diag::Span {
            start: two.start,
            end: three.end,
        },
    };
    let sum = ast::Expr::Binary {
        op: ast::BinOp::Add,
        lhs: Box::new(ast::Expr::IntLit {
            value: 1,
            span: one,
        }),
        rhs: Box::new(product),
        span: diag::Span {
            start: one.start,
            end: three.end,
        },
    };
    let quotient = ast::Expr::Binary {
        op: ast::BinOp::Div,
        lhs: Box::new(ast::Expr::IntLit {
            value: 4,
            span: four,
        }),
        rhs: Box::new(ast::Expr::IntLit {
            value: 5,
            span: five,
        }),
        span: diag::Span {
            start: four.start,
            end: five.end,
        },
    };

    assert_eq!(
        returned(&source),
        ast::Expr::Binary {
            op: ast::BinOp::Sub,
            lhs: Box::new(sum),
            rhs: Box::new(quotient),
            span: diag::Span {
                start: one.start,
                end: five.end
            },
        }
    );
}
