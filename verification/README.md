# avmc

A compiler targeting the Algorand Virtual Machine (AVM). It compiles a
small, statically typed, heap-free language to TEAL, and formats source
files in a canonical form.

The library under `src/` is written in Verus: each stage states what it
produces as spec functions over its input, and Verus proves the code
against those statements. Among the properties proved:

- lexing keeps every byte of the source (`lexer::lexing_is_lossless`), and
  the concrete tree keeps every token (`parser::parsing_is_lossless`,
  `parser::the_tree_is_lossless`);
- the operator precedence table is antisymmetric, its ambiguities are
  symmetric, and nothing binds tighter than the operand of `!`
  (`precedence`);
- no two diagnostic kinds share a code (`diag::no_two_kinds_share_a_code`);
- a failed parse reports a syntax error
  (`parser::parse_errors_are_syntax_errors`), and building the AST from
  what the parser produces fails only on an integer literal out of range
  (`parser::parsed_trees_fail_only_on_literals`);
- the type checker produces a program exactly when it reports nothing
  (`typeck::checks_exactly_when_nothing_is_reported`), and only
  well-typed programs (`typeck::checked_programs_are_well_typed`);
- lowering a well-typed program yields IR that the IR verifier accepts
  (`lower::lowered_programs_verify`), and the verifier accepts exactly the
  functions that meet the IR invariant stated over the whole function
  (`ir::verify_accepts_exactly_the_invariant`);
- formatting keeps every token's text and every comment, in source order,
  and changes nothing but layout: the formatted text is those pieces with
  only spaces, tabs and newlines around them
  (`formatter::formatting_keeps_tokens_and_comments_in_order`, also in
  `format`'s contract).

The syntax tree has no `if` statement, block or `else`: the lexer has no
`if` keyword and no stage parses, checks, lowers or emits one, so the
concrete tree keeps only the declarations, statements and expressions
that the stages produce.

Layout:

- `src/`: the library, one module per stage (`lexer`, `parser`, `cst`,
  `ast`, `typeck`, `typed_ast`, `lower`, `ir`, `emit`, `driver`,
  `formatter`) and the shared `diag` and `text` helpers;
- `tests/`: tests against the library's public interface;
- `app/`: the command line program. Run as `avmc <file>` it prints the
  TEAL for a file; run under the name `formatter` it prints the file
  formatted. Diagnostics go to stderr; the exit code is 0 on success, 1
  for a file that does not compile (or, for the formatter, does not lex or
  parse), and 2 for a usage, read or write failure.
