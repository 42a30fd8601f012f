//! A compiler targeting the Algorand Virtual Machine (AVM): a small,
//! statically typed, heap-free language compiled to TEAL.
//!
//! The stages run in order: `lexer` (source to tokens, keeping every byte),
//! `parser` (tokens to a concrete tree, keeping every token), `ast` (the
//! tree to an AST), `typeck` (the AST to a typed AST), `lower` (the typed
//! AST to IR that `ir::verify` accepts) and `emit` (IR to TEAL text);
//! `driver` chains them and renders diagnostics, and `formatter` prints a
//! source file in its canonical form. Each stage's result is stated by spec
//! functions over the stage's input, and the laws that span stages are
//! proof functions beside them.

pub mod ast;
pub mod diag;
pub mod diagnostics;
pub mod lexer;
pub mod text;
pub mod typed_ast;
pub mod token;
pub mod precedence;
pub mod cst;
pub mod parser;
pub mod ir;
pub mod typeck;
pub mod lower;
pub mod graph;
pub mod emit;
pub mod driver;
pub mod formatter;
