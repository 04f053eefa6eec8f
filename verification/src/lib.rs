//! A verified interpreter for a small line-oriented language.
//!
//! A program is a sequence of statements, each `<source> <op>* ;`:
//! a source value (integer, float, single-quoted letter, double-quoted
//! string, or `$name` variable reference) flows through a chain of unary
//! operators (`+`, `-`, `STDOUT`, `$name` binding, `{N}` repeat blocks)
//! and the statement ends with a semicolon.
//!
//! The pipeline has three verified stages: lexical analysis
//! ([`lex`]), recursive-descent parsing into a syntax tree ([`parser`],
//! [`tree`]), and tree-walking execution ([`interpret`]). Execution is
//! pure: the output lines are returned, not printed.

pub mod chars;
pub mod interpret;
pub mod laws;
pub mod lex;
pub mod matcher;
pub mod numeral;
pub mod parser;
pub mod session;
pub mod strutil;
pub mod tokens;
pub mod tree;
pub mod value;
