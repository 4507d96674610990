//! The front end of a small scripting language: a scanner, a parser that
//! builds a syntax tree, and an evaluator of the tree.
//!
//! - [`token`] and [`lexer`]: the tokens, and the scanner that turns a
//!   source text into them. A line break after a token that may end a
//!   statement stands for a semicolon.
//! - [`ast`]: the syntax tree, and the stretch of the source that each of
//!   its nodes takes.
//! - [`grammar`] and [`parser`]: what the parser reads, as a function of
//!   the tokens, and the parser, which computes it. The parser never
//!   stops at an error: it records it and goes on.
//! - [`syntax`], [`recovery`], [`acceptance`], [`roundtrip`] and
//!   [`grouping`]: the grammar as a set of trees, and what is proved of
//!   the parser against it.
//! - [`semantics`] and [`interpreter`]: what a tree evaluates to, and the
//!   evaluator. It works out the operations that a program performs and
//!   leaves the floating-point arithmetic to whoever runs them.

pub mod acceptance;
pub mod ast;
pub mod grammar;
pub mod grouping;
pub mod interpreter;
pub mod lexer;
pub mod parser;
pub mod recovery;
pub mod roundtrip;
pub mod semantics;
pub mod syntax;
pub mod token;
