//! A small scripting language: a lexer and a parser for its source text, and an
//! evaluator that walks the syntax tree against an environment of named values.
//!
//! [`eval::eval`] is the evaluator. What it does is stated by the relation
//! [`semantics::evaluates`] over the mathematical values of nodes and environments;
//! [`laws`] and [`determinism`] hold what follows from it. The embedding program
//! supplies native functions, modules and decimal arithmetic through [`host::Host`].

pub mod ast;
pub mod determinism;
pub mod environment;
pub mod eval;
pub mod host;
pub mod laws;
pub mod lexer;
pub mod messages;
pub mod parser;
pub mod render;
pub mod semantics;
pub mod text;
pub mod values;
