//! A small expression language: a lexer, a precedence-climbing parser and a
//! tree-walking evaluator over a scope of named values.
//!
//! The language knows numbers and booleans. A number is a 64-bit IEEE-754
//! value, and this crate carries it as its bit pattern in a `u64`: no function
//! here looks inside a number. The three operations that do (reading a literal,
//! arithmetic, printing) are handed in by the caller as functions, and every
//! contract says how the result depends on what they return.
pub mod evaluator;
pub mod lexer;
pub mod parser;
pub mod syntax_tree;
pub mod token;
