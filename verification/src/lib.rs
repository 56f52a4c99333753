//! A parser-combinator library that parses a regular-expression pattern
//! string into an abstract syntax tree.
//!
//! The library has three layers: a small combinator engine ([`combinators`]),
//! the AST node types ([`ast`]), and the recursive-descent grammar rules that
//! recognize the regex syntax and build the tree ([`parsers`]). The general
//! properties of the engine (backtracking, repetition bounds, failure without
//! consumption) are stated and proved in [`laws`].

pub mod ast;
pub mod combinators;
pub mod laws;
pub mod parsers;
