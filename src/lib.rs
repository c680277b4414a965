//! A front end and tree-walking runtime for a small dynamically typed
//! expression language: a lexer, a Pratt parser with error recovery, and an
//! evaluator with closures and value-level error propagation.

pub mod token;
pub mod text;
pub mod ast;
pub mod lexer;
pub mod parser;
pub mod object;
pub mod builtin;
pub mod env;
pub mod evaluator;
pub mod grammar;
pub mod semantics;
