//! A tree-walking interpreter for a small dynamically typed scripting
//! language: a lexer and recursive-descent parser for its grammar, a
//! resolver that precomputes variable scoping distances, and an evaluator
//! over a shared-scope environment, all specified by total spec-level
//! semantics that the executable code provably implements.

pub mod ast;
pub mod numbers;
pub mod text;
pub mod value;
pub mod environment;
pub mod error;
pub mod lexer;
pub mod parser;
pub mod resolver;
pub mod interpreter;
pub mod bindings;
