//! A small scripting-language front end: a recursive-descent parser with
//! precedence climbing, and a tree-walking evaluator with a lexically scoped
//! environment. Tokens come from an outside token source; this crate turns
//! them into an abstract syntax tree and evaluates that tree directly.

pub mod ast;
pub mod parser;
pub mod token;
