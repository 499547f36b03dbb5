//! The language core.
//!
//! - [`text`]: helpers on strings;
//! - [`lexer`]: tokens and the tokenizer;
//! - [`ast`]: the expression tree;
//! - [`grammar`]: what a token sequence parses to;
//! - [`parser`]: the recursive-descent parser;
//! - [`runtime`]: values and scopes;
//! - [`host`]: the embedding program as the evaluator sees it;
//! - [`semantics`]: what an expression evaluates to;
//! - [`eval`]: the evaluator;
//! - [`render`]: the textual form of values;
//! - [`laws`]: what holds of every program.

pub mod text;
pub mod lexer;
pub mod ast;
pub mod grammar;
pub mod parser;
pub mod runtime;
pub mod host;
pub mod semantics;
pub mod eval;
pub mod render;
pub mod laws;
