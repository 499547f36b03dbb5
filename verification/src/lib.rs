//! A small scripting language, verified with Verus.
//!
//! Source text is split into tokens ([`io::lexer`]), the tokens are parsed
//! into an expression tree ([`io::parser`], after the grammar in
//! [`io::grammar`]), and the tree is evaluated in a chain of lexical scopes
//! ([`io::eval`], after the semantics in [`io::semantics`]). Every step is
//! proved to compute what its mathematical description says:
//!
//! - `tokenize` gives exactly the tokens of `lexer::lex`;
//! - `parse` gives exactly the tree, or the message, of `grammar::program`;
//! - `eval` gives exactly the value and the scopes of `semantics::eval_spec`,
//!   for the answers that the embedding program gave.
//!
//! The language has 64-bit floats and functions of the embedding program. The
//! evaluator computes neither: it asks a [`io::host::Host`], and its contract
//! holds whatever the host answers. Evaluation takes a budget of fuel, which
//! bounds nested calls and loop rounds, so that every function of this crate
//! returns; [`io::laws`] proves that the budget changes no result.
//!
//! No function of this crate panics: what would stop a run for good, such as
//! a division by zero, comes back as an [`io::runtime::Fault`].

pub mod io;
pub mod query;
