//! An evaluator for a small symbolic arithmetic language over exact rational
//! complex numbers, with multi-valued expressions and call-by-name functions.
//!
//! Text is read by the lexer and parser into an [`nodes::Expression`]; the
//! [`eval::Evaluator`] turns it into every value it denotes, combining
//! operands pairwise with the kernel of [`operators`].
pub mod eval;
pub mod grammar;
pub mod lexer;
pub mod nodes;
pub mod operators;
pub mod parser;
pub mod repl;
pub mod tokens;
pub mod values;
