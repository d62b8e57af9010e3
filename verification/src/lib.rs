//! A compiler and evaluator for infix formulas of one free variable, such as
//! `sin(x)+0.5x^2`.
//!
//! A formula passes through four stages, each a function with its contract:
//! [`tokenizer::tokenize`] splits it into tokens, [`shunting_yard::shunting_yard`]
//! brings the tokens into postfix order, after [`normalize`] has made unary
//! minus and juxtaposition explicit, and [`tree::build_expression_tree`]
//! builds the expression. [`function::ParsedFunction`] holds the result with
//! the constants in scope, and evaluates it through [`eval`].
//!
//! Numbers are single-precision floats held as bit patterns ([`binary32`]).
//! Evaluation takes every decision itself and leaves the floating-point
//! operations to an arithmetic that the caller supplies.
//!
//! What the stages mean together is stated and proved in [`notation`] (a
//! well-formed notation is read as what it means; [`rewriting`] and
//! [`placing`] hold the steps of that proof), in [`acceptance`] and
//! [`balance`] (which tokens have a postfix form), in [`laws`], and, of
//! formulas given as text, in [`formulas`].

pub mod acceptance;
pub mod balance;
pub mod binary32;
pub mod error;
pub mod eval;
pub mod formulas;
pub mod function;
pub mod laws;
pub mod normalize;
pub mod notation;
pub mod placing;
pub mod rewriting;
pub mod shunting_yard;
pub mod token;
pub mod tokenizer;
pub mod tree;
pub mod unicode;
