//! What can go wrong while a formula is parsed or evaluated.

use vstd::prelude::*;

verus! {

/// No token starts at a position of the input.
#[derive(Clone, Copy, Debug, PartialEq, Eq, Structural)]
pub struct TokenizerError {
    /// Index of the offending character, counted in characters of the input
    /// after its white space is removed.
    pub failure_idx: usize,
}

/// The infix tokens cannot be brought into postfix order.
#[derive(Clone, Copy, Debug, PartialEq, Eq, Structural)]
pub enum ShuntingYardError {
    /// A parenthesis has no partner, or a function name is not followed by
    /// its parenthesised argument.
    MismatchedParens,
}

/// The postfix tokens do not describe exactly one expression.
#[derive(Clone, Copy, Debug, PartialEq, Eq, Structural)]
pub enum TreeBuildError {
    MissingLeftOperand,
    MissingRightOperand,
    MissingFunctionArg,
    RemainingNodes,
    EmptyExpression,
}

/// Why a formula was rejected, by the stage that rejected it.
#[derive(Clone, Copy, Debug, PartialEq, Eq, Structural)]
pub enum ParseError {
    Tokenizer(TokenizerError),
    TreeBuild(TreeBuildError),
    ShuntingYard(ShuntingYardError),
}

/// A function was applied outside its domain.
#[derive(Clone, Copy, Debug, PartialEq, Eq, Structural)]
pub enum FunctionEvalErr {
    OutOfDomain,
}

/// A binary operator has no result for its operands.
#[derive(Clone, Copy, Debug, PartialEq, Eq, Structural)]
pub enum BinaryOpErr {
    Div0,
}

/// Why an expression has no value at a point.
#[derive(Clone, Copy, Debug, PartialEq, Eq, Structural)]
pub enum EvalError {
    UndefinedVariable,
    FunctionEvalErr(FunctionEvalErr),
    BinaryOpErr(BinaryOpErr),
}

} // verus!
