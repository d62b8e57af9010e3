//! The lexical vocabulary of formulas: functions, operators and tokens.

use vstd::prelude::*;

verus! {

/// The functions a formula may call, each of one argument.
#[derive(Clone, Copy, Debug, PartialEq, Eq, Structural)]
pub enum SupportedFunction {
    Sine,
    Exp,
    Ln,
    Log10,
    Sqrt,
}

/// A binary operation of the expression tree.
#[derive(Clone, Copy, Debug, PartialEq, Eq, Structural)]
pub enum ExpressionOp {
    Add,
    Subtract,
    Multiply,
    Divide,
    Power,
}

/// An operator as it stands in infix notation. `ImplicitMultiply` is never
/// written: it marks a product expressed by juxtaposition.
#[derive(Clone, Copy, Debug, PartialEq, Eq, Structural)]
pub enum InfixTokenOperator {
    Add,
    SubtractOrNegate,
    Multiply,
    Divide,
    Power,
    ImplicitMultiply,
}

/// A token of a formula in infix notation. A literal holds its characters.
#[derive(Debug, PartialEq, Eq)]
pub enum InfixToken {
    ParenOpen,
    ParenClose,
    Function(SupportedFunction),
    Variable(char),
    Operator(InfixTokenOperator),
    Literal(Vec<char>),
}

/// A token of a formula in postfix notation. A literal holds its characters.
#[derive(Debug, PartialEq, Eq)]
pub enum RPNToken {
    ExpressionOp(ExpressionOp),
    Function(SupportedFunction),
    Variable(char),
    Literal(Vec<char>),
}

/// The mathematical value of an [`InfixToken`].
pub enum InfixSymbol {
    ParenOpen,
    ParenClose,
    Function(SupportedFunction),
    Variable(char),
    Operator(InfixTokenOperator),
    Literal(Seq<char>),
}

/// The mathematical value of an [`RPNToken`].
pub enum PostfixSymbol {
    ExpressionOp(ExpressionOp),
    Function(SupportedFunction),
    Variable(char),
    Literal(Seq<char>),
}

impl View for InfixToken {
    type V = InfixSymbol;

    open spec fn view(&self) -> InfixSymbol {
        match *self {
            InfixToken::ParenOpen => InfixSymbol::ParenOpen,
            InfixToken::ParenClose => InfixSymbol::ParenClose,
            InfixToken::Function(f) => InfixSymbol::Function(f),
            InfixToken::Variable(c) => InfixSymbol::Variable(c),
            InfixToken::Operator(op) => InfixSymbol::Operator(op),
            InfixToken::Literal(text) => InfixSymbol::Literal(text@),
        }
    }
}

impl View for RPNToken {
    type V = PostfixSymbol;

    open spec fn view(&self) -> PostfixSymbol {
        match *self {
            RPNToken::ExpressionOp(op) => PostfixSymbol::ExpressionOp(op),
            RPNToken::Function(f) => PostfixSymbol::Function(f),
            RPNToken::Variable(c) => PostfixSymbol::Variable(c),
            RPNToken::Literal(text) => PostfixSymbol::Literal(text@),
        }
    }
}

impl Clone for InfixToken {
    fn clone(&self) -> (r: Self)
        ensures
            r@ == self@,
    {
        match self {
            InfixToken::ParenOpen => InfixToken::ParenOpen,
            InfixToken::ParenClose => InfixToken::ParenClose,
            InfixToken::Function(f) => InfixToken::Function(*f),
            InfixToken::Variable(c) => InfixToken::Variable(*c),
            InfixToken::Operator(op) => InfixToken::Operator(*op),
            InfixToken::Literal(text) => InfixToken::Literal(copy_text(text)),
        }
    }
}

impl Clone for RPNToken {
    fn clone(&self) -> (r: Self)
        ensures
            r@ == self@,
    {
        match self {
            RPNToken::ExpressionOp(op) => RPNToken::ExpressionOp(*op),
            RPNToken::Function(f) => RPNToken::Function(*f),
            RPNToken::Variable(c) => RPNToken::Variable(*c),
            RPNToken::Literal(text) => RPNToken::Literal(copy_text(text)),
        }
    }
}

/// The symbols that a sequence of infix tokens stands for.
pub open spec fn infix_symbols(tokens: Seq<InfixToken>) -> Seq<InfixSymbol> {
    tokens.map_values(|t: InfixToken| t@)
}

/// The symbols that a sequence of postfix tokens stands for.
pub open spec fn postfix_symbols(tokens: Seq<RPNToken>) -> Seq<PostfixSymbol> {
    tokens.map_values(|t: RPNToken| t@)
}

/// The characters of the literal that a unary minus is rewritten to.
pub open spec fn minus_one() -> Seq<char> {
    seq!['-', '1']
}

/// The binding strength of an operator: a larger number binds tighter.
pub open spec fn precedence(op: InfixTokenOperator) -> u8 {
    match op {
        InfixTokenOperator::Add => 1,
        InfixTokenOperator::SubtractOrNegate => 1,
        InfixTokenOperator::Multiply => 2,
        InfixTokenOperator::Divide => 2,
        InfixTokenOperator::ImplicitMultiply => 3,
        InfixTokenOperator::Power => 5,
    }
}

/// Whether a chain of `op` groups from the right: true of `^` alone.
pub open spec fn right_associative(op: InfixTokenOperator) -> bool {
    op == InfixTokenOperator::Power
}

/// The operation of the expression tree that an infix operator denotes.
/// A product is one operation, however it was written.
pub open spec fn operation_of(op: InfixTokenOperator) -> ExpressionOp {
    match op {
        InfixTokenOperator::Add => ExpressionOp::Add,
        InfixTokenOperator::SubtractOrNegate => ExpressionOp::Subtract,
        InfixTokenOperator::Multiply => ExpressionOp::Multiply,
        InfixTokenOperator::Divide => ExpressionOp::Divide,
        InfixTokenOperator::Power => ExpressionOp::Power,
        InfixTokenOperator::ImplicitMultiply => ExpressionOp::Multiply,
    }
}

pub fn get_operator_precedence(op: InfixTokenOperator) -> (p: u8)
    ensures
        p == precedence(op),
{
    match op {
        InfixTokenOperator::Add => 1,
        InfixTokenOperator::SubtractOrNegate => 1,
        InfixTokenOperator::Multiply => 2,
        InfixTokenOperator::ImplicitMultiply => 3,
        InfixTokenOperator::Divide => 2,
        InfixTokenOperator::Power => 5,
    }
}

pub fn is_right_associative(op: InfixTokenOperator) -> (b: bool)
    ensures
        b == right_associative(op),
{
    match op {
        InfixTokenOperator::Power => true,
        _ => false,
    }
}

/// Converts an infix operator to the operation it denotes.
pub fn to_operation(op: InfixTokenOperator) -> (r: ExpressionOp)
    ensures
        r == operation_of(op),
{
    match op {
        InfixTokenOperator::Add => ExpressionOp::Add,
        InfixTokenOperator::SubtractOrNegate => ExpressionOp::Subtract,
        InfixTokenOperator::Multiply => ExpressionOp::Multiply,
        InfixTokenOperator::Divide => ExpressionOp::Divide,
        InfixTokenOperator::Power => ExpressionOp::Power,
        InfixTokenOperator::ImplicitMultiply => ExpressionOp::Multiply,
    }
}

/// A copy of the characters of `text`.
pub fn copy_text(text: &Vec<char>) -> (r: Vec<char>)
    ensures
        r@ == text@,
{
    let mut r: Vec<char> = Vec::new();
    let mut i: usize = 0;
    while i < text.len()
        invariant
            i <= text.len(),
            r@ == text@.take(i as int),
        decreases text.len() - i,
    {
        r.push(text[i]);
        i += 1;
    }
    r
}

} // verus!
