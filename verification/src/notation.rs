//! The notation of formulas: which sequences of tokens are well formed,
//! what they mean, and why they are read as what they mean. Where
//! parentheses are left out, precedence and associativity group the
//! operands; parentheses that are not needed change nothing; operands side
//! by side are multiplied, and a minus sign before an operand multiplies it
//! by minus one.

use vstd::prelude::*;
use crate::error::ShuntingYardError;
use crate::function::expression_from;
use crate::placing::{
    lemma_drain_operators, lemma_normal_form_shifts, lemma_settled_and_open, open_operators,
    settled, waiting,
};
use crate::rewriting::lemma_normalized_is_normal_form;
use crate::normalize::marks_product;
use crate::shunting_yard::{empty_yard, gives_way, postfix_of, Pending};
use crate::token::{
    minus_one, operation_of, ExpressionOp, InfixSymbol, InfixTokenOperator, PostfixSymbol,
    SupportedFunction,
};
use crate::tree::{lemma_tree_of_inverts_postorder, postorder, Expression};

verus! {

/// A formula as it is written: an expression together with its parentheses
/// and with what it leaves unwritten.
pub enum Notation {
    Literal(Seq<char>),
    Variable(char),
    /// A minus sign that negates. It stands for the number minus one, and is
    /// multiplied with what follows it.
    Minus,
    /// A notation in parentheses.
    Parens(Box<Notation>),
    /// A function name before its argument in parentheses.
    Call(SupportedFunction, Box<Notation>),
    /// Two operands and their operator. The operator `ImplicitMultiply` is
    /// not written: its operands stand side by side.
    Binary(InfixTokenOperator, Box<Notation>, Box<Notation>),
}

/// The expression that a notation means: parentheses only group, and a minus
/// sign that negates is the number minus one.
pub open spec fn meaning(notation: Notation) -> Expression
    decreases notation,
{
    match notation {
        Notation::Literal(text) => Expression::Literal(text),
        Notation::Variable(c) => Expression::Variable(c),
        Notation::Minus => Expression::Literal(minus_one()),
        Notation::Parens(inner) => meaning(*inner),
        Notation::Call(f, arg) => Expression::Function(f, Box::new(meaning(*arg))),
        Notation::Binary(op, left, right) => Expression::Operation(
            operation_of(op),
            Box::new(meaning(*left)),
            Box::new(meaning(*right)),
        ),
    }
}

/// The tokens in parentheses.
pub open spec fn in_parens(tokens: Seq<InfixSymbol>) -> Seq<InfixSymbol> {
    (seq![InfixSymbol::ParenOpen] + tokens).push(InfixSymbol::ParenClose)
}

/// The tokens of a notation as they are written, from the left.
pub open spec fn spelled(notation: Notation) -> Seq<InfixSymbol>
    decreases notation,
{
    match notation {
        Notation::Literal(text) => seq![InfixSymbol::Literal(text)],
        Notation::Variable(c) => seq![InfixSymbol::Variable(c)],
        Notation::Minus => seq![InfixSymbol::Operator(InfixTokenOperator::SubtractOrNegate)],
        Notation::Parens(inner) => in_parens(spelled(*inner)),
        Notation::Call(f, arg) => seq![InfixSymbol::Function(f)] + in_parens(spelled(*arg)),
        Notation::Binary(op, left, right) => if op == InfixTokenOperator::ImplicitMultiply {
            spelled(*left) + spelled(*right)
        } else {
            spelled(*left) + seq![InfixSymbol::Operator(op)] + spelled(*right)
        },
    }
}

/// The tokens of a notation with nothing left unwritten: every operator
/// stands between its operands, and a minus sign that negates is the literal
/// `-1`.
pub open spec fn normal_form(notation: Notation) -> Seq<InfixSymbol>
    decreases notation,
{
    match notation {
        Notation::Literal(text) => seq![InfixSymbol::Literal(text)],
        Notation::Variable(c) => seq![InfixSymbol::Variable(c)],
        Notation::Minus => seq![InfixSymbol::Literal(minus_one())],
        Notation::Parens(inner) => in_parens(normal_form(*inner)),
        Notation::Call(f, arg) => seq![InfixSymbol::Function(f)] + in_parens(normal_form(*arg)),
        Notation::Binary(op, left, right) => normal_form(*left) + seq![InfixSymbol::Operator(op)]
            + normal_form(*right),
    }
}

/// The operator of a notation that stands in no parentheses.
pub open spec fn bare_operator(notation: Notation) -> Option<InfixTokenOperator> {
    match notation {
        Notation::Binary(op, _, _) => Some(op),
        _ => None,
    }
}

/// Whether the operands of a notation are grouped as precedence and
/// associativity read them: an operand that is itself two operands with
/// their operator stands bare only where its operator is applied first. On
/// the left that is where its operator gives way to the one behind it; on
/// the right, where the operator before it does not give way to its own.
pub open spec fn grouped(notation: Notation) -> bool
    decreases notation,
{
    match notation {
        Notation::Parens(inner) => grouped(*inner),
        Notation::Call(_, arg) => grouped(*arg),
        Notation::Binary(op, left, right) => {
            &&& grouped(*left)
            &&& grouped(*right)
            &&& bare_operator(*left) matches Some(inner) ==> gives_way(inner, op)
            &&& bare_operator(*right) matches Some(inner) ==> !gives_way(op, inner)
        },
        _ => true,
    }
}

/// Whether the last token of a notation is a minus sign that negates.
pub open spec fn ends_with_minus(notation: Notation) -> bool
    decreases notation,
{
    match notation {
        Notation::Minus => true,
        Notation::Binary(_, _, right) => ends_with_minus(*right),
        _ => false,
    }
}

/// Whether what a notation leaves unwritten is read as the notation means
/// it; `negating` says whether a minus sign at the beginning of the notation
/// would negate. A minus sign that negates begins the formula, or follows an
/// operator or an opening parenthesis, and is followed by the operand that
/// it is multiplied with. An operator that is written follows the end of an
/// operand. Operands that are multiplied by standing side by side are a
/// literal or a variable before a variable or an opening parenthesis, or a
/// closing parenthesis before an opening one.
pub open spec fn placed(notation: Notation, negating: bool) -> bool
    decreases notation,
{
    match notation {
        Notation::Literal(_) => true,
        Notation::Variable(_) => true,
        Notation::Minus => negating,
        Notation::Parens(inner) => placed(*inner, true) && !ends_with_minus(*inner),
        Notation::Call(_, arg) => placed(*arg, true) && !ends_with_minus(*arg),
        Notation::Binary(op, left, right) => placed(*left, negating) && if op
            == InfixTokenOperator::ImplicitMultiply {
            placed(*right, ends_with_minus(*left)) && (ends_with_minus(*left) || marks_product(
                spelled(*left).last(),
                spelled(*right).first(),
            ))
        } else {
            !ends_with_minus(*left) && placed(*right, true)
        },
    }
}

/// Whether a notation is well formed: its operands are grouped as they are
/// read, what it leaves unwritten is read as it is meant, and it does not
/// end with a minus sign.
pub open spec fn well_formed(notation: Notation) -> bool {
    grouped(notation) && placed(notation, true) && !ends_with_minus(notation)
}

/// The operator that writes an operation.
pub open spec fn operator_of(op: ExpressionOp) -> InfixTokenOperator {
    match op {
        ExpressionOp::Add => InfixTokenOperator::Add,
        ExpressionOp::Subtract => InfixTokenOperator::SubtractOrNegate,
        ExpressionOp::Multiply => InfixTokenOperator::Multiply,
        ExpressionOp::Divide => InfixTokenOperator::Divide,
        ExpressionOp::Power => InfixTokenOperator::Power,
    }
}



/// The notation of an expression that writes every operator and puts an
/// operand in parentheses only where it must.
pub open spec fn notation_of(expr: Expression) -> Notation
    decreases expr,
{
    match expr {
        Expression::Literal(text) => Notation::Literal(text),
        Expression::Variable(c) => Notation::Variable(c),
        Expression::Function(f, arg) => Notation::Call(f, Box::new(notation_of(*arg))),
        Expression::Operation(op, left, right) => {
            let sign = operator_of(op);
            let l = notation_of(*left);
            let r = notation_of(*right);
            Notation::Binary(
                sign,
                Box::new(
                    if bare_operator(l) matches Some(inner) && !gives_way(inner, sign) {
                        Notation::Parens(Box::new(l))
                    } else {
                        l
                    },
                ),
                Box::new(
                    if bare_operator(r) matches Some(inner) && gives_way(sign, inner) {
                        Notation::Parens(Box::new(r))
                    } else {
                        r
                    },
                ),
            )
        },
    }
}

/// A well-formed notation is read as what it means: its tokens come out in
/// the postfix order of its meaning, and that builds its meaning. So where
/// parentheses are left out, precedence and associativity group the
/// operands as the notation does; parentheses that are not needed change
/// nothing; operands side by side are multiplied; and a minus sign that
/// negates multiplies what follows it by minus one.
pub proof fn lemma_notation_is_read_as_meant(notation: Notation)
    requires
        well_formed(notation),
    ensures
        postfix_of(spelled(notation)) == Ok::<Seq<PostfixSymbol>, ShuntingYardError>(
            postorder(meaning(notation)),
        ),
        expression_from(spelled(notation)) == Some(meaning(notation)),
{
    lemma_normalized_is_normal_form(notation);
    lemma_normal_form_shifts(empty_yard(), notation);
    let ops = open_operators(notation);
    assert(Seq::<PostfixSymbol>::empty() + settled(notation) == settled(notation));
    assert(Seq::<Pending>::empty() + waiting(ops) == waiting(ops));
    lemma_drain_operators(settled(notation), ops);
    lemma_settled_and_open(notation);
    lemma_tree_of_inverts_postorder(postorder(meaning(notation)), meaning(notation));
}

/// The notation is unambiguous: well-formed notations that are written with
/// the same tokens mean the same expression.
pub proof fn lemma_notation_is_unambiguous(one: Notation, other: Notation)
    requires
        well_formed(one),
        well_formed(other),
        spelled(one) == spelled(other),
    ensures
        meaning(one) == meaning(other),
{
    lemma_notation_is_read_as_meant(one);
    lemma_notation_is_read_as_meant(other);
}

/// The notation of an expression is well formed and means the expression.
pub proof fn lemma_notation_of_means(expr: Expression)
    ensures
        grouped(notation_of(expr)),
        placed(notation_of(expr), false),
        !ends_with_minus(notation_of(expr)),
        well_formed(notation_of(expr)),
        meaning(notation_of(expr)) == expr,
        bare_operator(notation_of(expr)) == match expr {
            Expression::Operation(op, _, _) => Some(operator_of(op)),
            _ => None,
        },
    decreases expr,
{
    reveal_with_fuel(grouped, 2);
    reveal_with_fuel(meaning, 2);
    reveal_with_fuel(placed, 2);
    reveal_with_fuel(ends_with_minus, 2);
    match expr {
        Expression::Operation(op, left, right) => {
            lemma_notation_of_means(*left);
            lemma_notation_of_means(*right);
            lemma_placed_wherever(notation_of(*left));
            lemma_placed_wherever(notation_of(*right));
            assert(operation_of(operator_of(op)) == op);
        },
        Expression::Function(f, arg) => {
            lemma_notation_of_means(*arg);
            lemma_placed_wherever(notation_of(*arg));
        },
        _ => {},
    }
}

/// What is placed where a minus sign would not negate is placed where it
/// would.
pub proof fn lemma_placed_wherever(notation: Notation)
    requires
        placed(notation, false),
    ensures
        placed(notation, true),
    decreases notation,
{
    if let Notation::Binary(_, left, _) = notation {
        lemma_placed_wherever(*left);
    }
}

/// Every expression can be written, and is read back from its notation:
/// parsing the tokens of its notation gives the expression.
pub proof fn lemma_every_expression_reads_back(expr: Expression)
    ensures
        expression_from(spelled(notation_of(expr))) == Some(expr),
{
    lemma_notation_of_means(expr);
    lemma_notation_is_read_as_meant(notation_of(expr));
}

} // verus!
