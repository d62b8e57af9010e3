//! Laws of formulas: what parsing and evaluation promise, stated of every
//! input of a kind.

use vstd::prelude::*;
use crate::acceptance::{calls_parenthesised, lemma_accepted_exactly_if_well_formed};
use crate::balance::balanced;
use crate::binary32::is_zero;
use crate::error::{BinaryOpErr, EvalError, ShuntingYardError, TreeBuildError};
use crate::eval::{lookup, value_of, Arithmetic, Computation, Environment};
use crate::function::{expression_from, parsed, ParseFailure};
use crate::normalize::{
    is_negation, lemma_products_push, lemma_unary_minus_push, marks_product, normalized,
    products_marked, unary_minus_resolved,
};
use crate::notation::{
    ends_with_minus, grouped, lemma_notation_is_read_as_meant, meaning, placed, spelled,
    well_formed, Notation,
};
use crate::shunting_yard::{
    drain, empty_yard, gives_way, lemma_shift_all_push, make_way, postfix_of, shift_all, Pending,
    Yard,
};
use crate::token::{
    minus_one, operation_of, ExpressionOp, InfixSymbol, InfixTokenOperator, PostfixSymbol,
    SupportedFunction,
};
use crate::tokenizer::{
    function_at, lemma_scan_fails_where_no_token_begins, scan, token_at, tokens_of,
};
use crate::tree::{lemma_place_all_push, tree_of, Expression};
use crate::unicode::{alphabetic, white_space, without_whitespace};

verus! {

/// The notation that is an operand alone.
pub open spec fn operand(token: InfixSymbol) -> Notation
    recommends
        token is Literal || token is Variable,
{
    match token {
        InfixSymbol::Literal(text) => Notation::Literal(text),
        InfixSymbol::Variable(c) => Notation::Variable(c),
        _ => arbitrary(),
    }
}

/// The leaf that an operand is built to.
pub open spec fn operand_leaf(token: InfixSymbol) -> Expression
    recommends
        token is Literal || token is Variable,
{
    meaning(operand(token))
}

/// Two operands with their operator.
pub open spec fn binary(op: InfixTokenOperator, left: Notation, right: Notation) -> Notation {
    Notation::Binary(op, Box::new(left), Box::new(right))
}

/// The operation that an operator makes of two expressions.
pub open spec fn operation(op: InfixTokenOperator, left: Expression, right: Expression) -> Expression {
    Expression::Operation(operation_of(op), Box::new(left), Box::new(right))
}

/// An operand alone is an expression: its leaf.
pub proof fn lemma_operand_alone(a: InfixSymbol)
    requires
        a is Literal || a is Variable,
    ensures
        expression_from(seq![a]) == Some(operand_leaf(a)),
{
    lemma_notation_is_read_as_meant(operand(a));
}

/// A product of a literal or a variable with a variable, written with `*`
/// or by juxtaposition, is brought into the same postfix order and built to
/// the same tree: `2x` is `2*x`.
pub proof fn lemma_juxtaposition_is_product(a: InfixSymbol, b: InfixSymbol)
    requires
        a is Literal || a is Variable,
        b is Variable,
    ensures
        postfix_of(seq![a, b]) == postfix_of(
            seq![a, InfixSymbol::Operator(InfixTokenOperator::Multiply), b],
        ),
        expression_from(seq![a, b]) == Some(
            Expression::Operation(
                ExpressionOp::Multiply,
                Box::new(operand_leaf(a)),
                Box::new(operand_leaf(b)),
            ),
        ),
{
    let side_by_side = binary(InfixTokenOperator::ImplicitMultiply, operand(a), operand(b));
    let written = binary(InfixTokenOperator::Multiply, operand(a), operand(b));
    reveal_with_fuel(spelled, 2);
    reveal_with_fuel(grouped, 2);
    reveal_with_fuel(placed, 2);
    reveal_with_fuel(meaning, 2);
    reveal_with_fuel(ends_with_minus, 2);
    assert(spelled(side_by_side) == seq![a, b]);
    assert(spelled(written) == seq![a, InfixSymbol::Operator(InfixTokenOperator::Multiply), b]);
    lemma_notation_is_read_as_meant(side_by_side);
    lemma_notation_is_read_as_meant(written);
}

/// Between two tokens a product mark is put exactly where a product is
/// meant: behind a literal or a variable before a variable or an opening
/// parenthesis, and behind a closing parenthesis before an opening one.
/// Every other pair stays as it is.
pub proof fn lemma_mark_between_two(a: InfixSymbol, b: InfixSymbol)
    ensures
        products_marked(seq![a, b]) == if marks_product(a, b) {
            seq![a, InfixSymbol::Operator(InfixTokenOperator::ImplicitMultiply), b]
        } else {
            seq![a, b]
        },
{
    let none = Seq::<InfixSymbol>::empty();
    assert(seq![a, b] == none.push(a).push(b));
    lemma_products_push(none, a);
    lemma_products_push(none.push(a), b);
    assert(products_marked(none) == none);
}

/// A minus sign before an operand means the product of minus one and the
/// operand: `-x` is `(-1)*x`.
pub proof fn lemma_negation_is_product(b: InfixSymbol)
    requires
        b is Literal || b is Variable,
    ensures
        expression_from(
            seq![InfixSymbol::Operator(InfixTokenOperator::SubtractOrNegate), b],
        ) == Some(
            Expression::Operation(
                ExpressionOp::Multiply,
                Box::new(Expression::Literal(minus_one())),
                Box::new(operand_leaf(b)),
            ),
        ),
{
    let negation = binary(InfixTokenOperator::ImplicitMultiply, Notation::Minus, operand(b));
    reveal_with_fuel(spelled, 2);
    reveal_with_fuel(grouped, 2);
    reveal_with_fuel(placed, 2);
    reveal_with_fuel(meaning, 2);
    reveal_with_fuel(ends_with_minus, 2);
    assert(spelled(negation) == seq![
        InfixSymbol::Operator(InfixTokenOperator::SubtractOrNegate),
        b,
    ]);
    lemma_notation_is_read_as_meant(negation);
}

/// Three operands joined by two written operators group by precedence: the
/// first operator takes its operands first exactly if it gives way to the
/// second, that is, if it binds tighter, or as tight while the second groups
/// from the left. So `a-b-c` is `(a-b)-c`, `a+b*c` is `a+(b*c)`, and `a^b^c`
/// is `a^(b^c)`.
pub proof fn lemma_operators_group_by_precedence(
    a: InfixSymbol,
    first: InfixTokenOperator,
    b: InfixSymbol,
    second: InfixTokenOperator,
    c: InfixSymbol,
)
    requires
        a is Literal || a is Variable,
        b is Literal || b is Variable,
        c is Literal || c is Variable,
        first != InfixTokenOperator::ImplicitMultiply,
        second != InfixTokenOperator::ImplicitMultiply,
    ensures
        expression_from(
            seq![a, InfixSymbol::Operator(first), b, InfixSymbol::Operator(second), c],
        ) == Some(
            if gives_way(first, second) {
                operation(second, operation(first, operand_leaf(a), operand_leaf(b)), operand_leaf(c))
            } else {
                operation(first, operand_leaf(a), operation(second, operand_leaf(b), operand_leaf(c)))
            },
        ),
{
    let tokens = seq![a, InfixSymbol::Operator(first), b, InfixSymbol::Operator(second), c];
    let from_left = binary(second, binary(first, operand(a), operand(b)), operand(c));
    let from_right = binary(first, operand(a), binary(second, operand(b), operand(c)));
    reveal_with_fuel(spelled, 3);
    reveal_with_fuel(grouped, 3);
    reveal_with_fuel(placed, 3);
    reveal_with_fuel(meaning, 3);
    reveal_with_fuel(ends_with_minus, 3);
    assert(spelled(from_left) == tokens);
    assert(spelled(from_right) == tokens);
    if gives_way(first, second) {
        lemma_notation_is_read_as_meant(from_left);
    } else {
        lemma_notation_is_read_as_meant(from_right);
    }
}

/// A function name before a parenthesised operand is the call of the
/// function on it: `sin(x)`.
pub proof fn lemma_call_of_operand(f: SupportedFunction, a: InfixSymbol)
    requires
        a is Literal || a is Variable,
    ensures
        expression_from(
            seq![InfixSymbol::Function(f), InfixSymbol::ParenOpen, a, InfixSymbol::ParenClose],
        ) == Some(Expression::Function(f, Box::new(operand_leaf(a)))),
{
    let call = Notation::Call(f, Box::new(operand(a)));
    reveal_with_fuel(spelled, 2);
    reveal_with_fuel(grouped, 2);
    reveal_with_fuel(placed, 2);
    reveal_with_fuel(meaning, 2);
    reveal_with_fuel(ends_with_minus, 2);
    assert(spelled(call) == seq![
        InfixSymbol::Function(f),
        InfixSymbol::ParenOpen,
        a,
        InfixSymbol::ParenClose,
    ]);
    lemma_notation_is_read_as_meant(call);
}

/// Parentheses around a formula change nothing of what it means.
pub proof fn lemma_parentheses_only_group(notation: Notation)
    requires
        well_formed(notation),
    ensures
        expression_from(spelled(Notation::Parens(Box::new(notation)))) == expression_from(
            spelled(notation),
        ),
{
    lemma_notation_is_read_as_meant(notation);
    lemma_notation_is_read_as_meant(Notation::Parens(Box::new(notation)));
}

/// The negation of a variable evaluates to the product of the number that
/// `-1` is read as and the variable's value.
pub proof fn lemma_negation_value(c: char, env: Environment, sem: Arithmetic)
    ensures
        value_of(
            Expression::Operation(
                ExpressionOp::Multiply,
                Box::new(Expression::Literal(minus_one())),
                Box::new(Expression::Variable(c)),
            ),
            env,
            sem,
        ) == match lookup(env, seq![c]) {
            Some(v) => Ok::<u32, EvalError>(
                sem(Computation::Mul(sem(Computation::Parse(minus_one())), v)),
            ),
            None => Err::<u32, EvalError>(EvalError::UndefinedVariable),
        },
{
    reveal_with_fuel(value_of, 2);
}

/// A division whose divisor evaluates to a zero fails, whatever the dividend
/// evaluates to.
pub proof fn lemma_division_by_zero(
    dividend: Expression,
    divisor: Expression,
    env: Environment,
    sem: Arithmetic,
)
    requires
        value_of(dividend, env, sem) is Ok,
        value_of(divisor, env, sem) matches Ok(d) && is_zero(d),
    ensures
        value_of(
            Expression::Operation(ExpressionOp::Divide, Box::new(dividend), Box::new(divisor)),
            env,
            sem,
        ) == Err::<u32, EvalError>(EvalError::BinaryOpErr(BinaryOpErr::Div0)),
{
}

/// A name that is bound keeps its value whatever is bound behind it.
pub proof fn lemma_first_binding_wins(env: Environment, name: Seq<char>, later: (Seq<char>, u32))
    requires
        lookup(env, name) is Some,
    ensures
        lookup(env.push(later), name) == lookup(env, name),
    decreases env.len(),
{
    if env[0].0 != name {
        assert(env.push(later).drop_first() == env.drop_first().push(later));
        lemma_first_binding_wins(env.drop_first(), name, later);
    }
}

/// A name that is not bound is looked up in what is bound behind.
pub proof fn lemma_unbound_falls_through(env: Environment, name: Seq<char>, later: (Seq<char>, u32))
    requires
        lookup(env, name) is None,
    ensures
        lookup(env.push(later), name) == if later.0 == name {
            Some(later.1)
        } else {
            None
        },
    decreases env.len(),
{
    if env.len() == 0 {
        reveal_with_fuel(lookup, 2);
        assert(env.push(later).drop_first() == Seq::<(Seq<char>, u32)>::empty());
    } else {
        assert(env.push(later).drop_first() == env.drop_first().push(later));
        lemma_unbound_falls_through(env.drop_first(), name, later);
    }
}

/// A constant in scope is the value of its name at every point: the variable
/// of the same name is hidden.
pub proof fn lemma_constant_at_every_point(
    constants: Environment,
    variable: Seq<char>,
    c: char,
    v: u32,
    sem: Arithmetic,
)
    requires
        lookup(constants, seq![c]) is Some,
    ensures
        value_of(Expression::Variable(c), constants.push((variable, v)), sem) == Ok::<
            u32,
            EvalError,
        >(lookup(constants, seq![c])->0),
{
    lemma_first_binding_wins(constants, seq![c], (variable, v));
}

/// A name that is neither a constant in scope nor the variable is undefined
/// at every point.
pub proof fn lemma_unbound_name_is_undefined(
    constants: Environment,
    variable: Seq<char>,
    c: char,
    v: u32,
    sem: Arithmetic,
)
    requires
        lookup(constants, seq![c]) is None,
        variable != seq![c],
    ensures
        value_of(Expression::Variable(c), constants.push((variable, v)), sem) == Err::<
            u32,
            EvalError,
        >(EvalError::UndefinedVariable),
{
    lemma_unbound_falls_through(constants, seq![c], (variable, v));
}

/// The variable, where no constant hides it, is the point of evaluation.
pub proof fn lemma_variable_is_the_point(constants: Environment, c: char, v: u32, sem: Arithmetic)
    requires
        lookup(constants, seq![c]) is None,
    ensures
        value_of(Expression::Variable(c), constants.push((seq![c], v)), sem) == Ok::<
            u32,
            EvalError,
        >(v),
{
    lemma_unbound_falls_through(constants, seq![c], (seq![c], v));
}

/// A formula is rejected by the tokenizer only at a position, counted
/// without white space, at which no token begins.
pub proof fn lemma_tokenizer_fails_where_no_token_begins(formula: Seq<char>, failure: nat)
    requires
        tokens_of(formula) == Err::<Seq<InfixSymbol>, nat>(failure),
    ensures
        failure < without_whitespace(formula).len(),
        token_at(without_whitespace(formula).skip(failure as int)) is None,
{
    lemma_scan_fails_where_no_token_begins(without_whitespace(formula), 0, failure);
}

/// A formula in which a token begins wherever one is looked for, whose
/// parentheses are balanced, and whose function names are each followed by
/// an opening parenthesis, passes the tokenizer and the conversion to
/// postfix order: it is parsed, or it is rejected because its tokens build
/// no single expression.
pub proof fn lemma_balanced_formula_reaches_tree_building(formula: Seq<char>)
    requires
        tokens_of(formula) matches Ok(tokens) && balanced(tokens) && calls_parenthesised(tokens),
    ensures
        parsed(formula) is Ok || parsed(formula) matches Err(ParseFailure::TreeBuild(_)),
{
    lemma_accepted_exactly_if_well_formed(tokens_of(formula)->Ok_0);
}

/// A single letter is a formula: the variable of that name.
pub proof fn lemma_letter_is_variable(c: char)
    requires
        alphabetic(c),
        !white_space(c),
    ensures
        parsed(seq![c]) == Ok::<Expression, ParseFailure>(Expression::Variable(c)),
{
    let text = seq![c];
    reveal_with_fuel(Seq::filter, 2);
    assert(text.drop_last() == Seq::<char>::empty());
    assert(without_whitespace(text) == text);
    assert(text.skip(0) == text);
    assert(function_at(text) is None);
    reveal_with_fuel(scan, 2);
    let variable = InfixSymbol::Variable(c);
    assert(scan(text, 1) == Ok::<Seq<InfixSymbol>, nat>(Seq::empty()));
    assert(seq![variable] + Seq::<InfixSymbol>::empty() == seq![variable]);
    assert(tokens_of(text) == Ok::<Seq<InfixSymbol>, nat>(seq![variable]));
    lemma_operand_alone(variable);
}

/// A formula of white space alone has no tokens.
pub proof fn lemma_blank_has_no_tokens(formula: Seq<char>)
    requires
        forall|i: int| 0 <= i < formula.len() ==> white_space(#[trigger] formula[i]),
    ensures
        tokens_of(formula) == Ok::<Seq<InfixSymbol>, nat>(Seq::empty()),
    decreases formula.len(),
{
    reveal(Seq::filter);
    if formula.len() > 0 {
        lemma_blank_has_no_tokens(formula.drop_last());
    }
    assert(without_whitespace(formula) == Seq::<char>::empty());
}

/// No tokens are no expression: they are rejected as an empty expression.
pub proof fn lemma_no_tokens_no_expression()
    ensures
        postfix_of(Seq::empty()) == Ok::<Seq<PostfixSymbol>, ShuntingYardError>(Seq::empty()),
        tree_of(Seq::empty()) == Err::<Expression, TreeBuildError>(TreeBuildError::EmptyExpression),
{
    assert(normalized(Seq::<InfixSymbol>::empty()) == Seq::<InfixSymbol>::empty());
}

/// An empty formula, or one of white space alone, is rejected as an empty
/// expression.
pub proof fn lemma_blank_is_empty_expression(formula: Seq<char>)
    requires
        forall|i: int| 0 <= i < formula.len() ==> white_space(#[trigger] formula[i]),
    ensures
        parsed(formula) == Err::<Expression, ParseFailure>(
            ParseFailure::TreeBuild(TreeBuildError::EmptyExpression),
        ),
{
    lemma_blank_has_no_tokens(formula);
    lemma_no_tokens_no_expression();
}

/// An operator alone is rejected for want of an operand: of its right one,
/// or, where it is a minus sign and so reads as `(-1)` times nothing, of its
/// left one.
pub proof fn lemma_lone_operator_misses_operand(op: InfixTokenOperator)
    ensures
        postfix_of(seq![InfixSymbol::Operator(op)]) matches Ok(rpn) && tree_of(rpn) == Err::<
            Expression,
            TreeBuildError,
        >(
            if op == InfixTokenOperator::SubtractOrNegate {
                TreeBuildError::MissingLeftOperand
            } else {
                TreeBuildError::MissingRightOperand
            },
        ),
{
    let o = InfixSymbol::Operator(op);
    let none = Seq::<InfixSymbol>::empty();
    let nothing = Seq::<PostfixSymbol>::empty();
    assert(seq![o] == none.push(o));
    lemma_unary_minus_push(none, o);
    reveal_with_fuel(drain, 3);
    if op == InfixTokenOperator::SubtractOrNegate {
        let one = InfixSymbol::Literal(minus_one());
        let mark = InfixSymbol::Operator(InfixTokenOperator::ImplicitMultiply);
        assert(is_negation(none.push(o), 0));
        assert(unary_minus_resolved(seq![o]) == none.push(one).push(mark));
        lemma_products_push(none, one);
        lemma_products_push(none.push(one), mark);
        assert(normalized(seq![o]) == none.push(one).push(mark));
        lemma_shift_all_push(empty_yard(), none, one);
        lemma_shift_all_push(empty_yard(), none.push(one), mark);
        let y1 = Yard { output: nothing.push(PostfixSymbol::Literal(minus_one())), stack: Seq::empty() };
        assert(shift_all(empty_yard(), none.push(one)) == Some(y1));
        assert(make_way(y1, InfixTokenOperator::ImplicitMultiply) == y1);
        let y2 = Yard {
            output: y1.output,
            stack: Seq::<Pending>::empty().push(Pending::Operator(InfixTokenOperator::ImplicitMultiply)),
        };
        assert(shift_all(empty_yard(), none.push(one).push(mark)) == Some(y2));
        assert(y2.stack.drop_last() == Seq::<Pending>::empty());
        let rpn = y1.output.push(PostfixSymbol::ExpressionOp(ExpressionOp::Multiply));
        assert(drain(y2) == Some(rpn));
        lemma_place_all_push(Seq::empty(), nothing, PostfixSymbol::Literal(minus_one()));
        lemma_place_all_push(
            Seq::empty(),
            y1.output,
            PostfixSymbol::ExpressionOp(ExpressionOp::Multiply),
        );
    } else {
        assert(unary_minus_resolved(seq![o]) == none.push(o));
        lemma_products_push(none, o);
        assert(normalized(seq![o]) == none.push(o));
        lemma_shift_all_push(empty_yard(), none, o);
        assert(make_way(empty_yard(), op) == empty_yard());
        let y1 = Yard { output: nothing, stack: Seq::<Pending>::empty().push(Pending::Operator(op)) };
        assert(shift_all(empty_yard(), none.push(o)) == Some(y1));
        assert(y1.stack.drop_last() == Seq::<Pending>::empty());
        let rpn = nothing.push(PostfixSymbol::ExpressionOp(operation_of(op)));
        assert(drain(y1) == Some(rpn));
        lemma_place_all_push(
            Seq::empty(),
            nothing,
            PostfixSymbol::ExpressionOp(operation_of(op)),
        );
    }
}

} // verus!
