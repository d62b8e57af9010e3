//! Laws of formulas given as text: what a few formulas are split into, are
//! parsed to, and evaluate to at every point.

use vstd::prelude::*;
use crate::balance::{lemma_mismatched_parens_are_rejected, lemma_nesting_push};
use crate::binary32::{is_positive, is_zero};
use crate::error::{BinaryOpErr, EvalError, FunctionEvalErr, ShuntingYardError, TreeBuildError};
use crate::eval::{lookup, value_of, Arithmetic, Computation, Environment};
use crate::function::{parsed, ParseFailure};
use crate::laws::{
    binary, lemma_constant_at_every_point, lemma_letter_is_variable, lemma_negation_is_product,
    lemma_negation_value, lemma_unbound_name_is_undefined, operand,
};
use crate::notation::{
    ends_with_minus, grouped, lemma_notation_is_read_as_meant, meaning, placed, spelled,
};
use crate::token::{minus_one, ExpressionOp, InfixSymbol, InfixTokenOperator, SupportedFunction};
use crate::tokenizer::{
    followed_by, function_at, is_decimal, literal_len, name_of, scan, token_at, tokens_of,
};
use crate::tree::Expression;
use crate::unicode::{alphabetic, numeric, white_space, without_whitespace};

verus! {

/// Text without white space stays as it is when white space is removed.
pub proof fn lemma_nothing_to_strip(text: Seq<char>)
    requires
        forall|i: int| 0 <= i < text.len() ==> !white_space(#[trigger] text[i]),
    ensures
        without_whitespace(text) == text,
    decreases text.len(),
{
    reveal(Seq::filter);
    if text.len() > 0 {
        lemma_nothing_to_strip(text.drop_last());
        assert(text.drop_last().push(text.last()) == text);
    }
}

/// No function name begins where the text is shorter than two characters
/// or begins with none of `s`, `e` and `l`.
pub proof fn lemma_no_function_at(input: Seq<char>)
    requires
        input.len() < 2 || !(input[0] == 's' || input[0] == 'e' || input[0] == 'l'),
    ensures
        function_at(input) is None,
{
    let names = seq![
        SupportedFunction::Sine,
        SupportedFunction::Exp,
        SupportedFunction::Ln,
        SupportedFunction::Log10,
        SupportedFunction::Sqrt,
    ];
    assert forall|k: int| 0 <= k < names.len() implies !name_of(#[trigger] names[k]).is_prefix_of(
        input,
    ) by {
        let name = name_of(names[k]);
        if name.is_prefix_of(input) {
            assert(name[0] == input.subrange(0, name.len() as int)[0]);
        }
    }
    assert(names[0] == SupportedFunction::Sine);
    assert(names[1] == SupportedFunction::Exp);
    assert(names[2] == SupportedFunction::Ln);
    assert(names[3] == SupportedFunction::Log10);
    assert(names[4] == SupportedFunction::Sqrt);
}

/// Scanning goes token by token.
pub proof fn lemma_scan_token(text: Seq<char>, at: nat, token: InfixSymbol, n: nat)
    requires
        at < text.len(),
        token_at(text.skip(at as int)) == Some((token, n)),
        0 < n,
        at + n <= text.len(),
    ensures
        scan(text, at) == followed_by(seq![token], scan(text, at + n)),
{
}

/// A letter that begins no function name is a variable.
pub proof fn lemma_letter_token(rest: Seq<char>)
    requires
        rest.len() > 0,
        alphabetic(rest[0]),
        function_at(rest) is None,
    ensures
        token_at(rest) == Some((InfixSymbol::Variable(rest[0]), 1nat)),
{
}

/// One of the characters `+ - * / ^` is its operator.
pub proof fn lemma_operator_token(rest: Seq<char>, op: InfixTokenOperator)
    requires
        rest.len() > 0,
        crate::tokenizer::operator_of(rest[0]) == Some(op),
    ensures
        token_at(rest) == Some((InfixSymbol::Operator(op), 1nat)),
{
    lemma_no_function_at(rest);
}

/// A parenthesis is its token.
pub proof fn lemma_paren_token(rest: Seq<char>)
    requires
        rest.len() > 0,
        rest[0] == '(' || rest[0] == ')',
    ensures
        token_at(rest) == Some(
            (
                if rest[0] == '(' {
                    InfixSymbol::ParenOpen
                } else {
                    InfixSymbol::ParenClose
                },
                1nat,
            ),
        ),
{
    lemma_no_function_at(rest);
}

/// A digit before what is neither numeric nor a point is a literal.
pub proof fn lemma_digit_token(rest: Seq<char>)
    requires
        rest.len() > 0,
        '0' <= rest[0] <= '9',
        rest.len() > 1 ==> !numeric(rest[1]) && rest[1] != '.',
    ensures
        token_at(rest) == Some((InfixSymbol::Literal(seq![rest[0]]), 1nat)),
{
    lemma_no_function_at(rest);
    reveal_with_fuel(literal_len, 2);
    if rest.len() > 1 {
        assert(rest.drop_first()[0] == rest[1]);
    }
    assert(literal_len(rest, false) == 1);
    assert(rest.take(1) == seq![rest[0]]);
    assert(is_decimal(seq![rest[0]]));
}

/// The formula `-c` of a minus sign and a letter is split into the minus
/// sign and the variable.
pub proof fn lemma_minus_letter_tokens(c: char)
    requires
        alphabetic(c),
        !white_space(c),
    ensures
        tokens_of(seq!['-', c]) == Ok::<Seq<InfixSymbol>, nat>(
            seq![
                InfixSymbol::Operator(InfixTokenOperator::SubtractOrNegate),
                InfixSymbol::Variable(c),
            ],
        ),
{
    let text = seq!['-', c];
    let minus = InfixSymbol::Operator(InfixTokenOperator::SubtractOrNegate);
    let variable = InfixSymbol::Variable(c);
    lemma_nothing_to_strip(text);
    assert(text.skip(0) == text);
    assert(text.skip(1) == seq![c]);
    lemma_operator_token(text, InfixTokenOperator::SubtractOrNegate);
    lemma_no_function_at(seq![c]);
    lemma_letter_token(seq![c]);
    lemma_scan_token(text, 0, minus, 1);
    lemma_scan_token(text, 1, variable, 1);
    assert(seq![variable] + Seq::<InfixSymbol>::empty() == seq![variable]);
    assert(seq![minus] + seq![variable] == seq![minus, variable]);
}

/// The formula `-x`, and the like of every letter, evaluates at every point
/// to the product of what `-1` is read as and the value of the variable:
/// its opposite, where the arithmetic is that of numbers.
pub proof fn lemma_negated_variable(c: char, env: Environment, sem: Arithmetic)
    requires
        alphabetic(c),
        !white_space(c),
    ensures
        parsed(seq!['-', c]) is Ok,
        value_of(parsed(seq!['-', c])->Ok_0, env, sem) == match lookup(env, seq![c]) {
            Some(v) => Ok::<u32, EvalError>(
                sem(Computation::Mul(sem(Computation::Parse(minus_one())), v)),
            ),
            None => Err::<u32, EvalError>(EvalError::UndefinedVariable),
        },
{
    lemma_minus_letter_tokens(c);
    lemma_negation_is_product(InfixSymbol::Variable(c));
    lemma_negation_value(c, env, sem);
    reveal_with_fuel(meaning, 2);
}

/// The formula `-x` evaluates, where `x` is `v`, to the product of what
/// `-1` is read as and `v`.
pub proof fn lemma_minus_x(env: Environment, v: u32, sem: Arithmetic)
    requires
        lookup(env, seq!['x']) == Some(v),
    ensures
        parsed(seq!['-', 'x']) is Ok,
        value_of(parsed(seq!['-', 'x'])->Ok_0, env, sem) == Ok::<u32, EvalError>(
            sem(Computation::Mul(sem(Computation::Parse(minus_one())), v)),
        ),
{
    lemma_negated_variable('x', env, sem);
}

/// The formula `1/0` is the quotient of the literals `1` and `0`.
pub proof fn lemma_one_over_zero_parsed()
    ensures
        parsed(seq!['1', '/', '0']) == Ok::<Expression, ParseFailure>(
            Expression::Operation(
                ExpressionOp::Divide,
                Box::new(Expression::Literal(seq!['1'])),
                Box::new(Expression::Literal(seq!['0'])),
            ),
        ),
{
    let text = seq!['1', '/', '0'];
    let one = InfixSymbol::Literal(seq!['1']);
    let over = InfixSymbol::Operator(InfixTokenOperator::Divide);
    let zero = InfixSymbol::Literal(seq!['0']);
    lemma_nothing_to_strip(text);
    assert(text.skip(0) == text);
    assert(text.skip(1) == seq!['/', '0']);
    assert(text.skip(2) == seq!['0']);
    lemma_digit_token(text);
    lemma_operator_token(seq!['/', '0'], InfixTokenOperator::Divide);
    lemma_digit_token(seq!['0']);
    lemma_scan_token(text, 0, one, 1);
    lemma_scan_token(text, 1, over, 1);
    lemma_scan_token(text, 2, zero, 1);
    assert(seq![zero] + Seq::<InfixSymbol>::empty() == seq![zero]);
    assert(seq![over] + seq![zero] == seq![over, zero]);
    assert(seq![one] + seq![over, zero] == seq![one, over, zero]);
    let quotient = binary(InfixTokenOperator::Divide, operand(one), operand(zero));
    reveal_with_fuel(spelled, 2);
    reveal_with_fuel(grouped, 2);
    reveal_with_fuel(placed, 2);
    reveal_with_fuel(meaning, 2);
    reveal_with_fuel(ends_with_minus, 2);
    assert(spelled(quotient) == seq![one, over, zero]);
    lemma_notation_is_read_as_meant(quotient);
}

/// The formula `1/0` fails with a division by zero at every point, whatever
/// is in scope, where the arithmetic reads `1` as a number and `0` as a
/// zero.
pub proof fn lemma_one_over_zero(env: Environment, sem: Arithmetic)
    requires
        is_zero(sem(Computation::Parse(seq!['0']))),
    ensures
        parsed(seq!['1', '/', '0']) is Ok,
        value_of(parsed(seq!['1', '/', '0'])->Ok_0, env, sem) == Err::<u32, EvalError>(
            EvalError::BinaryOpErr(BinaryOpErr::Div0),
        ),
{
    lemma_one_over_zero_parsed();
    reveal_with_fuel(value_of, 2);
}

/// The formula `e`, where a constant `e` is in scope, is that constant at
/// every point, whatever the variable is called: a constant hides a
/// variable of its name.
pub proof fn lemma_e_is_its_constant(
    constants: Environment,
    variable: Seq<char>,
    v: u32,
    sem: Arithmetic,
)
    requires
        lookup(constants, seq!['e']) is Some,
    ensures
        parsed(seq!['e']) is Ok,
        value_of(parsed(seq!['e'])->Ok_0, constants.push((variable, v)), sem) == Ok::<
            u32,
            EvalError,
        >(lookup(constants, seq!['e'])->0),
{
    lemma_letter_is_variable('e');
    lemma_constant_at_every_point(constants, variable, 'e', v, sem);
}

/// The formula `y`, where no constant `y` is in scope and the variable is
/// called otherwise, is undefined at every point.
pub proof fn lemma_y_is_undefined(
    constants: Environment,
    variable: Seq<char>,
    v: u32,
    sem: Arithmetic,
)
    requires
        lookup(constants, seq!['y']) is None,
        variable != seq!['y'],
    ensures
        parsed(seq!['y']) is Ok,
        value_of(parsed(seq!['y'])->Ok_0, constants.push((variable, v)), sem) == Err::<
            u32,
            EvalError,
        >(EvalError::UndefinedVariable),
{
    lemma_letter_is_variable('y');
    lemma_unbound_name_is_undefined(constants, variable, 'y', v, sem);
}

/// The formulas `2x` and `2*x`, and the like of every digit and every
/// letter of `a` to `z` and `A` to `Z`, are parsed to the same expression:
/// the product of the literal and the variable.
pub proof fn lemma_digit_letter_is_product(d: char, c: char)
    requires
        '0' <= d <= '9',
        alphabetic(c),
        !white_space(c),
        c <= '\x7f',
    ensures
        parsed(seq![d, c]) == parsed(seq![d, '*', c]),
        parsed(seq![d, c]) == Ok::<Expression, ParseFailure>(
            Expression::Operation(
                ExpressionOp::Multiply,
                Box::new(Expression::Literal(seq![d])),
                Box::new(Expression::Variable(c)),
            ),
        ),
{
    let digit = InfixSymbol::Literal(seq![d]);
    let times = InfixSymbol::Operator(InfixTokenOperator::Multiply);
    let letter = InfixSymbol::Variable(c);
    let none = Seq::<InfixSymbol>::empty();
    lemma_no_function_at(seq![c]);
    lemma_letter_token(seq![c]);
    assert(seq![letter] + none == seq![letter]);
    // side by side
    let short = seq![d, c];
    lemma_nothing_to_strip(short);
    assert(short.skip(0) == short);
    assert(short.skip(1) == seq![c]);
    lemma_digit_token(short);
    lemma_scan_token(short, 0, digit, 1);
    lemma_scan_token(short, 1, letter, 1);
    assert(seq![digit] + seq![letter] == seq![digit, letter]);
    // with the operator written
    let long = seq![d, '*', c];
    lemma_nothing_to_strip(long);
    assert(long.skip(0) == long);
    assert(long.skip(1) == seq!['*', c]);
    assert(long.skip(2) == seq![c]);
    lemma_digit_token(long);
    lemma_operator_token(seq!['*', c], InfixTokenOperator::Multiply);
    lemma_scan_token(long, 0, digit, 1);
    lemma_scan_token(long, 1, times, 1);
    lemma_scan_token(long, 2, letter, 1);
    assert(seq![times] + seq![letter] == seq![times, letter]);
    assert(seq![digit] + seq![times, letter] == seq![digit, times, letter]);
    crate::laws::lemma_juxtaposition_is_product(digit, letter);
    reveal_with_fuel(meaning, 2);
}

/// The formula `2x` is the formula `2*x`.
pub proof fn lemma_two_x()
    ensures
        parsed(seq!['2', 'x']) == parsed(seq!['2', '*', 'x']),
        parsed(seq!['2', 'x']) is Ok,
{
    lemma_digit_letter_is_product('2', 'x');
}

/// The formulas `(x+1` and `x+1)` are rejected for their parentheses.
pub proof fn lemma_open_or_closed_alone()
    ensures
        parsed(seq!['(', 'x', '+', '1']) == Err::<Expression, ParseFailure>(
            ParseFailure::ShuntingYard(ShuntingYardError::MismatchedParens),
        ),
        parsed(seq!['x', '+', '1', ')']) == Err::<Expression, ParseFailure>(
            ParseFailure::ShuntingYard(ShuntingYardError::MismatchedParens),
        ),
{
    let open = InfixSymbol::ParenOpen;
    let close = InfixSymbol::ParenClose;
    let x = InfixSymbol::Variable('x');
    let plus = InfixSymbol::Operator(InfixTokenOperator::Add);
    let one = InfixSymbol::Literal(seq!['1']);
    let none = Seq::<InfixSymbol>::empty();
    let rest = seq!['x', '+', '1'];
    lemma_no_function_at(rest);
    lemma_letter_token(rest);
    lemma_operator_token(seq!['+', '1'], InfixTokenOperator::Add);
    lemma_operator_token(seq!['+', '1', ')'], InfixTokenOperator::Add);
    lemma_digit_token(seq!['1']);
    lemma_digit_token(seq!['1', ')']);
    lemma_paren_token(seq![')']);
    // a parenthesis left open
    let first = seq!['(', 'x', '+', '1'];
    lemma_nothing_to_strip(first);
    assert(first.skip(0) == first);
    assert(first.skip(1) == rest);
    assert(first.skip(2) == seq!['+', '1']);
    assert(first.skip(3) == seq!['1']);
    lemma_paren_token(first);
    lemma_scan_token(first, 0, open, 1);
    lemma_scan_token(first, 1, x, 1);
    lemma_scan_token(first, 2, plus, 1);
    lemma_scan_token(first, 3, one, 1);
    assert(seq![one] + none == seq![one]);
    assert(seq![plus] + seq![one] == seq![plus, one]);
    assert(seq![x] + seq![plus, one] == seq![x, plus, one]);
    assert(seq![open] + seq![x, plus, one] == seq![open, x, plus, one]);
    let opened = seq![open, x, plus, one];
    assert(opened == none.push(open).push(x).push(plus).push(one));
    lemma_nesting_push(none, open);
    lemma_nesting_push(none.push(open), x);
    lemma_nesting_push(none.push(open).push(x), plus);
    lemma_nesting_push(none.push(open).push(x).push(plus), one);
    lemma_mismatched_parens_are_rejected(opened);
    // a parenthesis closed that was not open
    let second = seq!['x', '+', '1', ')'];
    lemma_nothing_to_strip(second);
    lemma_no_function_at(second);
    lemma_letter_token(second);
    assert(second.skip(0) == second);
    assert(second.skip(1) == seq!['+', '1', ')']);
    assert(second.skip(2) == seq!['1', ')']);
    assert(second.skip(3) == seq![')']);
    lemma_scan_token(second, 0, x, 1);
    lemma_scan_token(second, 1, plus, 1);
    lemma_scan_token(second, 2, one, 1);
    lemma_scan_token(second, 3, close, 1);
    assert(seq![close] + none == seq![close]);
    assert(seq![one] + seq![close] == seq![one, close]);
    assert(seq![plus] + seq![one, close] == seq![plus, one, close]);
    assert(seq![x] + seq![plus, one, close] == seq![x, plus, one, close]);
    let closed = seq![x, plus, one, close];
    assert(closed == none.push(x).push(plus).push(one).push(close));
    lemma_nesting_push(none, x);
    lemma_nesting_push(none.push(x), plus);
    lemma_nesting_push(none.push(x).push(plus), one);
    lemma_nesting_push(none.push(x).push(plus).push(one), close);
    lemma_mismatched_parens_are_rejected(closed);
}

/// The formula `ln(x)` evaluates, where `x` is `v`, to what the arithmetic
/// gives for the logarithm of `v` if `v` is greater than zero, and fails as
/// out of the domain otherwise.
pub proof fn lemma_ln_x(env: Environment, v: u32, sem: Arithmetic)
    requires
        lookup(env, seq!['x']) == Some(v),
    ensures
        parsed(seq!['l', 'n', '(', 'x', ')']) is Ok,
        value_of(parsed(seq!['l', 'n', '(', 'x', ')'])->Ok_0, env, sem) == if is_positive(v) {
            Ok::<u32, EvalError>(sem(Computation::Ln(v)))
        } else {
            Err::<u32, EvalError>(EvalError::FunctionEvalErr(FunctionEvalErr::OutOfDomain))
        },
{
    let text = seq!['l', 'n', '(', 'x', ')'];
    let name = InfixSymbol::Function(SupportedFunction::Ln);
    let open = InfixSymbol::ParenOpen;
    let x = InfixSymbol::Variable('x');
    let close = InfixSymbol::ParenClose;
    let none = Seq::<InfixSymbol>::empty();
    lemma_nothing_to_strip(text);
    assert(text.skip(0) == text);
    assert(text.skip(2) == seq!['(', 'x', ')']);
    assert(text.skip(3) == seq!['x', ')']);
    assert(text.skip(4) == seq![')']);
    // the name is found, and no name before it in the table
    assert(!name_of(SupportedFunction::Sine).is_prefix_of(text)) by {
        if name_of(SupportedFunction::Sine).is_prefix_of(text) {
            assert(name_of(SupportedFunction::Sine)[0] == text.subrange(0, 3)[0]);
        }
    }
    assert(!name_of(SupportedFunction::Exp).is_prefix_of(text)) by {
        if name_of(SupportedFunction::Exp).is_prefix_of(text) {
            assert(name_of(SupportedFunction::Exp)[0] == text.subrange(0, 3)[0]);
        }
    }
    assert(name_of(SupportedFunction::Ln) == text.subrange(0, 2));
    assert(token_at(text) == Some((name, 2nat)));
    lemma_paren_token(seq!['(', 'x', ')']);
    lemma_no_function_at(seq!['x', ')']);
    lemma_letter_token(seq!['x', ')']);
    lemma_paren_token(seq![')']);
    lemma_scan_token(text, 0, name, 2);
    lemma_scan_token(text, 2, open, 1);
    lemma_scan_token(text, 3, x, 1);
    lemma_scan_token(text, 4, close, 1);
    assert(seq![close] + none == seq![close]);
    assert(seq![x] + seq![close] == seq![x, close]);
    assert(seq![open] + seq![x, close] == seq![open, x, close]);
    assert(seq![name] + seq![open, x, close] == seq![name, open, x, close]);
    crate::laws::lemma_call_of_operand(SupportedFunction::Ln, x);
    reveal_with_fuel(meaning, 2);
    reveal_with_fuel(value_of, 2);
}

/// The formula `+` is rejected for want of an operand.
pub proof fn lemma_plus_alone()
    ensures
        parsed(seq!['+']) == Err::<Expression, ParseFailure>(
            ParseFailure::TreeBuild(TreeBuildError::MissingRightOperand),
        ),
{
    let text = seq!['+'];
    let plus = InfixSymbol::Operator(InfixTokenOperator::Add);
    lemma_nothing_to_strip(text);
    assert(text.skip(0) == text);
    lemma_operator_token(text, InfixTokenOperator::Add);
    lemma_scan_token(text, 0, plus, 1);
    assert(seq![plus] + Seq::<InfixSymbol>::empty() == seq![plus]);
    crate::laws::lemma_lone_operator_misses_operand(InfixTokenOperator::Add);
}

} // verus!
