//! Parentheses: the nesting of a token sequence, and why tokens with
//! mismatched parentheses have no postfix form.

use vstd::prelude::*;
use crate::error::ShuntingYardError;
use crate::normalize::{
    is_juxtaposed, is_negation, minus_resolved_at, normalized, products_marked,
    unary_minus_resolved,
};
use crate::shunting_yard::{
    drain, emit_top, empty_yard, gives_way, make_way, postfix_of, shift_all, unwind, Pending, Yard,
};
use crate::token::{minus_one, InfixSymbol, InfixTokenOperator, PostfixSymbol};

verus! {

/// The number of parentheses that are open after `tokens`. There is none if
/// a parenthesis is closed that was not opened.
pub open spec fn nesting(tokens: Seq<InfixSymbol>) -> Option<nat>
    decreases tokens.len(),
{
    if tokens.len() == 0 {
        Some(0)
    } else {
        match nesting(tokens.drop_last()) {
            None => None,
            Some(depth) => match tokens.last() {
                InfixSymbol::ParenOpen => Some(depth + 1),
                InfixSymbol::ParenClose => if depth == 0 {
                    None
                } else {
                    Some((depth - 1) as nat)
                },
                _ => Some(depth),
            },
        }
    }
}

/// Whether every parenthesis of `tokens` has its partner.
pub open spec fn balanced(tokens: Seq<InfixSymbol>) -> bool {
    nesting(tokens) == Some(0nat)
}

/// The number of opening parentheses on an operator stack.
pub open spec fn open_parens(stack: Seq<Pending>) -> nat
    decreases stack.len(),
{
    if stack.len() == 0 {
        0
    } else if stack.last() is Paren {
        open_parens(stack.drop_last()) + 1
    } else {
        open_parens(stack.drop_last())
    }
}

/// The nesting after one more token.
pub proof fn lemma_nesting_push(tokens: Seq<InfixSymbol>, token: InfixSymbol)
    ensures
        nesting(tokens.push(token)) == match nesting(tokens) {
            None => None,
            Some(depth) => match token {
                InfixSymbol::ParenOpen => Some(depth + 1),
                InfixSymbol::ParenClose => if depth == 0 {
                    None
                } else {
                    Some((depth - 1) as nat)
                },
                _ => Some(depth),
            },
        },
{
    assert(tokens.push(token).drop_last() == tokens);
}

/// Resolving unary minus leaves the nesting as it is.
pub proof fn lemma_unary_minus_keeps_nesting(tokens: Seq<InfixSymbol>)
    ensures
        nesting(unary_minus_resolved(tokens)) == nesting(tokens),
    decreases tokens.len(),
{
    if tokens.len() > 0 {
        let before = tokens.drop_last();
        let resolved = unary_minus_resolved(before);
        lemma_unary_minus_keeps_nesting(before);
        let i = tokens.len() - 1;
        if is_negation(tokens, i) {
            let one = InfixSymbol::Literal(minus_one());
            let mark = InfixSymbol::Operator(InfixTokenOperator::ImplicitMultiply);
            assert(resolved + minus_resolved_at(tokens, i) == resolved.push(one).push(mark));
            lemma_nesting_push(resolved, one);
            lemma_nesting_push(resolved.push(one), mark);
        } else {
            assert(resolved + minus_resolved_at(tokens, i) == resolved.push(tokens.last()));
            lemma_nesting_push(resolved, tokens.last());
        }
    }
}

/// Marking products leaves the nesting as it is.
pub proof fn lemma_products_keep_nesting(tokens: Seq<InfixSymbol>)
    ensures
        nesting(products_marked(tokens)) == nesting(tokens),
    decreases tokens.len(),
{
    if tokens.len() > 0 {
        let before = tokens.drop_last();
        let marked = products_marked(before);
        lemma_products_keep_nesting(before);
        let mark = InfixSymbol::Operator(InfixTokenOperator::ImplicitMultiply);
        if is_juxtaposed(tokens, tokens.len() - 1) {
            lemma_nesting_push(marked, mark);
            lemma_nesting_push(marked.push(mark), tokens.last());
        } else {
            lemma_nesting_push(marked, tokens.last());
        }
    }
}

/// Normalizing leaves the nesting as it is.
pub proof fn lemma_normalized_keeps_nesting(tokens: Seq<InfixSymbol>)
    ensures
        nesting(normalized(tokens)) == nesting(tokens),
{
    lemma_unary_minus_keeps_nesting(tokens);
    lemma_products_keep_nesting(unary_minus_resolved(tokens));
}

/// Making way for an operator takes no parenthesis off the stack.
pub proof fn lemma_make_way_keeps_parens(y: Yard, incoming: InfixTokenOperator)
    ensures
        open_parens(make_way(y, incoming).stack) == open_parens(y.stack),
    decreases y.stack.len(),
{
    if y.stack.len() > 0 && y.stack.last() is Operator && gives_way(
        y.stack.last()->Operator_0,
        incoming,
    ) {
        lemma_make_way_keeps_parens(emit_top(y), incoming);
    }
}

/// Closing a parenthesis takes exactly one parenthesis off the stack.
pub proof fn lemma_unwind_takes_one_paren(y: Yard)
    requires
        unwind(y) is Some,
    ensures
        open_parens(y.stack) == open_parens(unwind(y)->0.stack) + 1,
    decreases y.stack.len(),
{
    if y.stack.last() is Operator {
        lemma_unwind_takes_one_paren(emit_top(y));
    }
}

/// The stack can be drained only if it holds no parenthesis.
pub proof fn lemma_drained_has_no_parens(y: Yard)
    requires
        drain(y) is Some,
    ensures
        open_parens(y.stack) == 0,
    decreases y.stack.len(),
{
    if y.stack.len() > 0 {
        lemma_drained_has_no_parens(emit_top(y));
    }
}

/// While tokens are placed, the parentheses on the stack are those that
/// are open.
pub proof fn lemma_stack_holds_open_parens(tokens: Seq<InfixSymbol>)
    requires
        shift_all(empty_yard(), tokens) is Some,
    ensures
        nesting(tokens) == Some(open_parens(shift_all(empty_yard(), tokens)->0.stack)),
    decreases tokens.len(),
{
    if tokens.len() > 0 {
        let before = tokens.drop_last();
        lemma_stack_holds_open_parens(before);
        let y = shift_all(empty_yard(), before)->0;
        match tokens.last() {
            InfixSymbol::Operator(op) => {
                lemma_make_way_keeps_parens(y, op);
                let z = make_way(y, op);
                assert(z.stack.push(Pending::Operator(op)).drop_last() == z.stack);
            },
            InfixSymbol::ParenClose => {
                lemma_unwind_takes_one_paren(y);
            },
            InfixSymbol::ParenOpen => {
                assert(y.stack.push(Pending::Paren).drop_last() == y.stack);
            },
            InfixSymbol::Function(f) => {
                assert(y.stack.push(Pending::Function(f)).drop_last() == y.stack);
            },
            _ => {},
        }
    }
}

/// Tokens whose parentheses are mismatched have no postfix form: one that
/// is closed without being open, or left open at the end, is an error.
pub proof fn lemma_mismatched_parens_are_rejected(tokens: Seq<InfixSymbol>)
    requires
        !balanced(tokens),
    ensures
        postfix_of(tokens) == Err::<Seq<PostfixSymbol>, ShuntingYardError>(
            ShuntingYardError::MismatchedParens,
        ),
{
    lemma_normalized_keeps_nesting(tokens);
    if shift_all(empty_yard(), normalized(tokens)) is Some {
        lemma_stack_holds_open_parens(normalized(tokens));
        let y = shift_all(empty_yard(), normalized(tokens))->0;
        if drain(y) is Some {
            lemma_drained_has_no_parens(y);
        }
    }
}

} // verus!
