//! Which token sequences have a postfix form: exactly those whose
//! parentheses are balanced and whose function names are each directly
//! followed by an opening parenthesis.

use vstd::prelude::*;
use crate::balance::{
    balanced, lemma_mismatched_parens_are_rejected, lemma_normalized_keeps_nesting,
    lemma_stack_holds_open_parens, nesting, open_parens,
};
use crate::normalize::{
    is_juxtaposed, is_negation, minus_resolved_at, normalized, products_marked,
    unary_minus_resolved,
};
use crate::shunting_yard::{
    drain, emit_top, empty_yard, finish_call, gives_way, make_way, postfix_of, shift, shift_all,
    unwind, Pending, Yard,
};
use crate::token::{minus_one, InfixSymbol, InfixTokenOperator};

verus! {

/// Whether the token at `i`, if it is a function name, is directly followed
/// by an opening parenthesis.
pub open spec fn call_is_parenthesised(tokens: Seq<InfixSymbol>, i: int) -> bool {
    tokens[i] is Function ==> i + 1 < tokens.len() && tokens[i + 1] is ParenOpen
}

/// Whether every function name is directly followed by an opening
/// parenthesis.
pub open spec fn calls_parenthesised(tokens: Seq<InfixSymbol>) -> bool {
    forall|i: int| 0 <= i < tokens.len() ==> #[trigger] call_is_parenthesised(tokens, i)
}

/// The state of a scan for function names: there is none if a function name
/// is followed by something else than an opening parenthesis; otherwise it
/// says whether the last token is a function name, which waits for its
/// parenthesis.
pub open spec fn call_state(tokens: Seq<InfixSymbol>) -> Option<bool>
    decreases tokens.len(),
{
    if tokens.len() == 0 {
        Some(false)
    } else {
        match call_state(tokens.drop_last()) {
            None => None,
            Some(waiting) => if waiting {
                if tokens.last() is ParenOpen {
                    Some(false)
                } else {
                    None
                }
            } else {
                Some(tokens.last() is Function)
            },
        }
    }
}

/// The scan after one more token.
pub proof fn lemma_call_state_push(tokens: Seq<InfixSymbol>, token: InfixSymbol)
    ensures
        call_state(tokens.push(token)) == match call_state(tokens) {
            None => None,
            Some(waiting) => if waiting {
                if token is ParenOpen {
                    Some(false)
                } else {
                    None
                }
            } else {
                Some(token is Function)
            },
        },
{
    assert(tokens.push(token).drop_last() == tokens);
}

/// What the scan says: it goes through exactly if every function name but
/// the last token is followed by an opening parenthesis, and then tells
/// whether the last token is a function name.
pub proof fn lemma_call_state_meaning(tokens: Seq<InfixSymbol>)
    ensures
        call_state(tokens) is Some <==> forall|i: int|
            0 <= i < tokens.len() - 1 ==> #[trigger] call_is_parenthesised(tokens, i),
        call_state(tokens) matches Some(waiting) ==> waiting == (tokens.len() > 0
            && tokens.last() is Function),
    decreases tokens.len(),
{
    if tokens.len() > 0 {
        let before = tokens.drop_last();
        lemma_call_state_meaning(before);
        let n = tokens.len() as int;
        if call_state(tokens) is Some {
            assert forall|i: int| 0 <= i < n - 1 implies #[trigger] call_is_parenthesised(
                tokens,
                i,
            ) by {
                if i < n - 2 {
                    assert(call_is_parenthesised(before, i));
                }
            }
        }
        if forall|i: int| 0 <= i < n - 1 ==> #[trigger] call_is_parenthesised(tokens, i) {
            assert forall|i: int| 0 <= i < before.len() - 1 implies #[trigger] call_is_parenthesised(
                before,
                i,
            ) by {
                assert(call_is_parenthesised(tokens, i));
            }
            if n >= 2 {
                assert(call_is_parenthesised(tokens, n - 2));
            }
        }
    }
}

/// Every function name is directly followed by an opening parenthesis
/// exactly if the scan goes through and nothing waits at the end.
pub proof fn lemma_calls_parenthesised_by_scan(tokens: Seq<InfixSymbol>)
    ensures
        calls_parenthesised(tokens) <==> call_state(tokens) == Some(false),
{
    lemma_call_state_meaning(tokens);
    let n = tokens.len() as int;
    if calls_parenthesised(tokens) {
        if n > 0 {
            assert(call_is_parenthesised(tokens, n - 1));
        }
        assert forall|i: int| 0 <= i < n - 1 implies #[trigger] call_is_parenthesised(tokens, i) by {}
    }
    if call_state(tokens) == Some(false) {
        assert forall|i: int| 0 <= i < n implies #[trigger] call_is_parenthesised(tokens, i) by {}
    }
}

/// Resolving unary minus leaves the scan for function names as it is.
pub proof fn lemma_unary_minus_keeps_calls(tokens: Seq<InfixSymbol>)
    ensures
        call_state(unary_minus_resolved(tokens)) == call_state(tokens),
    decreases tokens.len(),
{
    if tokens.len() > 0 {
        let before = tokens.drop_last();
        let resolved = unary_minus_resolved(before);
        lemma_unary_minus_keeps_calls(before);
        lemma_call_state_meaning(before);
        let i = tokens.len() - 1;
        if is_negation(tokens, i) {
            let one = InfixSymbol::Literal(minus_one());
            let mark = InfixSymbol::Operator(InfixTokenOperator::ImplicitMultiply);
            assert(resolved + minus_resolved_at(tokens, i) == resolved.push(one).push(mark));
            lemma_call_state_push(resolved, one);
            lemma_call_state_push(resolved.push(one), mark);
            if i > 0 {
                assert(before.last() == tokens[i - 1]);
            }
        } else {
            assert(resolved + minus_resolved_at(tokens, i) == resolved.push(tokens.last()));
            lemma_call_state_push(resolved, tokens.last());
        }
    }
}

/// Marking products leaves the scan for function names as it is.
pub proof fn lemma_products_keep_calls(tokens: Seq<InfixSymbol>)
    ensures
        call_state(products_marked(tokens)) == call_state(tokens),
    decreases tokens.len(),
{
    if tokens.len() > 0 {
        let before = tokens.drop_last();
        let marked = products_marked(before);
        lemma_products_keep_calls(before);
        lemma_call_state_meaning(before);
        let mark = InfixSymbol::Operator(InfixTokenOperator::ImplicitMultiply);
        let i = tokens.len() - 1;
        if is_juxtaposed(tokens, i) {
            assert(before.last() == tokens[i - 1]);
            lemma_call_state_push(marked, mark);
            lemma_call_state_push(marked.push(mark), tokens.last());
        } else {
            lemma_call_state_push(marked, tokens.last());
        }
    }
}

/// Once products are marked, no token is juxtaposed, and the last token is
/// the one that was last.
pub proof fn lemma_products_marked_leave_none(tokens: Seq<InfixSymbol>)
    ensures
        forall|i: int| 0 <= i < products_marked(tokens).len() ==> !is_juxtaposed(
            products_marked(tokens),
            i,
        ),
        tokens.len() > 0 ==> products_marked(tokens).len() > 0 && products_marked(tokens).last()
            == tokens.last(),
        tokens.len() == 0 ==> products_marked(tokens).len() == 0,
    decreases tokens.len(),
{
    if tokens.len() > 0 {
        let before = tokens.drop_last();
        let marked = products_marked(before);
        lemma_products_marked_leave_none(before);
        let mark = InfixSymbol::Operator(InfixTokenOperator::ImplicitMultiply);
        let n = tokens.len() - 1;
        let all = products_marked(tokens);
        assert forall|i: int| 0 <= i < all.len() implies !is_juxtaposed(all, i) by {
            if i < marked.len() {
                assert(!is_juxtaposed(marked, i));
                assert(all[i] == marked[i]);
                if i > 0 {
                    assert(all[i - 1] == marked[i - 1]);
                }
            } else if is_juxtaposed(tokens, n) {
                if i == marked.len() {
                    assert(all[i] == mark);
                } else {
                    assert(all[i - 1] == mark);
                }
            } else {
                assert(all[i] == tokens.last());
                if i > 0 {
                    assert(all[i - 1] == marked.last());
                    assert(before.last() == tokens[n - 1]);
                }
            }
        }
    }
}

/// Whether a function name at `j` on the stack has an opening parenthesis
/// directly above it.
pub open spec fn call_has_paren(stack: Seq<Pending>, j: int) -> bool {
    stack[j] is Function ==> stack[j + 1] is Paren
}

/// Whether every function name on the stack has an opening parenthesis
/// directly above it, but one on top where `waiting` says so.
pub open spec fn calls_wait_for_parens(stack: Seq<Pending>, waiting: bool) -> bool {
    &&& forall|j: int| 0 <= j < stack.len() - 1 ==> #[trigger] call_has_paren(stack, j)
    &&& waiting == (stack.len() > 0 && stack.last() is Function)
}

/// Making way takes operators off the top of the stack and nothing else.
pub proof fn lemma_make_way_pops_operators(y: Yard, incoming: InfixTokenOperator)
    ensures
        make_way(y, incoming).stack.len() <= y.stack.len(),
        make_way(y, incoming).stack == y.stack.take(make_way(y, incoming).stack.len() as int),
        forall|j: int|
            make_way(y, incoming).stack.len() <= j < y.stack.len() ==> #[trigger] y.stack[j] is Operator,
    decreases y.stack.len(),
{
    if y.stack.len() > 0 && y.stack.last() is Operator && gives_way(
        y.stack.last()->Operator_0,
        incoming,
    ) {
        lemma_make_way_pops_operators(emit_top(y), incoming);
        let k = make_way(y, incoming).stack.len() as int;
        assert(y.stack.drop_last().take(k) == y.stack.take(k));
        assert forall|j: int| k <= j < y.stack.len() implies #[trigger] y.stack[j] is Operator by {
            if j < y.stack.len() - 1 {
                assert(y.stack.drop_last()[j] is Operator);
            }
        }
    } else {
        assert(y.stack.take(y.stack.len() as int) == y.stack);
    }
}

/// Closing a parenthesis takes the operators above the nearest opening
/// parenthesis off the stack, and that parenthesis.
pub proof fn lemma_unwind_pops_to_paren(y: Yard)
    requires
        unwind(y) is Some,
    ensures
        unwind(y)->0.stack.len() < y.stack.len(),
        unwind(y)->0.stack == y.stack.take(unwind(y)->0.stack.len() as int),
        y.stack[unwind(y)->0.stack.len() as int] is Paren,
        forall|j: int|
            unwind(y)->0.stack.len() < j < y.stack.len() ==> #[trigger] y.stack[j] is Operator,
    decreases y.stack.len(),
{
    if y.stack.last() is Operator {
        lemma_unwind_pops_to_paren(emit_top(y));
        let k = unwind(y)->0.stack.len() as int;
        assert(y.stack.drop_last().take(k) == y.stack.take(k));
        assert(y.stack.drop_last()[k] == y.stack[k]);
        assert forall|j: int| k < j < y.stack.len() implies #[trigger] y.stack[j] is Operator by {
            if j < y.stack.len() - 1 {
                assert(y.stack.drop_last()[j] is Operator);
            }
        }
    } else {
        assert(y.stack.drop_last() == y.stack.take(y.stack.len() - 1));
    }
}

/// A stack on which no function name waits on top, and which holds an
/// opening parenthesis, can be unwound.
pub proof fn lemma_unwind_finds_paren(y: Yard)
    requires
        calls_wait_for_parens(y.stack, false),
        open_parens(y.stack) > 0,
    ensures
        unwind(y) is Some,
    decreases y.stack.len(),
{
    if y.stack.last() is Operator {
        let below = y.stack.drop_last();
        let n = y.stack.len() as int;
        assert forall|j: int| 0 <= j < below.len() - 1 implies #[trigger] call_has_paren(
            below,
            j,
        ) by {
            assert(call_has_paren(y.stack, j));
        }
        if below.len() > 0 {
            assert(call_has_paren(y.stack, n - 2));
        }
        lemma_unwind_finds_paren(emit_top(y));
    }
}

/// The stack can be drained exactly if it holds operators alone.
pub proof fn lemma_drain_needs_operators(y: Yard)
    ensures
        drain(y) is Some <==> forall|j: int| 0 <= j < y.stack.len() ==> #[trigger] y.stack[j] is Operator,
    decreases y.stack.len(),
{
    if y.stack.len() > 0 {
        let n = y.stack.len() as int;
        if y.stack.last() is Operator {
            lemma_drain_needs_operators(emit_top(y));
            let below = y.stack.drop_last();
            if drain(y) is Some {
                assert forall|j: int| 0 <= j < n implies #[trigger] y.stack[j] is Operator by {
                    if j < n - 1 {
                        assert(below[j] is Operator);
                    }
                }
            }
            if forall|j: int| 0 <= j < n ==> #[trigger] y.stack[j] is Operator {
                assert forall|j: int| 0 <= j < below.len() implies #[trigger] below[j] is Operator by {
                    assert(y.stack[j] is Operator);
                }
            }
        } else {
            assert(!(y.stack[n - 1] is Operator));
        }
    }
}

/// A stack without an opening parenthesis counts none.
pub proof fn lemma_no_open_parens(stack: Seq<Pending>)
    requires
        open_parens(stack) == 0,
    ensures
        forall|j: int| 0 <= j < stack.len() ==> !(#[trigger] stack[j] is Paren),
    decreases stack.len(),
{
    if stack.len() > 0 {
        lemma_no_open_parens(stack.drop_last());
        assert forall|j: int| 0 <= j < stack.len() implies !(#[trigger] stack[j] is Paren) by {
            if j < stack.len() - 1 {
                assert(stack.drop_last()[j] == stack[j]);
            }
        }
    }
}

/// While parentheses are closed only when open, and function names are
/// followed by opening parentheses, every token can be placed, and every
/// function name on the stack has its parenthesis above it.
pub proof fn lemma_accepted_so_far(tokens: Seq<InfixSymbol>)
    requires
        call_state(tokens) is Some,
        nesting(tokens) is Some,
    ensures
        shift_all(empty_yard(), tokens) is Some,
        calls_wait_for_parens(shift_all(empty_yard(), tokens)->0.stack, call_state(tokens)->0),
    decreases tokens.len(),
{
    if tokens.len() > 0 {
        let before = tokens.drop_last();
        lemma_accepted_so_far(before);
        lemma_stack_holds_open_parens(before);
        let y = shift_all(empty_yard(), before)->0;
        let waiting = call_state(before)->0;
        let n = y.stack.len() as int;
        match tokens.last() {
            InfixSymbol::Operator(op) => {
                lemma_make_way_pops_operators(y, op);
                let z = make_way(y, op);
                let k = z.stack.len() as int;
                let stack = z.stack.push(Pending::Operator(op));
                assert forall|j: int| 0 <= j < stack.len() - 1 implies #[trigger] call_has_paren(
                    stack,
                    j,
                ) by {
                    assert(stack[j] == y.stack[j]);
                    if j < n - 1 {
                        assert(call_has_paren(y.stack, j));
                    }
                    if j + 1 < k {
                        assert(stack[j + 1] == y.stack[j + 1]);
                    } else if k < n {
                        assert(y.stack[k] is Operator);
                    }
                }
            },
            InfixSymbol::ParenClose => {
                lemma_unwind_finds_paren(y);
                lemma_unwind_pops_to_paren(y);
                let z = unwind(y)->0;
                let k = z.stack.len() as int;
                let stack = finish_call(z).stack;
                assert forall|j: int| 0 <= j < stack.len() - 1 implies #[trigger] call_has_paren(
                    stack,
                    j,
                ) by {
                    assert(stack[j] == y.stack[j]);
                    assert(stack[j + 1] == y.stack[j + 1]);
                    assert(call_has_paren(y.stack, j));
                }
                if stack.len() > 0 && stack.last() is Function {
                    let top = stack.len() - 1;
                    assert(stack[top] == y.stack[top]);
                    assert(call_has_paren(y.stack, top));
                    assert(y.stack[top + 1] == z.stack[top + 1]);
                }
            },
            InfixSymbol::ParenOpen => {
                let stack = y.stack.push(Pending::Paren);
                assert forall|j: int| 0 <= j < stack.len() - 1 implies #[trigger] call_has_paren(
                    stack,
                    j,
                ) by {
                    assert(stack[j] == y.stack[j]);
                    if j + 1 < n {
                        assert(call_has_paren(y.stack, j));
                        assert(stack[j + 1] == y.stack[j + 1]);
                    }
                }
            },
            InfixSymbol::Function(f) => {
                let stack = y.stack.push(Pending::Function(f));
                assert forall|j: int| 0 <= j < stack.len() - 1 implies #[trigger] call_has_paren(
                    stack,
                    j,
                ) by {
                    assert(stack[j] == y.stack[j]);
                    if j + 1 < n {
                        assert(call_has_paren(y.stack, j));
                        assert(stack[j + 1] == y.stack[j + 1]);
                    }
                }
            },
            _ => {},
        }
    }
}

/// Tokens whose parentheses are balanced and whose function names are
/// followed by opening parentheses can be placed and the stack be drained.
pub proof fn lemma_well_formed_is_accepted(tokens: Seq<InfixSymbol>)
    requires
        call_state(tokens) == Some(false),
        nesting(tokens) == Some(0nat),
    ensures
        shift_all(empty_yard(), tokens) matches Some(y) && drain(y) is Some,
{
    lemma_accepted_so_far(tokens);
    lemma_stack_holds_open_parens(tokens);
    let y = shift_all(empty_yard(), tokens)->0;
    lemma_no_open_parens(y.stack);
    let n = y.stack.len() as int;
    assert forall|j: int| 0 <= j < n implies #[trigger] y.stack[j] is Operator by {
        if j < n - 1 {
            assert(call_has_paren(y.stack, j));
        }
    }
    lemma_drain_needs_operators(y);
}

/// Whether an operand may end with this token.
pub open spec fn ends_operand(token: InfixSymbol) -> bool {
    token is Variable || token is ParenClose || token is Literal
}

/// Whether a function name on the stack can no longer get its parenthesis:
/// something else lies on it, or it is on top behind the end of an operand.
pub open spec fn call_is_lost(stack: Seq<Pending>, last: InfixSymbol, j: int) -> bool {
    &&& 0 <= j < stack.len()
    &&& stack[j] is Function
    &&& if j + 1 < stack.len() {
        !(stack[j + 1] is Paren)
    } else {
        ends_operand(last)
    }
}

/// A function name that cannot get its parenthesis stays on the stack,
/// whatever token is placed next, unless that is a parenthesis which opens
/// directly behind the end of an operand.
pub proof fn lemma_lost_call_stays(y: Yard, last: InfixSymbol, j: int, token: InfixSymbol)
    requires
        call_is_lost(y.stack, last, j),
        !(ends_operand(last) && token is ParenOpen),
        shift(y, token) is Some,
    ensures
        exists|k: int| call_is_lost(shift(y, token)->0.stack, token, k),
{
    let n = y.stack.len() as int;
    let after = shift(y, token)->0.stack;
    match token {
        InfixSymbol::Operator(op) => {
            lemma_make_way_pops_operators(y, op);
            let z = make_way(y, op);
            let k = z.stack.len() as int;
            if k <= j {
                assert(y.stack[j] is Operator);
            }
            assert(after[j] == y.stack[j]);
            if j + 1 < k {
                assert(after[j + 1] == y.stack[j + 1]);
            }
            assert(call_is_lost(after, token, j));
        },
        InfixSymbol::ParenClose => {
            lemma_unwind_pops_to_paren(y);
            let z = unwind(y)->0;
            let k = z.stack.len() as int;
            if k < j {
                assert(y.stack[j] is Operator);
            }
            assert(k > j + 1) by {
                if k == j + 1 {
                    assert(y.stack[k] is Paren);
                }
            }
            assert(z.stack[j] == y.stack[j]);
            assert(z.stack[j + 1] == y.stack[j + 1]);
            assert(after[j] == y.stack[j]);
            if j + 1 < after.len() {
                assert(after[j + 1] == y.stack[j + 1]);
            }
            assert(call_is_lost(after, token, j));
        },
        InfixSymbol::ParenOpen => {
            assert(after[j] == y.stack[j]);
            if j + 1 < n {
                assert(after[j + 1] == y.stack[j + 1]);
            }
            assert(call_is_lost(after, token, j));
        },
        InfixSymbol::Function(f) => {
            assert(after[j] == y.stack[j]);
            if j + 1 < n {
                assert(after[j + 1] == y.stack[j + 1]);
            }
            assert(call_is_lost(after, token, j));
        },
        _ => {
            assert(call_is_lost(after, token, j));
        },
    }
}

/// Where a function name is followed by something else than an opening
/// parenthesis, and no token is juxtaposed, a function name on the stack
/// can no longer get its parenthesis.
pub proof fn lemma_unparenthesised_call_is_lost(tokens: Seq<InfixSymbol>)
    requires
        call_state(tokens) is None,
        forall|i: int| 0 <= i < tokens.len() ==> !is_juxtaposed(tokens, i),
        shift_all(empty_yard(), tokens) is Some,
    ensures
        tokens.len() > 0,
        exists|k: int| call_is_lost(shift_all(empty_yard(), tokens)->0.stack, tokens.last(), k),
    decreases tokens.len(),
{
    let before = tokens.drop_last();
    let token = tokens.last();
    let y = shift_all(empty_yard(), before)->0;
    let n = tokens.len() as int;
    assert forall|i: int| 0 <= i < before.len() implies !is_juxtaposed(before, i) by {
        assert(!is_juxtaposed(tokens, i));
    }
    if call_state(before) is None {
        lemma_unparenthesised_call_is_lost(before);
        let j = choose|j: int| call_is_lost(y.stack, before.last(), j);
        assert(!is_juxtaposed(tokens, n - 1));
        assert(before.last() == tokens[n - 2]);
        lemma_lost_call_stays(y, before.last(), j, token);
    } else {
        // the last token before is a function name, on top of the stack
        lemma_call_state_meaning(before);
        let f = before.last()->Function_0;
        let y0 = shift_all(empty_yard(), before.drop_last())->0;
        assert(y.stack == y0.stack.push(Pending::Function(f)));
        let top = y.stack.len() - 1;
        let after = shift(y, token)->0.stack;
        match token {
            InfixSymbol::Operator(op) => {
                assert(make_way(y, op) == y);
                assert(after[top] == y.stack[top]);
                assert(call_is_lost(after, token, top));
            },
            InfixSymbol::Function(g) => {
                assert(after[top] == y.stack[top]);
                assert(call_is_lost(after, token, top));
            },
            InfixSymbol::ParenClose => {
                assert(unwind(y) is None);
            },
            _ => {
                assert(call_is_lost(after, token, top));
            },
        }
    }
}

/// Tokens of which a function name is not followed by an opening
/// parenthesis, and none is juxtaposed, cannot be placed and drained.
pub proof fn lemma_unparenthesised_call_is_rejected(tokens: Seq<InfixSymbol>)
    requires
        call_state(tokens) != Some(false),
        forall|i: int| 0 <= i < tokens.len() ==> !is_juxtaposed(tokens, i),
    ensures
        shift_all(empty_yard(), tokens) matches Some(y) ==> drain(y) is None,
{
    if shift_all(empty_yard(), tokens) is Some {
        let y = shift_all(empty_yard(), tokens)->0;
        lemma_drain_needs_operators(y);
        if call_state(tokens) is None {
            lemma_unparenthesised_call_is_lost(tokens);
            let k = choose|k: int| call_is_lost(y.stack, tokens.last(), k);
            assert(!(y.stack[k] is Operator));
        } else {
            lemma_call_state_meaning(tokens);
            let f = tokens.last()->Function_0;
            let y0 = shift_all(empty_yard(), tokens.drop_last())->0;
            assert(y.stack == y0.stack.push(Pending::Function(f)));
            assert(!(y.stack[y.stack.len() - 1] is Operator));
        }
    }
}

/// Tokens have a postfix form exactly if their parentheses are balanced and
/// every function name is directly followed by an opening parenthesis.
pub proof fn lemma_accepted_exactly_if_well_formed(tokens: Seq<InfixSymbol>)
    ensures
        postfix_of(tokens) is Ok <==> balanced(tokens) && calls_parenthesised(tokens),
{
    let normal = normalized(tokens);
    lemma_normalized_keeps_nesting(tokens);
    lemma_unary_minus_keeps_calls(tokens);
    lemma_products_keep_calls(unary_minus_resolved(tokens));
    lemma_products_marked_leave_none(unary_minus_resolved(tokens));
    lemma_calls_parenthesised_by_scan(tokens);
    if balanced(tokens) {
        if calls_parenthesised(tokens) {
            lemma_well_formed_is_accepted(normal);
        } else {
            lemma_unparenthesised_call_is_rejected(normal);
        }
    } else {
        lemma_mismatched_parens_are_rejected(tokens);
    }
}

} // verus!
