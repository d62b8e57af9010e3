//! Conversion of infix tokens to postfix order by operator precedence.

use vstd::prelude::*;
use crate::acceptance::{calls_parenthesised, lemma_accepted_exactly_if_well_formed};
use crate::balance::balanced;
use crate::error::ShuntingYardError;
use crate::normalize::{insert_implicit_multiplication, normalized, perform_unary_minus};
use crate::token::{
    get_operator_precedence, infix_symbols, is_right_associative, operation_of, postfix_symbols,
    precedence, right_associative, to_operation, copy_text, InfixSymbol, InfixToken,
    InfixTokenOperator, PostfixSymbol, RPNToken, SupportedFunction,
};

verus! {

/// What waits on the operator stack for its operands to be complete.
#[derive(Clone, Copy, Debug, PartialEq, Eq, Structural)]
pub enum Pending {
    Paren,
    Function(SupportedFunction),
    Operator(InfixTokenOperator),
}

/// The state of the conversion: the postfix output so far, and the operator
/// stack with its top at the end.
pub struct Yard {
    pub output: Seq<PostfixSymbol>,
    pub stack: Seq<Pending>,
}

/// Whether the operator `top` on the stack is emitted before `incoming` is
/// pushed: it binds tighter, or as tight while `incoming` groups from the left.
pub open spec fn gives_way(top: InfixTokenOperator, incoming: InfixTokenOperator) -> bool {
    precedence(top) > precedence(incoming) || (precedence(top) == precedence(incoming)
        && !right_associative(incoming))
}

/// The state after the operator on top of the stack has moved to the output.
pub open spec fn emit_top(y: Yard) -> Yard
    recommends
        y.stack.len() > 0,
        y.stack.last() is Operator,
{
    Yard {
        output: y.output.push(PostfixSymbol::ExpressionOp(operation_of(y.stack.last()->Operator_0))),
        stack: y.stack.drop_last(),
    }
}

/// Emits operators from the top of the stack for as long as they give way to
/// `incoming`.
pub open spec fn make_way(y: Yard, incoming: InfixTokenOperator) -> Yard
    decreases y.stack.len(),
{
    if y.stack.len() > 0 && y.stack.last() is Operator && gives_way(
        y.stack.last()->Operator_0,
        incoming,
    ) {
        make_way(emit_top(y), incoming)
    } else {
        y
    }
}

/// Emits the operators above the nearest opening parenthesis and removes that
/// parenthesis. There is no result if the stack holds no parenthesis, or a
/// function name comes to the top first.
pub open spec fn unwind(y: Yard) -> Option<Yard>
    decreases y.stack.len(),
{
    if y.stack.len() == 0 {
        None
    } else {
        match y.stack.last() {
            Pending::Paren => Some(Yard { output: y.output, stack: y.stack.drop_last() }),
            Pending::Operator(_) => unwind(emit_top(y)),
            Pending::Function(_) => None,
        }
    }
}

/// Emits the function name on top of the stack, if there is one: its
/// parenthesised argument is complete.
pub open spec fn finish_call(y: Yard) -> Yard {
    if y.stack.len() > 0 && y.stack.last() is Function {
        Yard {
            output: y.output.push(PostfixSymbol::Function(y.stack.last()->Function_0)),
            stack: y.stack.drop_last(),
        }
    } else {
        y
    }
}

/// The state after one more token, if the token can be placed.
pub open spec fn shift(y: Yard, token: InfixSymbol) -> Option<Yard> {
    match token {
        InfixSymbol::Literal(text) => Some(
            Yard { output: y.output.push(PostfixSymbol::Literal(text)), stack: y.stack },
        ),
        InfixSymbol::Variable(c) => Some(
            Yard { output: y.output.push(PostfixSymbol::Variable(c)), stack: y.stack },
        ),
        InfixSymbol::Function(f) => Some(
            Yard { output: y.output, stack: y.stack.push(Pending::Function(f)) },
        ),
        InfixSymbol::Operator(op) => {
            let z = make_way(y, op);
            Some(Yard { output: z.output, stack: z.stack.push(Pending::Operator(op)) })
        },
        InfixSymbol::ParenOpen => Some(Yard { output: y.output, stack: y.stack.push(Pending::Paren) }),
        InfixSymbol::ParenClose => match unwind(y) {
            Some(z) => Some(finish_call(z)),
            None => None,
        },
    }
}

/// The state after all of `tokens`, read from the left, if each can be placed.
pub open spec fn shift_all(y: Yard, tokens: Seq<InfixSymbol>) -> Option<Yard>
    decreases tokens.len(),
{
    if tokens.len() == 0 {
        Some(y)
    } else {
        match shift_all(y, tokens.drop_last()) {
            Some(z) => shift(z, tokens.last()),
            None => None,
        }
    }
}

/// The output once the stack is emptied onto it. There is no result if a
/// parenthesis or a function name is left on the stack.
pub open spec fn drain(y: Yard) -> Option<Seq<PostfixSymbol>>
    decreases y.stack.len(),
{
    if y.stack.len() == 0 {
        Some(y.output)
    } else {
        match y.stack.last() {
            Pending::Operator(_) => drain(emit_top(y)),
            _ => None,
        }
    }
}

/// The state before any token is read.
pub open spec fn empty_yard() -> Yard {
    Yard { output: Seq::empty(), stack: Seq::empty() }
}

/// The postfix form of a sequence of infix tokens: the tokens are normalized,
/// placed one by one, and the stack is drained.
pub open spec fn postfix_of(tokens: Seq<InfixSymbol>) -> Result<
    Seq<PostfixSymbol>,
    ShuntingYardError,
> {
    match shift_all(empty_yard(), normalized(tokens)) {
        Some(y) => match drain(y) {
            Some(output) => Ok(output),
            None => Err(ShuntingYardError::MismatchedParens),
        },
        None => Err(ShuntingYardError::MismatchedParens),
    }
}

/// Placing the tokens `tokens` and then `token` is placing `token` on what
/// `tokens` leave.
pub proof fn lemma_shift_all_push(y: Yard, tokens: Seq<InfixSymbol>, token: InfixSymbol)
    ensures
        shift_all(y, tokens.push(token)) == match shift_all(y, tokens) {
            Some(z) => shift(z, token),
            None => None,
        },
{
    assert(tokens.push(token).drop_last() == tokens);
}

/// Once a token cannot be placed, no continuation of the input can be.
pub proof fn lemma_shift_all_stays_failed(y: Yard, tokens: Seq<InfixSymbol>, n: int)
    requires
        0 <= n <= tokens.len(),
        shift_all(y, tokens.take(n)) is None,
    ensures
        shift_all(y, tokens) is None,
    decreases tokens.len() - n,
{
    if n < tokens.len() {
        assert(tokens.take(n + 1).drop_last() == tokens.take(n));
        lemma_shift_all_stays_failed(y, tokens, n + 1);
    } else {
        assert(tokens.take(n) == tokens);
    }
}

/// The state that an output and an operator stack stand for.
pub open spec fn yard_of(output: Seq<RPNToken>, opstack: Seq<Pending>) -> Yard {
    Yard { output: postfix_symbols(output), stack: opstack }
}

/// Moves the operator `op`, taken off the stack, to the output.
fn emit(output: &mut Vec<RPNToken>, op: InfixTokenOperator)
    ensures
        postfix_symbols(final(output)@) == postfix_symbols(old(output)@).push(
            PostfixSymbol::ExpressionOp(operation_of(op)),
        ),
{
    let ghost before = postfix_symbols(output@);
    output.push(RPNToken::ExpressionOp(to_operation(op)));
    assert(postfix_symbols(output@) == before.push(PostfixSymbol::ExpressionOp(operation_of(op))));
}

/// Whether what is on top of the stack is an operator that gives way to
/// `incoming`.
fn gives_way_to(top: Pending, incoming: InfixTokenOperator) -> (b: bool)
    ensures
        b == (top is Operator && gives_way(top->Operator_0, incoming)),
{
    match top {
        Pending::Operator(o2) => {
            let p2 = get_operator_precedence(o2);
            let p1 = get_operator_precedence(incoming);
            p2 > p1 || (p1 == p2 && !is_right_associative(incoming))
        },
        _ => false,
    }
}

/// Emits operators from the top of the stack for as long as they give way
/// to `incoming`.
fn make_way_for(output: &mut Vec<RPNToken>, opstack: &mut Vec<Pending>, incoming: InfixTokenOperator)
    ensures
        yard_of(final(output)@, final(opstack)@) == make_way(
            yard_of(old(output)@, old(opstack)@),
            incoming,
        ),
{
    while opstack.len() > 0 && gives_way_to(opstack[opstack.len() - 1], incoming)
        invariant
            make_way(yard_of(old(output)@, old(opstack)@), incoming) == make_way(
                yard_of(output@, opstack@),
                incoming,
            ),
        decreases opstack.len(),
    {
        if let Some(Pending::Operator(top)) = opstack.pop() {
            emit(output, top);
        }
    }
}

/// Closes a parenthesis: emits the operators above the nearest opening
/// parenthesis, removes it, and emits a function name below it. Returns
/// whether there was such a parenthesis, with no function name above it.
fn close_paren(output: &mut Vec<RPNToken>, opstack: &mut Vec<Pending>) -> (closed: bool)
    ensures
        closed == unwind(yard_of(old(output)@, old(opstack)@)) is Some,
        closed ==> yard_of(final(output)@, final(opstack)@) == finish_call(
            unwind(yard_of(old(output)@, old(opstack)@))->0,
        ),
{
    loop
        invariant_except_break
            unwind(yard_of(old(output)@, old(opstack)@)) == unwind(yard_of(output@, opstack@)),
        ensures
            unwind(yard_of(old(output)@, old(opstack)@)) == Some(yard_of(output@, opstack@)),
        decreases opstack.len(),
    {
        match opstack.pop() {
            Some(Pending::Paren) => {
                break ;
            },
            Some(Pending::Operator(op)) => {
                emit(output, op);
            },
            _ => {
                return false;
            },
        }
    }
    if opstack.len() > 0 {
        if let Pending::Function(f) = opstack[opstack.len() - 1] {
            let ghost before = postfix_symbols(output@);
            output.push(RPNToken::Function(f));
            opstack.pop();
            assert(postfix_symbols(output@) == before.push(PostfixSymbol::Function(f)));
        }
    }
    true
}

/// Empties the stack onto the output. Returns whether it held operators
/// alone; nothing is said of the output where it did not.
fn drain_stack(output: &mut Vec<RPNToken>, opstack: &mut Vec<Pending>) -> (drained: bool)
    ensures
        drained == drain(yard_of(old(output)@, old(opstack)@)) is Some,
        drained ==> Some(postfix_symbols(final(output)@)) == drain(
            yard_of(old(output)@, old(opstack)@),
        ),
{
    while opstack.len() > 0
        invariant
            drain(yard_of(old(output)@, old(opstack)@)) == drain(yard_of(output@, opstack@)),
        decreases opstack.len(),
    {
        match opstack.pop() {
            Some(Pending::Operator(op)) => {
                emit(output, op);
            },
            _ => {
                return false;
            },
        }
    }
    true
}

/// Brings infix tokens into postfix order. Unary minus and juxtaposition are
/// resolved first. Operators leave the stack by precedence; `^` alone groups
/// from the right. A function name is emitted when the parenthesis that
/// follows it is closed. The tokens are rejected exactly if their
/// parentheses are not balanced or a function name is not directly followed
/// by an opening parenthesis.
#[verifier::loop_isolation(false)]
pub fn shunting_yard(tokens: Vec<InfixToken>) -> (result: Result<Vec<RPNToken>, ShuntingYardError>)
    ensures
        result is Ok <==> balanced(infix_symbols(tokens@)) && calls_parenthesised(
            infix_symbols(tokens@),
        ),
        result matches Ok(rpn) ==> postfix_of(infix_symbols(tokens@)) == Ok::<
            Seq<PostfixSymbol>,
            ShuntingYardError,
        >(postfix_symbols(rpn@)),
        result matches Err(e) ==> postfix_of(infix_symbols(tokens@)) == Err::<
            Seq<PostfixSymbol>,
            ShuntingYardError,
        >(e),
{
    let resolved = perform_unary_minus(tokens.as_slice());
    let infix = insert_implicit_multiplication(resolved.as_slice());
    let ghost symbols = infix_symbols(infix@);
    proof {
        lemma_accepted_exactly_if_well_formed(infix_symbols(tokens@));
    }
    let mut output: Vec<RPNToken> = Vec::new();
    let mut opstack: Vec<Pending> = Vec::new();
    let mut i: usize = 0;
    assert(symbols.take(0) == Seq::<InfixSymbol>::empty());
    assert(postfix_symbols(output@) == Seq::<PostfixSymbol>::empty());
    while i < infix.len()
        invariant
            i <= infix.len(),
            shift_all(empty_yard(), symbols.take(i as int)) == Some(yard_of(output@, opstack@)),
        decreases infix.len() - i,
    {
        let ghost before = postfix_symbols(output@);
        proof {
            assert(symbols.take(i as int + 1).drop_last() == symbols.take(i as int));
            assert(symbols.take(i as int + 1).last() == infix[i as int]@);
        }
        match &infix[i] {
            InfixToken::Literal(text) => {
                output.push(RPNToken::Literal(copy_text(text)));
                assert(postfix_symbols(output@) == before.push(PostfixSymbol::Literal(text@)));
            },
            InfixToken::Variable(c) => {
                output.push(RPNToken::Variable(*c));
                assert(postfix_symbols(output@) == before.push(PostfixSymbol::Variable(*c)));
            },
            InfixToken::Function(f) => {
                opstack.push(Pending::Function(*f));
            },
            InfixToken::Operator(o1) => {
                make_way_for(&mut output, &mut opstack, *o1);
                opstack.push(Pending::Operator(*o1));
            },
            InfixToken::ParenOpen => {
                opstack.push(Pending::Paren);
            },
            InfixToken::ParenClose => {
                if !close_paren(&mut output, &mut opstack) {
                    proof {
                        lemma_shift_all_stays_failed(empty_yard(), symbols, i as int + 1);
                    }
                    return Err(ShuntingYardError::MismatchedParens);
                }
            },
        }
        i += 1;
    }
    assert(symbols.take(infix.len() as int) == symbols);
    if drain_stack(&mut output, &mut opstack) {
        Ok(output)
    } else {
        Err(ShuntingYardError::MismatchedParens)
    }
}

} // verus!
