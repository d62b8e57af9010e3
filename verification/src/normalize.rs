//! Rewrites of the infix tokens that make unary minus and juxtaposition
//! explicit before precedence is resolved.

use vstd::prelude::*;
use crate::token::{InfixToken, InfixSymbol, InfixTokenOperator, infix_symbols, minus_one};

verus! {

/// Whether the token at `i` is a minus sign that negates what follows: it is
/// the first token, or it follows an operator or an opening parenthesis.
pub open spec fn is_negation(tokens: Seq<InfixSymbol>, i: int) -> bool {
    &&& 0 <= i < tokens.len()
    &&& tokens[i] == InfixSymbol::Operator(InfixTokenOperator::SubtractOrNegate)
    &&& (i == 0 || tokens[i - 1] is Operator || tokens[i - 1] is ParenOpen)
}

/// What stands for the token at `i` once unary minus is resolved: the
/// literal `-1` and a product marker for a negation, else the token itself.
pub open spec fn minus_resolved_at(tokens: Seq<InfixSymbol>, i: int) -> Seq<InfixSymbol> {
    if is_negation(tokens, i) {
        seq![
            InfixSymbol::Literal(minus_one()),
            InfixSymbol::Operator(InfixTokenOperator::ImplicitMultiply),
        ]
    } else {
        seq![tokens[i]]
    }
}

/// The tokens with every negation replaced as [`minus_resolved_at`] says.
pub open spec fn unary_minus_resolved(tokens: Seq<InfixSymbol>) -> Seq<InfixSymbol>
    decreases tokens.len(),
{
    if tokens.len() == 0 {
        Seq::empty()
    } else {
        unary_minus_resolved(tokens.drop_last()) + minus_resolved_at(tokens, tokens.len() - 1)
    }
}

/// Whether a product is meant where `token` stands directly behind
/// `before`: a literal or a variable before a variable or an opening
/// parenthesis, or a closing parenthesis before an opening one. So `2x`,
/// `2(x)`, `xy`, `x(y)` and `(x)(y)` are products; a literal behind
/// anything, a function name behind an operand, and an operand behind a
/// closing parenthesis are not.
pub open spec fn marks_product(before: InfixSymbol, token: InfixSymbol) -> bool {
    ||| before is Literal && (token is Variable || token is ParenOpen)
    ||| before is Variable && (token is Variable || token is ParenOpen)
    ||| before is ParenClose && token is ParenOpen
}

/// Whether the token at `i` is juxtaposed to the one before it, so that a
/// product is meant.
pub open spec fn is_juxtaposed(tokens: Seq<InfixSymbol>, i: int) -> bool {
    0 < i < tokens.len() && marks_product(tokens[i - 1], tokens[i])
}

/// The tokens with a product marker put before every juxtaposed token.
pub open spec fn products_marked(tokens: Seq<InfixSymbol>) -> Seq<InfixSymbol>
    decreases tokens.len(),
{
    if tokens.len() == 0 {
        Seq::empty()
    } else {
        let i = tokens.len() - 1;
        let before = products_marked(tokens.drop_last());
        if is_juxtaposed(tokens, i) {
            before.push(InfixSymbol::Operator(InfixTokenOperator::ImplicitMultiply)).push(tokens[i])
        } else {
            before.push(tokens[i])
        }
    }
}

/// The tokens as precedence resolution reads them: unary minus resolved
/// first, then juxtaposition marked.
pub open spec fn normalized(tokens: Seq<InfixSymbol>) -> Seq<InfixSymbol> {
    products_marked(unary_minus_resolved(tokens))
}

/// Resolving unary minus in `tokens` and then `token` goes token by token.
pub proof fn lemma_unary_minus_push(tokens: Seq<InfixSymbol>, token: InfixSymbol)
    ensures
        unary_minus_resolved(tokens.push(token)) == unary_minus_resolved(tokens)
            + minus_resolved_at(tokens.push(token), tokens.len() as int),
{
    assert(tokens.push(token).drop_last() == tokens);
}

/// Marking products in `tokens` and then `token` goes token by token.
pub proof fn lemma_products_push(tokens: Seq<InfixSymbol>, token: InfixSymbol)
    ensures
        products_marked(tokens.push(token)) == if is_juxtaposed(
            tokens.push(token),
            tokens.len() as int,
        ) {
            products_marked(tokens).push(
                InfixSymbol::Operator(InfixTokenOperator::ImplicitMultiply),
            ).push(token)
        } else {
            products_marked(tokens).push(token)
        },
{
    assert(tokens.push(token).drop_last() == tokens);
}

fn is_operator_or_open(token: &InfixToken) -> (b: bool)
    ensures
        b == (token@ is Operator || token@ is ParenOpen),
{
    match token {
        InfixToken::Operator(_) => true,
        InfixToken::ParenOpen => true,
        _ => false,
    }
}

fn is_minus(token: &InfixToken) -> (b: bool)
    ensures
        b == (token@ == InfixSymbol::Operator(InfixTokenOperator::SubtractOrNegate)),
{
    match token {
        InfixToken::Operator(InfixTokenOperator::SubtractOrNegate) => true,
        _ => false,
    }
}

fn means_product(before: &InfixToken, token: &InfixToken) -> (b: bool)
    ensures
        b == marks_product(before@, token@),
{
    match before {
        InfixToken::Literal(_) => match token {
            InfixToken::Variable(_) => true,
            InfixToken::ParenOpen => true,
            _ => false,
        },
        InfixToken::Variable(_) => match token {
            InfixToken::Variable(_) => true,
            InfixToken::ParenOpen => true,
            _ => false,
        },
        InfixToken::ParenClose => match token {
            InfixToken::ParenOpen => true,
            _ => false,
        },
        _ => false,
    }
}

/// Replaces every minus sign that negates by the literal `-1` and a product
/// marker, so that `-x` reads as `(-1)x`.
pub fn perform_unary_minus(tokens: &[InfixToken]) -> (output: Vec<InfixToken>)
    ensures
        infix_symbols(output@) == unary_minus_resolved(infix_symbols(tokens@)),
{
    let ghost symbols = infix_symbols(tokens@);
    let mut output: Vec<InfixToken> = Vec::new();
    let mut i: usize = 0;
    while i < tokens.len()
        invariant
            i <= tokens.len(),
            symbols == infix_symbols(tokens@),
            infix_symbols(output@) == unary_minus_resolved(symbols.take(i as int)),
        decreases tokens.len() - i,
    {
        let unary = is_minus(&tokens[i]) && (i == 0 || is_operator_or_open(&tokens[i - 1]));
        proof {
            let prefix = symbols.take(i as int + 1);
            assert(prefix.drop_last() == symbols.take(i as int));
            assert(unary == is_negation(prefix, i as int));
        }
        let ghost before = infix_symbols(output@);
        if unary {
            let mut one: Vec<char> = Vec::new();
            one.push('-');
            one.push('1');
            assert(one@ == minus_one());
            output.push(InfixToken::Literal(one));
            output.push(InfixToken::Operator(InfixTokenOperator::ImplicitMultiply));
        } else {
            output.push(tokens[i].clone());
        }
        assert(infix_symbols(output@) == before + minus_resolved_at(
            symbols.take(i as int + 1),
            i as int,
        ));
        i += 1;
    }
    assert(symbols.take(tokens.len() as int) == symbols);
    output
}

/// Puts a product marker between two tokens wherever a product is meant by
/// their standing side by side, so that `2x` reads as `2*x`.
pub fn insert_implicit_multiplication(tokens: &[InfixToken]) -> (output: Vec<InfixToken>)
    ensures
        infix_symbols(output@) == products_marked(infix_symbols(tokens@)),
{
    let ghost symbols = infix_symbols(tokens@);
    let mut output: Vec<InfixToken> = Vec::new();
    let mut i: usize = 0;
    while i < tokens.len()
        invariant
            i <= tokens.len(),
            symbols == infix_symbols(tokens@),
            infix_symbols(output@) == products_marked(symbols.take(i as int)),
        decreases tokens.len() - i,
    {
        let juxtaposed = i > 0 && means_product(&tokens[i - 1], &tokens[i]);
        proof {
            let prefix = symbols.take(i as int + 1);
            assert(prefix.drop_last() == symbols.take(i as int));
            assert(juxtaposed == is_juxtaposed(prefix, i as int));
        }
        let ghost before = infix_symbols(output@);
        if juxtaposed {
            output.push(InfixToken::Operator(InfixTokenOperator::ImplicitMultiply));
            output.push(tokens[i].clone());
            assert(infix_symbols(output@) == before.push(
                InfixSymbol::Operator(InfixTokenOperator::ImplicitMultiply),
            ).push(symbols[i as int]));
        } else {
            output.push(tokens[i].clone());
            assert(infix_symbols(output@) == before.push(symbols[i as int]));
        }
        i += 1;
    }
    assert(symbols.take(tokens.len() as int) == symbols);
    output
}

} // verus!
