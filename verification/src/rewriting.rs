//! Why the written tokens of a notation are normalized to its normal form:
//! the minus signs that negate become the literal `-1` and a product, and
//! the operands that stand side by side get their operator.

use vstd::prelude::*;
use crate::acceptance::ends_operand;
use crate::normalize::{
    is_juxtaposed, is_negation, marks_product, minus_resolved_at, normalized, products_marked,
    unary_minus_resolved,
};
use crate::notation::{
    ends_with_minus, in_parens, lemma_placed_wherever, normal_form, placed, spelled, Notation,
};
use crate::token::{minus_one, InfixSymbol, InfixTokenOperator};

verus! {

/// The token before position `i` of `tokens`, where `before` precedes them.
pub open spec fn token_before(before: Option<InfixSymbol>, tokens: Seq<InfixSymbol>, i: int) -> Option<
    InfixSymbol,
> {
    if i == 0 {
        before
    } else {
        Some(tokens[i - 1])
    }
}

/// The last token of `tokens`, or `before` where there is none.
pub open spec fn last_token(before: Option<InfixSymbol>, tokens: Seq<InfixSymbol>) -> Option<
    InfixSymbol,
> {
    token_before(before, tokens, tokens.len() as int)
}

/// The minus sign.
pub open spec fn minus_sign() -> InfixSymbol {
    InfixSymbol::Operator(InfixTokenOperator::SubtractOrNegate)
}

/// The operator of a product that is not written.
pub open spec fn product_mark() -> InfixSymbol {
    InfixSymbol::Operator(InfixTokenOperator::ImplicitMultiply)
}

/// The literal that a negating minus sign stands for.
pub open spec fn minus_one_literal() -> InfixSymbol {
    InfixSymbol::Literal(minus_one())
}

/// Whether a minus sign behind `before` negates.
pub open spec fn negating_behind(before: Option<InfixSymbol>) -> bool {
    before is None || before->0 is Operator || before->0 is ParenOpen
}

/// What stands for `token` behind `before` once unary minus is resolved.
pub open spec fn resolved_one(before: Option<InfixSymbol>, token: InfixSymbol) -> Seq<InfixSymbol> {
    if token == minus_sign() && negating_behind(before) {
        seq![minus_one_literal(), product_mark()]
    } else {
        seq![token]
    }
}

/// The tokens with unary minus resolved, where `before` precedes them.
pub open spec fn resolved_behind(before: Option<InfixSymbol>, tokens: Seq<InfixSymbol>) -> Seq<
    InfixSymbol,
>
    decreases tokens.len(),
{
    if tokens.len() == 0 {
        Seq::empty()
    } else {
        resolved_behind(before, tokens.drop_last()) + resolved_one(
            token_before(before, tokens, tokens.len() - 1),
            tokens.last(),
        )
    }
}

/// What stands for `token` behind `before` once products are marked.
pub open spec fn marked_one(before: Option<InfixSymbol>, token: InfixSymbol) -> Seq<InfixSymbol> {
    lead(before, token) + seq![token]
}

/// The mark that comes to stand between `before` and `token`, if any.
pub open spec fn lead(before: Option<InfixSymbol>, token: InfixSymbol) -> Seq<InfixSymbol> {
    if before is Some && marks_product(before->0, token) {
        seq![product_mark()]
    } else {
        Seq::empty()
    }
}

/// The tokens with products marked, where `before` precedes them.
pub open spec fn marked_behind(before: Option<InfixSymbol>, tokens: Seq<InfixSymbol>) -> Seq<
    InfixSymbol,
>
    decreases tokens.len(),
{
    if tokens.len() == 0 {
        Seq::empty()
    } else {
        marked_behind(before, tokens.drop_last()) + marked_one(
            token_before(before, tokens, tokens.len() - 1),
            tokens.last(),
        )
    }
}

/// Resolving unary minus is resolving it behind nothing.
pub proof fn lemma_resolved_behind_nothing(tokens: Seq<InfixSymbol>)
    ensures
        unary_minus_resolved(tokens) == resolved_behind(None, tokens),
    decreases tokens.len(),
{
    if tokens.len() > 0 {
        lemma_resolved_behind_nothing(tokens.drop_last());
        let i = tokens.len() - 1;
        assert(is_negation(tokens, i) == (tokens.last() == minus_sign() && negating_behind(
            token_before(None, tokens, i),
        )));
        assert(minus_resolved_at(tokens, i) == resolved_one(
            token_before(None, tokens, i),
            tokens.last(),
        ));
    }
}

/// Marking products is marking them behind nothing.
pub proof fn lemma_marked_behind_nothing(tokens: Seq<InfixSymbol>)
    ensures
        products_marked(tokens) == marked_behind(None, tokens),
    decreases tokens.len(),
{
    if tokens.len() > 0 {
        lemma_marked_behind_nothing(tokens.drop_last());
        let i = tokens.len() - 1;
        let before = products_marked(tokens.drop_last());
        let one = marked_one(token_before(None, tokens, i), tokens.last());
        if is_juxtaposed(tokens, i) {
            assert(one == seq![product_mark(), tokens.last()]);
            assert(before.push(product_mark()).push(tokens.last()) == before + one);
        } else {
            assert(one == seq![tokens.last()]);
            assert(before.push(tokens.last()) == before + one);
        }
    }
}

/// The token before a position behind `first` is the one before it in
/// `second`, behind the last token of `first`.
pub proof fn lemma_token_before_concat(
    before: Option<InfixSymbol>,
    first: Seq<InfixSymbol>,
    second: Seq<InfixSymbol>,
    i: int,
)
    requires
        0 <= i <= second.len(),
    ensures
        token_before(before, first + second, first.len() + i) == token_before(
            last_token(before, first),
            second,
            i,
        ),
{
    if i > 0 {
        assert((first + second)[first.len() + i - 1] == second[i - 1]);
    } else if first.len() > 0 {
        assert((first + second)[first.len() - 1] == first[first.len() - 1]);
    }
}

/// Unary minus is resolved in tokens that follow others as behind the last
/// of those.
pub proof fn lemma_resolved_behind_concat(
    before: Option<InfixSymbol>,
    first: Seq<InfixSymbol>,
    second: Seq<InfixSymbol>,
)
    ensures
        resolved_behind(before, first + second) == resolved_behind(before, first)
            + resolved_behind(last_token(before, first), second),
        last_token(before, first + second) == last_token(last_token(before, first), second),
    decreases second.len(),
{
    lemma_token_before_concat(before, first, second, second.len() as int);
    if second.len() == 0 {
        assert(first + second == first);
        assert(resolved_behind(before, first) + Seq::<InfixSymbol>::empty() == resolved_behind(
            before,
            first,
        ));
    } else {
        let all = first + second;
        assert(all.drop_last() == first + second.drop_last());
        lemma_resolved_behind_concat(before, first, second.drop_last());
        lemma_token_before_concat(before, first, second, second.len() - 1);
        let one = resolved_one(token_before(before, all, all.len() - 1), all.last());
        assert(resolved_behind(before, first) + resolved_behind(
            last_token(before, first),
            second.drop_last(),
        ) + one == resolved_behind(before, first) + (resolved_behind(
            last_token(before, first),
            second.drop_last(),
        ) + one));
    }
}

/// Products are marked in tokens that follow others as behind the last of
/// those.
pub proof fn lemma_marked_behind_concat(
    before: Option<InfixSymbol>,
    first: Seq<InfixSymbol>,
    second: Seq<InfixSymbol>,
)
    ensures
        marked_behind(before, first + second) == marked_behind(before, first) + marked_behind(
            last_token(before, first),
            second,
        ),
        last_token(before, first + second) == last_token(last_token(before, first), second),
    decreases second.len(),
{
    lemma_token_before_concat(before, first, second, second.len() as int);
    if second.len() == 0 {
        assert(first + second == first);
        assert(marked_behind(before, first) + Seq::<InfixSymbol>::empty() == marked_behind(
            before,
            first,
        ));
    } else {
        let all = first + second;
        assert(all.drop_last() == first + second.drop_last());
        lemma_marked_behind_concat(before, first, second.drop_last());
        lemma_token_before_concat(before, first, second, second.len() - 1);
        let one = marked_one(token_before(before, all, all.len() - 1), all.last());
        assert(marked_behind(before, first) + marked_behind(
            last_token(before, first),
            second.drop_last(),
        ) + one == marked_behind(before, first) + (marked_behind(
            last_token(before, first),
            second.drop_last(),
        ) + one));
    }
}

/// Unary minus resolved in one token.
pub proof fn lemma_resolved_behind_one(before: Option<InfixSymbol>, token: InfixSymbol)
    ensures
        resolved_behind(before, seq![token]) == resolved_one(before, token),
        last_token(before, seq![token]) == Some(token),
{
    reveal_with_fuel(resolved_behind, 2);
    assert(seq![token].drop_last() == Seq::<InfixSymbol>::empty());
    assert(Seq::<InfixSymbol>::empty() + resolved_one(before, token) == resolved_one(
        before,
        token,
    ));
}

/// Products marked in one token.
pub proof fn lemma_marked_behind_one(before: Option<InfixSymbol>, token: InfixSymbol)
    ensures
        marked_behind(before, seq![token]) == marked_one(before, token),
        last_token(before, seq![token]) == Some(token),
{
    reveal_with_fuel(marked_behind, 2);
    assert(seq![token].drop_last() == Seq::<InfixSymbol>::empty());
    assert(Seq::<InfixSymbol>::empty() + marked_one(before, token) == marked_one(before, token));
}

/// The tokens of a notation once unary minus is resolved: every minus sign
/// that negates is the literal `-1` and the mark of a product.
pub open spec fn half_form(notation: Notation) -> Seq<InfixSymbol>
    decreases notation,
{
    match notation {
        Notation::Literal(text) => seq![InfixSymbol::Literal(text)],
        Notation::Variable(c) => seq![InfixSymbol::Variable(c)],
        Notation::Minus => seq![minus_one_literal(), product_mark()],
        Notation::Parens(inner) => in_parens(half_form(*inner)),
        Notation::Call(f, arg) => seq![InfixSymbol::Function(f)] + in_parens(half_form(*arg)),
        Notation::Binary(op, left, right) => if op == InfixTokenOperator::ImplicitMultiply {
            half_form(*left) + half_form(*right)
        } else {
            half_form(*left) + seq![InfixSymbol::Operator(op)] + half_form(*right)
        },
    }
}

/// Unary minus resolved in tokens in parentheses, given what it is resolved
/// to in the tokens.
pub proof fn lemma_resolved_in_parens(
    before: Option<InfixSymbol>,
    tokens: Seq<InfixSymbol>,
    resolved: Seq<InfixSymbol>,
)
    requires
        resolved_behind(Some(InfixSymbol::ParenOpen), tokens) == resolved,
    ensures
        resolved_behind(before, in_parens(tokens)) == in_parens(resolved),
        last_token(before, in_parens(tokens)) == Some(InfixSymbol::ParenClose),
{
    let open = InfixSymbol::ParenOpen;
    let close = InfixSymbol::ParenClose;
    lemma_resolved_behind_one(before, open);
    lemma_resolved_behind_concat(before, seq![open], tokens);
    lemma_resolved_behind_one(last_token(before, seq![open] + tokens), close);
    lemma_resolved_behind_concat(before, seq![open] + tokens, seq![close]);
    assert(in_parens(tokens) == seq![open] + tokens + seq![close]);
    assert(in_parens(resolved) == seq![open] + resolved + seq![close]);
}

/// In a notation whose minus signs are placed, unary minus is resolved to
/// its half form. The notation ends with a minus sign or with the end of an
/// operand.
pub proof fn lemma_minus_signs_resolve(before: Option<InfixSymbol>, notation: Notation)
    requires
        placed(notation, negating_behind(before)),
    ensures
        resolved_behind(before, spelled(notation)) == half_form(notation),
        spelled(notation).len() > 0,
        ends_with_minus(notation) ==> spelled(notation).last() == minus_sign(),
        !ends_with_minus(notation) ==> ends_operand(spelled(notation).last()),
    decreases notation,
{
    let open = InfixSymbol::ParenOpen;
    match notation {
        Notation::Literal(text) => {
            lemma_resolved_behind_one(before, InfixSymbol::Literal(text));
        },
        Notation::Variable(c) => {
            lemma_resolved_behind_one(before, InfixSymbol::Variable(c));
        },
        Notation::Minus => {
            lemma_resolved_behind_one(before, minus_sign());
        },
        Notation::Parens(inner) => {
            lemma_minus_signs_resolve(Some(open), *inner);
            lemma_resolved_in_parens(before, spelled(*inner), half_form(*inner));
        },
        Notation::Call(f, arg) => {
            let name = InfixSymbol::Function(f);
            lemma_minus_signs_resolve(Some(open), *arg);
            lemma_resolved_behind_one(before, name);
            lemma_resolved_in_parens(Some(name), spelled(*arg), half_form(*arg));
            lemma_resolved_behind_concat(before, seq![name], in_parens(spelled(*arg)));
        },
        Notation::Binary(op, left, right) => {
            let l = spelled(*left);
            let r = spelled(*right);
            lemma_minus_signs_resolve(before, *left);
            assert(last_token(before, l) == Some(l.last()));
            if op == InfixTokenOperator::ImplicitMultiply {
                lemma_minus_signs_resolve(Some(l.last()), *right);
                lemma_resolved_behind_concat(before, l, r);
                assert((l + r).last() == r.last());
            } else {
                let sign = InfixSymbol::Operator(op);
                lemma_minus_signs_resolve(Some(sign), *right);
                lemma_resolved_behind_one(Some(l.last()), sign);
                lemma_resolved_behind_concat(before, l, seq![sign]);
                lemma_resolved_behind_concat(before, l + seq![sign], r);
                assert((l + seq![sign] + r).last() == r.last());
            }
        },
    }
}

/// The half form of a notation begins and ends as the notation is written,
/// but for a minus sign that negates.
pub proof fn lemma_half_form_ends(notation: Notation)
    ensures
        half_form(notation).len() > 0,
        spelled(notation).len() > 0,
        !ends_with_minus(notation) ==> half_form(notation).last() == spelled(notation).last(),
        spelled(notation).first() != minus_sign() ==> half_form(notation).first() == spelled(
            notation,
        ).first(),
    decreases notation,
{
    if let Notation::Binary(op, left, right) = notation {
        lemma_half_form_ends(*left);
        lemma_half_form_ends(*right);
    }
}

/// The mark that a notation which ends with a minus sign ends with, in its
/// half form.
pub open spec fn trail(notation: Notation) -> Seq<InfixSymbol> {
    if ends_with_minus(notation) {
        seq![product_mark()]
    } else {
        Seq::empty()
    }
}

/// Products marked in tokens in parentheses, given what they are marked to
/// in the tokens.
pub proof fn lemma_marked_in_parens(
    before: Option<InfixSymbol>,
    tokens: Seq<InfixSymbol>,
    marked: Seq<InfixSymbol>,
)
    requires
        marked_behind(Some(InfixSymbol::ParenOpen), tokens) == marked,
        tokens.len() > 0,
        ends_operand(tokens.last()),
    ensures
        marked_behind(before, in_parens(tokens)) == lead(before, InfixSymbol::ParenOpen)
            + in_parens(marked),
        last_token(before, in_parens(tokens)) == Some(InfixSymbol::ParenClose),
{
    let open = InfixSymbol::ParenOpen;
    let close = InfixSymbol::ParenClose;
    lemma_marked_behind_one(before, open);
    lemma_marked_behind_concat(before, seq![open], tokens);
    lemma_marked_behind_one(last_token(before, seq![open] + tokens), close);
    lemma_marked_behind_concat(before, seq![open] + tokens, seq![close]);
    assert(in_parens(tokens) == seq![open] + tokens + seq![close]);
    assert(lead(before, open) + in_parens(marked) == lead(before, open) + seq![open] + marked
        + seq![close]);
}

/// Products marked in two runs of tokens side by side, between which a
/// mark comes to stand: the one that the first ends with, or the one that
/// is put behind the end of an operand.
pub proof fn lemma_marked_side_by_side(
    before: Option<InfixSymbol>,
    l: Seq<InfixSymbol>,
    r: Seq<InfixSymbol>,
    normal_l: Seq<InfixSymbol>,
    normal_r: Seq<InfixSymbol>,
    trail_l: Seq<InfixSymbol>,
    trail_r: Seq<InfixSymbol>,
)
    requires
        l.len() > 0,
        r.len() > 0,
        marked_behind(before, l) == lead(before, l.first()) + normal_l + trail_l,
        marked_behind(Some(l.last()), r) == lead(Some(l.last()), r.first()) + normal_r + trail_r,
        trail_l + lead(Some(l.last()), r.first()) == seq![product_mark()],
    ensures
        marked_behind(before, l + r) == lead(before, (l + r).first()) + (normal_l + seq![
            product_mark(),
        ] + normal_r) + trail_r,
        (l + r).last() == r.last(),
        (l + r).first() == l.first(),
{
    let mark = product_mark();
    let first = lead(before, l.first());
    let between = lead(Some(l.last()), r.first());
    lemma_marked_behind_concat(before, l, r);
    assert(last_token(before, l) == Some(l.last()));
    let a = first + normal_l;
    let b = normal_r + trail_r;
    assert(a + trail_l + (between + normal_r + trail_r) == a + (trail_l + between) + b);
    assert(a + seq![mark] + b == first + (normal_l + seq![mark] + normal_r) + trail_r);
}

/// Products marked in two runs of tokens with a written operator between
/// them, of which the first ends an operand.
pub proof fn lemma_marked_around_operator(
    before: Option<InfixSymbol>,
    l: Seq<InfixSymbol>,
    op: InfixTokenOperator,
    r: Seq<InfixSymbol>,
    normal_l: Seq<InfixSymbol>,
    normal_r: Seq<InfixSymbol>,
    trail_r: Seq<InfixSymbol>,
)
    requires
        l.len() > 0,
        r.len() > 0,
        marked_behind(before, l) == lead(before, l.first()) + normal_l,
        marked_behind(Some(InfixSymbol::Operator(op)), r) == normal_r + trail_r,
    ensures
        marked_behind(before, l + seq![InfixSymbol::Operator(op)] + r) == lead(
            before,
            (l + seq![InfixSymbol::Operator(op)] + r).first(),
        ) + (normal_l + seq![InfixSymbol::Operator(op)] + normal_r) + trail_r,
        (l + seq![InfixSymbol::Operator(op)] + r).last() == r.last(),
        (l + seq![InfixSymbol::Operator(op)] + r).first() == l.first(),
{
    let sign = InfixSymbol::Operator(op);
    let first = lead(before, l.first());
    let none = Seq::<InfixSymbol>::empty();
    assert(last_token(before, l) == Some(l.last()));
    lemma_marked_behind_one(Some(l.last()), sign);
    lemma_marked_behind_concat(before, l, seq![sign]);
    lemma_marked_behind_concat(before, l + seq![sign], r);
    assert(lead(Some(l.last()), sign) == none);
    assert(marked_one(Some(l.last()), sign) == seq![sign]);
    assert(first + normal_l + seq![sign] + (normal_r + trail_r) == first + (normal_l + seq![sign]
        + normal_r) + trail_r);
}

/// Products marked in a literal or a variable.
pub proof fn lemma_marked_leaf(before: Option<InfixSymbol>, token: InfixSymbol)
    requires
        token is Literal || token is Variable,
    ensures
        marked_behind(before, seq![token]) == lead(before, token) + seq![token]
            + Seq::<InfixSymbol>::empty(),
{
    lemma_marked_behind_one(before, token);
    assert(lead(before, token) + seq![token] + Seq::<InfixSymbol>::empty() == lead(before, token)
        + seq![token]);
}

/// Products marked in what a minus sign that negates is resolved to.
pub proof fn lemma_marked_minus(before: Option<InfixSymbol>)
    ensures
        marked_behind(before, seq![minus_one_literal(), product_mark()]) == lead(
            before,
            minus_one_literal(),
        ) + seq![minus_one_literal()] + seq![product_mark()],
{
    let one = minus_one_literal();
    let mark = product_mark();
    lemma_marked_behind_one(before, one);
    lemma_marked_behind_one(Some(one), mark);
    lemma_marked_behind_concat(before, seq![one], seq![mark]);
    assert(seq![one, mark] == seq![one] + seq![mark]);
    assert(lead(Some(one), mark) == Seq::<InfixSymbol>::empty());
    assert(marked_one(Some(one), mark) == seq![mark]);
}

/// Products marked in a function name before tokens in parentheses.
pub proof fn lemma_marked_call(
    before: Option<InfixSymbol>,
    name: InfixSymbol,
    tokens: Seq<InfixSymbol>,
    marked: Seq<InfixSymbol>,
)
    requires
        name is Function,
        marked_behind(Some(InfixSymbol::ParenOpen), tokens) == marked,
        tokens.len() > 0,
        ends_operand(tokens.last()),
    ensures
        marked_behind(before, seq![name] + in_parens(tokens)) == lead(before, name) + (seq![name]
            + in_parens(marked)) + Seq::<InfixSymbol>::empty(),
        (seq![name] + in_parens(tokens)).last() == InfixSymbol::ParenClose,
        (seq![name] + in_parens(tokens)).first() == name,
{
    let open = InfixSymbol::ParenOpen;
    let none = Seq::<InfixSymbol>::empty();
    lemma_marked_behind_one(before, name);
    lemma_marked_in_parens(Some(name), tokens, marked);
    lemma_marked_behind_concat(before, seq![name], in_parens(tokens));
    assert(lead(Some(name), open) == none);
    assert(lead(before, name) + seq![name] + (none + in_parens(marked)) == lead(before, name) + (
    seq![name] + in_parens(marked)) + none);
}

/// Whether, in the half form of a notation behind `before`, products are
/// marked to its normal form: behind a mark where a product is meant with
/// what is before, and before a mark where the notation ends with a minus
/// sign.
pub open spec fn marked_to_normal_form(before: Option<InfixSymbol>, notation: Notation) -> bool {
    &&& half_form(notation).len() > 0
    &&& marked_behind(before, half_form(notation)) == lead(before, half_form(notation).first())
        + normal_form(notation) + trail(notation)
    &&& ends_with_minus(notation) ==> half_form(notation).last() == product_mark()
    &&& !ends_with_minus(notation) ==> ends_operand(half_form(notation).last())
}

/// Products are marked in a notation in parentheses as in the notation.
pub proof fn lemma_parens_marked(before: Option<InfixSymbol>, inner: Notation)
    requires
        !ends_with_minus(inner),
        marked_to_normal_form(Some(InfixSymbol::ParenOpen), inner),
    ensures
        marked_to_normal_form(before, Notation::Parens(Box::new(inner))),
{
    let open = InfixSymbol::ParenOpen;
    let none = Seq::<InfixSymbol>::empty();
    assert(none + normal_form(inner) + none == normal_form(inner));
    lemma_marked_in_parens(before, half_form(inner), normal_form(inner));
    assert(lead(before, open) + in_parens(normal_form(inner)) + none == lead(before, open)
        + in_parens(normal_form(inner)));
}

/// Products are marked in the argument of a call as in the argument.
pub proof fn lemma_call_marked(
    before: Option<InfixSymbol>,
    f: crate::token::SupportedFunction,
    arg: Notation,
)
    requires
        !ends_with_minus(arg),
        marked_to_normal_form(Some(InfixSymbol::ParenOpen), arg),
    ensures
        marked_to_normal_form(before, Notation::Call(f, Box::new(arg))),
{
    let none = Seq::<InfixSymbol>::empty();
    assert(none + normal_form(arg) + none == normal_form(arg));
    lemma_marked_call(before, InfixSymbol::Function(f), half_form(arg), normal_form(arg));
}

/// Products are marked in operands that stand side by side as in the
/// operands, with one mark between them.
pub proof fn lemma_product_marked(before: Option<InfixSymbol>, left: Notation, right: Notation)
    requires
        ends_with_minus(left) || marks_product(spelled(left).last(), spelled(right).first()),
        marked_to_normal_form(before, left),
        marked_to_normal_form(Some(half_form(left).last()), right),
    ensures
        marked_to_normal_form(
            before,
            Notation::Binary(
                InfixTokenOperator::ImplicitMultiply,
                Box::new(left),
                Box::new(right),
            ),
        ),
{
    lemma_half_form_ends(left);
    lemma_half_form_ends(right);
    lemma_marked_side_by_side(
        before,
        half_form(left),
        half_form(right),
        normal_form(left),
        normal_form(right),
        trail(left),
        trail(right),
    );
}

/// Products are marked in operands around a written operator as in the
/// operands.
pub proof fn lemma_operation_marked(
    before: Option<InfixSymbol>,
    op: InfixTokenOperator,
    left: Notation,
    right: Notation,
)
    requires
        op != InfixTokenOperator::ImplicitMultiply,
        !ends_with_minus(left),
        marked_to_normal_form(before, left),
        marked_to_normal_form(Some(InfixSymbol::Operator(op)), right),
    ensures
        marked_to_normal_form(before, Notation::Binary(op, Box::new(left), Box::new(right))),
{
    let none = Seq::<InfixSymbol>::empty();
    let l = half_form(left);
    assert(lead(before, l.first()) + normal_form(left) + none == lead(before, l.first())
        + normal_form(left));
    assert(none + normal_form(right) + trail(right) == normal_form(right) + trail(right));
    lemma_marked_around_operator(
        before,
        l,
        op,
        half_form(right),
        normal_form(left),
        normal_form(right),
        trail(right),
    );
}

/// In the half form of a notation of which what is unwritten is placed,
/// products are marked to its normal form.
pub proof fn lemma_products_are_marked(before: Option<InfixSymbol>, notation: Notation)
    requires
        placed(notation, true),
    ensures
        marked_to_normal_form(before, notation),
    decreases notation,
{
    match notation {
        Notation::Literal(text) => {
            lemma_marked_leaf(before, InfixSymbol::Literal(text));
        },
        Notation::Variable(c) => {
            lemma_marked_leaf(before, InfixSymbol::Variable(c));
        },
        Notation::Minus => {
            lemma_marked_minus(before);
        },
        Notation::Parens(inner) => {
            lemma_products_are_marked(Some(InfixSymbol::ParenOpen), *inner);
            lemma_parens_marked(before, *inner);
        },
        Notation::Call(f, arg) => {
            lemma_products_are_marked(Some(InfixSymbol::ParenOpen), *arg);
            lemma_call_marked(before, f, *arg);
        },
        Notation::Binary(op, left, right) => {
            lemma_placed_wherever_or_not(*left);
            lemma_placed_wherever_or_not(*right);
            lemma_products_are_marked(before, *left);
            if op == InfixTokenOperator::ImplicitMultiply {
                lemma_products_are_marked(Some(half_form(*left).last()), *right);
                lemma_product_marked(before, *left, *right);
            } else {
                lemma_products_are_marked(Some(InfixSymbol::Operator(op)), *right);
                lemma_operation_marked(before, op, *left, *right);
            }
        },
    }
}

/// What is placed is placed where a minus sign would negate.
pub proof fn lemma_placed_wherever_or_not(notation: Notation)
    ensures
        placed(notation, false) ==> placed(notation, true),
{
    if placed(notation, false) {
        lemma_placed_wherever(notation);
    }
}

/// The written tokens of a notation whose minus signs are placed, and which
/// does not end with one, are normalized to its normal form.
pub proof fn lemma_normalized_is_normal_form(notation: Notation)
    requires
        placed(notation, true),
        !ends_with_minus(notation),
    ensures
        normalized(spelled(notation)) == normal_form(notation),
{
    let none = Seq::<InfixSymbol>::empty();
    lemma_resolved_behind_nothing(spelled(notation));
    lemma_minus_signs_resolve(None, notation);
    lemma_marked_behind_nothing(half_form(notation));
    lemma_products_are_marked(None, notation);
    assert(none + normal_form(notation) + none == normal_form(notation));
}

} // verus!
