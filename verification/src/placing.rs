//! How the tokens of a notation, in normal form, are placed on the output
//! and the operator stack.

use vstd::prelude::*;
use crate::notation::{bare_operator, grouped, in_parens, meaning, normal_form, Notation};
use crate::shunting_yard::{
    drain, emit_top, finish_call, gives_way, lemma_shift_all_push, make_way, shift_all, unwind,
    Pending, Yard,
};
use crate::token::{minus_one, operation_of, InfixSymbol, InfixTokenOperator, PostfixSymbol};
use crate::tree::postorder;

verus! {

/// The operators of a notation that wait on the stack when its last token
/// is placed, the top last: its own, and those of its right operand.
pub open spec fn open_operators(notation: Notation) -> Seq<InfixTokenOperator>
    decreases notation,
{
    match notation {
        Notation::Binary(op, _, right) => seq![op] + open_operators(*right),
        _ => Seq::empty(),
    }
}

/// The postfix tokens of a notation that are in the output when its last
/// token is placed: all but its open operators.
pub open spec fn settled(notation: Notation) -> Seq<PostfixSymbol>
    decreases notation,
{
    match notation {
        Notation::Binary(_, left, right) => postorder(meaning(*left)) + settled(*right),
        _ => postorder(meaning(notation)),
    }
}

/// Operators as they wait on the stack.
pub open spec fn waiting(ops: Seq<InfixTokenOperator>) -> Seq<Pending> {
    ops.map_values(|op: InfixTokenOperator| Pending::Operator(op))
}

/// The postfix tokens of operators that leave the stack, the top first.
pub open spec fn emitted(ops: Seq<InfixTokenOperator>) -> Seq<PostfixSymbol>
    decreases ops.len(),
{
    if ops.len() == 0 {
        Seq::empty()
    } else {
        seq![PostfixSymbol::ExpressionOp(operation_of(ops.last()))] + emitted(ops.drop_last())
    }
}

/// Whether `below`, on the stack, stays there while the notation is placed:
/// it gives way to none of the operators that arrive when the notation has
/// no operator of its own on the stack, which are those down its left
/// operands.
pub open spec fn stays_below(below: InfixTokenOperator, notation: Notation) -> bool
    decreases notation,
{
    match notation {
        Notation::Binary(op, left, _) => !gives_way(below, op) && stays_below(below, *left),
        _ => true,
    }
}

/// Whether the notation can be placed on the stack: no function name waits
/// on top for its parenthesis, and an operator on top stays there.
pub open spec fn admits(stack: Seq<Pending>, notation: Notation) -> bool {
    stack.len() > 0 ==> match stack.last() {
        Pending::Paren => true,
        Pending::Function(_) => false,
        Pending::Operator(below) => stays_below(below, notation),
    }
}

/// An operator that does not give way to `outer` does not give way to
/// what itself gives way to `outer`.
pub proof fn lemma_stays_below_inner(
    below: InfixTokenOperator,
    outer: InfixTokenOperator,
    inner: InfixTokenOperator,
)
    requires
        !gives_way(below, outer),
        gives_way(inner, outer),
    ensures
        !gives_way(below, inner),
{
}

/// If `top` gives way to `incoming` but not to `above`, then `above` gives
/// way to `incoming` too.
pub proof fn lemma_above_gives_way(
    top: InfixTokenOperator,
    above: InfixTokenOperator,
    incoming: InfixTokenOperator,
)
    requires
        gives_way(top, incoming),
        !gives_way(top, above),
    ensures
        gives_way(above, incoming),
{
}

/// An operator that does not give way to the operator of a grouped
/// notation stays below the notation.
pub proof fn lemma_stays_below(below: InfixTokenOperator, notation: Notation)
    requires
        grouped(notation),
        bare_operator(notation) matches Some(op) ==> !gives_way(below, op),
    ensures
        stays_below(below, notation),
    decreases notation,
{
    if let Notation::Binary(op, left, _) = notation {
        if let Some(inner) = bare_operator(*left) {
            lemma_stays_below_inner(below, op, inner);
        }
        lemma_stays_below(below, *left);
    }
}

/// The open operators of a grouped notation whose operator gives way to
/// `incoming` all give way to it.
pub proof fn lemma_open_operators_give_way(notation: Notation, incoming: InfixTokenOperator)
    requires
        grouped(notation),
        bare_operator(notation) matches Some(op) ==> gives_way(op, incoming),
    ensures
        forall|i: int|
            0 <= i < open_operators(notation).len() ==> gives_way(
                #[trigger] open_operators(notation)[i],
                incoming,
            ),
    decreases notation,
{
    if let Notation::Binary(op, _, right) = notation {
        if let Some(inner) = bare_operator(*right) {
            lemma_above_gives_way(op, inner, incoming);
        }
        lemma_open_operators_give_way(*right, incoming);
        let ops = open_operators(notation);
        assert forall|i: int| 0 <= i < ops.len() implies gives_way(#[trigger] ops[i], incoming) by {
            if i > 0 {
                assert(ops[i] == open_operators(*right)[i - 1]);
            }
        }
    }
}

/// Operators leave the stack from the top: those above come out first.
pub proof fn lemma_emitted_concat(below: Seq<InfixTokenOperator>, above: Seq<InfixTokenOperator>)
    ensures
        emitted(below + above) == emitted(above) + emitted(below),
    decreases above.len(),
{
    if above.len() == 0 {
        assert(below + above == below);
        assert(emitted(above) + emitted(below) == emitted(below));
    } else {
        assert((below + above).drop_last() == below + above.drop_last());
        lemma_emitted_concat(below, above.drop_last());
        let top = seq![PostfixSymbol::ExpressionOp(operation_of(above.last()))];
        assert(top + (emitted(above.drop_last()) + emitted(below)) == (top + emitted(
            above.drop_last(),
        )) + emitted(below));
    }
}

/// What is settled of a notation, followed by its open operators as they
/// leave the stack, is its meaning in postfix order.
pub proof fn lemma_settled_and_open(notation: Notation)
    ensures
        settled(notation) + emitted(open_operators(notation)) == postorder(meaning(notation)),
    decreases notation,
{
    match notation {
        Notation::Binary(op, left, right) => {
            let own = seq![PostfixSymbol::ExpressionOp(operation_of(op))];
            let l = postorder(meaning(*left));
            assert(seq![op].drop_last() == Seq::<InfixTokenOperator>::empty());
            reveal_with_fuel(emitted, 2);
            assert(emitted(seq![op]) == own + Seq::<PostfixSymbol>::empty());
            assert(emitted(seq![op]) == own);
            assert(postorder(meaning(notation)) == l + postorder(meaning(*right)) + own);
            lemma_settled_and_open(*right);
            lemma_emitted_concat(seq![op], open_operators(*right));
            assert(l + settled(*right) + (emitted(open_operators(*right)) + own) == l + (settled(
                *right,
            ) + emitted(open_operators(*right))) + own);
        },
        _ => {
            let all = postorder(meaning(notation));
            assert(all + Seq::<PostfixSymbol>::empty() == all);
        },
    }
}

/// Operators alone on the stack are drained from the top.
pub proof fn lemma_drain_operators(output: Seq<PostfixSymbol>, ops: Seq<InfixTokenOperator>)
    ensures
        drain(Yard { output, stack: waiting(ops) }) == Some(output + emitted(ops)),
    decreases ops.len(),
{
    let y = Yard { output, stack: waiting(ops) };
    if ops.len() == 0 {
        assert(output + emitted(ops) == output);
    } else {
        let top = PostfixSymbol::ExpressionOp(operation_of(ops.last()));
        assert(waiting(ops).drop_last() == waiting(ops.drop_last()));
        assert(emit_top(y) == Yard { output: output.push(top), stack: waiting(ops.drop_last()) });
        lemma_drain_operators(output.push(top), ops.drop_last());
        assert(output.push(top) + emitted(ops.drop_last()) == output + (seq![top] + emitted(
            ops.drop_last(),
        )));
    }
}

/// Closing a parenthesis emits the operators above the opening one and
/// removes it.
pub proof fn lemma_unwind_operators(
    output: Seq<PostfixSymbol>,
    stack: Seq<Pending>,
    ops: Seq<InfixTokenOperator>,
)
    ensures
        unwind(Yard { output, stack: stack.push(Pending::Paren) + waiting(ops) }) == Some(
            Yard { output: output + emitted(ops), stack },
        ),
    decreases ops.len(),
{
    let all = stack.push(Pending::Paren) + waiting(ops);
    let y = Yard { output, stack: all };
    if ops.len() == 0 {
        assert(all == stack.push(Pending::Paren));
        assert(all.drop_last() == stack);
        assert(output + emitted(ops) == output);
    } else {
        let top = PostfixSymbol::ExpressionOp(operation_of(ops.last()));
        assert(all.last() == Pending::Operator(ops.last()));
        assert(all.drop_last() == stack.push(Pending::Paren) + waiting(ops.drop_last()));
        assert(emit_top(y) == Yard {
            output: output.push(top),
            stack: stack.push(Pending::Paren) + waiting(ops.drop_last()),
        });
        lemma_unwind_operators(output.push(top), stack, ops.drop_last());
        assert(output.push(top) + emitted(ops.drop_last()) == output + (seq![top] + emitted(
            ops.drop_last(),
        )));
    }
}

/// Making way emits the operators on top that give way to the incoming one,
/// down to what does not.
pub proof fn lemma_make_way_operators(
    output: Seq<PostfixSymbol>,
    stack: Seq<Pending>,
    ops: Seq<InfixTokenOperator>,
    incoming: InfixTokenOperator,
)
    requires
        forall|i: int| 0 <= i < ops.len() ==> gives_way(#[trigger] ops[i], incoming),
        stack.len() > 0 && stack.last() is Operator ==> !gives_way(
            stack.last()->Operator_0,
            incoming,
        ),
    ensures
        make_way(Yard { output, stack: stack + waiting(ops) }, incoming) == (Yard {
            output: output + emitted(ops),
            stack,
        }),
    decreases ops.len(),
{
    let all = stack + waiting(ops);
    let y = Yard { output, stack: all };
    if ops.len() == 0 {
        assert(all == stack);
        assert(output + emitted(ops) == output);
    } else {
        let top = PostfixSymbol::ExpressionOp(operation_of(ops.last()));
        assert(all.last() == Pending::Operator(ops.last()));
        assert(gives_way(ops[ops.len() - 1], incoming));
        assert(all.drop_last() == stack + waiting(ops.drop_last()));
        assert(emit_top(y) == Yard {
            output: output.push(top),
            stack: stack + waiting(ops.drop_last()),
        });
        assert forall|i: int| 0 <= i < ops.drop_last().len() implies gives_way(
            #[trigger] ops.drop_last()[i],
            incoming,
        ) by {
            assert(ops.drop_last()[i] == ops[i]);
        }
        lemma_make_way_operators(output.push(top), stack, ops.drop_last(), incoming);
        assert(output.push(top) + emitted(ops.drop_last()) == output + (seq![top] + emitted(
            ops.drop_last(),
        )));
    }
}

/// Placing `first` and then `second` is placing `second` in the state that
/// `first` leaves.
pub proof fn lemma_shift_all_concat(y: Yard, first: Seq<InfixSymbol>, second: Seq<InfixSymbol>)
    ensures
        shift_all(y, first + second) == match shift_all(y, first) {
            Some(z) => shift_all(z, second),
            None => None,
        },
    decreases second.len(),
{
    if second.len() == 0 {
        assert(first + second == first);
    } else {
        assert((first + second).drop_last() == first + second.drop_last());
        lemma_shift_all_concat(y, first, second.drop_last());
    }
}

/// Placing a notation in parentheses puts its meaning into the output in
/// postfix order, takes the parenthesis off the stack again, and emits a
/// function name that waited below it; given what placing the notation
/// behind the opening parenthesis does.
pub proof fn lemma_parens_settle(y: Yard, notation: Notation)
    requires
        shift_all(
            Yard { output: y.output, stack: y.stack.push(Pending::Paren) },
            normal_form(notation),
        ) == Some(
            Yard {
                output: y.output + settled(notation),
                stack: y.stack.push(Pending::Paren) + waiting(open_operators(notation)),
            },
        ),
    ensures
        shift_all(y, in_parens(normal_form(notation))) == Some(
            finish_call(Yard { output: y.output + postorder(meaning(notation)), stack: y.stack }),
        ),
{
    let open = InfixSymbol::ParenOpen;
    let close = InfixSymbol::ParenClose;
    let none = Seq::<InfixSymbol>::empty();
    assert(seq![open] == none.push(open));
    lemma_shift_all_push(y, none, open);
    lemma_shift_all_concat(y, seq![open], normal_form(notation));
    let y2 = Yard {
        output: y.output + settled(notation),
        stack: y.stack.push(Pending::Paren) + waiting(open_operators(notation)),
    };
    assert(shift_all(y, seq![open] + normal_form(notation)) == Some(y2));
    lemma_unwind_operators(y2.output, y.stack, open_operators(notation));
    lemma_settled_and_open(notation);
    assert(y.output + settled(notation) + emitted(open_operators(notation)) == y.output + (
    settled(notation) + emitted(open_operators(notation))));
    lemma_shift_all_push(y, seq![open] + normal_form(notation), close);
}

/// Placing a grouped notation, in normal form, puts what is settled of it
/// into the output and its open operators onto the stack.
pub proof fn lemma_normal_form_shifts(y: Yard, notation: Notation)
    requires
        grouped(notation),
        admits(y.stack, notation),
    ensures
        shift_all(y, normal_form(notation)) == Some(
            Yard {
                output: y.output + settled(notation),
                stack: y.stack + waiting(open_operators(notation)),
            },
        ),
    decreases notation,
{
    let none = Seq::<InfixSymbol>::empty();
    let no_ops = Seq::<InfixTokenOperator>::empty();
    match notation {
        Notation::Literal(text) => {
            lemma_leaf_shifts(y, notation, text);
        },
        Notation::Variable(c) => {
            let token = InfixSymbol::Variable(c);
            assert(normal_form(notation) == none.push(token));
            lemma_shift_all_push(y, none, token);
            assert(postorder(meaning(notation)) == seq![PostfixSymbol::Variable(c)]);
            assert(y.output + settled(notation) == y.output.push(PostfixSymbol::Variable(c)));
            assert(y.stack + waiting(no_ops) == y.stack);
        },
        Notation::Minus => {
            lemma_leaf_shifts(y, notation, minus_one());
        },
        Notation::Parens(inner) => {
            lemma_normal_form_shifts(
                Yard { output: y.output, stack: y.stack.push(Pending::Paren) },
                *inner,
            );
            lemma_parens_settle(y, *inner);
            assert(y.stack + waiting(no_ops) == y.stack);
        },
        Notation::Call(f, arg) => {
            let name = InfixSymbol::Function(f);
            let y1 = Yard { output: y.output, stack: y.stack.push(Pending::Function(f)) };
            assert(seq![name] == none.push(name));
            lemma_shift_all_push(y, none, name);
            assert(shift_all(y, seq![name]) == Some(y1));
            lemma_normal_form_shifts(
                Yard { output: y1.output, stack: y1.stack.push(Pending::Paren) },
                *arg,
            );
            lemma_parens_settle(y1, *arg);
            lemma_shift_all_concat(y, seq![name], in_parens(normal_form(*arg)));
            assert(y1.stack.drop_last() == y.stack);
            assert(postorder(meaning(notation)) == postorder(meaning(*arg)).push(
                PostfixSymbol::Function(f),
            ));
            assert(y.output + settled(notation) == (y.output + postorder(meaning(*arg))).push(
                PostfixSymbol::Function(f),
            ));
            assert(y.stack + waiting(no_ops) == y.stack);
        },
        Notation::Binary(op, left, right) => {
            let sign = InfixSymbol::Operator(op);
            let l = normal_form(*left);
            // the left operand comes to stand in the output in postfix order
            lemma_normal_form_shifts(y, *left);
            lemma_open_operators_give_way(*left, op);
            lemma_make_way_operators(y.output + settled(*left), y.stack, open_operators(*left), op);
            lemma_settled_and_open(*left);
            assert(y.output + settled(*left) + emitted(open_operators(*left)) == y.output + (
            settled(*left) + emitted(open_operators(*left))));
            // the operator waits on the stack
            let y2 = Yard {
                output: y.output + postorder(meaning(*left)),
                stack: y.stack.push(Pending::Operator(op)),
            };
            lemma_shift_all_push(y, l, sign);
            assert(l + seq![sign] == l.push(sign));
            assert(shift_all(y, l + seq![sign]) == Some(y2));
            // the right operand
            lemma_shift_all_concat(y, l + seq![sign], normal_form(*right));
            lemma_stays_below(op, *right);
            lemma_normal_form_shifts(y2, *right);
            assert(waiting(seq![op]) == Seq::<Pending>::empty().push(Pending::Operator(op)));
            assert(waiting(seq![op] + open_operators(*right)) == waiting(seq![op]) + waiting(
                open_operators(*right),
            ));
            assert(y.stack + waiting(open_operators(notation)) == y2.stack + waiting(
                open_operators(*right),
            ));
            assert(y.output + settled(notation) == y2.output + settled(*right));
        },
    }
}

/// Placing a notation that is a literal puts the literal into the output.
pub proof fn lemma_leaf_shifts(y: Yard, notation: Notation, text: Seq<char>)
    requires
        normal_form(notation) == seq![InfixSymbol::Literal(text)],
        postorder(meaning(notation)) == seq![PostfixSymbol::Literal(text)],
        settled(notation) == postorder(meaning(notation)),
        open_operators(notation) == Seq::<InfixTokenOperator>::empty(),
    ensures
        shift_all(y, normal_form(notation)) == Some(
            Yard {
                output: y.output + settled(notation),
                stack: y.stack + waiting(open_operators(notation)),
            },
        ),
{
    let none = Seq::<InfixSymbol>::empty();
    let token = InfixSymbol::Literal(text);
    assert(normal_form(notation) == none.push(token));
    lemma_shift_all_push(y, none, token);
    assert(y.output + settled(notation) == y.output.push(PostfixSymbol::Literal(text)));
    assert(y.stack + waiting(Seq::<InfixTokenOperator>::empty()) == y.stack);
}

} // verus!
