//! Expression trees, and their construction from postfix tokens.

use vstd::prelude::*;
use crate::error::TreeBuildError;
use crate::token::{
    copy_text, postfix_symbols, ExpressionOp, PostfixSymbol, RPNToken, SupportedFunction,
};

verus! {

/// An expression as a mathematical tree. A literal holds its characters.
pub enum Expression {
    Literal(Seq<char>),
    Variable(char),
    Operation(ExpressionOp, Box<Expression>, Box<Expression>),
    Function(SupportedFunction, Box<Expression>),
}

/// A node of an expression tree. Each node owns its children.
#[derive(Debug, PartialEq, Eq)]
pub enum ExpressionNode {
    Literal(Vec<char>),
    Variable(char),
    Operation(ExpressionOp, Box<ExpressionNode>, Box<ExpressionNode>),
    Function(SupportedFunction, Box<ExpressionNode>),
}

/// The expression that a tree stands for.
pub open spec fn expression_of(node: ExpressionNode) -> Expression
    decreases node,
{
    match node {
        ExpressionNode::Literal(text) => Expression::Literal(text@),
        ExpressionNode::Variable(c) => Expression::Variable(c),
        ExpressionNode::Operation(op, left, right) => Expression::Operation(
            op,
            Box::new(expression_of(*left)),
            Box::new(expression_of(*right)),
        ),
        ExpressionNode::Function(f, arg) => Expression::Function(f, Box::new(expression_of(*arg))),
    }
}

impl View for ExpressionNode {
    type V = Expression;

    open spec fn view(&self) -> Expression {
        expression_of(*self)
    }
}

impl ExpressionNode {
    /// A tree of its own that stands for the same expression.
    fn copy(&self) -> (r: ExpressionNode)
        ensures
            r@ == self@,
        decreases self,
    {
        match self {
            ExpressionNode::Literal(text) => ExpressionNode::Literal(copy_text(text)),
            ExpressionNode::Variable(c) => ExpressionNode::Variable(*c),
            ExpressionNode::Operation(op, left, right) => ExpressionNode::Operation(
                *op,
                Box::new(left.copy()),
                Box::new(right.copy()),
            ),
            ExpressionNode::Function(f, arg) => ExpressionNode::Function(*f, Box::new(arg.copy())),
        }
    }
}

impl Clone for ExpressionNode {
    fn clone(&self) -> (r: Self)
        ensures
            r@ == self@,
    {
        self.copy()
    }
}

/// The expressions that a sequence of trees stands for.
pub open spec fn expressions(nodes: Seq<ExpressionNode>) -> Seq<Expression> {
    nodes.map_values(|n: ExpressionNode| n@)
}

/// The stack of finished expressions after one more postfix token. A literal
/// or a variable is pushed. A function takes the top as its argument. An
/// operator takes the top as its right operand and the one below as its left.
pub open spec fn place(stack: Seq<Expression>, token: PostfixSymbol) -> Result<
    Seq<Expression>,
    TreeBuildError,
> {
    match token {
        PostfixSymbol::Literal(text) => Ok(stack.push(Expression::Literal(text))),
        PostfixSymbol::Variable(c) => Ok(stack.push(Expression::Variable(c))),
        PostfixSymbol::Function(f) => if stack.len() == 0 {
            Err(TreeBuildError::MissingFunctionArg)
        } else {
            Ok(stack.drop_last().push(Expression::Function(f, Box::new(stack.last()))))
        },
        PostfixSymbol::ExpressionOp(op) => if stack.len() == 0 {
            Err(TreeBuildError::MissingRightOperand)
        } else if stack.len() == 1 {
            Err(TreeBuildError::MissingLeftOperand)
        } else {
            Ok(
                stack.take(stack.len() - 2).push(
                    Expression::Operation(
                        op,
                        Box::new(stack[stack.len() - 2]),
                        Box::new(stack.last()),
                    ),
                ),
            )
        },
    }
}

/// The stack after all of `tokens`, read from the left onto `stack`, or the
/// first error.
pub open spec fn place_all(stack: Seq<Expression>, tokens: Seq<PostfixSymbol>) -> Result<
    Seq<Expression>,
    TreeBuildError,
>
    decreases tokens.len(),
{
    if tokens.len() == 0 {
        Ok(stack)
    } else {
        match place_all(stack, tokens.drop_last()) {
            Ok(placed) => place(placed, tokens.last()),
            Err(e) => Err(e),
        }
    }
}

/// The expression that postfix tokens describe: what is left on the stack
/// when all are placed, if that is exactly one expression.
pub open spec fn tree_of(tokens: Seq<PostfixSymbol>) -> Result<Expression, TreeBuildError> {
    match place_all(Seq::empty(), tokens) {
        Ok(stack) => if stack.len() > 1 {
            Err(TreeBuildError::RemainingNodes)
        } else if stack.len() == 0 {
            Err(TreeBuildError::EmptyExpression)
        } else {
            Ok(stack[0])
        },
        Err(e) => Err(e),
    }
}

/// Building from `tokens` and then `token` is placing `token` on what
/// `tokens` leave.
pub proof fn lemma_place_all_push(
    stack: Seq<Expression>,
    tokens: Seq<PostfixSymbol>,
    token: PostfixSymbol,
)
    ensures
        place_all(stack, tokens.push(token)) == match place_all(stack, tokens) {
            Ok(placed) => place(placed, token),
            Err(e) => Err(e),
        },
{
    assert(tokens.push(token).drop_last() == tokens);
}

/// The postfix tokens of an expression: its operands from the left, each
/// followed by what is applied to it.
pub open spec fn postorder(expr: Expression) -> Seq<PostfixSymbol>
    decreases expr,
{
    match expr {
        Expression::Literal(text) => seq![PostfixSymbol::Literal(text)],
        Expression::Variable(c) => seq![PostfixSymbol::Variable(c)],
        Expression::Operation(op, left, right) => (postorder(*left) + postorder(*right)).push(
            PostfixSymbol::ExpressionOp(op),
        ),
        Expression::Function(f, arg) => postorder(*arg).push(PostfixSymbol::Function(f)),
    }
}

/// The postfix tokens of a stack of expressions, the bottom first.
pub open spec fn postorders(stack: Seq<Expression>) -> Seq<PostfixSymbol>
    decreases stack.len(),
{
    if stack.len() == 0 {
        Seq::empty()
    } else {
        postorders(stack.drop_last()) + postorder(stack.last())
    }
}

/// Placing `first` and then `second` is placing `second` on what `first`
/// leaves.
pub proof fn lemma_place_all_concat(
    stack: Seq<Expression>,
    first: Seq<PostfixSymbol>,
    second: Seq<PostfixSymbol>,
)
    ensures
        place_all(stack, first + second) == match place_all(stack, first) {
            Ok(placed) => place_all(placed, second),
            Err(e) => Err(e),
        },
    decreases second.len(),
{
    if second.len() == 0 {
        assert(first + second == first);
    } else {
        assert((first + second).drop_last() == first + second.drop_last());
        lemma_place_all_concat(stack, first, second.drop_last());
    }
}

/// The postfix tokens of an expression put that expression on the stack.
pub proof fn lemma_postorder_places(stack: Seq<Expression>, expr: Expression)
    ensures
        place_all(stack, postorder(expr)) == Ok::<Seq<Expression>, TreeBuildError>(
            stack.push(expr),
        ),
    decreases expr,
{
    let none = Seq::<PostfixSymbol>::empty();
    match expr {
        Expression::Literal(text) => {
            assert(postorder(expr).drop_last() == none);
            assert(place_all(stack, none) == Ok::<Seq<Expression>, TreeBuildError>(stack));
        },
        Expression::Variable(c) => {
            assert(postorder(expr).drop_last() == none);
            assert(place_all(stack, none) == Ok::<Seq<Expression>, TreeBuildError>(stack));
        },
        Expression::Operation(op, left, right) => {
            let operands = postorder(*left) + postorder(*right);
            assert(postorder(expr).drop_last() == operands);
            lemma_postorder_places(stack, *left);
            lemma_postorder_places(stack.push(*left), *right);
            lemma_place_all_concat(stack, postorder(*left), postorder(*right));
            let placed = stack.push(*left).push(*right);
            assert(placed.take(placed.len() - 2) == stack);
        },
        Expression::Function(f, arg) => {
            assert(postorder(expr).drop_last() == postorder(*arg));
            lemma_postorder_places(stack, *arg);
            assert(stack.push(*arg).drop_last() == stack);
        },
    }
}

/// What is on the stack after postfix tokens are placed has those tokens as
/// its postfix tokens.
pub proof fn lemma_placed_postorders(tokens: Seq<PostfixSymbol>)
    requires
        place_all(Seq::empty(), tokens) is Ok,
    ensures
        postorders(place_all(Seq::empty(), tokens)->Ok_0) == tokens,
    decreases tokens.len(),
{
    if tokens.len() > 0 {
        lemma_placed_postorders(tokens.drop_last());
        let stack = place_all(Seq::empty(), tokens.drop_last())->Ok_0;
        let n = stack.len() as int;
        match tokens.last() {
            PostfixSymbol::Literal(text) => {
                assert(stack.push(Expression::Literal(text)).drop_last() == stack);
            },
            PostfixSymbol::Variable(c) => {
                assert(stack.push(Expression::Variable(c)).drop_last() == stack);
            },
            PostfixSymbol::Function(f) => {
                let call = Expression::Function(f, Box::new(stack.last()));
                assert(stack.drop_last().push(call).drop_last() == stack.drop_last());
                assert(postorders(stack.drop_last()) + postorder(call) == (postorders(
                    stack.drop_last(),
                ) + postorder(stack.last())).push(PostfixSymbol::Function(f)));
            },
            PostfixSymbol::ExpressionOp(op) => {
                let below = stack.take(n - 2);
                let operation = Expression::Operation(
                    op,
                    Box::new(stack[n - 2]),
                    Box::new(stack.last()),
                );
                assert(below.push(operation).drop_last() == below);
                assert(stack.drop_last().drop_last() == below);
                assert(stack.drop_last().last() == stack[n - 2]);
                assert(postorders(stack.drop_last()) == postorders(below) + postorder(
                    stack[n - 2],
                ));
                assert(postorders(stack) == postorders(below) + postorder(stack[n - 2])
                    + postorder(stack.last()));
                assert(postorders(below) + postorder(operation) == (postorders(below) + postorder(
                    stack[n - 2],
                ) + postorder(stack.last())).push(PostfixSymbol::ExpressionOp(op)));
            },
        }
        assert(tokens == tokens.drop_last().push(tokens.last()));
    }
}

/// Tree building inverts the postfix traversal: postfix tokens build an
/// expression exactly if they are the postfix tokens of that expression.
pub proof fn lemma_tree_of_inverts_postorder(tokens: Seq<PostfixSymbol>, expr: Expression)
    ensures
        tree_of(tokens) == Ok::<Expression, TreeBuildError>(expr) <==> postorder(expr) == tokens,
{
    if postorder(expr) == tokens {
        lemma_postorder_places(Seq::empty(), expr);
    }
    if tree_of(tokens) == Ok::<Expression, TreeBuildError>(expr) {
        lemma_placed_postorders(tokens);
        let stack = place_all(Seq::empty(), tokens)->Ok_0;
        assert(stack.drop_last() == Seq::<Expression>::empty());
        assert(postorders(stack.drop_last()) == Seq::<PostfixSymbol>::empty());
        assert(postorders(stack) == Seq::<PostfixSymbol>::empty() + postorder(expr));
        assert(postorders(stack) == postorder(expr));
    }
}

/// Once a token cannot be placed, the error stands whatever follows.
pub proof fn lemma_place_all_stays_failed(
    stack: Seq<Expression>,
    tokens: Seq<PostfixSymbol>,
    n: int,
)
    requires
        0 <= n <= tokens.len(),
        place_all(stack, tokens.take(n)) is Err,
    ensures
        place_all(stack, tokens) == place_all(stack, tokens.take(n)),
    decreases tokens.len() - n,
{
    if n < tokens.len() {
        assert(tokens.take(n + 1).drop_last() == tokens.take(n));
        lemma_place_all_stays_failed(stack, tokens, n + 1);
    } else {
        assert(tokens.take(n) == tokens);
    }
}

/// Builds the expression tree that postfix tokens describe. Fails where an
/// operand or an argument is missing, and where the tokens describe no
/// expression or more than one.
pub fn build_expression_tree(rpn_tokens: Vec<RPNToken>) -> (result: Result<
    ExpressionNode,
    TreeBuildError,
>)
    ensures
        result matches Ok(tree) ==> tree_of(postfix_symbols(rpn_tokens@)) == Ok::<
            Expression,
            TreeBuildError,
        >(tree@) && postorder(tree@) == postfix_symbols(rpn_tokens@),
        result matches Err(e) ==> tree_of(postfix_symbols(rpn_tokens@)) == Err::<
            Expression,
            TreeBuildError,
        >(e),
{
    let ghost symbols = postfix_symbols(rpn_tokens@);
    let mut stack: Vec<ExpressionNode> = Vec::new();
    let mut i: usize = 0;
    assert(symbols.take(0) == Seq::<PostfixSymbol>::empty());
    assert(expressions(stack@) == Seq::<Expression>::empty());
    while i < rpn_tokens.len()
        invariant
            i <= rpn_tokens.len(),
            symbols == postfix_symbols(rpn_tokens@),
            place_all(Seq::empty(), symbols.take(i as int)) == Ok::<
                Seq<Expression>,
                TreeBuildError,
            >(expressions(stack@)),
        decreases rpn_tokens.len() - i,
    {
        let ghost before = expressions(stack@);
        proof {
            assert(symbols.take(i as int + 1).drop_last() == symbols.take(i as int));
            assert(symbols.take(i as int + 1).last() == rpn_tokens[i as int]@);
        }
        let new = match &rpn_tokens[i] {
            RPNToken::Literal(num) => ExpressionNode::Literal(copy_text(num)),
            RPNToken::Variable(var) => ExpressionNode::Variable(*var),
            RPNToken::Function(func) => {
                match stack.pop() {
                    Some(arg) => {
                        assert(expressions(stack@) == before.drop_last());
                        ExpressionNode::Function(*func, Box::new(arg))
                    },
                    None => {
                        proof {
                            lemma_place_all_stays_failed(Seq::empty(), symbols, i as int + 1);
                        }
                        return Err(TreeBuildError::MissingFunctionArg);
                    },
                }
            },
            RPNToken::ExpressionOp(op) => {
                let right = match stack.pop() {
                    Some(node) => node,
                    None => {
                        proof {
                            lemma_place_all_stays_failed(Seq::empty(), symbols, i as int + 1);
                        }
                        return Err(TreeBuildError::MissingRightOperand);
                    },
                };
                let left = match stack.pop() {
                    Some(node) => node,
                    None => {
                        proof {
                            lemma_place_all_stays_failed(Seq::empty(), symbols, i as int + 1);
                        }
                        return Err(TreeBuildError::MissingLeftOperand);
                    },
                };
                assert(expressions(stack@) == before.take(before.len() - 2));
                ExpressionNode::Operation(*op, Box::new(left), Box::new(right))
            },
        };
        let ghost below = expressions(stack@);
        stack.push(new);
        assert(expressions(stack@) == below.push(new@));
        i += 1;
    }
    assert(symbols.take(rpn_tokens.len() as int) == symbols);
    if stack.len() > 1 {
        return Err(TreeBuildError::RemainingNodes);
    }
    match stack.pop() {
        Some(tree) => {
            proof {
                lemma_tree_of_inverts_postorder(symbols, tree@);
            }
            Ok(tree)
        },
        None => Err(TreeBuildError::EmptyExpression),
    }
}

} // verus!
