//! Parsed formulas: an expression tree with the constants in its scope, and
//! its evaluation as a function of one variable.

use vstd::prelude::*;
use vstd::string::StringExecFns;
use crate::binary32::same_number;
use crate::error::{EvalError, ParseError, ShuntingYardError, TreeBuildError};
use crate::eval::{bindings, computes, value_of, Arithmetic, Environment, FloatOp};
use crate::acceptance::{calls_parenthesised, lemma_accepted_exactly_if_well_formed};
use crate::balance::balanced;
use crate::notation::{lemma_notation_is_read_as_meant, meaning, spelled, well_formed, Notation};
use crate::shunting_yard::{postfix_of, shunting_yard};
use crate::token::InfixSymbol;
use crate::tokenizer::{tokenize, tokens_of};
use crate::tree::{build_expression_tree, tree_of, Expression, ExpressionNode};

verus! {

/// A formula that was parsed: its expression tree and the constants that are
/// always in scope, in the order in which they were added.
#[derive(Debug)]
pub struct ParsedFunction {
    tree: ExpressionNode,
    bound_vars: Vec<(String, u32)>,
}

/// A parsed formula together with the name of its free variable.
#[derive(Debug)]
pub struct BoundFunction {
    tree: ExpressionNode,
    vars: Vec<(String, u32)>,
    var: String,
}

/// Whether `env` holds a binding of `name` to a number equal to `val`.
pub open spec fn holds_binding(env: Environment, name: Seq<char>, val: u32) -> bool {
    exists|i: int| 0 <= i < env.len() && (#[trigger] env[i]).0 == name && same_number(env[i].1, val)
}

/// The tree that infix tokens are parsed to, if they are accepted.
pub open spec fn expression_from(tokens: Seq<InfixSymbol>) -> Option<Expression> {
    match postfix_of(tokens) {
        Ok(rpn) => match tree_of(rpn) {
            Ok(tree) => Some(tree),
            Err(_) => None,
        },
        Err(_) => None,
    }
}

/// The expression that a formula is parsed to, or the stage that rejects it
/// and why: the formula is split into tokens, the tokens are brought into
/// postfix order, and the tree is built from them.
pub open spec fn parsed(formula: Seq<char>) -> Result<Expression, ParseFailure> {
    match tokens_of(formula) {
        Err(at) => Err(ParseFailure::Tokenizer(at)),
        Ok(tokens) => match postfix_of(tokens) {
            Err(e) => Err(ParseFailure::ShuntingYard(e)),
            Ok(rpn) => match tree_of(rpn) {
                Err(e) => Err(ParseFailure::TreeBuild(e)),
                Ok(tree) => Ok(tree),
            },
        },
    }
}

/// Whether `notation` is a way to read `formula`: it is well formed, and
/// the formula is split into its tokens.
pub open spec fn writes(notation: Notation, formula: Seq<char>) -> bool {
    well_formed(notation) && tokens_of(formula) == Ok::<Seq<InfixSymbol>, nat>(spelled(notation))
}

/// The mathematical value of a [`ParseError`]: the position at which the
/// tokenizer fails is a natural number.
pub enum ParseFailure {
    Tokenizer(nat),
    TreeBuild(TreeBuildError),
    ShuntingYard(ShuntingYardError),
}

impl View for ParseError {
    type V = ParseFailure;

    open spec fn view(&self) -> ParseFailure {
        match *self {
            ParseError::Tokenizer(e) => ParseFailure::Tokenizer(e.failure_idx as nat),
            ParseError::TreeBuild(e) => ParseFailure::TreeBuild(e),
            ParseError::ShuntingYard(e) => ParseFailure::ShuntingYard(e),
        }
    }
}

fn copy_vars(vars: &Vec<(String, u32)>) -> (r: Vec<(String, u32)>)
    ensures
        bindings(r@) == bindings(vars@),
{
    let mut r: Vec<(String, u32)> = Vec::new();
    let mut i: usize = 0;
    while i < vars.len()
        invariant
            i <= vars.len(),
            bindings(r@) == bindings(vars@).take(i as int),
        decreases vars.len() - i,
    {
        let ghost before = bindings(r@);
        r.push((vars[i].0.clone(), vars[i].1));
        assert(bindings(r@) == before.push(bindings(vars@)[i as int]));
        i += 1;
    }
    assert(bindings(vars@).take(vars.len() as int) == bindings(vars@));
    r
}

impl ParsedFunction {
    /// The expression of the formula.
    pub closed spec fn expression(&self) -> Expression {
        self.tree@
    }

    /// The constants in scope, in the order in which they are searched.
    pub closed spec fn constants(&self) -> Environment {
        bindings(self.bound_vars@)
    }

    /// Parses a formula. No constant is in scope of the result. The formula
    /// is rejected for its parentheses exactly if they are not balanced or a
    /// function name is not followed by one. A formula that a well-formed
    /// notation writes is parsed to what the notation means.
    pub fn parse(s: &str) -> (result: Result<ParsedFunction, ParseError>)
        ensures
            result matches Ok(f) ==> parsed(s@) == Ok::<Expression, ParseFailure>(f.expression())
                && f.constants() == Seq::<(Seq<char>, u32)>::empty(),
            result matches Err(e) ==> parsed(s@) == Err::<Expression, ParseFailure>(e@),
            result is Err && result->Err_0 is ShuntingYard <==> tokens_of(s@) is Ok && !(balanced(
                tokens_of(s@)->Ok_0,
            ) && calls_parenthesised(tokens_of(s@)->Ok_0)),
            forall|notation: Notation| #[trigger]
                writes(notation, s@) ==> result is Ok && result->Ok_0.expression() == meaning(
                    notation,
                ),
    {
        proof {
            if tokens_of(s@) is Ok {
                lemma_accepted_exactly_if_well_formed(tokens_of(s@)->Ok_0);
            }
            assert forall|notation: Notation| #[trigger] writes(notation, s@) implies parsed(s@)
                == Ok::<Expression, ParseFailure>(meaning(notation)) by {
                lemma_notation_is_read_as_meant(notation);
            }
        }
        let tokens = match tokenize(s) {
            Ok(tokens) => tokens,
            Err(e) => {
                return Err(ParseError::Tokenizer(e));
            },
        };
        let rpn = match shunting_yard(tokens) {
            Ok(rpn) => rpn,
            Err(e) => {
                return Err(ParseError::ShuntingYard(e));
            },
        };
        let tree = match build_expression_tree(rpn) {
            Ok(tree) => tree,
            Err(e) => {
                return Err(ParseError::TreeBuild(e));
            },
        };
        let f = ParsedFunction { tree, bound_vars: Vec::new() };
        assert(bindings(f.bound_vars@) == Seq::<(Seq<char>, u32)>::empty());
        Ok(f)
    }

    /// The expression tree.
    pub fn tree(&self) -> (tree: &ExpressionNode)
        ensures
            tree@ == self.expression(),
    {
        &self.tree
    }

    /// The constants in scope, in the order in which they were added.
    pub fn bound_vars(&self) -> (vars: &Vec<(String, u32)>)
        ensures
            bindings(vars@) == self.constants(),
    {
        &self.bound_vars
    }

    /// Brings the constant `var` with the value `val` into scope, behind the
    /// constants that are there. Nothing changes if the same name is already
    /// bound to an equal number.
    pub fn add_var(&mut self, var: &str, val: u32)
        ensures
            final(self).expression() == old(self).expression(),
            holds_binding(old(self).constants(), var@, val) ==> final(self).constants() == old(
                self,
            ).constants(),
            !holds_binding(old(self).constants(), var@, val) ==> final(self).constants() == old(
                self,
            ).constants().push((var@, val)),
    {
        let name = String::from_str(var);
        let ghost env = bindings(self.bound_vars@);
        let mut i: usize = 0;
        while i < self.bound_vars.len()
            invariant
                i <= self.bound_vars.len(),
                *self == *old(self),
                env == bindings(self.bound_vars@),
                name@ == var@,
                forall|j: int| 0 <= j < i ==> !((#[trigger] env[j]).0 == var@ && same_number(env[j].1, val)),
            decreases self.bound_vars.len() - i,
        {
            if self.bound_vars[i].0 == name && same_number(self.bound_vars[i].1, val) {
                assert(env[i as int].0 == var@ && same_number(env[i as int].1, val));
                return ;
            }
            i += 1;
        }
        self.bound_vars.push((name, val));
        assert(bindings(self.bound_vars@) == env.push((var@, val)));
    }

    /// The formula as a function of the variable `var`.
    pub fn bind(&self, var: &str) -> (f: BoundFunction)
        ensures
            f.expression() == self.expression(),
            f.constants() == self.constants(),
            f.variable() == var@,
    {
        BoundFunction {
            tree: self.tree.clone(),
            vars: copy_vars(&self.bound_vars),
            var: String::from_str(var),
        }
    }

}

impl Clone for ParsedFunction {
    fn clone(&self) -> (f: Self)
        ensures
            f.expression() == self.expression(),
            f.constants() == self.constants(),
    {
        ParsedFunction { tree: self.tree.clone(), bound_vars: copy_vars(&self.bound_vars) }
    }
}

impl Clone for BoundFunction {
    fn clone(&self) -> (f: Self)
        ensures
            f.expression() == self.expression(),
            f.constants() == self.constants(),
            f.variable() == self.variable(),
    {
        BoundFunction {
            tree: self.tree.clone(),
            vars: copy_vars(&self.vars),
            var: self.var.clone(),
        }
    }
}

impl core::str::FromStr for ParsedFunction {
    type Err = ParseError;

    /// Parses a formula, as [`ParsedFunction::parse`] does.
    fn from_str(s: &str) -> (result: Result<Self, Self::Err>)
        ensures
            result matches Ok(f) ==> parsed(s@) == Ok::<Expression, ParseFailure>(f.expression())
                && f.constants() == Seq::<(Seq<char>, u32)>::empty(),
            result matches Err(e) ==> parsed(s@) == Err::<Expression, ParseFailure>(e@),
            result is Err && result->Err_0 is ShuntingYard <==> tokens_of(s@) is Ok && !(balanced(
                tokens_of(s@)->Ok_0,
            ) && calls_parenthesised(tokens_of(s@)->Ok_0)),
            forall|notation: Notation| #[trigger]
                writes(notation, s@) ==> result is Ok && result->Ok_0.expression() == meaning(
                    notation,
                ),
    {
        ParsedFunction::parse(s)
    }
}

impl BoundFunction {
    /// The expression of the formula.
    pub closed spec fn expression(&self) -> Expression {
        self.tree@
    }

    /// The constants in scope, in the order in which they are searched.
    pub closed spec fn constants(&self) -> Environment {
        bindings(self.vars@)
    }

    /// The name of the free variable.
    pub closed spec fn variable(&self) -> Seq<char> {
        self.var@
    }

    /// The environment in which the function is evaluated at `v`: the
    /// constants, and behind them the variable with the value `v`.
    pub open spec fn environment_at(&self, v: u32) -> Environment {
        self.constants().push((self.variable(), v))
    }

    /// Evaluates the function at `v`. The constants are searched before the
    /// variable, so a constant of the same name hides the variable.
    pub fn evaluate_at<A: Fn(FloatOp) -> u32>(&self, v: u32, arith: &A) -> (res: Result<
        u32,
        EvalError,
    >)
        requires
            forall|q: FloatOp| call_requires(*arith, (q,)),
        ensures
            forall|sem: Arithmetic| #[trigger]
                computes(arith, sem) ==> res == value_of(
                    self.expression(),
                    self.environment_at(v),
                    sem,
                ),
    {
        let mut env = copy_vars(&self.vars);
        let ghost before = bindings(env@);
        env.push((self.var.clone(), v));
        assert(bindings(env@) == before.push((self.var@, v)));
        self.tree.eval(env.as_slice(), arith)
    }
}

} // verus!
