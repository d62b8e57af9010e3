//! Evaluation of expression trees. The tree is walked and every decision is
//! taken here; the floating-point operations themselves are carried out by an
//! arithmetic that the caller supplies, on numbers held as bit patterns.

use vstd::prelude::*;
use crate::binary32::{is_non_negative, is_positive, is_zero, E_BITS, ONE_BITS};
use crate::error::{BinaryOpErr, EvalError, FunctionEvalErr};
use crate::token::{copy_text, ExpressionOp, SupportedFunction};
use crate::tree::{expression_of, Expression, ExpressionNode};

verus! {

/// A floating-point operation that evaluation asks of its arithmetic.
/// Operands and results are single-precision bit patterns.
#[derive(Debug, PartialEq, Eq)]
pub enum FloatOp {
    /// The number nearest to a decimal literal, given by its characters.
    Parse(Vec<char>),
    Add(u32, u32),
    Sub(u32, u32),
    Mul(u32, u32),
    Div(u32, u32),
    /// The first operand raised to the power of the second.
    Pow(u32, u32),
    Sin(u32),
    Ln(u32),
    Log10(u32),
    Sqrt(u32),
}

/// The mathematical value of a [`FloatOp`].
pub enum Computation {
    Parse(Seq<char>),
    Add(u32, u32),
    Sub(u32, u32),
    Mul(u32, u32),
    Div(u32, u32),
    Pow(u32, u32),
    Sin(u32),
    Ln(u32),
    Log10(u32),
    Sqrt(u32),
}

impl View for FloatOp {
    type V = Computation;

    open spec fn view(&self) -> Computation {
        match *self {
            FloatOp::Parse(text) => Computation::Parse(text@),
            FloatOp::Add(a, b) => Computation::Add(a, b),
            FloatOp::Sub(a, b) => Computation::Sub(a, b),
            FloatOp::Mul(a, b) => Computation::Mul(a, b),
            FloatOp::Div(a, b) => Computation::Div(a, b),
            FloatOp::Pow(a, b) => Computation::Pow(a, b),
            FloatOp::Sin(a) => Computation::Sin(a),
            FloatOp::Ln(a) => Computation::Ln(a),
            FloatOp::Log10(a) => Computation::Log10(a),
            FloatOp::Sqrt(a) => Computation::Sqrt(a),
        }
    }
}

impl Clone for FloatOp {
    fn clone(&self) -> (r: Self)
        ensures
            r@ == self@,
    {
        match self {
            FloatOp::Parse(text) => FloatOp::Parse(copy_text(text)),
            FloatOp::Add(a, b) => FloatOp::Add(*a, *b),
            FloatOp::Sub(a, b) => FloatOp::Sub(*a, *b),
            FloatOp::Mul(a, b) => FloatOp::Mul(*a, *b),
            FloatOp::Div(a, b) => FloatOp::Div(*a, *b),
            FloatOp::Pow(a, b) => FloatOp::Pow(*a, *b),
            FloatOp::Sin(a) => FloatOp::Sin(*a),
            FloatOp::Ln(a) => FloatOp::Ln(*a),
            FloatOp::Log10(a) => FloatOp::Log10(*a),
            FloatOp::Sqrt(a) => FloatOp::Sqrt(*a),
        }
    }
}

/// An arithmetic as a mathematical function: the result of each computation.
pub type Arithmetic = spec_fn(Computation) -> u32;

/// Whether the executable arithmetic `arith` computes the function `sem`:
/// whatever it returns for an operation is what `sem` gives for it.
pub open spec fn computes<A: Fn(FloatOp) -> u32>(arith: &A, sem: Arithmetic) -> bool {
    forall|q: FloatOp, v: u32| #[trigger] call_ensures(*arith, (q,), v) ==> v == sem(q@)
}

/// The names in scope with their values, in the order in which they are
/// searched.
pub type Environment = Seq<(Seq<char>, u32)>;

/// The environment that a list of bindings stands for.
pub open spec fn bindings(vars: Seq<(String, u32)>) -> Environment {
    vars.map_values(|b: (String, u32)| (b.0@, b.1))
}

/// The value of `name`: that of the first binding of the name.
pub open spec fn lookup(env: Environment, name: Seq<char>) -> Option<u32>
    decreases env.len(),
{
    if env.len() == 0 {
        None
    } else if env[0].0 == name {
        Some(env[0].1)
    } else {
        lookup(env.drop_first(), name)
    }
}

/// The computation that an operator asks for.
pub open spec fn computation_of(op: ExpressionOp, left: u32, right: u32) -> Computation {
    match op {
        ExpressionOp::Add => Computation::Add(left, right),
        ExpressionOp::Subtract => Computation::Sub(left, right),
        ExpressionOp::Multiply => Computation::Mul(left, right),
        ExpressionOp::Divide => Computation::Div(left, right),
        ExpressionOp::Power => Computation::Pow(left, right),
    }
}

/// The result of an operator on two numbers: a division by a zero of either
/// sign fails, every other operation is what the arithmetic gives for it.
pub open spec fn operator_result(op: ExpressionOp, left: u32, right: u32, sem: Arithmetic) -> Result<
    u32,
    BinaryOpErr,
> {
    if op == ExpressionOp::Divide && is_zero(right) {
        Err(BinaryOpErr::Div0)
    } else {
        Ok(sem(computation_of(op, left, right)))
    }
}

/// The logistic curve `1 / (1 + e^arg)`, computed in that order.
pub open spec fn logistic(arg: u32, sem: Arithmetic) -> u32 {
    sem(Computation::Div(ONE_BITS, sem(Computation::Add(ONE_BITS, sem(Computation::Pow(E_BITS, arg))))))
}

/// The result of a function at a number. The sine is defined everywhere.
/// `Exp` is the logistic curve. The logarithms fail unless the argument is
/// greater than zero, the square root unless it is greater than or equal to
/// zero.
pub open spec fn function_result(f: SupportedFunction, arg: u32, sem: Arithmetic) -> Result<
    u32,
    FunctionEvalErr,
> {
    match f {
        SupportedFunction::Sine => Ok(sem(Computation::Sin(arg))),
        SupportedFunction::Exp => Ok(logistic(arg, sem)),
        SupportedFunction::Ln => if is_positive(arg) {
            Ok(sem(Computation::Ln(arg)))
        } else {
            Err(FunctionEvalErr::OutOfDomain)
        },
        SupportedFunction::Log10 => if is_positive(arg) {
            Ok(sem(Computation::Log10(arg)))
        } else {
            Err(FunctionEvalErr::OutOfDomain)
        },
        SupportedFunction::Sqrt => if is_non_negative(arg) {
            Ok(sem(Computation::Sqrt(arg)))
        } else {
            Err(FunctionEvalErr::OutOfDomain)
        },
    }
}

/// The value of an expression in an environment. A literal is what the
/// arithmetic reads its characters as. A variable is the value of its name,
/// and undefined where the name is not bound. An operation evaluates its left
/// operand, then its right, then applies the operator; a function evaluates
/// its argument, then applies itself; the first error ends the evaluation.
pub open spec fn value_of(expr: Expression, env: Environment, sem: Arithmetic) -> Result<
    u32,
    EvalError,
>
    decreases expr,
{
    match expr {
        Expression::Literal(text) => Ok(sem(Computation::Parse(text))),
        Expression::Variable(c) => match lookup(env, seq![c]) {
            Some(v) => Ok(v),
            None => Err(EvalError::UndefinedVariable),
        },
        Expression::Operation(op, left, right) => match value_of(*left, env, sem) {
            Err(err) => Err(err),
            Ok(lv) => match value_of(*right, env, sem) {
                Err(err) => Err(err),
                Ok(rv) => match operator_result(op, lv, rv, sem) {
                    Ok(v) => Ok(v),
                    Err(err) => Err(EvalError::BinaryOpErr(err)),
                },
            },
        },
        Expression::Function(f, arg) => match value_of(*arg, env, sem) {
            Err(err) => Err(err),
            Ok(av) => match function_result(f, av, sem) {
                Ok(v) => Ok(v),
                Err(err) => Err(EvalError::FunctionEvalErr(err)),
            },
        },
    }
}

impl ExpressionOp {
    /// Applies the operator to two numbers. A division by a zero of either
    /// sign fails; every other operation is left to the arithmetic.
    pub fn apply<A: Fn(FloatOp) -> u32>(&self, left: u32, right: u32, arith: &A) -> (res: Result<
        u32,
        BinaryOpErr,
    >)
        requires
            forall|q: FloatOp| call_requires(*arith, (q,)),
        ensures
            res is Err <==> *self == ExpressionOp::Divide && is_zero(right),
            res matches Err(e) ==> e == BinaryOpErr::Div0,
            forall|sem: Arithmetic| #[trigger]
                computes(arith, sem) ==> res == operator_result(*self, left, right, sem),
    {
        match self {
            ExpressionOp::Add => Ok(arith(FloatOp::Add(left, right))),
            ExpressionOp::Subtract => Ok(arith(FloatOp::Sub(left, right))),
            ExpressionOp::Multiply => Ok(arith(FloatOp::Mul(left, right))),
            ExpressionOp::Divide => {
                if !is_zero(right) {
                    Ok(arith(FloatOp::Div(left, right)))
                } else {
                    Err(BinaryOpErr::Div0)
                }
            },
            ExpressionOp::Power => Ok(arith(FloatOp::Pow(left, right))),
        }
    }
}

impl SupportedFunction {
    /// Whether the function is defined at `arg`.
    pub open spec fn admits(self, arg: u32) -> bool {
        match self {
            SupportedFunction::Sine => true,
            SupportedFunction::Exp => true,
            SupportedFunction::Ln => is_positive(arg),
            SupportedFunction::Log10 => is_positive(arg),
            SupportedFunction::Sqrt => is_non_negative(arg),
        }
    }

    /// Applies the function to a number. Outside the function's domain this
    /// fails; inside it the computation is left to the arithmetic.
    pub fn apply<A: Fn(FloatOp) -> u32>(&self, arg: u32, arith: &A) -> (res: Result<
        u32,
        FunctionEvalErr,
    >)
        requires
            forall|q: FloatOp| call_requires(*arith, (q,)),
        ensures
            res is Ok <==> self.admits(arg),
            res matches Err(e) ==> e == FunctionEvalErr::OutOfDomain,
            forall|sem: Arithmetic| #[trigger]
                computes(arith, sem) ==> res == function_result(*self, arg, sem),
    {
        match self {
            SupportedFunction::Sine => Ok(arith(FloatOp::Sin(arg))),
            SupportedFunction::Exp => {
                let power = arith(FloatOp::Pow(E_BITS, arg));
                let sum = arith(FloatOp::Add(ONE_BITS, power));
                Ok(arith(FloatOp::Div(ONE_BITS, sum)))
            },
            SupportedFunction::Ln => {
                if is_positive(arg) {
                    Ok(arith(FloatOp::Ln(arg)))
                } else {
                    Err(FunctionEvalErr::OutOfDomain)
                }
            },
            SupportedFunction::Log10 => {
                if is_positive(arg) {
                    Ok(arith(FloatOp::Log10(arg)))
                } else {
                    Err(FunctionEvalErr::OutOfDomain)
                }
            },
            SupportedFunction::Sqrt => {
                if is_non_negative(arg) {
                    Ok(arith(FloatOp::Sqrt(arg)))
                } else {
                    Err(FunctionEvalErr::OutOfDomain)
                }
            },
        }
    }
}

/// Whether `name` consists of the character `c` alone.
fn names(name: &String, c: char) -> (b: bool)
    ensures
        b == (name@ == seq![c]),
{
    let s = name.as_str();
    if s.unicode_len() == 1 {
        let first = s.get_char(0);
        assert(first == c ==> name@ =~= seq![c]);
        first == c
    } else {
        false
    }
}

/// Finds the value of the variable `c`: that of the first binding whose name
/// is the character `c` alone.
pub fn find(vars: &[(String, u32)], c: char) -> (r: Option<u32>)
    ensures
        r == lookup(bindings(vars@), seq![c]),
{
    let ghost env = bindings(vars@);
    let mut i: usize = 0;
    assert(env.skip(0) == env);
    while i < vars.len()
        invariant
            i <= vars.len(),
            env == bindings(vars@),
            lookup(env, seq![c]) == lookup(env.skip(i as int), seq![c]),
        decreases vars.len() - i,
    {
        assert(env.skip(i as int).drop_first() == env.skip(i as int + 1));
        assert(env.skip(i as int)[0] == env[i as int]);
        if names(&vars[i].0, c) {
            return Some(vars[i].1);
        }
        i += 1;
    }
    None
}

impl ExpressionNode {
    /// Evaluates the tree with the variables `vars`, searched from the front.
    /// Whatever function the arithmetic computes, the result is the value of
    /// the expression under that function.
    pub fn eval<A: Fn(FloatOp) -> u32>(&self, vars: &[(String, u32)], arith: &A) -> (res: Result<
        u32,
        EvalError,
    >)
        requires
            forall|q: FloatOp| call_requires(*arith, (q,)),
        ensures
            forall|sem: Arithmetic| #[trigger]
                computes(arith, sem) ==> res == value_of(self@, bindings(vars@), sem),
        decreases self,
    {
        match self {
            ExpressionNode::Operation(op, left, right) => {
                assert(self@ == Expression::Operation(
                    *op,
                    Box::new(expression_of(**left)),
                    Box::new(expression_of(**right)),
                ));
                let lv = match left.eval(vars, arith) {
                    Ok(v) => v,
                    Err(e) => {
                        return Err(e);
                    },
                };
                let rv = match right.eval(vars, arith) {
                    Ok(v) => v,
                    Err(e) => {
                        return Err(e);
                    },
                };
                match op.apply(lv, rv, arith) {
                    Ok(v) => Ok(v),
                    Err(e) => Err(EvalError::BinaryOpErr(e)),
                }
            },
            ExpressionNode::Literal(val) => Ok(arith(FloatOp::Parse(copy_text(val)))),
            ExpressionNode::Variable(var) => {
                match find(vars, *var) {
                    Some(val) => Ok(val),
                    None => Err(EvalError::UndefinedVariable),
                }
            },
            ExpressionNode::Function(func, arg) => {
                assert(self@ == Expression::Function(*func, Box::new(expression_of(**arg))));
                let av = match arg.eval(vars, arith) {
                    Ok(v) => v,
                    Err(e) => {
                        return Err(e);
                    },
                };
                match func.apply(av, arith) {
                    Ok(v) => Ok(v),
                    Err(e) => Err(EvalError::FunctionEvalErr(e)),
                }
            },
        }
    }
}

} // verus!
