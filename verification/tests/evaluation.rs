use formula::binary32::{E_BITS, ONE_BITS};
use formula::error::{BinaryOpErr, EvalError, FunctionEvalErr};
use formula::eval::{find, FloatOp};
use formula::function::ParsedFunction;
use formula::token::{ExpressionOp, SupportedFunction};
use formula::tree::ExpressionNode;

/// Single-precision arithmetic of the machine.
fn arithmetic(op: FloatOp) -> u32 {
    let f = f32::from_bits;
    let result = match op {
        FloatOp::Parse(text) => text.iter().collect::<String>().parse::<f32>().expect("a number"),
        FloatOp::Add(a, b) => f(a) + f(b),
        FloatOp::Sub(a, b) => f(a) - f(b),
        FloatOp::Mul(a, b) => f(a) * f(b),
        FloatOp::Div(a, b) => f(a) / f(b),
        FloatOp::Pow(a, b) => f(a).powf(f(b)),
        FloatOp::Sin(a) => f(a).sin(),
        FloatOp::Ln(a) => f(a).ln(),
        FloatOp::Log10(a) => f(a).log10(),
        FloatOp::Sqrt(a) => f(a).sqrt(),
    };
    result.to_bits()
}

fn parse(s: &str) -> ParsedFunction {
    ParsedFunction::parse(s).unwrap_or_else(|e| panic!("\"{s}\" was rejected: {e:?}"))
}

/// The formula as a function of `x`, with `e` and `π` in scope.
fn at(s: &str, x: f32) -> Result<f32, EvalError> {
    let mut f = parse(s);
    f.add_var("e", std::f32::consts::E.to_bits());
    f.add_var("π", std::f32::consts::PI.to_bits());
    f.bind("x").evaluate_at(x.to_bits(), &arithmetic).map(f32::from_bits)
}

fn close(a: f32, b: f32, tolerance: f32) -> bool {
    (a - b).abs() <= tolerance
}

const SAMPLES: [f32; 12] = [
    0.0,
    -0.0,
    1.0,
    -1.0,
    0.5,
    -2.75,
    3.0,
    1e-30,
    -1e30,
    f32::MAX,
    f32::MIN,
    f32::MIN_POSITIVE,
];

#[test]
fn juxtaposition_evaluates_as_multiplication() {
    for x in SAMPLES {
        assert_eq!(at("2x", x), at("2*x", x));
        assert_eq!(at("2x", x), Ok(2.0 * x));
    }
}

#[test]
fn negation_evaluates_to_the_opposite() {
    for v in SAMPLES {
        let r = at("-x", v).expect("a value");
        assert_eq!(r.to_bits(), (-v).to_bits());
    }
    assert_eq!(at("--x", 3.0), Ok(3.0));
    assert_eq!(at("2--x", 3.0), Ok(5.0));
    assert_eq!(at("2-x", 3.0), Ok(-1.0));
    assert_eq!(at("(-x)^2", 3.0), Ok(9.0));
    // a negation is a product, and a power binds tighter
    assert_eq!(at("-x^2", 3.0), Ok(-9.0));
}

#[test]
fn division_by_a_literal_zero_fails_at_every_point() {
    for x in SAMPLES {
        assert_eq!(at("1/0", x), Err(EvalError::BinaryOpErr(BinaryOpErr::Div0)));
        assert_eq!(at("x/0", x), Err(EvalError::BinaryOpErr(BinaryOpErr::Div0)));
    }
    assert_eq!(at("1/x", 0.0), Err(EvalError::BinaryOpErr(BinaryOpErr::Div0)));
    assert_eq!(at("1/x", -0.0), Err(EvalError::BinaryOpErr(BinaryOpErr::Div0)));
    assert_eq!(at("1/(x-x)", 5.0), Err(EvalError::BinaryOpErr(BinaryOpErr::Div0)));
    // only an exact zero fails
    assert_eq!(at("1/x", f32::MIN_POSITIVE), Ok(1.0 / f32::MIN_POSITIVE));
    assert_eq!(at("1/x", 4.0), Ok(0.25));
    assert!(at("1/x", f32::NAN).expect("a value").is_nan());
}

#[test]
fn natural_logarithm_needs_a_positive_argument() {
    assert_eq!(at("ln(x)", 1.0), Ok(0.0));
    assert_eq!(at("ln(x)", -1.0), Err(EvalError::FunctionEvalErr(FunctionEvalErr::OutOfDomain)));
    assert_eq!(at("ln(x)", 0.0), Err(EvalError::FunctionEvalErr(FunctionEvalErr::OutOfDomain)));
    assert_eq!(at("ln(x)", -0.0), Err(EvalError::FunctionEvalErr(FunctionEvalErr::OutOfDomain)));
    assert_eq!(
        at("ln(x)", f32::NAN),
        Err(EvalError::FunctionEvalErr(FunctionEvalErr::OutOfDomain))
    );
    assert_eq!(at("ln(x)", f32::INFINITY), Ok(f32::INFINITY));
    assert!(close(at("ln(e)", 0.0).expect("a value"), 1.0, 1e-6));
}

#[test]
fn decimal_logarithm_needs_a_positive_argument() {
    assert_eq!(at("log10(x)", 100.0), Ok(2.0));
    assert_eq!(at("log10(x)", 0.0), Err(EvalError::FunctionEvalErr(FunctionEvalErr::OutOfDomain)));
    assert_eq!(
        at("log10(x)", -3.0),
        Err(EvalError::FunctionEvalErr(FunctionEvalErr::OutOfDomain))
    );
}

#[test]
fn square_root_needs_a_non_negative_argument() {
    assert_eq!(at("sqrt(x)", 9.0), Ok(3.0));
    assert_eq!(at("sqrt(x)", 0.0), Ok(0.0));
    assert_eq!(at("sqrt(x)", -0.0).map(f32::to_bits), Ok((-0.0f32).to_bits()));
    assert_eq!(
        at("sqrt(x)", -1e-30),
        Err(EvalError::FunctionEvalErr(FunctionEvalErr::OutOfDomain))
    );
    assert_eq!(
        at("sqrt(x)", f32::NAN),
        Err(EvalError::FunctionEvalErr(FunctionEvalErr::OutOfDomain))
    );
}

#[test]
fn powers() {
    assert!(close(at("x^2", 3.0).expect("a value"), 9.0, 1e-5));
    assert!(close(at("2^x", 0.5).expect("a value"), 1.41421, 1e-4));
    assert_eq!(at("2^3^2", 0.0), Ok(512.0));
    assert_eq!(at("2x^2", 3.0), Ok(18.0));
    // out of the domain of the power, the result is passed on as it is
    assert!(at("x^0.5", -1.0).expect("a value").is_nan());
    assert_eq!(at("0^x", -1.0), Ok(f32::INFINITY));
}

#[test]
fn sine() {
    assert_eq!(at("sin(x)", 0.0), Ok(0.0));
    assert!(close(at("sin(x)", std::f32::consts::FRAC_PI_2).expect("a value"), 1.0, 1e-4));
    assert!(close(at("sin(π/2)", 0.0).expect("a value"), 1.0, 1e-4));
    assert!(close(at("sin(πx)", 0.5).expect("a value"), 1.0, 1e-4));
}

#[test]
fn exp_is_the_logistic_curve() {
    assert_eq!(at("exp(x)", 0.0), Ok(0.5));
    for x in [1.0f32, -1.0, 3.5, -20.0, 100.0] {
        let expected = 1. / (1. + std::f32::consts::E.powf(x));
        assert_eq!(at("exp(x)", x), Ok(expected));
    }
    assert_eq!(at("exp(x)", 1000.0), Ok(0.0));
    assert_eq!(at("exp(x)", -1000.0), Ok(1.0));
    assert_eq!(
        SupportedFunction::Exp.apply(0f32.to_bits(), &arithmetic),
        Ok(0.5f32.to_bits())
    );
}

#[test]
fn a_bound_constant_is_its_value_at_every_point() {
    for x in SAMPLES {
        assert_eq!(at("e", x), Ok(std::f32::consts::E));
    }
    // a constant hides a variable of its name
    let mut f = parse("e");
    f.add_var("e", std::f32::consts::E.to_bits());
    let bound = f.bind("e");
    for x in SAMPLES {
        assert_eq!(
            bound.evaluate_at(x.to_bits(), &arithmetic),
            Ok(std::f32::consts::E.to_bits())
        );
    }
}

#[test]
fn an_unbound_name_is_undefined() {
    let f = parse("y");
    let bound = f.bind("x");
    for x in SAMPLES {
        assert_eq!(bound.evaluate_at(x.to_bits(), &arithmetic), Err(EvalError::UndefinedVariable));
    }
    assert_eq!(at("x+y", 1.0), Err(EvalError::UndefinedVariable));
    assert_eq!(parse("x").bind("xx").evaluate_at(0, &arithmetic), Err(EvalError::UndefinedVariable));
    assert_eq!(parse("x").bind("").evaluate_at(0, &arithmetic), Err(EvalError::UndefinedVariable));
    assert_eq!(parse("x").bind("x").evaluate_at(7, &arithmetic), Ok(7));
}

#[test]
fn the_first_error_from_the_left_ends_the_evaluation() {
    assert_eq!(at("1/0+y", 1.0), Err(EvalError::BinaryOpErr(BinaryOpErr::Div0)));
    assert_eq!(at("y+1/0", 1.0), Err(EvalError::UndefinedVariable));
    assert_eq!(
        at("ln(0)+1/0", 1.0),
        Err(EvalError::FunctionEvalErr(FunctionEvalErr::OutOfDomain))
    );
    assert_eq!(at("sqrt(1/0)", 1.0), Err(EvalError::BinaryOpErr(BinaryOpErr::Div0)));
}

#[test]
fn an_expression_can_be_evaluated_again_after_an_error() {
    let f = parse("1/x");
    let bound = f.bind("x");
    assert_eq!(
        bound.evaluate_at(0f32.to_bits(), &arithmetic),
        Err(EvalError::BinaryOpErr(BinaryOpErr::Div0))
    );
    assert_eq!(bound.evaluate_at(2f32.to_bits(), &arithmetic), Ok(0.5f32.to_bits()));
}

#[test]
fn arithmetic_of_the_operators() {
    assert_eq!(at("1.5+x", 2.0), Ok(3.5));
    assert_eq!(at("1.5-x", 2.0), Ok(-0.5));
    assert_eq!(at("1.5*x", 2.0), Ok(3.0));
    assert_eq!(at("1.5/x", 2.0), Ok(0.75));
    assert_eq!(at("1-2-3", 0.0), Ok(-4.0));
    assert_eq!(at("2*3+4", 0.0), Ok(10.0));
    assert_eq!(at("2+3*4", 0.0), Ok(14.0));
    assert_eq!(at("6/2x", 3.0), Ok(1.0));
    assert_eq!(at("6/2*x", 3.0), Ok(9.0));
    assert_eq!(at("(x+1)(x-1)", 3.0), Ok(8.0));
    assert_eq!(at("1/(1000(x-19.5))", 20.5), Ok(0.001));
    assert_eq!(at("sin(x)+0.5x^2", 0.0), Ok(0.0));
    assert_eq!(at("12.", 0.0), Ok(12.0));
    assert_eq!(
        at("340282350000000000000000000000000000000", 0.0),
        Ok(f32::MAX)
    );
    assert_eq!(at("0.1", 0.0), Ok(0.1));
}

#[test]
fn operators_apply_on_bit_patterns() {
    let two = 2f32.to_bits();
    let three = 3f32.to_bits();
    assert_eq!(ExpressionOp::Add.apply(two, three, &arithmetic), Ok(5f32.to_bits()));
    assert_eq!(ExpressionOp::Subtract.apply(two, three, &arithmetic), Ok((-1f32).to_bits()));
    assert_eq!(ExpressionOp::Multiply.apply(two, three, &arithmetic), Ok(6f32.to_bits()));
    assert_eq!(ExpressionOp::Divide.apply(three, two, &arithmetic), Ok(1.5f32.to_bits()));
    assert_eq!(ExpressionOp::Power.apply(two, three, &arithmetic), Ok(8f32.to_bits()));
    assert_eq!(ExpressionOp::Divide.apply(two, 0, &arithmetic), Err(BinaryOpErr::Div0));
    assert_eq!(
        ExpressionOp::Divide.apply(two, (-0.0f32).to_bits(), &arithmetic),
        Err(BinaryOpErr::Div0)
    );
    // other operators take a zero
    assert_eq!(ExpressionOp::Multiply.apply(two, 0, &arithmetic), Ok(0));
    assert_eq!(ExpressionOp::Power.apply(two, 0, &arithmetic), Ok(ONE_BITS));
}

#[test]
fn functions_apply_on_bit_patterns() {
    let out = Err(FunctionEvalErr::OutOfDomain);
    let minus_one = (-1f32).to_bits();
    assert_eq!(SupportedFunction::Sine.apply(minus_one, &arithmetic), Ok((-1f32).sin().to_bits()));
    assert!(SupportedFunction::Exp.apply(minus_one, &arithmetic).is_ok());
    assert_eq!(SupportedFunction::Ln.apply(minus_one, &arithmetic), out);
    assert_eq!(SupportedFunction::Log10.apply(minus_one, &arithmetic), out);
    assert_eq!(SupportedFunction::Sqrt.apply(minus_one, &arithmetic), out);
    assert_eq!(SupportedFunction::Ln.apply(E_BITS, &arithmetic), Ok(std::f32::consts::E.ln().to_bits()));
    assert_eq!(SupportedFunction::Log10.apply(1000f32.to_bits(), &arithmetic), Ok(3f32.to_bits()));
    assert_eq!(SupportedFunction::Sqrt.apply(16f32.to_bits(), &arithmetic), Ok(4f32.to_bits()));
}

#[test]
fn the_first_binding_of_a_name_wins() {
    let vars = vec![
        ("a".to_string(), 1),
        ("b".to_string(), 2),
        ("a".to_string(), 3),
        ("ab".to_string(), 4),
        ("".to_string(), 5),
        ("π".to_string(), 6),
    ];
    assert_eq!(find(&vars, 'a'), Some(1));
    assert_eq!(find(&vars, 'b'), Some(2));
    assert_eq!(find(&vars, 'π'), Some(6));
    assert_eq!(find(&vars, 'c'), None);
    assert_eq!(find(&[], 'a'), None);
    let tree = ExpressionNode::Variable('a');
    assert_eq!(tree.eval(&vars, &arithmetic), Ok(1));
}

#[test]
fn adding_a_constant_twice_keeps_one() {
    let mut f = parse("k");
    f.add_var("k", 2f32.to_bits());
    f.add_var("k", 2f32.to_bits());
    assert_eq!(f.bound_vars(), &vec![("k".to_string(), 2f32.to_bits())]);
    // another value of the same name is added behind, and hidden
    f.add_var("k", 3f32.to_bits());
    assert_eq!(
        f.bound_vars(),
        &vec![("k".to_string(), 2f32.to_bits()), ("k".to_string(), 3f32.to_bits())]
    );
    assert_eq!(f.bind("x").evaluate_at(0, &arithmetic), Ok(2f32.to_bits()));
    // the two zeros are equal numbers
    f.add_var("z", 0f32.to_bits());
    f.add_var("z", (-0f32).to_bits());
    assert_eq!(f.bound_vars().len(), 3);
    // what is not a number equals nothing, itself included
    f.add_var("n", f32::NAN.to_bits());
    f.add_var("n", f32::NAN.to_bits());
    assert_eq!(f.bound_vars().len(), 5);
    // another name with the same value is another binding
    f.add_var("j", 2f32.to_bits());
    assert_eq!(f.bound_vars().len(), 6);
}

#[test]
fn binding_copies_the_formula() {
    let mut f = parse("cx");
    f.add_var("c", 2f32.to_bits());
    let bound = f.bind("x");
    f.add_var("x", 100f32.to_bits());
    assert_eq!(bound.evaluate_at(3f32.to_bits(), &arithmetic), Ok(6f32.to_bits()));
    assert_eq!(f.bind("x").evaluate_at(3f32.to_bits(), &arithmetic), Ok(200f32.to_bits()));
    let copy = f.clone();
    assert_eq!(copy.tree(), f.tree());
    assert_eq!(copy.bound_vars(), f.bound_vars());
}
