use formula::error::{ParseError, ShuntingYardError, TokenizerError, TreeBuildError};
use formula::function::ParsedFunction;
use formula::normalize::{insert_implicit_multiplication, perform_unary_minus};
use formula::shunting_yard::shunting_yard;
use formula::token::{
    get_operator_precedence, is_right_associative, to_operation, ExpressionOp, InfixToken,
    InfixTokenOperator, RPNToken, SupportedFunction,
};
use formula::tokenizer::{get_func, read_literal, tokenize};
use formula::tree::{build_expression_tree, ExpressionNode};
use formula::unicode::strip_whitespace;

fn text(s: &str) -> Vec<char> {
    s.chars().collect()
}

/// The characters of a literal, checked to be a way of writing `value`.
fn written(value: f32, s: &str) -> Vec<char> {
    assert_eq!(s.parse::<f32>(), Ok(value));
    text(s)
}

fn lit(value: f32, s: &str) -> InfixToken {
    InfixToken::Literal(written(value, s))
}

fn rpn_lit(value: f32, s: &str) -> RPNToken {
    RPNToken::Literal(written(value, s))
}

fn op(o: InfixTokenOperator) -> InfixToken {
    InfixToken::Operator(o)
}

fn tree(s: &str) -> ExpressionNode {
    let rpn = shunting_yard(tokenize(s).expect("tokens")).expect("postfix");
    build_expression_tree(rpn).expect("tree")
}

fn parse_error(s: &str) -> ParseError {
    match ParsedFunction::parse(s) {
        Ok(_) => panic!("\"{s}\" was accepted"),
        Err(e) => e,
    }
}

fn var(c: char) -> Box<ExpressionNode> {
    Box::new(ExpressionNode::Variable(c))
}

fn num(s: &str) -> Box<ExpressionNode> {
    Box::new(ExpressionNode::Literal(text(s)))
}

fn node(o: ExpressionOp, l: Box<ExpressionNode>, r: Box<ExpressionNode>) -> Box<ExpressionNode> {
    Box::new(ExpressionNode::Operation(o, l, r))
}

#[test]
fn test_tokenizer_func() {
    let test_sets = [
        ("sin(x)", vec![
            InfixToken::Function(SupportedFunction::Sine),
            InfixToken::ParenOpen,
            InfixToken::Variable('x'),
            InfixToken::ParenClose,
        ]),
        ("1/(1000(x-19.5))", vec![
            lit(1., "1"),
            InfixToken::Operator(InfixTokenOperator::Divide),
            InfixToken::ParenOpen,
            lit(1000., "1000"),
            InfixToken::ParenOpen,
            InfixToken::Variable('x'),
            InfixToken::Operator(InfixTokenOperator::SubtractOrNegate),
            lit(19.5, "19.5"),
            InfixToken::ParenClose,
            InfixToken::ParenClose,
        ]),
    ];
    for (input, correct_tokens) in test_sets {
        let tokens = tokenize(input).unwrap_or_else(|_| panic!("Failed to tokenize \"{input}\""));
        assert_eq!(tokens, correct_tokens);
    }
}

#[test]
fn test_build_tree() {
    let test_sets = [(
        vec![
            rpn_lit(-1., "-1"),
            RPNToken::Variable('x'),
            RPNToken::ExpressionOp(ExpressionOp::Multiply),
        ],
        ExpressionNode::Operation(
            ExpressionOp::Multiply,
            Box::new(ExpressionNode::Literal(written(-1., "-1"))),
            Box::new(ExpressionNode::Variable('x')),
        ),
    )];
    for (tokens, correct_tree) in test_sets {
        let tree = build_expression_tree(tokens).unwrap();
        assert_eq!(tree, correct_tree);
    }
}

#[test]
fn test_shunting_yard() {
    let test_sets = [
        (
            vec![
                lit(2., "2"),
                InfixToken::Operator(InfixTokenOperator::Multiply),
                lit(3., "3"),
            ],
            vec![
                rpn_lit(2., "2"),
                rpn_lit(3., "3"),
                RPNToken::ExpressionOp(ExpressionOp::Multiply),
            ],
        ),
        (
            vec![
                InfixToken::Operator(InfixTokenOperator::SubtractOrNegate),
                InfixToken::Variable('x'),
            ],
            vec![
                rpn_lit(-1., "-1"),
                RPNToken::Variable('x'),
                RPNToken::ExpressionOp(ExpressionOp::Multiply),
            ],
        ),
        (
            vec![lit(6., "6"), InfixToken::Variable('x')],
            vec![
                rpn_lit(6., "6"),
                RPNToken::Variable('x'),
                RPNToken::ExpressionOp(ExpressionOp::Multiply),
            ],
        ),
        (
            vec![
                InfixToken::Variable('x'),
                InfixToken::Operator(InfixTokenOperator::Add),
                InfixToken::Function(SupportedFunction::Sine),
                InfixToken::ParenOpen,
                lit(10., "10"),
                InfixToken::Variable('x'),
                InfixToken::ParenClose,
            ],
            vec![
                RPNToken::Variable('x'),
                rpn_lit(10., "10"),
                RPNToken::Variable('x'),
                RPNToken::ExpressionOp(ExpressionOp::Multiply),
                RPNToken::Function(SupportedFunction::Sine),
                RPNToken::ExpressionOp(ExpressionOp::Add),
            ],
        ),
        (
            vec![
                lit(0.3, "0.3"),
                InfixToken::Function(SupportedFunction::Sine),
                InfixToken::ParenOpen,
                InfixToken::Variable('x'),
                InfixToken::ParenClose,
            ],
            vec![
                rpn_lit(0.3, "0.3"),
                RPNToken::Variable('x'),
                RPNToken::Function(SupportedFunction::Sine),
            ],
        ),
    ];
    for (infix, correct_rpn) in test_sets {
        let rpn = shunting_yard(infix).expect("Shunting yard failed");
        assert_eq!(rpn, correct_rpn);
    }
}

#[test]
fn whitespace_is_ignored_everywhere() {
    assert_eq!(strip_whitespace(" 1 2\t.\n5 "), text("12.5"));
    assert_eq!(strip_whitespace("\u{2003}x\u{a0}"), text("x"));
    assert_eq!(tokenize(" s i n ( 1 9 . 5 ) "), tokenize("sin(19.5)"));
    assert_eq!(tokenize("   "), Ok(vec![]));
    assert_eq!(tokenize(""), Ok(vec![]));
}

#[test]
fn every_kind_of_token_is_read() {
    assert_eq!(
        tokenize("+-*/^()"),
        Ok(vec![
            op(InfixTokenOperator::Add),
            op(InfixTokenOperator::SubtractOrNegate),
            op(InfixTokenOperator::Multiply),
            op(InfixTokenOperator::Divide),
            op(InfixTokenOperator::Power),
            InfixToken::ParenOpen,
            InfixToken::ParenClose,
        ])
    );
    assert_eq!(
        tokenize("sinexplnlog10sqrt"),
        Ok(vec![
            InfixToken::Function(SupportedFunction::Sine),
            InfixToken::Function(SupportedFunction::Exp),
            InfixToken::Function(SupportedFunction::Ln),
            InfixToken::Function(SupportedFunction::Log10),
            InfixToken::Function(SupportedFunction::Sqrt),
        ])
    );
}

#[test]
fn letters_are_variables_one_by_one() {
    assert_eq!(
        tokenize("xy"),
        Ok(vec![InfixToken::Variable('x'), InfixToken::Variable('y')])
    );
    // A function name is only read whole.
    assert_eq!(
        tokenize("si"),
        Ok(vec![InfixToken::Variable('s'), InfixToken::Variable('i')])
    );
    assert_eq!(
        tokenize("log1"),
        Ok(vec![
            InfixToken::Variable('l'),
            InfixToken::Variable('o'),
            InfixToken::Variable('g'),
            lit(1., "1"),
        ])
    );
    assert_eq!(tokenize("π"), Ok(vec![InfixToken::Variable('π')]));
    assert_eq!(
        tokenize("πx+é"),
        Ok(vec![
            InfixToken::Variable('π'),
            InfixToken::Variable('x'),
            op(InfixTokenOperator::Add),
            InfixToken::Variable('é'),
        ])
    );
}

#[test]
fn literals_take_digits_and_one_point() {
    assert_eq!(tokenize("12"), Ok(vec![lit(12., "12")]));
    assert_eq!(tokenize("12."), Ok(vec![lit(12., "12.")]));
    assert_eq!(tokenize("0.25"), Ok(vec![lit(0.25, "0.25")]));
    assert_eq!(tokenize("1 2"), Ok(vec![lit(12., "12")]));
    assert_eq!(
        tokenize("1.5x"),
        Ok(vec![lit(1.5, "1.5"), InfixToken::Variable('x')])
    );
    assert_eq!(read_literal(&text("19.5)")), Some((text("19.5"), 4)));
    assert_eq!(read_literal(&text("7")), Some((text("7"), 1)));
    assert_eq!(read_literal(&text("1.2.3")), Some((text("1.2"), 3)));
    assert_eq!(read_literal(&text(".5")), None);
    assert_eq!(read_literal(&text("x")), None);
    assert_eq!(read_literal(&text("")), None);
    // A digit of another script is numeric, but no decimal digit.
    assert_eq!(read_literal(&text("٣")), None);
    assert_eq!(read_literal(&text("1٣")), None);
}

#[test]
fn a_long_literal_is_kept_whole() {
    let digits = "123456789012345678901234567890.123456789012345678901234567890";
    assert_eq!(tokenize(digits), Ok(vec![InfixToken::Literal(text(digits))]));
}

#[test]
fn tokenizer_reports_the_offending_position() {
    assert_eq!(tokenize("x$1"), Err(TokenizerError { failure_idx: 1 }));
    assert_eq!(tokenize(" x  $ 1"), Err(TokenizerError { failure_idx: 1 }));
    assert_eq!(tokenize("#"), Err(TokenizerError { failure_idx: 0 }));
    assert_eq!(tokenize("sin(x)+1.2.3"), Err(TokenizerError { failure_idx: 10 }));
    assert_eq!(tokenize(".5"), Err(TokenizerError { failure_idx: 0 }));
    assert_eq!(tokenize("2+٣"), Err(TokenizerError { failure_idx: 2 }));
    assert_eq!(tokenize("x+1٣"), Err(TokenizerError { failure_idx: 2 }));
    assert_eq!(tokenize("πx,y"), Err(TokenizerError { failure_idx: 2 }));
    assert_eq!(
        parse_error("2 % x"),
        ParseError::Tokenizer(TokenizerError { failure_idx: 1 })
    );
}

#[test]
fn function_names_are_found_by_prefix() {
    assert_eq!(get_func(&text("sin(x)")), Some((SupportedFunction::Sine, 3)));
    assert_eq!(get_func(&text("exp")), Some((SupportedFunction::Exp, 3)));
    assert_eq!(get_func(&text("ln2")), Some((SupportedFunction::Ln, 2)));
    assert_eq!(get_func(&text("log10(")), Some((SupportedFunction::Log10, 5)));
    assert_eq!(get_func(&text("sqrtx")), Some((SupportedFunction::Sqrt, 4)));
    assert_eq!(get_func(&text("log1")), None);
    assert_eq!(get_func(&text("xsin")), None);
    assert_eq!(get_func(&text("Sin")), None);
    assert_eq!(get_func(&text("")), None);
}

#[test]
fn precedence_table() {
    assert_eq!(get_operator_precedence(InfixTokenOperator::Add), 1);
    assert_eq!(get_operator_precedence(InfixTokenOperator::SubtractOrNegate), 1);
    assert_eq!(get_operator_precedence(InfixTokenOperator::Multiply), 2);
    assert_eq!(get_operator_precedence(InfixTokenOperator::Divide), 2);
    assert_eq!(get_operator_precedence(InfixTokenOperator::ImplicitMultiply), 3);
    assert_eq!(get_operator_precedence(InfixTokenOperator::Power), 5);
    assert!(is_right_associative(InfixTokenOperator::Power));
    assert!(!is_right_associative(InfixTokenOperator::Add));
    assert!(!is_right_associative(InfixTokenOperator::SubtractOrNegate));
    assert!(!is_right_associative(InfixTokenOperator::Multiply));
    assert!(!is_right_associative(InfixTokenOperator::Divide));
    assert!(!is_right_associative(InfixTokenOperator::ImplicitMultiply));
    assert_eq!(to_operation(InfixTokenOperator::ImplicitMultiply), ExpressionOp::Multiply);
    assert_eq!(to_operation(InfixTokenOperator::SubtractOrNegate), ExpressionOp::Subtract);
}

#[test]
fn unary_minus_is_resolved_by_what_precedes() {
    let minus = || op(InfixTokenOperator::SubtractOrNegate);
    let negation = || vec![lit(-1., "-1"), op(InfixTokenOperator::ImplicitMultiply)];
    let x = || InfixToken::Variable('x');

    // first token
    let mut expected = negation();
    expected.push(x());
    assert_eq!(perform_unary_minus(&[minus(), x()]), expected);

    // after an operand: subtraction
    assert_eq!(perform_unary_minus(&[x(), minus(), x()]), vec![x(), minus(), x()]);
    assert_eq!(
        perform_unary_minus(&[InfixToken::ParenClose, minus(), x()]),
        vec![InfixToken::ParenClose, minus(), x()]
    );

    // after an operator and after an opening parenthesis
    let mut expected = vec![x(), op(InfixTokenOperator::Multiply)];
    expected.extend(negation());
    expected.push(x());
    assert_eq!(
        perform_unary_minus(&[x(), op(InfixTokenOperator::Multiply), minus(), x()]),
        expected
    );
    let mut expected = vec![InfixToken::ParenOpen];
    expected.extend(negation());
    expected.push(x());
    assert_eq!(perform_unary_minus(&[InfixToken::ParenOpen, minus(), x()]), expected);

    // a minus after a minus negates too
    let mut expected = negation();
    expected.extend(negation());
    expected.push(x());
    assert_eq!(perform_unary_minus(&[minus(), minus(), x()]), expected);

    assert_eq!(perform_unary_minus(&[]), vec![]);
}

#[test]
fn juxtaposition_is_marked_where_a_product_is_meant() {
    let mark = || op(InfixTokenOperator::ImplicitMultiply);
    let x = || InfixToken::Variable('x');
    let two = || lit(2., "2");
    let sine = || InfixToken::Function(SupportedFunction::Sine);
    let open = || InfixToken::ParenOpen;
    let close = || InfixToken::ParenClose;
    let plus = || op(InfixTokenOperator::Add);
    // a literal or a variable before a variable or an opening parenthesis,
    // and a closing parenthesis before an opening one
    let products = [(two(), x()), (two(), open()), (x(), open()), (close(), open()), (x(), x())];
    for (a, b) in &products {
        assert_eq!(
            insert_implicit_multiplication(&[a.clone(), b.clone()]),
            vec![a.clone(), mark(), b.clone()]
        );
    }
    // every other pair stays as it is
    let all = [two(), x(), sine(), open(), close(), plus()];
    let mut others = 0;
    for a in &all {
        for b in &all {
            if products.contains(&(a.clone(), b.clone())) {
                continue;
            }
            assert_eq!(
                insert_implicit_multiplication(&[a.clone(), b.clone()]),
                vec![a.clone(), b.clone()]
            );
            others += 1;
        }
    }
    assert_eq!(others, 31);
    assert_eq!(
        insert_implicit_multiplication(&[close(), InfixToken::Variable('y')]),
        vec![close(), InfixToken::Variable('y')]
    );
    assert_eq!(insert_implicit_multiplication(&[two(), two()]), vec![two(), two()]);
    assert_eq!(insert_implicit_multiplication(&[two(), sine()]), vec![two(), sine()]);
    assert_eq!(insert_implicit_multiplication(&[x(), two()]), vec![x(), two()]);
    assert_eq!(insert_implicit_multiplication(&[x(), sine()]), vec![x(), sine()]);
    assert_eq!(insert_implicit_multiplication(&[close(), two()]), vec![close(), two()]);
    assert_eq!(insert_implicit_multiplication(&[close(), sine()]), vec![close(), sine()]);
    assert_eq!(
        insert_implicit_multiplication(&[x(), x(), x()]),
        vec![x(), mark(), x(), mark(), x()]
    );
    assert_eq!(
        insert_implicit_multiplication(&[two(), x(), open(), x(), close(), open()]),
        vec![two(), mark(), x(), mark(), open(), x(), close(), mark(), open()]
    );
    assert_eq!(insert_implicit_multiplication(&[x()]), vec![x()]);
    assert_eq!(insert_implicit_multiplication(&[]), vec![]);
}

#[test]
fn operands_side_by_side_that_mean_no_product_are_no_expression() {
    let remaining = ParseError::TreeBuild(TreeBuildError::RemainingNodes);
    assert_eq!(parse_error("(x)y"), remaining);
    assert_eq!(parse_error("x2"), remaining);
    assert_eq!(parse_error("(x)2"), remaining);
    assert_eq!(parse_error("0.3sin(x)"), remaining);
    assert_eq!(parse_error("x sin(x)"), remaining);
    assert_eq!(parse_error("(x)sin(x)"), remaining);
    assert_eq!(
        shunting_yard(vec![lit(2., "2"), lit(3., "3")]),
        Ok(vec![rpn_lit(2., "2"), rpn_lit(3., "3")])
    );
    // what stands behind such operands is read in the order it comes out
    assert_eq!(
        tree("(x)y+"),
        *node(ExpressionOp::Add, var('x'), var('y'))
    );
}

#[test]
fn juxtaposition_parses_as_multiplication() {
    assert_eq!(tree("2x"), tree("2*x"));
    assert_eq!(
        tree("2x"),
        *node(ExpressionOp::Multiply, num("2"), var('x'))
    );
    assert_eq!(tree("xy"), tree("x*y"));
    assert_eq!(tree("(x+1)(y+2)"), tree("(x+1)*(y+2)"));
    assert_eq!(tree("x(y+1)"), tree("x*(y+1)"));
}

#[test]
fn negation_parses_as_a_product_with_minus_one() {
    assert_eq!(
        tree("-x"),
        *node(ExpressionOp::Multiply, num("-1"), var('x'))
    );
    assert_eq!(
        tree("2*-x"),
        *node(
            ExpressionOp::Multiply,
            num("2"),
            node(ExpressionOp::Multiply, num("-1"), var('x'))
        )
    );
}

#[test]
fn operators_group_by_precedence_and_associativity() {
    let (plus, minus, times, over, power) = (
        ExpressionOp::Add,
        ExpressionOp::Subtract,
        ExpressionOp::Multiply,
        ExpressionOp::Divide,
        ExpressionOp::Power,
    );
    // left to right at equal precedence
    assert_eq!(
        tree("a-b-c"),
        *node(minus, node(minus, var('a'), var('b')), var('c'))
    );
    assert_eq!(
        tree("a/b*c"),
        *node(times, node(over, var('a'), var('b')), var('c'))
    );
    // powers from the right
    assert_eq!(
        tree("a^b^c"),
        *node(power, var('a'), node(power, var('b'), var('c')))
    );
    // tighter binds first
    assert_eq!(
        tree("a+b*c"),
        *node(plus, var('a'), node(times, var('b'), var('c')))
    );
    assert_eq!(
        tree("a*b+c"),
        *node(plus, node(times, var('a'), var('b')), var('c'))
    );
    assert_eq!(
        tree("a*b^c"),
        *node(times, var('a'), node(power, var('b'), var('c')))
    );
    // juxtaposition binds tighter than a written product or quotient, looser than a power
    assert_eq!(
        tree("2x^2"),
        *node(times, num("2"), node(power, var('x'), num("2")))
    );
    assert_eq!(
        tree("a/2x"),
        *node(over, var('a'), node(times, num("2"), var('x')))
    );
    // parentheses override
    assert_eq!(
        tree("(a+b)*c"),
        *node(times, node(plus, var('a'), var('b')), var('c'))
    );
    assert_eq!(
        tree("(a^b)^c"),
        *node(power, node(power, var('a'), var('b')), var('c'))
    );
}

#[test]
fn a_function_takes_its_parenthesised_argument() {
    assert_eq!(
        tree("sin(x+1)"),
        ExpressionNode::Function(
            SupportedFunction::Sine,
            node(ExpressionOp::Add, var('x'), num("1"))
        )
    );
    assert_eq!(
        tree("sqrt(ln(x))"),
        ExpressionNode::Function(
            SupportedFunction::Sqrt,
            Box::new(ExpressionNode::Function(SupportedFunction::Ln, var('x')))
        )
    );
    assert_eq!(
        tree("sin(x)^2"),
        *node(
            ExpressionOp::Power,
            Box::new(ExpressionNode::Function(SupportedFunction::Sine, var('x'))),
            num("2")
        )
    );
}

#[test]
fn mismatched_parentheses_are_rejected() {
    let mismatched = ParseError::ShuntingYard(ShuntingYardError::MismatchedParens);
    assert_eq!(parse_error("(x+1"), mismatched);
    assert_eq!(parse_error("x+1)"), mismatched);
    assert_eq!(parse_error(")"), mismatched);
    assert_eq!(parse_error("("), mismatched);
    assert_eq!(parse_error("((x)"), mismatched);
    assert_eq!(parse_error("(x))"), mismatched);
    assert_eq!(parse_error(")("), mismatched);
    assert_eq!(parse_error("sin(x"), mismatched);
    assert_eq!(
        shunting_yard(vec![InfixToken::ParenClose]),
        Err(ShuntingYardError::MismatchedParens)
    );
}

#[test]
fn a_function_name_without_parentheses_is_rejected() {
    let mismatched = ParseError::ShuntingYard(ShuntingYardError::MismatchedParens);
    assert_eq!(parse_error("sin"), mismatched);
    assert_eq!(parse_error("sin x"), mismatched);
    assert_eq!(parse_error("sin+x"), mismatched);
    assert_eq!(parse_error("(sin x)"), mismatched);
    assert_eq!(parse_error("2sin"), mismatched);
}

#[test]
fn empty_input_is_an_empty_expression() {
    let empty = ParseError::TreeBuild(TreeBuildError::EmptyExpression);
    assert_eq!(parse_error(""), empty);
    assert_eq!(parse_error("   "), empty);
    assert_eq!(parse_error("()"), empty);
    assert_eq!(build_expression_tree(vec![]), Err(TreeBuildError::EmptyExpression));
}

#[test]
fn an_operator_alone_misses_its_operands() {
    assert_eq!(
        parse_error("+"),
        ParseError::TreeBuild(TreeBuildError::MissingRightOperand)
    );
    assert_eq!(
        parse_error("*"),
        ParseError::TreeBuild(TreeBuildError::MissingRightOperand)
    );
    // a minus alone is a negation of nothing
    assert_eq!(
        parse_error("-"),
        ParseError::TreeBuild(TreeBuildError::MissingLeftOperand)
    );
}

#[test]
fn each_tree_build_error_has_its_input() {
    let x = || RPNToken::Variable('x');
    let times = || RPNToken::ExpressionOp(ExpressionOp::Multiply);
    let sine = || RPNToken::Function(SupportedFunction::Sine);
    assert_eq!(build_expression_tree(vec![times()]), Err(TreeBuildError::MissingRightOperand));
    assert_eq!(
        build_expression_tree(vec![x(), times()]),
        Err(TreeBuildError::MissingLeftOperand)
    );
    assert_eq!(build_expression_tree(vec![sine()]), Err(TreeBuildError::MissingFunctionArg));
    assert_eq!(build_expression_tree(vec![x(), x()]), Err(TreeBuildError::RemainingNodes));
    assert_eq!(build_expression_tree(vec![]), Err(TreeBuildError::EmptyExpression));
    // the first error wins
    assert_eq!(
        build_expression_tree(vec![times(), sine()]),
        Err(TreeBuildError::MissingRightOperand)
    );
    assert_eq!(
        parse_error("x+"),
        ParseError::TreeBuild(TreeBuildError::MissingLeftOperand)
    );
    assert_eq!(
        parse_error("sin()"),
        ParseError::TreeBuild(TreeBuildError::MissingFunctionArg)
    );
}

#[test]
fn the_tokenizer_fails_before_the_later_stages() {
    assert_eq!(
        parse_error("(x+$"),
        ParseError::Tokenizer(TokenizerError { failure_idx: 3 })
    );
    // mismatched parentheses are found before a missing operand
    assert_eq!(
        parse_error("(x+"),
        ParseError::ShuntingYard(ShuntingYardError::MismatchedParens)
    );
}

#[test]
fn parsing_keeps_no_constants() {
    let f = ParsedFunction::parse("sin(x)+0.5x^2").expect("accepted");
    assert!(f.bound_vars().is_empty());
    assert_eq!(*f.tree(), tree("sin(x)+0.5x^2"));
    let parsed: ParsedFunction = "2x".parse().expect("accepted");
    assert_eq!(*parsed.tree(), tree("2*x"));
    assert!("(2x".parse::<ParsedFunction>().is_err());
}

#[test]
fn clones_are_equal() {
    let t = tree("sin(x)+0.5x^2");
    assert_eq!(t.clone(), t);
    let token = lit(19.5, "19.5");
    assert_eq!(token.clone(), token);
}

/// Formulas made of the supported tokens, by a fixed pseudo-random choice.
fn sample_formulas() -> Vec<String> {
    let pieces = [
        "x", "y", "e", "π", "1", "7", "42", "+", "-", "*", "/", "^", "(", ")", "sin", "exp", "ln",
        "log10", "sqrt", " ", "sin(", "(x", "x)", "2x", "-x",
    ];
    let mut state: u32 = 0x2545_f491;
    let mut formulas = Vec::new();
    for _ in 0..4000 {
        let mut formula = String::new();
        state = state.wrapping_mul(1_664_525).wrapping_add(1_013_904_223);
        let length = (state >> 24) % 9;
        for _ in 0..length {
            state = state.wrapping_mul(1_664_525).wrapping_add(1_013_904_223);
            formula.push_str(pieces[(state >> 16) as usize % pieces.len()]);
        }
        formulas.push(formula);
    }
    formulas
}

fn balanced(s: &str) -> bool {
    let mut depth = 0usize;
    for c in s.chars() {
        if c == '(' {
            depth += 1;
        } else if c == ')' {
            if depth == 0 {
                return false;
            }
            depth -= 1;
        }
    }
    depth == 0
}

#[test]
fn supported_tokens_are_parsed_or_rejected_by_a_later_stage() {
    let mut accepted = 0;
    let mut mismatched = 0;
    let mut unbuilt = 0;
    for formula in sample_formulas() {
        match ParsedFunction::parse(&formula) {
            Ok(f) => {
                assert!(balanced(&formula), "\"{formula}\"");
                assert!(f.bound_vars().is_empty());
                accepted += 1;
            }
            Err(ParseError::Tokenizer(e)) => panic!("\"{formula}\": {e:?}"),
            Err(ParseError::ShuntingYard(ShuntingYardError::MismatchedParens)) => mismatched += 1,
            Err(ParseError::TreeBuild(_)) => {
                assert!(balanced(&formula), "\"{formula}\"");
                unbuilt += 1;
            }
        }
    }
    assert!(accepted > 100);
    assert!(mismatched > 100);
    assert!(unbuilt > 100);
}

#[test]
fn unbalanced_parentheses_are_always_mismatched() {
    for formula in sample_formulas() {
        if !balanced(&formula) {
            assert_eq!(
                parse_error(&formula),
                ParseError::ShuntingYard(ShuntingYardError::MismatchedParens),
                "\"{formula}\""
            );
        }
    }
}

/// The formula written with parentheses only where they are needed.
fn write(tree: &ExpressionNode) -> String {
    fn level(op: ExpressionOp) -> u8 {
        match op {
            ExpressionOp::Add | ExpressionOp::Subtract => 1,
            ExpressionOp::Multiply | ExpressionOp::Divide => 2,
            ExpressionOp::Power => 5,
        }
    }
    fn sign(op: ExpressionOp) -> char {
        match op {
            ExpressionOp::Add => '+',
            ExpressionOp::Subtract => '-',
            ExpressionOp::Multiply => '*',
            ExpressionOp::Divide => '/',
            ExpressionOp::Power => '^',
        }
    }
    match tree {
        ExpressionNode::Literal(text) => text.iter().collect(),
        ExpressionNode::Variable(c) => c.to_string(),
        ExpressionNode::Function(f, arg) => {
            let name = match f {
                SupportedFunction::Sine => "sin",
                SupportedFunction::Exp => "exp",
                SupportedFunction::Ln => "ln",
                SupportedFunction::Log10 => "log10",
                SupportedFunction::Sqrt => "sqrt",
            };
            format!("{name}({})", write(arg))
        }
        ExpressionNode::Operation(op, left, right) => {
            let left_text = match **left {
                ExpressionNode::Operation(inner, _, _)
                    if level(inner) < level(*op)
                        || (level(inner) == level(*op) && *op == ExpressionOp::Power) =>
                {
                    format!("({})", write(left))
                }
                _ => write(left),
            };
            let right_text = match **right {
                ExpressionNode::Operation(inner, _, _)
                    if level(inner) < level(*op)
                        || (level(inner) == level(*op) && *op != ExpressionOp::Power) =>
                {
                    format!("({})", write(right))
                }
                _ => write(right),
            };
            format!("{left_text}{}{right_text}", sign(*op))
        }
    }
}

/// Expressions of every shape up to a depth, over a few leaves.
fn sample_trees(depth: u32) -> Vec<ExpressionNode> {
    let leaves = vec![ExpressionNode::Variable('x'), ExpressionNode::Literal(text("2"))];
    if depth == 0 {
        return leaves;
    }
    let smaller = sample_trees(depth - 1);
    let mut trees = leaves;
    trees.push(ExpressionNode::Function(SupportedFunction::Sine, Box::new(smaller[0].clone())));
    let ops = [
        ExpressionOp::Add,
        ExpressionOp::Subtract,
        ExpressionOp::Multiply,
        ExpressionOp::Divide,
        ExpressionOp::Power,
    ];
    for (i, l) in smaller.iter().enumerate() {
        for (j, r) in smaller.iter().enumerate() {
            // a thinned-out product keeps the numbers down
            if depth > 1 && (i + 2 * j) % 5 != 0 {
                continue;
            }
            for o in ops {
                trees.push(ExpressionNode::Operation(o, Box::new(l.clone()), Box::new(r.clone())));
            }
        }
    }
    trees
}

#[test]
fn a_written_expression_is_read_back() {
    let trees = sample_trees(3);
    assert!(trees.len() > 1000);
    for t in trees {
        let formula = write(&t);
        assert_eq!(tree(&formula), t, "\"{formula}\"");
    }
    assert_eq!(write(&tree("a-(b-c)")), "a-(b-c)");
    assert_eq!(write(&tree("(a-b)-c")), "a-b-c");
    assert_eq!(write(&tree("(a^b)^c")), "(a^b)^c");
    assert_eq!(write(&tree("a^(b^c)")), "a^b^c");
    assert_eq!(write(&tree("((a))*(b+c)")), "a*(b+c)");
}

#[test]
fn a_rejected_formula_fails_where_no_token_begins() {
    for formula in ["x$", "$", "1.2.3", "2+٣", "a b c ?", "sin(x)+#"] {
        let stripped: Vec<char> = formula.chars().filter(|c| !c.is_whitespace()).collect();
        let at = tokenize(formula).expect_err("rejected").failure_idx;
        assert!(at < stripped.len());
        let before: String = stripped[..at].iter().collect();
        assert!(tokenize(&before).is_ok(), "\"{before}\"");
        let one_more: String = stripped[..at + 1].iter().collect();
        assert_eq!(tokenize(&one_more), Err(TokenizerError { failure_idx: at }));
    }
}

#[test]
fn minus_signs_and_juxtaposition_group_as_products() {
    let times = ExpressionOp::Multiply;
    let power = ExpressionOp::Power;
    let minus_one = || num("-1");
    // a product by a minus sign binds looser than a power behind it
    assert_eq!(
        tree("-x^2"),
        *node(times, minus_one(), node(power, var('x'), num("2")))
    );
    // and the power before it has taken the minus one already
    assert_eq!(
        tree("a^-x"),
        *node(times, node(power, var('a'), minus_one()), var('x'))
    );
    assert_eq!(
        tree("2^-3^2"),
        *node(
            times,
            node(power, num("2"), minus_one()),
            node(power, num("3"), num("2"))
        )
    );
    // written products and quotients take a negation whole
    assert_eq!(
        tree("-x*y"),
        *node(times, node(times, minus_one(), var('x')), var('y'))
    );
    assert_eq!(
        tree("a*-x"),
        *node(times, var('a'), node(times, minus_one(), var('x')))
    );
    assert_eq!(
        tree("a--x"),
        *node(
            ExpressionOp::Subtract,
            var('a'),
            node(times, minus_one(), var('x'))
        )
    );
    // minus signs in a row multiply from the left
    assert_eq!(
        tree("--x"),
        *node(times, node(times, minus_one(), minus_one()), var('x'))
    );
    assert_eq!(
        tree("-2x"),
        *node(times, node(times, minus_one(), num("2")), var('x'))
    );
    assert_eq!(
        tree("(-x)"),
        *node(times, minus_one(), var('x'))
    );
    assert_eq!(
        tree("sin(-x)"),
        ExpressionNode::Function(SupportedFunction::Sine, node(times, minus_one(), var('x')))
    );
    // operands side by side: products from the left
    assert_eq!(
        tree("2x(y)(z)"),
        *node(
            times,
            node(times, node(times, num("2"), var('x')), var('y')),
            var('z')
        )
    );
    // a minus sign at the end has nothing to be multiplied with
    assert_eq!(
        parse_error("x*-"),
        ParseError::TreeBuild(TreeBuildError::MissingLeftOperand)
    );
    assert_eq!(
        parse_error("(-)x"),
        ParseError::TreeBuild(TreeBuildError::MissingLeftOperand)
    );
}
