use exprcalc::utils::{Node, NodeType, Op, ParseError, Step, TokenKind};
use exprcalc::{build_ast, evaluate};

fn number(text: &[char]) -> f64 {
    text.iter().collect::<String>().parse::<f64>().unwrap()
}

fn apply(op: &Op, stack: &mut Vec<f64>) {
    let right = stack.pop().unwrap();
    let value = match op {
        Op::Negation => -right,
        Op::Exponentiation => f64::powf(stack.pop().unwrap(), right),
        Op::Multiplication => stack.pop().unwrap() * right,
        Op::Division => stack.pop().unwrap() / right,
        Op::Addition => stack.pop().unwrap() + right,
        Op::Subtraction => stack.pop().unwrap() - right,
    };
    stack.push(value);
}

fn run(steps: &[Step]) -> f64 {
    let mut stack: Vec<f64> = Vec::new();
    for step in steps {
        match step {
            Step::Push(text) => stack.push(number(text)),
            Step::Apply(op) => apply(op, &mut stack),
        }
    }
    assert_eq!(stack.len(), 1);
    stack[0]
}

fn value(expr: &str) -> Result<f64, ParseError> {
    evaluate(expr).map(|steps| run(&steps))
}

fn fold(node: &Node) -> f64 {
    match &node.node {
        NodeType::Number(text) => number(text),
        NodeType::Operation(op, children) => {
            let mut stack: Vec<f64> = children.iter().map(fold).collect();
            apply(op, &mut stack);
            stack[0]
        }
    }
}

#[test]
fn exponentiation_groups_to_the_right() {
    assert_eq!(value("2^3^2"), Ok(512.0));
    assert_ne!(value("2^3^2"), Ok(64.0));
}

#[test]
fn subtraction_and_division_group_to_the_left() {
    assert_eq!(value("8-4-2"), Ok(2.0));
    assert_eq!(value("16/4/2"), Ok(2.0));
}

#[test]
fn leading_minus_negates_the_whole_first_term() {
    assert_eq!(value("-2*3"), Ok(-6.0));
    assert_eq!(value("-2^2"), Ok(-4.0));
    assert_eq!(value("-2+3"), Ok(1.0));
    assert_eq!(value("(-2)^2"), Ok(4.0));
}

#[test]
fn adjacent_factors_multiply() {
    assert_eq!(value("2(3+4)"), Ok(14.0));
    assert_eq!(value("2 3"), Ok(6.0));
    assert_eq!(value("(1+1)(2+2)"), Ok(8.0));
    assert_eq!(value("2(3)4"), Ok(24.0));
    assert_eq!(value("6/2(3)"), Ok(9.0));
}

#[test]
fn blanks_between_tokens_do_not_matter() {
    assert_eq!(value("1 + 2"), Ok(3.0));
    assert_eq!(value("1+2"), Ok(3.0));
    assert_eq!(value(" \t1\t+ 2  "), Ok(3.0));
    assert_eq!(evaluate("1 + 2"), evaluate("1+2"));
}

#[test]
fn scientific_notation() {
    assert_eq!(value("1e-3"), Ok(0.001));
    assert_eq!(value("1e3"), Ok(1000.0));
    assert_eq!(value("2.5e2"), Ok(250.0));
    assert_eq!(value("1e-3-1"), Ok(0.001 - 1.0));
    assert_eq!(value(".5"), Ok(0.5));
    assert_eq!(value("5."), Ok(5.0));
}

#[test]
fn precedence() {
    assert_eq!(value("1+2*3"), Ok(7.0));
    assert_eq!(value("(1+2)*3"), Ok(9.0));
    assert_eq!(value("2*3^2"), Ok(18.0));
    assert_eq!(value("1-2*3+4/2"), Ok(-3.0));
    assert_eq!(value("2^0.5"), Ok(f64::powf(2.0, 0.5)));
}

#[test]
fn error_cases() {
    assert_eq!(value("(1+2"), Err(ParseError::UnmatchedParenthesis(0)));
    assert_eq!(value("1+"), Err(ParseError::UnexpectedEndOfInput));
    assert_eq!(value("1$2"), Err(ParseError::InvalidCharacter('$', 1)));
    assert_eq!(value("1..2"), Err(ParseError::InvalidLiteral(2)));
}

#[test]
fn every_error_has_an_input() {
    assert_eq!(value("1 ."), Err(ParseError::MalformedNumber(2)));
    assert_eq!(value("e5"), Err(ParseError::MalformedNumber(0)));
    assert_eq!(value("1e5.5"), Err(ParseError::MalformedNumber(0)));
    assert_eq!(value("1e+5"), Err(ParseError::MalformedNumber(0)));
    assert_eq!(value("1e -5"), Err(ParseError::MalformedNumber(0)));
    assert_eq!(value("1e--5"), Err(ParseError::MalformedNumber(0)));
    assert_eq!(value("1ee5"), Err(ParseError::InvalidLiteral(2)));
    assert_eq!(value("1e"), Err(ParseError::UnexpectedEndOfInput));
    assert_eq!(value("1e-"), Err(ParseError::UnexpectedEndOfInput));
    assert_eq!(value("1e "), Err(ParseError::UnexpectedEndOfInput));
    assert_eq!(value(""), Err(ParseError::UnexpectedEndOfInput));
    assert_eq!(value("   "), Err(ParseError::UnexpectedEndOfInput));
    assert_eq!(value("("), Err(ParseError::UnexpectedEndOfInput));
    assert_eq!(value("(1+"), Err(ParseError::UnexpectedEndOfInput));
    assert_eq!(value("2^"), Err(ParseError::UnexpectedEndOfInput));
    assert_eq!(
        value("()"),
        Err(ParseError::UnexpectedToken(
            TokenKind::Delimiter(exprcalc::utils::Delimiter::Paranthesis(
                exprcalc::utils::Side::Close
            )),
            1
        ))
    );
    assert_eq!(
        value("1+*2"),
        Err(ParseError::UnexpectedToken(TokenKind::Operator('*'), 2))
    );
    assert_eq!(
        value("1+-2"),
        Err(ParseError::UnexpectedToken(TokenKind::Operator('-'), 2))
    );
    assert_eq!(
        value("--2"),
        Err(ParseError::UnexpectedToken(TokenKind::Operator('-'), 1))
    );
    assert_eq!(
        value("+2"),
        Err(ParseError::UnexpectedToken(TokenKind::Operator('+'), 0))
    );
    assert_eq!(
        value("2^-1"),
        Err(ParseError::UnexpectedToken(TokenKind::Operator('-'), 2))
    );
    assert_eq!(value("1+2)"), Err(ParseError::UnmatchedParenthesis(3)));
    assert_eq!(value("((1)"), Err(ParseError::UnmatchedParenthesis(0)));
    assert_eq!(value("1 + x"), Err(ParseError::InvalidCharacter('x', 4)));
}

#[test]
fn the_first_error_in_reading_order_wins() {
    assert_eq!(
        value("1+)$"),
        Err(ParseError::UnexpectedToken(
            TokenKind::Delimiter(exprcalc::utils::Delimiter::Paranthesis(
                exprcalc::utils::Side::Close
            )),
            2
        ))
    );
    assert_eq!(value("1$+)"), Err(ParseError::InvalidCharacter('$', 1)));
    assert_eq!(value("1 $"), Err(ParseError::InvalidCharacter('$', 2)));
}

#[test]
fn division_by_zero_is_a_value() {
    assert_eq!(value("1/0"), Ok(f64::INFINITY));
    assert_eq!(value("-1/0"), Ok(f64::NEG_INFINITY));
    assert!(value("0/0").unwrap().is_nan());
}

#[test]
fn reading_twice_gives_the_same_tree() {
    for expr in ["1+2", "-2*3", "2^3^2", "2(3+4)", " 8 - 4 - 2", "(1", "1..2", ""] {
        assert_eq!(build_ast(expr), build_ast(expr));
        assert_eq!(evaluate(expr), evaluate(expr));
    }
}

#[test]
fn evaluating_agrees_with_folding_the_tree() {
    let inputs = [
        "1+2",
        "8-4-2",
        "16/4/2",
        "2^3^2",
        "-2^2",
        "-2*3",
        "2 3 4",
        "0.1+0.2",
        "1e-3*7/3",
        "1/0",
        "0/0",
        "2^0.5-3*4/7+1e10",
        "2(3+4)",
        "((1+2)*(3-4))^2",
        "-(1-2)",
        "1/3+1/7-1/9",
    ];
    for expr in inputs {
        let direct = value(expr).unwrap();
        let folded = fold(&build_ast(expr).unwrap());
        assert_eq!(direct.to_bits(), folded.to_bits(), "{}", expr);
    }
    for expr in ["(1+2", "1+", "1$2", "1..2", "1+2)", "()", "1e"] {
        assert_eq!(
            value(expr).unwrap_err(),
            build_ast(expr).unwrap_err(),
            "{}",
            expr
        );
    }
}

#[test]
fn steps_are_in_the_order_of_evaluation() {
    let text = |s: &str| s.chars().collect::<Vec<char>>();
    assert_eq!(
        evaluate("1+2*3"),
        Ok(vec![
            Step::Push(text("1")),
            Step::Push(text("2")),
            Step::Push(text("3")),
            Step::Apply(Op::Multiplication),
            Step::Apply(Op::Addition),
        ])
    );
    assert_eq!(
        evaluate("-2^2"),
        Ok(vec![
            Step::Push(text("2")),
            Step::Push(text("2")),
            Step::Apply(Op::Exponentiation),
            Step::Apply(Op::Negation),
        ])
    );
    assert_eq!(evaluate("1e-3"), Ok(vec![Step::Push(text("1e-3"))]));
}

#[test]
fn idle_blanks_do_not_change_the_steps() {
    for (spaced, tight) in [
        ("1 + 2", "1+2"),
        ("( 1 + 2 ) * 3", "(1+2)*3"),
        (" - 2 ^ 2", "-2^2"),
        ("2 ( 3 )", "2(3)"),
        ("1e-3 - 1", "1e-3-1"),
        ("8 / 4 / 2\t", "8/4/2"),
    ] {
        assert!(evaluate(spaced).is_ok());
        assert_eq!(evaluate(spaced), evaluate(tight), "{:?}", spaced);
        assert_ne!(build_ast(spaced), build_ast(tight), "{:?}", spaced);
    }
}

#[test]
fn a_blank_inside_a_literal_matters() {
    assert_ne!(evaluate("2 3"), evaluate("23"));
    assert_ne!(evaluate("1e -3"), evaluate("1e-3"));
    assert_ne!(evaluate("1e- 3"), evaluate("1e-3"));
    assert_ne!(evaluate("1 .5"), evaluate("1.5"));
}

#[test]
fn the_steps_of_the_tree_are_the_steps_of_the_evaluation() {
    for expr in [
        "1",
        "1+2",
        "8-4-2",
        "2^3^2",
        "-2^2*3",
        "2(3+4)5",
        "((1+2)*(3-4))^2/7",
        "-(-(1))",
        "1e-3 .5",
    ] {
        let tree = build_ast(expr).unwrap();
        assert_eq!(
            exprcalc::steps::tree_steps(&tree),
            evaluate(expr).unwrap(),
            "{:?}",
            expr
        );
        assert_eq!(
            run(&exprcalc::steps::tree_steps(&tree)).to_bits(),
            fold(&tree).to_bits()
        );
    }
}

fn inputs(alphabet: &[char], len: usize) -> Vec<String> {
    let mut all: Vec<String> = vec![String::new()];
    let mut last: Vec<String> = vec![String::new()];
    for _ in 0..len {
        let mut next = Vec::new();
        for s in &last {
            for c in alphabet {
                let mut t = s.clone();
                t.push(*c);
                next.push(t);
            }
        }
        all.extend(next.iter().cloned());
        last = next;
    }
    all
}

#[test]
fn both_readers_agree_on_every_short_input() {
    let alphabet = ['1', '.', 'e', '-', '+', '*', '^', '(', ')', ' ', '$'];
    let mut read = 0;
    for expr in inputs(&alphabet, 6) {
        let steps = evaluate(&expr);
        match build_ast(&expr) {
            Ok(tree) => {
                assert_eq!(steps, Ok(exprcalc::steps::tree_steps(&tree)), "{:?}", expr);
                assert_eq!(run(steps.as_ref().unwrap()).to_bits(), fold(&tree).to_bits());
                read += 1;
            }
            Err(e) => assert_eq!(steps, Err(e), "{:?}", expr),
        }
    }
    assert!(read > 100);
}
