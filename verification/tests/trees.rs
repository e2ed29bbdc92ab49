use exprcalc::ast::AST;
use exprcalc::build_ast;
use exprcalc::parser::Parser;
use exprcalc::grammar::{product_op, starts_factor, sum_op};
use exprcalc::utils::{Delimiter, Node, NodeType, Op, ParseError, Side, Step, TokenKind};

fn num(pos: usize, text: &str) -> Node {
    Node {
        pos,
        node: NodeType::Number(text.chars().collect()),
    }
}

fn op(pos: usize, op: Op, children: Vec<Node>) -> Node {
    Node {
        pos,
        node: NodeType::Operation(op, children),
    }
}

#[test]
fn leading_minus_is_above_the_product() {
    assert_eq!(
        build_ast("-2*3"),
        Ok(op(
            0,
            Op::Negation,
            vec![op(2, Op::Multiplication, vec![num(1, "2"), num(3, "3")])]
        ))
    );
}

#[test]
fn leading_minus_covers_only_the_first_term() {
    assert_eq!(
        build_ast("-2+3"),
        Ok(op(
            2,
            Op::Addition,
            vec![op(0, Op::Negation, vec![num(1, "2")]), num(3, "3")]
        ))
    );
}

#[test]
fn exponent_is_a_factor_again() {
    assert_eq!(
        build_ast("2^3^2"),
        Ok(op(
            1,
            Op::Exponentiation,
            vec![
                num(0, "2"),
                op(3, Op::Exponentiation, vec![num(2, "3"), num(4, "2")])
            ]
        ))
    );
}

#[test]
fn division_nests_to_the_left() {
    assert_eq!(
        build_ast("8/4/2"),
        Ok(op(
            3,
            Op::Division,
            vec![
                op(1, Op::Division, vec![num(0, "8"), num(2, "4")]),
                num(4, "2")
            ]
        ))
    );
}

#[test]
fn subtraction_nests_to_the_left() {
    assert_eq!(
        build_ast("8-4-2"),
        Ok(op(
            3,
            Op::Subtraction,
            vec![
                op(1, Op::Subtraction, vec![num(0, "8"), num(2, "4")]),
                num(4, "2")
            ]
        ))
    );
}

#[test]
fn implicit_product_takes_the_offset_of_its_right_factor() {
    assert_eq!(
        build_ast("2(3+4)"),
        Ok(op(
            1,
            Op::Multiplication,
            vec![
                num(0, "2"),
                op(3, Op::Addition, vec![num(2, "3"), num(4, "4")])
            ]
        ))
    );
    assert_eq!(
        build_ast("2 3"),
        Ok(op(2, Op::Multiplication, vec![num(0, "2"), num(2, "3")]))
    );
}

#[test]
fn offsets_point_into_the_input_with_its_blanks() {
    assert_eq!(
        build_ast("  1 \t+  2"),
        Ok(op(5, Op::Addition, vec![num(2, "1"), num(8, "2")]))
    );
}

#[test]
fn minus_inside_parentheses() {
    assert_eq!(
        build_ast("3*(-1)"),
        Ok(op(
            1,
            Op::Multiplication,
            vec![num(0, "3"), op(3, Op::Negation, vec![num(4, "1")])]
        ))
    );
}

#[test]
fn node_constructors() {
    assert_eq!(Node::number(4, vec!['7']), num(4, "7"));
    assert_eq!(
        Node::unary(0, Op::Negation, num(1, "7")),
        op(0, Op::Negation, vec![num(1, "7")])
    );
    assert_eq!(
        Node::binary(1, Op::Division, num(0, "7"), num(2, "8")),
        op(1, Op::Division, vec![num(0, "7"), num(2, "8")])
    );
}

#[test]
fn builder_and_parser_read_the_same_grammar() {
    let mut ast = AST::new("1+2*3");
    let mut parser = Parser::new("1+2*3");
    assert_eq!(
        ast.generate(),
        Ok(op(
            1,
            Op::Addition,
            vec![
                num(0, "1"),
                op(3, Op::Multiplication, vec![num(2, "2"), num(4, "3")])
            ]
        ))
    );
    assert_eq!(parser.eval().map(|steps| steps.len()), Ok(5));
}

#[test]
fn a_builder_stops_in_front_of_what_it_cannot_use() {
    let mut ast = AST::new("1+2)*3");
    assert_eq!(ast.generate(), Err(ParseError::UnmatchedParenthesis(3)));
    assert_eq!(ast.generate().is_err(), true);
    let mut parser = Parser::new("1 2)");
    assert_eq!(parser.eval(), Err(ParseError::UnmatchedParenthesis(3)));
}

#[test]
fn a_finished_parser_has_nothing_left() {
    let mut parser = Parser::new("1+2");
    assert_eq!(
        parser.eval(),
        Ok(vec![
            Step::Push(vec!['1']),
            Step::Push(vec!['2']),
            Step::Apply(Op::Addition)
        ])
    );
    assert_eq!(parser.eval(), Err(ParseError::UnexpectedEndOfInput));
}

fn well_formed(node: &Node) -> bool {
    match &node.node {
        NodeType::Number(text) => text.iter().collect::<String>().parse::<f64>().is_ok(),
        NodeType::Operation(Op::Negation, children) => {
            children.len() == 1 && children.iter().all(well_formed)
        }
        NodeType::Operation(_, children) => children.len() == 2 && children.iter().all(well_formed),
    }
}

#[test]
fn trees_are_well_formed() {
    for expr in [
        "1",
        "-1",
        "-2^2*3+4",
        "2(3+4)(5)",
        "((1+2)*(3-4))^2^(-1)",
        "1e-3 .5 5.",
        "-(-(-1))",
    ] {
        assert!(well_formed(&build_ast(expr).unwrap()), "{:?}", expr);
    }
}

#[test]
fn tokens_that_continue_a_rule() {
    assert_eq!(product_op(TokenKind::Operator('*')), Some(Op::Multiplication));
    assert_eq!(product_op(TokenKind::Operator('/')), Some(Op::Division));
    assert_eq!(product_op(TokenKind::Operator('+')), None);
    assert_eq!(product_op(TokenKind::Number), None);
    assert_eq!(sum_op(TokenKind::Operator('+')), Some(Op::Addition));
    assert_eq!(sum_op(TokenKind::Operator('-')), Some(Op::Subtraction));
    assert_eq!(sum_op(TokenKind::Operator('^')), None);
    assert!(starts_factor(TokenKind::Number));
    assert!(starts_factor(TokenKind::Delimiter(Delimiter::Paranthesis(
        Side::Open
    ))));
    assert!(!starts_factor(TokenKind::Delimiter(Delimiter::Paranthesis(
        Side::Close
    ))));
    assert!(!starts_factor(TokenKind::Operator('-')));
}
