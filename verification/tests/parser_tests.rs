use kebab::ast::AstNode;
use kebab::lexer::lex;
use kebab::parser::{int_literals_fit, Parser};
use kebab::parser_error::ParserError;
use kebab::token::TokenType;

fn parse_source(source: &str) -> Result<AstNode, ParserError> {
    let tokens = lex(source).expect("lexing should succeed");
    assert!(int_literals_fit(&tokens));
    Parser::new(tokens).parse()
}

fn lit(n: i32) -> AstNode {
    AstNode::Int(n)
}

fn op(symbol: &str, left: AstNode, right: AstNode) -> AstNode {
    AstNode::Op { left: Box::new(left), op: symbol.to_string(), right: Box::new(right) }
}

#[test]
fn multiplication_binds_tighter_than_addition() {
    let ast = parse_source("2+3*4").expect("parsing should succeed");
    let expected = AstNode::Program(vec![op("+", lit(2), op("*", lit(3), lit(4)))]);
    assert_eq!(ast, expected);
}

#[test]
fn addition_is_left_associative() {
    let ast = parse_source("1-2-3").expect("parsing should succeed");
    let expected = AstNode::Program(vec![op("-", op("-", lit(1), lit(2)), lit(3))]);
    assert_eq!(ast, expected);
}

#[test]
fn multiplication_is_left_associative() {
    let ast = parse_source("8/4/2").expect("parsing should succeed");
    let expected = AstNode::Program(vec![op("/", op("/", lit(8), lit(4)), lit(2))]);
    assert_eq!(ast, expected);
}

#[test]
fn print_takes_a_parenthesized_expression() {
    let ast = parse_source("print(2*3)").expect("parsing should succeed");
    let expected =
        AstNode::Program(vec![AstNode::Print(Box::new(op("*", lit(2), lit(3))))]);
    assert_eq!(ast, expected);
}

#[test]
fn several_statements_collect_in_order() {
    let ast = parse_source("1 2+3").expect("parsing should succeed");
    let expected = AstNode::Program(vec![lit(1), op("+", lit(2), lit(3))]);
    assert_eq!(ast, expected);
}

#[test]
fn empty_input_parses_to_an_empty_program() {
    let ast = parse_source("").expect("parsing should succeed");
    assert_eq!(ast, AstNode::Program(vec![]));
}

#[test]
fn truncated_print_fails_with_unexpected_end_of_input() {
    let err = parse_source("print(2").expect_err("parsing should fail");
    assert!(matches!(err, ParserError::UnexpectedEOF { .. }));
}

#[test]
fn trailing_operator_fails_with_unexpected_end_of_input() {
    let err = parse_source("2+").expect_err("parsing should fail");
    assert!(matches!(err, ParserError::UnexpectedEOF { .. }));
}

#[test]
fn print_without_parenthesis_reports_the_mismatch() {
    let err = parse_source("print 2").expect_err("parsing should fail");
    match err {
        ParserError::TokenMismatch { expected, got, span, help } => {
            assert_eq!(expected, TokenType::LParen);
            assert_eq!(got, TokenType::Int);
            assert_eq!(span.source_snippet, "2");
            assert_eq!(help, None);
        },
        other => panic!("expected a token mismatch, got {:?}", other),
    }
}

#[test]
fn stray_closing_parenthesis_reports_the_mismatch() {
    let err = parse_source(")").expect_err("parsing should fail");
    match err {
        ParserError::TokenMismatch { expected, got, .. } => {
            assert_eq!(expected, TokenType::Int);
            assert_eq!(got, TokenType::RParen);
        },
        other => panic!("expected a token mismatch, got {:?}", other),
    }
}

#[test]
fn identifier_in_expression_reports_the_mismatch() {
    let err = parse_source("foo").expect_err("parsing should fail");
    match err {
        ParserError::TokenMismatch { expected, got, .. } => {
            assert_eq!(expected, TokenType::Int);
            assert_eq!(got, TokenType::Id);
        },
        other => panic!("expected a token mismatch, got {:?}", other),
    }
}

#[test]
fn literal_bounds_are_checked_exactly() {
    let at_max = lex("2147483647").expect("lexing should succeed");
    assert!(int_literals_fit(&at_max));
    let above_max = lex("2147483648").expect("lexing should succeed");
    assert!(!int_literals_fit(&above_max));
}

#[test]
fn largest_literal_parses_to_i32_max() {
    let ast = parse_source("2147483647").expect("parsing should succeed");
    assert_eq!(ast, AstNode::Program(vec![lit(2147483647)]));
}

#[test]
fn leading_zeros_are_allowed() {
    let tokens = lex("0000000000007").expect("lexing should succeed");
    assert!(int_literals_fit(&tokens));
    let ast = parse_source("0000000000007").expect("parsing should succeed");
    assert_eq!(ast, AstNode::Program(vec![lit(7)]));
}
