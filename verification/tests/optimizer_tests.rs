use kebab::ast::AstNode;
use kebab::lexer::lex;
use kebab::parser::Parser;
use kebab::semantic::SemanticAnalyzer;
use kebab::semantic_error::SemanticError;

fn parse_source(source: &str) -> AstNode {
    let tokens = lex(source).expect("lexing should succeed");
    Parser::new(tokens).parse().expect("parsing should succeed")
}

fn lit(n: i32) -> AstNode {
    AstNode::Int(n)
}

fn op(symbol: &str, left: AstNode, right: AstNode) -> AstNode {
    AstNode::Op { left: Box::new(left), op: symbol.to_string(), right: Box::new(right) }
}

#[test]
fn folds_a_precedence_tree_to_one_literal() {
    let mut ast = parse_source("2+3*4");
    ast.optimize();
    assert_eq!(ast, AstNode::Program(vec![lit(14)]));
}

#[test]
fn folds_all_four_operators() {
    let mut ast = parse_source("1+2 5-3 6*7 9/2");
    ast.optimize();
    assert_eq!(ast, AstNode::Program(vec![lit(3), lit(2), lit(42), lit(4)]));
}

#[test]
fn folds_inside_print() {
    let mut ast = parse_source("print(5-2)");
    ast.optimize();
    assert_eq!(
        ast,
        AstNode::Program(vec![AstNode::Print(Box::new(lit(3)))])
    );
}

#[test]
fn division_by_zero_is_left_unfolded() {
    let mut node = op("/", lit(1), lit(0));
    node.optimize();
    assert_eq!(node, op("/", lit(1), lit(0)));
}

#[test]
fn division_by_zero_keeps_folded_children() {
    let mut node = op("/", op("+", lit(1), lit(2)), lit(0));
    node.optimize();
    assert_eq!(node, op("/", lit(3), lit(0)));
}

#[test]
fn addition_wraps_at_thirty_two_bits() {
    let mut node = op("+", lit(i32::MAX), lit(1));
    node.optimize();
    assert_eq!(node, lit(i32::MIN));
}

#[test]
fn leaves_are_untouched() {
    let mut node = lit(7);
    node.optimize();
    assert_eq!(node, lit(7));
}

#[test]
fn optimizing_twice_equals_optimizing_once() {
    let mut once = parse_source("print(1+2*3) 4/0 5-6");
    once.optimize();
    let mut twice = once.clone();
    twice.optimize();
    assert_eq!(twice, once);
}

#[test]
fn analysis_accepts_a_folded_program() {
    let mut ast = parse_source("print(2+3) 7");
    ast.optimize();
    let mut analyzer = SemanticAnalyzer::new();
    assert_eq!(analyzer.analyze(&ast), Ok(()));
}

#[test]
fn analysis_accepts_an_unfolded_division_under_print() {
    let mut ast = parse_source("print(1/0)");
    ast.optimize();
    let mut analyzer = SemanticAnalyzer::new();
    assert_eq!(analyzer.analyze(&ast), Ok(()));
}

#[test]
fn analysis_rejects_a_compound_operand() {
    let mut ast = parse_source("1/0+2");
    ast.optimize();
    let mut analyzer = SemanticAnalyzer::new();
    let err = analyzer.analyze(&ast).expect_err("analysis should fail");
    assert!(matches!(err, SemanticError::UnsupportedASTNode { .. }));
}
