use kebab::ast::AstNode;
use kebab::codegen::LlvmIrGenerator;
use kebab::lexer::lex;
use kebab::lowering::{get_dependencies, make_middle_ir};
use kebab::mir::{Dependency, MirNode};
use kebab::parser::Parser;

fn parse_and_optimize(source: &str) -> AstNode {
    let tokens = lex(source).expect("lexing should succeed");
    let mut ast = Parser::new(tokens).parse().expect("parsing should succeed");
    ast.optimize();
    ast
}

fn i32_node(n: i32) -> MirNode {
    MirNode::I32(n)
}

fn add(left: MirNode, right: MirNode) -> MirNode {
    MirNode::Add { left: Box::new(left), right: Box::new(right) }
}

#[test]
fn print_of_a_literal_needs_format_and_printf_in_order() {
    let ast = parse_and_optimize("print(5-2)");
    let deps = get_dependencies(&ast);
    assert_eq!(deps, vec![Dependency::IntFmt, Dependency::Printf]);
}

#[test]
fn print_of_a_compound_operand_needs_only_printf() {
    let ast = parse_and_optimize("print(1/0)");
    let deps = get_dependencies(&ast);
    assert_eq!(deps, vec![Dependency::Printf]);
}

#[test]
fn nested_print_is_not_scanned() {
    let ast = parse_and_optimize("print(print(1))");
    let deps = get_dependencies(&ast);
    assert_eq!(deps, vec![Dependency::Printf]);
}

#[test]
fn dependency_collection_is_repeatable() {
    let ast = parse_and_optimize("print(1) print(2)");
    assert_eq!(get_dependencies(&ast), get_dependencies(&ast));
    assert_eq!(
        get_dependencies(&ast),
        vec![
            Dependency::IntFmt,
            Dependency::Printf,
            Dependency::IntFmt,
            Dependency::Printf,
        ]
    );
}

#[test]
fn plain_statements_need_no_dependencies() {
    let ast = parse_and_optimize("1+2 3");
    assert_eq!(get_dependencies(&ast), Vec::<Dependency>::new());
}

#[test]
fn lowering_maps_each_statement_to_one_mir_node() {
    let ast = parse_and_optimize("print(1/0) 7");
    let mir = make_middle_ir(ast);
    let expected = vec![
        MirNode::Print {
            left: Box::new(MirNode::Div {
                left: Box::new(i32_node(1)),
                right: Box::new(i32_node(0)),
            }),
        },
        i32_node(7),
    ];
    assert_eq!(mir, expected);
}

#[test]
fn registers_count_up_from_one_without_gaps() {
    let mir = vec![add(add(i32_node(1), i32_node(2)), add(i32_node(3), i32_node(4)))];
    let mut generator = LlvmIrGenerator::new();
    let ir = generator.generate_llvm_intermediate_representation(mir, vec![]);
    let body: Vec<&str> = ir
        .lines()
        .filter(|line| line.contains(" = add "))
        .collect();
    assert_eq!(
        body,
        vec![
            "  %var1 = add i32 1, 2",
            "  %var2 = add i32 3, 4",
            "  %var3 = add i32 %var1, %var2",
        ]
    );
    assert!(!ir.contains("%var4"));
}

#[test]
fn register_numbering_continues_across_statements() {
    let mir = vec![add(i32_node(1), i32_node(2)), add(i32_node(3), i32_node(4))];
    let mut generator = LlvmIrGenerator::new();
    let ir = generator.generate_llvm_intermediate_representation(mir, vec![]);
    assert!(ir.contains("  %var1 = add i32 1, 2\n"));
    assert!(ir.contains("  %var2 = add i32 3, 4\n"));
}

#[test]
fn each_operator_gets_its_mnemonic() {
    let mir = vec![
        MirNode::Sub { left: Box::new(i32_node(9)), right: Box::new(i32_node(4)) },
        MirNode::Mul { left: Box::new(i32_node(2)), right: Box::new(i32_node(3)) },
        MirNode::Div { left: Box::new(i32_node(8)), right: Box::new(i32_node(2)) },
    ];
    let mut generator = LlvmIrGenerator::new();
    let ir = generator.generate_llvm_intermediate_representation(mir, vec![]);
    assert!(ir.contains("  %var1 = sub i32 9, 4\n"));
    assert!(ir.contains("  %var2 = mul i32 2, 3\n"));
    assert!(ir.contains("  %var3 = sdiv i32 8, 2\n"));
}

#[test]
fn negative_literals_print_with_a_minus_sign() {
    let mir = vec![add(i32_node(-5), i32_node(i32::MIN))];
    let mut generator = LlvmIrGenerator::new();
    let ir = generator.generate_llvm_intermediate_representation(mir, vec![]);
    assert!(ir.contains("  %var1 = add i32 -5, -2147483648\n"));
}

#[test]
fn module_frame_is_fixed() {
    let mut generator = LlvmIrGenerator::new();
    let ir = generator.generate_llvm_intermediate_representation(vec![], vec![]);
    let mut expected = String::new();
    expected.push_str("target datalayout = \"e-m:e-i64:64-f80:128-n8:16:32:64-S128\"\n");
    expected.push_str("target triple = \"x86_64-pc-windows-msvc19.44.35221\"\n");
    expected.push_str("define i32 @main() {\n");
    expected.push_str("entry:\n");
    expected.push_str("  ret i32 0\n");
    expected.push_str("}\n");
    assert_eq!(ir, expected);
}
