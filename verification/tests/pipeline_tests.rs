use kebab::error_trait::{format_error, ErrorDisplay};
use kebab::lexer::lex;
use kebab::lexer_error::LexerError;
use kebab::numtext::{i32_to_string, u64_to_string};
use kebab::pipeline::{compile, CompileError};
use kebab::types::Type;

#[test]
fn print_statement_compiles_to_the_expected_module() {
    let ir = compile("print(5-2)").expect("compilation should succeed");
    let mut expected = String::new();
    expected.push_str("target datalayout = \"e-m:e-i64:64-f80:128-n8:16:32:64-S128\"\n");
    expected.push_str("target triple = \"x86_64-pc-windows-msvc19.44.35221\"\n");
    expected.push_str("@int_fmt = private unnamed_addr constant [4 x i8] c\"%d\\0A\\00\"\n");
    expected.push_str("declare i32 @printf(i8*, ...)\n");
    expected.push_str("define i32 @main() {\n");
    expected.push_str("entry:\n");
    expected.push_str("  call i32 (i8*, ...) @printf(i8* getelementptr inbounds ([4 x i8], [4 x i8]* @int_fmt, i32 0, i32 0), i32 3)\n");
    expected.push_str("  ret i32 0\n");
    expected.push_str("}\n");
    assert_eq!(ir, expected);
}

#[test]
fn repeated_runs_are_byte_identical() {
    let source = "print(1+2*3)\nprint(4/0)\n5-6";
    let first = compile(source).expect("compilation should succeed");
    let second = compile(source).expect("compilation should succeed");
    assert_eq!(first, second);
}

#[test]
fn lexical_failure_stops_the_pipeline() {
    let err = compile("print(№)").expect_err("compilation should fail");
    match err {
        CompileError::Lexical(LexerError::InvalidChar { character, span, .. }) => {
            assert_eq!(character, '№');
            assert_eq!(span.start_line, 1);
            assert_eq!(span.start_col, 7);
        },
        other => panic!("expected a lexical error, got {:?}", other),
    }
}

#[test]
fn syntax_failure_stops_the_pipeline() {
    let err = compile("print(2").expect_err("compilation should fail");
    assert!(matches!(err, CompileError::Syntax(_)));
}

#[test]
fn semantic_failure_stops_the_pipeline() {
    let err = compile("1/0+2").expect_err("compilation should fail");
    assert!(matches!(err, CompileError::Semantic(_)));
}

#[test]
fn error_codes_are_stable_per_stage() {
    let lexical = compile("1;").expect_err("compilation should fail");
    assert_eq!(lexical.error_code(), "LE0001");
    let syntax_eof = compile("2+").expect_err("compilation should fail");
    assert_eq!(syntax_eof.error_code(), "PA0002");
    let syntax_mismatch = compile("print 2").expect_err("compilation should fail");
    assert_eq!(syntax_mismatch.error_code(), "PA0001");
    let semantic = compile("1/0+2").expect_err("compilation should fail");
    assert_eq!(semantic.error_code(), "SE0002");
}

#[test]
fn rendered_lexical_report_has_the_uniform_shape() {
    let err = lex("1 @ 2").expect_err("lexing should fail");
    let report = format_error(&err);
    let mut expected = String::new();
    expected.push_str("\x1b[1;31merror\x1b[0m[LE0001]: Invalid character: @\n");
    expected.push_str("  \x1b[1;34m-->\x1b[0m input:1:3\n");
    expected.push_str("   \x1b[1;34m|\x1b[0m\n");
    expected.push_str("  1 \x1b[1;34m|\x1b[0m 1 @ 2\n");
    expected.push_str("   \x1b[1;34m|\x1b[0m    ^\n");
    expected.push_str("   \x1b[1;34m|\x1b[0m\n");
    assert_eq!(report, expected);
}

#[test]
fn rendered_report_includes_help_when_present() {
    let err = lex("1;").expect_err("lexing should fail");
    let report = format_error(&err);
    assert!(report.contains(
        "   \x1b[1;34m=\x1b[0m \x1b[1;33mhelp\x1b[0m: Remove this semicolon\n"
    ));
}

#[test]
fn rendered_syntax_report_names_both_token_kinds() {
    let err = compile("print 2").expect_err("compilation should fail");
    let title = err.error_title();
    assert_eq!(title, "Token Mismatch:\n\texpected: LParen\n\tgot: Int");
}

#[test]
fn every_stage_renders_through_the_shared_shape() {
    for source in ["1;", "print(2", "1/0+2"] {
        let err = compile(source).expect_err("compilation should fail");
        let report = format_error(&err);
        assert!(report.starts_with("\x1b[1;31merror\x1b[0m["));
        assert!(report.contains("\x1b[1;34m-->\x1b[0m input:"));
    }
}

#[test]
fn decimal_text_matches_expected_values() {
    assert_eq!(u64_to_string(0), "0");
    assert_eq!(u64_to_string(10), "10");
    assert_eq!(u64_to_string(90210), "90210");
    assert_eq!(i32_to_string(0), "0");
    assert_eq!(i32_to_string(-1), "-1");
    assert_eq!(i32_to_string(i32::MAX), "2147483647");
    assert_eq!(i32_to_string(i32::MIN), "-2147483648");
}

#[test]
fn the_single_type_displays_as_int() {
    assert_eq!(Type::Int.as_str(), "Int");
}

#[test]
fn statements_emit_in_source_order() {
    let ir = compile("1+2 print(7)").expect("compilation should succeed");
    let mut expected = String::new();
    expected.push_str("target datalayout = \"e-m:e-i64:64-f80:128-n8:16:32:64-S128\"\n");
    expected.push_str("target triple = \"x86_64-pc-windows-msvc19.44.35221\"\n");
    expected.push_str("@int_fmt = private unnamed_addr constant [4 x i8] c\"%d\\0A\\00\"\n");
    expected.push_str("declare i32 @printf(i8*, ...)\n");
    expected.push_str("define i32 @main() {\n");
    expected.push_str("entry:\n");
    expected.push_str("  call i32 (i8*, ...) @printf(i8* getelementptr inbounds ([4 x i8], [4 x i8]* @int_fmt, i32 0, i32 0), i32 7)\n");
    expected.push_str("  ret i32 0\n");
    expected.push_str("}\n");
    assert_eq!(ir, expected);
}

#[test]
fn unfolded_division_reaches_the_emitted_code() {
    let ir = compile("print(8/0)").expect("compilation should succeed");
    assert!(ir.contains("  %var1 = sdiv i32 8, 0\n"));
    assert!(ir.contains("declare i32 @printf(i8*, ...)\n"));
    assert!(!ir.contains("@int_fmt"));
}
