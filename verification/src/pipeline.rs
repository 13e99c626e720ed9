//! The whole pipeline: source text in, textual IR or one diagnostic out.
//!
//! The stages run in fixed order — lex, parse, constant-fold, type-check,
//! dependency collection, lowering, code generation — and the pipeline
//! halts at the first failing stage.  [`spec_compile`] composes the
//! stages' specification functions, so the result is a mathematical
//! function of the source text and repeated runs are byte-identical.

use vstd::prelude::*;
use crate::ast::{lemma_optimize_program_wf, lemma_program_wf_stmts, spec_optimize};
use crate::codegen::{spec_generate, LlvmIrGenerator};
use crate::error_trait::ErrorDisplay;
use crate::lexer::{lemma_lex_token_count, lex, spec_lex};
use crate::lexer_error::{LexerError, LexerErrorView};
use crate::lowering::{get_dependencies, lemma_lower_stmts_op_count, make_middle_ir,
    spec_get_dependencies, spec_lower};
use crate::mir::mir_views;
use crate::parser::{spec_parse, tokens_wf, Parser};
use crate::parser_error::{ParserError, ParserErrorView};
use crate::semantic::{spec_analyze, SemanticAnalyzer};
use crate::semantic_error::{SemanticError, SemanticErrorView};
use crate::span::Span;

verus! {

/// Mathematical value of a [`CompileError`].
pub ghost enum CompileErrorView {
    Lexical(LexerErrorView),
    Syntax(ParserErrorView),
    Semantic(SemanticErrorView),
}

/// The diagnostic of whichever stage failed first.
#[derive(Debug, PartialEq)]
pub enum CompileError {
    Lexical(LexerError),
    Syntax(ParserError),
    Semantic(SemanticError),
}

impl View for CompileError {
    type V = CompileErrorView;

    open spec fn view(&self) -> CompileErrorView {
        match self {
            CompileError::Lexical(e) => CompileErrorView::Lexical(e@),
            CompileError::Syntax(e) => CompileErrorView::Syntax(e@),
            CompileError::Semantic(e) => CompileErrorView::Semantic(e@),
        }
    }
}

impl ErrorDisplay for CompileError {
    open spec fn spec_code(&self) -> Seq<char> {
        match self {
            CompileError::Lexical(e) => e.spec_code(),
            CompileError::Syntax(e) => e.spec_code(),
            CompileError::Semantic(e) => e.spec_code(),
        }
    }

    open spec fn spec_title(&self) -> Seq<char> {
        match self {
            CompileError::Lexical(e) => e.spec_title(),
            CompileError::Syntax(e) => e.spec_title(),
            CompileError::Semantic(e) => e.spec_title(),
        }
    }

    open spec fn spec_span(&self) -> crate::span::SpanView {
        match self {
            CompileError::Lexical(e) => e.spec_span(),
            CompileError::Syntax(e) => e.spec_span(),
            CompileError::Semantic(e) => e.spec_span(),
        }
    }

    open spec fn spec_help(&self) -> Option<Seq<char>> {
        match self {
            CompileError::Lexical(e) => e.spec_help(),
            CompileError::Syntax(e) => e.spec_help(),
            CompileError::Semantic(e) => e.spec_help(),
        }
    }

    open spec fn spec_notes(&self) -> Seq<Seq<char>> {
        match self {
            CompileError::Lexical(e) => e.spec_notes(),
            CompileError::Syntax(e) => e.spec_notes(),
            CompileError::Semantic(e) => e.spec_notes(),
        }
    }

    fn error_code(&self) -> (r: &'static str) {
        match self {
            CompileError::Lexical(e) => e.error_code(),
            CompileError::Syntax(e) => e.error_code(),
            CompileError::Semantic(e) => e.error_code(),
        }
    }

    fn error_title(&self) -> (r: String) {
        match self {
            CompileError::Lexical(e) => e.error_title(),
            CompileError::Syntax(e) => e.error_title(),
            CompileError::Semantic(e) => e.error_title(),
        }
    }

    fn span<'a>(&'a self) -> (r: &'a Span) {
        match self {
            CompileError::Lexical(e) => e.span(),
            CompileError::Syntax(e) => e.span(),
            CompileError::Semantic(e) => e.span(),
        }
    }

    fn help(&self) -> (r: Option<String>) {
        match self {
            CompileError::Lexical(e) => e.help(),
            CompileError::Syntax(e) => e.help(),
            CompileError::Semantic(e) => e.help(),
        }
    }

    fn notes(&self) -> (r: Vec<String>) {
        match self {
            CompileError::Lexical(e) => e.notes(),
            CompileError::Syntax(e) => e.notes(),
            CompileError::Semantic(e) => e.notes(),
        }
    }
}

/// The whole pipeline as a mathematical function of the source text.
pub open spec fn spec_compile(s: Seq<char>) -> Result<Seq<char>, CompileErrorView> {
    match spec_lex(s) {
        Err(e) => Err(CompileErrorView::Lexical(e)),
        Ok(toks) => match spec_parse(toks) {
            Err(e) => Err(CompileErrorView::Syntax(e)),
            Ok(ast) => {
                let folded = spec_optimize(ast);
                match spec_analyze(folded) {
                    Err(e) => Err(CompileErrorView::Semantic(e)),
                    Ok(_) => Ok(
                        spec_generate(spec_lower(folded), spec_get_dependencies(folded)),
                    ),
                }
            },
        },
    }
}

/// Every integer literal the scan finds fits the parser's domain; a
/// caller can test the condition with
/// [`crate::parser::int_literals_fit`] after lexing.
pub open spec fn literals_fit(s: Seq<char>) -> bool {
    match spec_lex(s) {
        Ok(toks) => tokens_wf(toks),
        Err(_) => true,
    }
}

/// The pipeline is deterministic: equal source texts give equal results,
/// so repeated runs on one source produce byte-identical IR text or the
/// same diagnostic.  Together with [`compile`]'s contract, any two calls
/// of the pipeline on the same source return the same value.
pub proof fn lemma_compile_deterministic(s1: Seq<char>, s2: Seq<char>)
    requires
        s1 == s2,
    ensures
        spec_compile(s1) == spec_compile(s2),
{
}

/// Runs the whole pipeline on `source`.
///
/// Returns exactly [`spec_compile`] of the source text: the generated
/// IR, or the first stage's diagnostic.
pub fn compile(source: &str) -> (r: Result<String, CompileError>)
    requires
        source@.len() < u32::MAX as int,
        literals_fit(source@),
    ensures
        ({
            match r {
                Ok(ir) => spec_compile(source@) == Ok::<Seq<char>, CompileErrorView>(ir@),
                Err(e) => spec_compile(source@) == Err::<Seq<char>, CompileErrorView>(e@),
            }
        }),
{
    let tokens = match lex(source) {
        Ok(t) => t,
        Err(e) => {
            return Err(CompileError::Lexical(e));
        },
    };
    proof {
        lemma_lex_token_count(source@);
    }
    let mut parser = Parser::new(tokens);
    let mut ast = match parser.parse() {
        Ok(a) => a,
        Err(e) => {
            return Err(CompileError::Syntax(e));
        },
    };
    let ghost parsed = ast@;
    ast.optimize();
    proof {
        lemma_optimize_program_wf(parsed);
    }
    let mut analyzer = SemanticAnalyzer::new();
    match analyzer.analyze(&ast) {
        Ok(_) => {},
        Err(e) => {
            return Err(CompileError::Semantic(e));
        },
    }
    let dependencies = get_dependencies(&ast);
    let ghost folded = ast@;
    proof {
        lemma_program_wf_stmts(folded);
        lemma_lower_stmts_op_count(folded->Program_stmts);
    }
    let mir = make_middle_ir(ast);
    proof {
        assert(mir_views(mir@) == spec_lower(folded));
    }
    let mut generator = LlvmIrGenerator::new();
    let ir = generator.generate_llvm_intermediate_representation(mir, dependencies);
    Ok(ir)
}

} // verus!
