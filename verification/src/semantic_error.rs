//! Semantic errors: operand types that disagree, or a node shape the
//! type system does not recognize.

use vstd::prelude::*;
use crate::ast::{ast_text, ast_to_string, AstNode, AstView};
use crate::error_trait::{texts_view, ErrorDisplay};
use crate::span::{Span, SpanView};
use crate::types::{type_text, Type};

verus! {

/// Mathematical value of a [`SemanticError`].
pub ghost enum SemanticErrorView {
    TypeMismatch { left: Type, right: Type, span: SpanView },
    UnsupportedASTNode { node: AstView, span: SpanView },
}

/// An error found while checking the tree's types.
#[derive(Debug, PartialEq)]
pub enum SemanticError {
    /// The two operands of a binary expression have different types.
    TypeMismatch { left: Type, right: Type, span: Span },
    /// A node shape the type system cannot assign a type to.
    UnsupportedASTNode { node: AstNode, span: Span },
}

impl View for SemanticError {
    type V = SemanticErrorView;

    open spec fn view(&self) -> SemanticErrorView {
        match self {
            SemanticError::TypeMismatch { left, right, span } => SemanticErrorView::TypeMismatch {
                left: *left,
                right: *right,
                span: span@,
            },
            SemanticError::UnsupportedASTNode { node, span } =>
                SemanticErrorView::UnsupportedASTNode { node: node@, span: span@ },
        }
    }
}

impl ErrorDisplay for SemanticError {
    open spec fn spec_code(&self) -> Seq<char> {
        match self@ {
            SemanticErrorView::TypeMismatch { .. } => "SE0001"@,
            SemanticErrorView::UnsupportedASTNode { .. } => "SE0002"@,
        }
    }

    open spec fn spec_title(&self) -> Seq<char> {
        match self@ {
            SemanticErrorView::TypeMismatch { left, right, .. } => "Type Mismatch:\n\tleft: "@
                + type_text(left) + "\n\tright: "@ + type_text(right),
            SemanticErrorView::UnsupportedASTNode { node, .. } => "Unsupported AST Node: "@
                + ast_text(node),
        }
    }

    open spec fn spec_span(&self) -> SpanView {
        match self@ {
            SemanticErrorView::TypeMismatch { span, .. } => span,
            SemanticErrorView::UnsupportedASTNode { span, .. } => span,
        }
    }

    open spec fn spec_help(&self) -> Option<Seq<char>> {
        None
    }

    open spec fn spec_notes(&self) -> Seq<Seq<char>> {
        Seq::empty()
    }

    fn error_code(&self) -> (r: &'static str) {
        match self {
            SemanticError::TypeMismatch { .. } => "SE0001",
            SemanticError::UnsupportedASTNode { .. } => "SE0002",
        }
    }

    fn error_title(&self) -> (r: String) {
        match self {
            SemanticError::TypeMismatch { left, right, .. } => {
                let mut t = String::from_str("Type Mismatch:\n\tleft: ");
                t.append(left.as_str());
                t.append("\n\tright: ");
                t.append(right.as_str());
                t
            },
            SemanticError::UnsupportedASTNode { node, .. } => {
                let rendered = ast_to_string(node);
                let mut t = String::from_str("Unsupported AST Node: ");
                t.append(rendered.as_str());
                t
            },
        }
    }

    fn span<'a>(&'a self) -> (r: &'a Span) {
        match self {
            SemanticError::TypeMismatch { span, .. } => span,
            SemanticError::UnsupportedASTNode { span, .. } => span,
        }
    }

    fn help(&self) -> (r: Option<String>) {
        None
    }

    fn notes(&self) -> (r: Vec<String>) {
        proof {
            assert(texts_view(Seq::<String>::empty()) =~= Seq::<Seq<char>>::empty());
        }
        Vec::new()
    }
}

} // verus!
