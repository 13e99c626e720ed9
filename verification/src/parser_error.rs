//! Syntax errors: an unexpected token, or input that ends too early.

use vstd::prelude::*;
use crate::error_trait::{texts_view, ErrorDisplay};
use crate::span::{Span, SpanView};
use crate::token::{kind_name, kind_text, TokenType};

verus! {

/// Mathematical value of a [`ParserError`].
pub ghost enum ParserErrorView {
    TokenMismatch { expected: TokenType, got: TokenType, span: SpanView, help: Option<Seq<char>> },
    UnexpectedEOF { span: SpanView },
}

/// An error found while parsing the token sequence.
#[derive(Debug, PartialEq)]
pub enum ParserError {
    /// The next token's class differs from the one the grammar requires.
    TokenMismatch { expected: TokenType, got: TokenType, span: Span, help: Option<String> },
    /// A token was required but the sequence was exhausted.
    UnexpectedEOF { span: Span },
}

impl View for ParserError {
    type V = ParserErrorView;

    open spec fn view(&self) -> ParserErrorView {
        match self {
            ParserError::TokenMismatch { expected, got, span, help } =>
                ParserErrorView::TokenMismatch {
                    expected: *expected,
                    got: *got,
                    span: span@,
                    help: match help {
                        Some(h) => Some(h@),
                        None => None,
                    },
                },
            ParserError::UnexpectedEOF { span } => ParserErrorView::UnexpectedEOF { span: span@ },
        }
    }
}

/// The placeholder span carried by an end-of-input error, which has no
/// token to point at.
pub open spec fn empty_span() -> SpanView {
    SpanView { start_line: 0, start_col: 0, source_snippet: Seq::empty() }
}

/// Builds the placeholder span of an end-of-input error.
pub fn make_empty_span() -> (s: Span)
    ensures
        s@ == empty_span(),
{
    Span { start_line: 0, start_col: 0, source_snippet: String::new() }
}

impl ErrorDisplay for ParserError {
    open spec fn spec_code(&self) -> Seq<char> {
        match self@ {
            ParserErrorView::TokenMismatch { .. } => "PA0001"@,
            ParserErrorView::UnexpectedEOF { .. } => "PA0002"@,
        }
    }

    open spec fn spec_title(&self) -> Seq<char> {
        match self@ {
            ParserErrorView::TokenMismatch { expected, got, .. } => "Token Mismatch:\n\texpected: "@
                + kind_text(expected) + "\n\tgot: "@ + kind_text(got),
            ParserErrorView::UnexpectedEOF { .. } => "Unexpected EOF"@,
        }
    }

    open spec fn spec_span(&self) -> SpanView {
        match self@ {
            ParserErrorView::TokenMismatch { span, .. } => span,
            ParserErrorView::UnexpectedEOF { span } => span,
        }
    }

    open spec fn spec_help(&self) -> Option<Seq<char>> {
        match self@ {
            ParserErrorView::TokenMismatch { help, .. } => help,
            ParserErrorView::UnexpectedEOF { .. } => None,
        }
    }

    open spec fn spec_notes(&self) -> Seq<Seq<char>> {
        Seq::empty()
    }

    fn error_code(&self) -> (r: &'static str) {
        match self {
            ParserError::TokenMismatch { .. } => "PA0001",
            ParserError::UnexpectedEOF { .. } => "PA0002",
        }
    }

    fn error_title(&self) -> (r: String) {
        match self {
            ParserError::TokenMismatch { expected, got, .. } => {
                let mut t = String::from_str("Token Mismatch:\n\texpected: ");
                t.append(kind_name(*expected));
                t.append("\n\tgot: ");
                t.append(kind_name(*got));
                t
            },
            ParserError::UnexpectedEOF { .. } => String::from_str("Unexpected EOF"),
        }
    }

    fn span<'a>(&'a self) -> (r: &'a Span) {
        match self {
            ParserError::TokenMismatch { span, .. } => span,
            ParserError::UnexpectedEOF { span } => span,
        }
    }

    fn help(&self) -> (r: Option<String>) {
        match self {
            ParserError::TokenMismatch { help, .. } => match help {
                Some(h) => Some(h.clone()),
                None => None,
            },
            ParserError::UnexpectedEOF { .. } => None,
        }
    }

    fn notes(&self) -> (r: Vec<String>) {
        proof {
            assert(texts_view(Seq::<String>::empty()) =~= Seq::<Seq<char>>::empty());
        }
        Vec::new()
    }
}

} // verus!
