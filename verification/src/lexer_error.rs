//! The lexical error: an input character that no token class accepts.

use vstd::prelude::*;
use crate::error_trait::{texts_view, ErrorDisplay};
use crate::span::{Span, SpanView};
use crate::token::push_char;

verus! {

/// Mathematical value of a [`LexerError`].
pub ghost struct LexerErrorView {
    pub character: char,
    pub span: SpanView,
    pub suggestion: Option<Seq<char>>,
}

/// An error found while scanning the source text.
#[derive(Debug, PartialEq)]
pub enum LexerError {
    /// A character that starts no token.  `span` points at the character
    /// and its snippet holds the whole source line around it; `suggestion`
    /// is filled only when a known remediation exists.
    InvalidChar { character: char, span: Span, suggestion: Option<String> },
}

impl View for LexerError {
    type V = LexerErrorView;

    open spec fn view(&self) -> LexerErrorView {
        match self {
            LexerError::InvalidChar { character, span, suggestion } => LexerErrorView {
                character: *character,
                span: span@,
                suggestion: match suggestion {
                    Some(s) => Some(s@),
                    None => None,
                },
            },
        }
    }
}

impl ErrorDisplay for LexerError {
    open spec fn spec_code(&self) -> Seq<char> {
        "LE0001"@
    }

    open spec fn spec_title(&self) -> Seq<char> {
        "Invalid character: "@ + seq![self@.character]
    }

    open spec fn spec_span(&self) -> SpanView {
        self@.span
    }

    open spec fn spec_help(&self) -> Option<Seq<char>> {
        self@.suggestion
    }

    open spec fn spec_notes(&self) -> Seq<Seq<char>> {
        Seq::empty()
    }

    fn error_code(&self) -> (r: &'static str) {
        "LE0001"
    }

    fn error_title(&self) -> (r: String) {
        match self {
            LexerError::InvalidChar { character, .. } => {
                let mut t = String::from_str("Invalid character: ");
                push_char(&mut t, *character);
                t
            },
        }
    }

    fn span<'a>(&'a self) -> (r: &'a Span) {
        match self {
            LexerError::InvalidChar { span, .. } => span,
        }
    }

    fn help(&self) -> (r: Option<String>) {
        match self {
            LexerError::InvalidChar { suggestion, .. } => match suggestion {
                Some(s) => Some(s.clone()),
                None => None,
            },
        }
    }

    fn notes(&self) -> (r: Vec<String>) {
        proof {
            assert(texts_view(Seq::<String>::empty()) =~= Seq::<Seq<char>>::empty());
        }
        Vec::new()
    }
}

} // verus!
