//! Source positions for diagnostics.
//!
//! A [`Span`] records where in the source text a token or an error sits:
//! a 1-based line, a 1-based column, and the snippet of source text that a
//! diagnostic should show (the token's own text for tokens, the whole
//! source line for lexical errors).

use vstd::prelude::*;

verus! {

/// Mathematical value of a [`Span`]: the line, the column and the snippet
/// as a sequence of characters.
pub ghost struct SpanView {
    pub start_line: int,
    pub start_col: int,
    pub source_snippet: Seq<char>,
}

/// A source position plus the snippet of source text to display with it.
#[derive(Debug, PartialEq)]
pub struct Span {
    pub start_line: usize,
    pub start_col: usize,
    pub source_snippet: String,
}

impl View for Span {
    type V = SpanView;

    open spec fn view(&self) -> SpanView {
        SpanView {
            start_line: self.start_line as int,
            start_col: self.start_col as int,
            source_snippet: self.source_snippet@,
        }
    }
}

impl Clone for Span {
    fn clone(&self) -> (r: Self)
        ensures
            r@ == self@,
    {
        Span {
            start_line: self.start_line,
            start_col: self.start_col,
            source_snippet: self.source_snippet.clone(),
        }
    }
}

} // verus!
