//! Tokens produced by the lexer and consumed by the parser.

use vstd::prelude::*;
use crate::span::{Span, SpanView};

verus! {

/// The lexical class of a token.
#[derive(Debug, Clone, Copy, PartialEq, Eq, Structural)]
pub enum TokenType {
    /// A run of ASCII digits.
    Int,
    /// One of the operator characters `+ - * /`.
    OP,
    /// The character `(`.
    LParen,
    /// The character `)`.
    RParen,
    /// A run of ASCII letters and digits starting with a letter.
    Id,
    /// The exact identifier `print`.
    Keyword,
}

/// Mathematical value of a [`Token`]: its class, its text and its span.
pub ghost struct TokenView {
    pub token_type: TokenType,
    pub value: Seq<char>,
    pub span: SpanView,
}

/// One token: its class, its literal text and where it sits in the source.
#[derive(Debug, PartialEq)]
pub struct Token {
    pub token_type: TokenType,
    pub value: String,
    pub span: Span,
}

impl View for Token {
    type V = TokenView;

    open spec fn view(&self) -> TokenView {
        TokenView { token_type: self.token_type, value: self.value@, span: self.span@ }
    }
}

impl Clone for Token {
    fn clone(&self) -> (r: Self)
        ensures
            r@ == self@,
    {
        Token {
            token_type: self.token_type,
            value: self.value.clone(),
            span: self.span.clone(),
        }
    }
}

/// Does the string `a` hold exactly the text of the literal `lit`?
pub fn str_eq_lit(a: &String, lit: &str) -> (b: bool)
    ensures
        b == (a@ == lit@),
{
    let s = String::from_str(lit);
    a.eq(&s)
}

/// Relies on `String::push`: appends the given character to the string.
#[verifier::external_body]
pub fn push_char(s: &mut String, c: char)
    ensures
        final(s)@ == old(s)@ + seq![c],
{
    s.push(c);
}

/// The display name of a token class.
pub open spec fn kind_text(k: TokenType) -> Seq<char> {
    match k {
        TokenType::Int => "Int"@,
        TokenType::OP => "OP"@,
        TokenType::LParen => "LParen"@,
        TokenType::RParen => "RParen"@,
        TokenType::Id => "Id"@,
        TokenType::Keyword => "Keyword"@,
    }
}

/// The display name of a token class.
pub fn kind_name(k: TokenType) -> (r: &'static str)
    ensures
        r@ == kind_text(k),
{
    match k {
        TokenType::Int => "Int",
        TokenType::OP => "OP",
        TokenType::LParen => "LParen",
        TokenType::RParen => "RParen",
        TokenType::Id => "Id",
        TokenType::Keyword => "Keyword",
    }
}

/// The views of a sequence of tokens, element by element.
pub open spec fn tokens_view(toks: Seq<Token>) -> Seq<TokenView> {
    toks.map_values(|t: Token| t@)
}

} // verus!
