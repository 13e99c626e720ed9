//! The lexer: a single left-to-right scan over the source text.
//!
//! The scan tracks 1-based `line` and `col` counters, updated on every
//! consumed character: a newline (or a carriage-return-newline pair,
//! counted as one line break) resets the column and increments the line,
//! and every other consumed character advances the column by one.  Every
//! token's span points at the token's first character.  The first
//! character that starts no token aborts the whole scan with a
//! [`LexerError`] whose snippet is the full source line around it.

use vstd::prelude::*;
use crate::lexer_error::{LexerError, LexerErrorView};
use crate::numtext::{all_digits, is_digit_char};
use crate::span::{Span, SpanView};
use crate::token::{str_eq_lit, tokens_view, Token, TokenType, TokenView};

verus! {

/// Is `c` an ASCII letter?
pub open spec fn is_letter_char(c: char) -> bool {
    ('a' as u32 <= c as u32 && c as u32 <= 'z' as u32) || ('A' as u32 <= c as u32 && c as u32
        <= 'Z' as u32)
}

/// Is `c` an ASCII letter or digit?
pub open spec fn is_alnum_char(c: char) -> bool {
    is_letter_char(c) || is_digit_char(c)
}

/// Is `c` one of the four operator characters?
pub open spec fn is_op_char(c: char) -> bool {
    c == '+' || c == '-' || c == '*' || c == '/'
}

/// First position at or after `i` that is not a decimal digit.
pub open spec fn digit_run_end(s: Seq<char>, i: int) -> int
    decreases s.len() - i,
    when 0 <= i <= s.len()
{
    if i < s.len() && is_digit_char(s[i]) {
        digit_run_end(s, i + 1)
    } else {
        i
    }
}

/// First position at or after `i` that is not a letter or digit.
pub open spec fn alnum_run_end(s: Seq<char>, i: int) -> int
    decreases s.len() - i,
    when 0 <= i <= s.len()
{
    if i < s.len() && is_alnum_char(s[i]) {
        alnum_run_end(s, i + 1)
    } else {
        i
    }
}

/// Start of the source line containing position `i`: the position just
/// after the previous newline, or the start of the text.
pub open spec fn line_start(s: Seq<char>, i: int) -> int
    decreases i,
    when 0 <= i <= s.len()
{
    if i <= 0 {
        0
    } else if s[i - 1] == '\n' {
        i
    } else {
        line_start(s, i - 1)
    }
}

/// End of the source line containing position `i`: the position of the
/// next newline, or the end of the text.
pub open spec fn line_end(s: Seq<char>, i: int) -> int
    decreases s.len() - i,
    when 0 <= i <= s.len()
{
    if i >= s.len() {
        s.len() as int
    } else if s[i] == '\n' {
        i
    } else {
        line_end(s, i + 1)
    }
}

/// A digit run ends no earlier than it starts and within the text.
pub proof fn lemma_digit_run_end_bounds(s: Seq<char>, i: int)
    requires
        0 <= i <= s.len(),
    ensures
        i <= digit_run_end(s, i) <= s.len(),
    decreases s.len() - i,
{
    if i < s.len() && is_digit_char(s[i]) {
        lemma_digit_run_end_bounds(s, i + 1);
    }
}

/// A letter-or-digit run ends no earlier than it starts and within the text.
pub proof fn lemma_alnum_run_end_bounds(s: Seq<char>, i: int)
    requires
        0 <= i <= s.len(),
    ensures
        i <= alnum_run_end(s, i) <= s.len(),
    decreases s.len() - i,
{
    if i < s.len() && is_alnum_char(s[i]) {
        lemma_alnum_run_end_bounds(s, i + 1);
    }
}

/// The token whose text and snippet are both `value`, at `line:col`.
pub open spec fn tok(kind: TokenType, value: Seq<char>, line: int, col: int) -> TokenView {
    TokenView {
        token_type: kind,
        value,
        span: SpanView { start_line: line, start_col: col, source_snippet: value },
    }
}

/// Puts `t` in front of the tokens of `r`, or keeps the error of `r`.
pub open spec fn prepend_token(t: TokenView, r: Result<Seq<TokenView>, LexerErrorView>) -> Result<
    Seq<TokenView>,
    LexerErrorView,
> {
    match r {
        Ok(ts) => Ok(seq![t] + ts),
        Err(e) => Err(e),
    }
}

/// The scan from position `i` on, with the counters at `line:col`.
pub open spec fn lex_from(s: Seq<char>, i: int, line: int, col: int) -> Result<
    Seq<TokenView>,
    LexerErrorView,
>
    decreases s.len() - i,
    when 0 <= i <= s.len()
    via lex_from_decreases
{
    if i >= s.len() {
        Ok(Seq::empty())
    } else {
        let c = s[i];
        if c == '\n' {
            lex_from(s, i + 1, line + 1, 1)
        } else if c == '\r' {
            if i + 1 < s.len() && s[i + 1] == '\n' {
                lex_from(s, i + 2, line + 1, 1)
            } else {
                lex_from(s, i + 1, line, col + 1)
            }
        } else if c == ' ' || c == '\t' {
            lex_from(s, i + 1, line, col + 1)
        } else if is_digit_char(c) {
            let j = digit_run_end(s, i);
            let value = s.subrange(i, j);
            prepend_token(
                tok(TokenType::Int, value, line, col),
                lex_from(s, j, line, col + (j - i)),
            )
        } else if c == '(' {
            prepend_token(
                tok(TokenType::LParen, s.subrange(i, i + 1), line, col),
                lex_from(s, i + 1, line, col + 1),
            )
        } else if c == ')' {
            prepend_token(
                tok(TokenType::RParen, s.subrange(i, i + 1), line, col),
                lex_from(s, i + 1, line, col + 1),
            )
        } else if is_op_char(c) {
            prepend_token(
                tok(TokenType::OP, s.subrange(i, i + 1), line, col),
                lex_from(s, i + 1, line, col + 1),
            )
        } else if is_letter_char(c) {
            let j = alnum_run_end(s, i);
            let value = s.subrange(i, j);
            let kind = if value == "print"@ {
                TokenType::Keyword
            } else {
                TokenType::Id
            };
            prepend_token(tok(kind, value, line, col), lex_from(s, j, line, col + (j - i)))
        } else {
            Err(
                LexerErrorView {
                    character: c,
                    span: SpanView {
                        start_line: line,
                        start_col: col,
                        source_snippet: s.subrange(line_start(s, i), line_end(s, i)),
                    },
                    suggestion: if c == ';' {
                        Some("Remove this semicolon"@)
                    } else {
                        None
                    },
                },
            )
        }
    }
}

#[via_fn]
proof fn lex_from_decreases(s: Seq<char>, i: int, line: int, col: int) {
    if 0 <= i < s.len() {
        if is_digit_char(s[i]) {
            lemma_digit_run_end_bounds(s, i + 1);
            assert(digit_run_end(s, i) == digit_run_end(s, i + 1));
        }
        if is_letter_char(s[i]) {
            lemma_alnum_run_end_bounds(s, i + 1);
            assert(alnum_run_end(s, i) == alnum_run_end(s, i + 1));
        }
    }
}

/// The whole scan: every token of `s`, or the first lexical error.
pub open spec fn spec_lex(s: Seq<char>) -> Result<Seq<TokenView>, LexerErrorView> {
    lex_from(s, 0, 1, 1)
}

/// Tokens already produced, followed by whatever the rest of the scan gives.
pub open spec fn lex_cont(pre: Seq<TokenView>, r: Result<Seq<TokenView>, LexerErrorView>) -> Result<
    Seq<TokenView>,
    LexerErrorView,
> {
    match r {
        Ok(ts) => Ok(pre + ts),
        Err(e) => Err(e),
    }
}

proof fn lemma_cont_empty(r: Result<Seq<TokenView>, LexerErrorView>)
    ensures
        lex_cont(Seq::empty(), r) == r,
{
    match r {
        Ok(ts) => {
            assert(Seq::<TokenView>::empty() + ts =~= ts);
        },
        Err(_) => {},
    }
}

proof fn lemma_cont_push(
    pre: Seq<TokenView>,
    t: TokenView,
    r: Result<Seq<TokenView>, LexerErrorView>,
)
    ensures
        lex_cont(pre, prepend_token(t, r)) == lex_cont(pre.push(t), r),
{
    match r {
        Ok(ts) => {
            assert(pre + (seq![t] + ts) =~= pre.push(t) + ts);
        },
        Err(_) => {},
    }
}

proof fn lemma_tokens_view_push(s: Seq<Token>, t: Token)
    ensures
        tokens_view(s.push(t)) == tokens_view(s).push(t@),
{
    assert(tokens_view(s.push(t)) =~= tokens_view(s).push(t@));
}

/// Every character of a digit run is a digit.
pub proof fn lemma_digit_run_digits(s: Seq<char>, i: int)
    requires
        0 <= i <= s.len(),
    ensures
        forall|m: int| i <= m < digit_run_end(s, i) ==> is_digit_char(#[trigger] s[m]),
    decreases s.len() - i,
{
    if i < s.len() && is_digit_char(s[i]) {
        lemma_digit_run_digits(s, i + 1);
    }
}

/// An integer token's text is a nonempty digit run.
pub open spec fn int_token_digits(t: TokenView) -> bool {
    t.token_type == TokenType::Int ==> t.value.len() > 0 && all_digits(t.value)
}

proof fn lemma_prepend_int_tokens(t: TokenView, r: Result<Seq<TokenView>, LexerErrorView>)
    requires
        int_token_digits(t),
        match r {
            Ok(ts) => forall|k: int| 0 <= k < ts.len() ==> int_token_digits(#[trigger] ts[k]),
            Err(_) => true,
        },
    ensures
        match prepend_token(t, r) {
            Ok(ts) => forall|k: int| 0 <= k < ts.len() ==> int_token_digits(#[trigger] ts[k]),
            Err(_) => true,
        },
{
    match r {
        Ok(ts) => {
            assert forall|k: int|
                0 <= k < (seq![t] + ts).len() implies int_token_digits(
                #[trigger] (seq![t] + ts)[k],
            ) by {
                if k > 0 {
                    assert((seq![t] + ts)[k] == ts[k - 1]);
                }
            }
        },
        Err(_) => {},
    }
}

/// Every integer token of a successful scan is a nonempty digit run.
pub proof fn lemma_lex_from_int_tokens(s: Seq<char>, i: int, line: int, col: int)
    requires
        0 <= i <= s.len(),
    ensures
        match lex_from(s, i, line, col) {
            Ok(toks) => forall|k: int| 0 <= k < toks.len() ==> int_token_digits(#[trigger] toks[k]),
            Err(_) => true,
        },
    decreases s.len() - i,
{
    if 0 <= i < s.len() {
        let c = s[i];
        if c == '\n' {
            lemma_lex_from_int_tokens(s, i + 1, line + 1, 1);
        } else if c == '\r' {
            if i + 1 < s.len() && s[i + 1] == '\n' {
                lemma_lex_from_int_tokens(s, i + 2, line + 1, 1);
            } else {
                lemma_lex_from_int_tokens(s, i + 1, line, col + 1);
            }
        } else if c == ' ' || c == '\t' {
            lemma_lex_from_int_tokens(s, i + 1, line, col + 1);
        } else if is_digit_char(c) {
            let j = digit_run_end(s, i);
            lemma_digit_run_end_bounds(s, i + 1);
            assert(digit_run_end(s, i) == digit_run_end(s, i + 1));
            lemma_digit_run_digits(s, i);
            let value = s.subrange(i, j);
            assert(all_digits(value)) by {
                assert(forall|m: int| 0 <= m < value.len() ==> #[trigger] value[m] == s[i + m]);
            }
            lemma_lex_from_int_tokens(s, j, line, col + (j - i));
            lemma_prepend_int_tokens(
                tok(TokenType::Int, value, line, col),
                lex_from(s, j, line, col + (j - i)),
            );
        } else if c == '(' || c == ')' || is_op_char(c) {
            let kind = if c == '(' {
                TokenType::LParen
            } else if c == ')' {
                TokenType::RParen
            } else {
                TokenType::OP
            };
            lemma_lex_from_int_tokens(s, i + 1, line, col + 1);
            lemma_prepend_int_tokens(
                tok(kind, s.subrange(i, i + 1), line, col),
                lex_from(s, i + 1, line, col + 1),
            );
        } else if is_letter_char(c) {
            let j = alnum_run_end(s, i);
            lemma_alnum_run_end_bounds(s, i + 1);
            assert(alnum_run_end(s, i) == alnum_run_end(s, i + 1));
            let value = s.subrange(i, j);
            let kind = if value == "print"@ {
                TokenType::Keyword
            } else {
                TokenType::Id
            };
            lemma_lex_from_int_tokens(s, j, line, col + (j - i));
            lemma_prepend_int_tokens(tok(kind, value, line, col), lex_from(s, j, line, col + (j - i)));
        }
    }
}

/// Every integer token of a successful whole scan is a nonempty digit
/// run; only the literal's numeric bound is left for a caller of the
/// parser to establish.
pub proof fn lemma_lex_int_tokens(s: Seq<char>)
    ensures
        match spec_lex(s) {
            Ok(toks) => forall|k: int| 0 <= k < toks.len() ==> int_token_digits(#[trigger] toks[k]),
            Err(_) => true,
        },
{
    lemma_lex_from_int_tokens(s, 0, 1, 1);
}

/// A span produced with 1-based counters is 1-based.
pub open spec fn span_positive(sp: SpanView) -> bool {
    sp.start_line >= 1 && sp.start_col >= 1
}

proof fn lemma_prepend_span_positive(t: TokenView, r: Result<Seq<TokenView>, LexerErrorView>)
    requires
        span_positive(t.span),
        match r {
            Ok(ts) => forall|k: int| 0 <= k < ts.len() ==> span_positive(#[trigger] ts[k].span),
            Err(e) => span_positive(e.span),
        },
    ensures
        match prepend_token(t, r) {
            Ok(ts) => forall|k: int| 0 <= k < ts.len() ==> span_positive(#[trigger] ts[k].span),
            Err(e) => span_positive(e.span),
        },
{
    match r {
        Ok(ts) => {
            assert forall|k: int|
                0 <= k < (seq![t] + ts).len() implies span_positive(
                #[trigger] (seq![t] + ts)[k].span,
            ) by {
                if k > 0 {
                    assert((seq![t] + ts)[k] == ts[k - 1]);
                }
            }
        },
        Err(_) => {},
    }
}

/// Every span the scan produces is 1-based: token spans and the error
/// span alike point at a real line and column.
pub proof fn lemma_lex_from_spans(s: Seq<char>, i: int, line: int, col: int)
    requires
        0 <= i <= s.len(),
        line >= 1,
        col >= 1,
    ensures
        match lex_from(s, i, line, col) {
            Ok(toks) => forall|k: int| 0 <= k < toks.len() ==> span_positive(#[trigger] toks[k].span),
            Err(e) => span_positive(e.span),
        },
    decreases s.len() - i,
{
    if 0 <= i < s.len() {
        let c = s[i];
        if c == '\n' {
            lemma_lex_from_spans(s, i + 1, line + 1, 1);
        } else if c == '\r' {
            if i + 1 < s.len() && s[i + 1] == '\n' {
                lemma_lex_from_spans(s, i + 2, line + 1, 1);
            } else {
                lemma_lex_from_spans(s, i + 1, line, col + 1);
            }
        } else if c == ' ' || c == '\t' {
            lemma_lex_from_spans(s, i + 1, line, col + 1);
        } else if is_digit_char(c) {
            let j = digit_run_end(s, i);
            lemma_digit_run_end_bounds(s, i + 1);
            assert(digit_run_end(s, i) == digit_run_end(s, i + 1));
            lemma_lex_from_spans(s, j, line, col + (j - i));
            lemma_prepend_span_positive(
                tok(TokenType::Int, s.subrange(i, j), line, col),
                lex_from(s, j, line, col + (j - i)),
            );
        } else if c == '(' || c == ')' || is_op_char(c) {
            let kind = if c == '(' {
                TokenType::LParen
            } else if c == ')' {
                TokenType::RParen
            } else {
                TokenType::OP
            };
            lemma_lex_from_spans(s, i + 1, line, col + 1);
            lemma_prepend_span_positive(
                tok(kind, s.subrange(i, i + 1), line, col),
                lex_from(s, i + 1, line, col + 1),
            );
        } else if is_letter_char(c) {
            let j = alnum_run_end(s, i);
            lemma_alnum_run_end_bounds(s, i + 1);
            assert(alnum_run_end(s, i) == alnum_run_end(s, i + 1));
            let value = s.subrange(i, j);
            let kind = if value == "print"@ {
                TokenType::Keyword
            } else {
                TokenType::Id
            };
            lemma_lex_from_spans(s, j, line, col + (j - i));
            lemma_prepend_span_positive(tok(kind, value, line, col), lex_from(s, j, line, col + (j - i)));
        }
    }
}

/// Every span of a whole scan is 1-based.
pub proof fn lemma_lex_spans(s: Seq<char>)
    ensures
        match spec_lex(s) {
            Ok(toks) => forall|k: int| 0 <= k < toks.len() ==> span_positive(#[trigger] toks[k].span),
            Err(e) => span_positive(e.span),
        },
{
    lemma_lex_from_spans(s, 0, 1, 1);
}

/// A successful scan yields at most one token per character.
pub proof fn lemma_lex_from_count(s: Seq<char>, i: int, line: int, col: int)
    requires
        0 <= i <= s.len(),
    ensures
        match lex_from(s, i, line, col) {
            Ok(toks) => toks.len() <= s.len() - i,
            Err(_) => true,
        },
    decreases s.len() - i,
{
    if 0 <= i < s.len() {
        let c = s[i];
        if c == '\n' {
            lemma_lex_from_count(s, i + 1, line + 1, 1);
        } else if c == '\r' {
            if i + 1 < s.len() && s[i + 1] == '\n' {
                lemma_lex_from_count(s, i + 2, line + 1, 1);
            } else {
                lemma_lex_from_count(s, i + 1, line, col + 1);
            }
        } else if c == ' ' || c == '\t' {
            lemma_lex_from_count(s, i + 1, line, col + 1);
        } else if is_digit_char(c) {
            let j = digit_run_end(s, i);
            lemma_digit_run_end_bounds(s, i + 1);
            assert(digit_run_end(s, i) == digit_run_end(s, i + 1));
            lemma_lex_from_count(s, j, line, col + (j - i));
        } else if c == '(' || c == ')' || is_op_char(c) {
            lemma_lex_from_count(s, i + 1, line, col + 1);
        } else if is_letter_char(c) {
            let j = alnum_run_end(s, i);
            lemma_alnum_run_end_bounds(s, i + 1);
            assert(alnum_run_end(s, i) == alnum_run_end(s, i + 1));
            lemma_lex_from_count(s, j, line, col + (j - i));
        }
    }
}

/// A successful whole scan yields at most one token per character.
pub proof fn lemma_lex_token_count(s: Seq<char>)
    ensures
        match spec_lex(s) {
            Ok(toks) => toks.len() <= s.len(),
            Err(_) => true,
        },
{
    lemma_lex_from_count(s, 0, 1, 1);
}

/// The views of an executable lexer result.
pub open spec fn lex_result_view(r: Result<Vec<Token>, LexerError>) -> Result<
    Seq<TokenView>,
    LexerErrorView,
> {
    match r {
        Ok(v) => Ok(tokens_view(v@)),
        Err(e) => Err(e@),
    }
}

/// Is the character at position `j` a decimal digit?
fn digit_at(s: &str, j: usize) -> (b: bool)
    requires
        j < s@.len(),
    ensures
        b == is_digit_char(s@[j as int]),
{
    let c = s.get_char(j);
    '0' as u32 <= c as u32 && c as u32 <= '9' as u32
}

/// Is the character at position `j` a letter or digit?
fn alnum_at(s: &str, j: usize) -> (b: bool)
    requires
        j < s@.len(),
    ensures
        b == is_alnum_char(s@[j as int]),
{
    let c = s.get_char(j);
    ('a' as u32 <= c as u32 && c as u32 <= 'z' as u32) || ('A' as u32 <= c as u32 && c as u32
        <= 'Z' as u32) || ('0' as u32 <= c as u32 && c as u32 <= '9' as u32)
}

/// Builds the token whose text and snippet are both the characters
/// `from..to` of the source, at `line:col`.
fn make_token(s: &str, from: usize, to: usize, kind: TokenType, line: usize, col: usize) -> (t:
    Token)
    requires
        from <= to <= s@.len(),
    ensures
        t@ == tok(kind, s@.subrange(from as int, to as int), line as int, col as int),
{
    let text = s.substring_char(from, to);
    let value = String::from_str(text);
    let snippet = value.clone();
    Token {
        token_type: kind,
        value,
        span: Span { start_line: line, start_col: col, source_snippet: snippet },
    }
}

/// Scans the source text into tokens.
///
/// Returns the ordered token sequence, or the first invalid character as
/// a [`LexerError`] whose span locates it exactly and whose snippet is
/// the full source line containing it.
#[verifier::loop_isolation(false)]
pub fn lex(content: &str) -> (r: Result<Vec<Token>, LexerError>)
    requires
        content@.len() < usize::MAX,
    ensures
        lex_result_view(r) == spec_lex(content@),
{
    let ghost s = content@;
    let n = content.unicode_len();
    let mut tokens: Vec<Token> = Vec::new();
    let mut i: usize = 0;
    let mut line: usize = 1;
    let mut col: usize = 1;
    proof {
        lemma_cont_empty(spec_lex(s));
        assert(tokens_view(tokens@) =~= Seq::<TokenView>::empty());
    }
    while i < n
        invariant
            i <= n,
            1 <= line,
            line <= i + 1,
            1 <= col,
            col <= i + 1,
            lex_cont(tokens_view(tokens@), lex_from(s, i as int, line as int, col as int))
                == spec_lex(s),
        decreases n - i,
    {
        let c = content.get_char(i);
        if c == '\n' {
            proof {
                assert(lex_from(s, i as int, line as int, col as int) == lex_from(
                    s,
                    i + 1,
                    line + 1,
                    1,
                ));
            }
            i = i + 1;
            line = line + 1;
            col = 1;
        } else if c == '\r' {
            let crlf = i + 1 < n && content.get_char(i + 1) == '\n';
            if crlf {
                proof {
                    assert(lex_from(s, i as int, line as int, col as int) == lex_from(
                        s,
                        i + 2,
                        line + 1,
                        1,
                    ));
                }
                i = i + 2;
                line = line + 1;
                col = 1;
            } else {
                proof {
                    assert(lex_from(s, i as int, line as int, col as int) == lex_from(
                        s,
                        i + 1,
                        line as int,
                        col + 1,
                    ));
                }
                i = i + 1;
                col = col + 1;
            }
        } else if c == ' ' || c == '\t' {
            proof {
                assert(lex_from(s, i as int, line as int, col as int) == lex_from(
                    s,
                    i + 1,
                    line as int,
                    col + 1,
                ));
            }
            i = i + 1;
            col = col + 1;
        } else if '0' as u32 <= c as u32 && c as u32 <= '9' as u32 {
            let mut j = i + 1;
            proof {
                lemma_digit_run_end_bounds(s, j as int);
                assert(digit_run_end(s, i as int) == digit_run_end(s, j as int));
            }
            while j < n && digit_at(content, j)
                invariant
                    i < j <= n,
                    digit_run_end(s, i as int) == digit_run_end(s, j as int),
                decreases n - j,
            {
                proof {
                    lemma_digit_run_end_bounds(s, j + 1);
                    assert(digit_run_end(s, j as int) == digit_run_end(s, j + 1));
                }
                j = j + 1;
            }
            proof {
                assert(digit_run_end(s, j as int) == j as int);
            }
            let token = make_token(content, i, j, TokenType::Int, line, col);
            proof {
                assert(lex_from(s, i as int, line as int, col as int) == prepend_token(
                    token@,
                    lex_from(s, j as int, line as int, col + (j - i)),
                ));
                lemma_tokens_view_push(tokens@, token);
                lemma_cont_push(
                    tokens_view(tokens@),
                    token@,
                    lex_from(s, j as int, line as int, col + (j - i)),
                );
            }
            tokens.push(token);
            col = col + (j - i);
            i = j;
        } else if c == '(' || c == ')' || c == '+' || c == '-' || c == '*' || c == '/' {
            let kind = if c == '(' {
                TokenType::LParen
            } else if c == ')' {
                TokenType::RParen
            } else {
                TokenType::OP
            };
            let token = make_token(content, i, i + 1, kind, line, col);
            proof {
                assert(lex_from(s, i as int, line as int, col as int) == prepend_token(
                    token@,
                    lex_from(s, i + 1, line as int, col + 1),
                ));
                lemma_tokens_view_push(tokens@, token);
                lemma_cont_push(
                    tokens_view(tokens@),
                    token@,
                    lex_from(s, i + 1, line as int, col + 1),
                );
            }
            tokens.push(token);
            i = i + 1;
            col = col + 1;
        } else if ('a' as u32 <= c as u32 && c as u32 <= 'z' as u32) || ('A' as u32 <= c as u32
            && c as u32 <= 'Z' as u32) {
            let mut j = i + 1;
            proof {
                lemma_alnum_run_end_bounds(s, j as int);
                assert(alnum_run_end(s, i as int) == alnum_run_end(s, j as int));
            }
            while j < n && alnum_at(content, j)
                invariant
                    i < j <= n,
                    alnum_run_end(s, i as int) == alnum_run_end(s, j as int),
                decreases n - j,
            {
                proof {
                    lemma_alnum_run_end_bounds(s, j + 1);
                    assert(alnum_run_end(s, j as int) == alnum_run_end(s, j + 1));
                }
                j = j + 1;
            }
            proof {
                assert(alnum_run_end(s, j as int) == j as int);
            }
            let text = content.substring_char(i, j);
            let value = String::from_str(text);
            let is_kw = str_eq_lit(&value, "print");
            let kind = if is_kw {
                TokenType::Keyword
            } else {
                TokenType::Id
            };
            let snippet = value.clone();
            let token = Token {
                token_type: kind,
                value,
                span: Span { start_line: line, start_col: col, source_snippet: snippet },
            };
            proof {
                assert(token@ == tok(
                    kind,
                    s.subrange(i as int, j as int),
                    line as int,
                    col as int,
                ));
                assert(lex_from(s, i as int, line as int, col as int) == prepend_token(
                    token@,
                    lex_from(s, j as int, line as int, col + (j - i)),
                ));
                lemma_tokens_view_push(tokens@, token);
                lemma_cont_push(
                    tokens_view(tokens@),
                    token@,
                    lex_from(s, j as int, line as int, col + (j - i)),
                );
            }
            tokens.push(token);
            col = col + (j - i);
            i = j;
        } else {
            let mut ls = i;
            while ls > 0 && content.get_char(ls - 1) != '\n'
                invariant
                    ls <= i,
                    line_start(s, i as int) == line_start(s, ls as int),
                decreases ls,
            {
                ls = ls - 1;
            }
            let mut le = i;
            while le < n && content.get_char(le) != '\n'
                invariant
                    i <= le <= n,
                    line_end(s, i as int) == line_end(s, le as int),
                decreases n - le,
            {
                le = le + 1;
            }
            proof {
                assert(line_start(s, ls as int) == ls as int);
                assert(line_end(s, le as int) == le as int);
            }
            let snippet_text = content.substring_char(ls, le);
            let snippet = String::from_str(snippet_text);
            let suggestion: Option<String> = if c == ';' {
                Some(String::from_str("Remove this semicolon"))
            } else {
                None
            };
            let err = LexerError::InvalidChar {
                character: c,
                span: Span { start_line: line, start_col: col, source_snippet: snippet },
                suggestion,
            };
            proof {
                assert(lex_from(s, i as int, line as int, col as int) == Err::<
                    Seq<TokenView>,
                    LexerErrorView,
                >(err@));
            }
            return Err(err);
        }
    }
    proof {
        assert(lex_from(s, i as int, line as int, col as int) == Ok::<
            Seq<TokenView>,
            LexerErrorView,
        >(Seq::empty()));
        assert(tokens_view(tokens@) + Seq::<TokenView>::empty() =~= tokens_view(tokens@));
    }
    Ok(tokens)
}

} // verus!
