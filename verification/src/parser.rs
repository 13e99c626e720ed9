//! The parser: recursive descent over the token sequence with two
//! precedence tiers.
//!
//! The grammar, left-associative at both tiers:
//!
//! ```text
//! program := expr*
//! expr    := term (("+"|"-") term)*
//! term    := factor (("*"|"/") factor)*
//! factor  := INT | "print" "(" expr ")"
//! ```
//!
//! Each executable function's result is pinned to the corresponding
//! specification function over the token views, so the parse result is a
//! mathematical function of the token sequence.

use vstd::prelude::*;
use crate::ast::{ast_views, op_count, stmt_wf, AstNode, AstView};
use crate::numtext::{all_digits, dec_val, is_digit_char, lemma_dec_val_nonneg,
    lemma_dec_val_prefix, lemma_dec_val_take_step};
use crate::parser_error::{empty_span, make_empty_span, ParserError, ParserErrorView};
use crate::token::{str_eq_lit, tokens_view, Token, TokenType, TokenView};

verus! {

/// An integer token the parser can take: a nonempty digit run whose value
/// fits in an `i32`.  A larger literal has no `i32` value to build a
/// leaf from, so it lies outside the parser's domain.
pub open spec fn token_wf(t: TokenView) -> bool {
    t.token_type == TokenType::Int ==> {
        &&& t.value.len() > 0
        &&& all_digits(t.value)
        &&& dec_val(t.value) <= i32::MAX as int
    }
}

/// Every integer token of the sequence is one the parser can take.
pub open spec fn tokens_wf(toks: Seq<TokenView>) -> bool {
    forall|i: int| 0 <= i < toks.len() ==> token_wf(#[trigger] toks[i])
}

/// Tokens left from position `pos` on; zero outside the sequence.
pub open spec fn rem(toks: Seq<TokenView>, pos: int) -> int {
    if 0 <= pos <= toks.len() {
        toks.len() - pos
    } else {
        0
    }
}

/// One step of the cursor: the token at `pos` if its class is `expected`,
/// a mismatch error if not, an end-of-input error past the end.
pub open spec fn spec_consume(toks: Seq<TokenView>, pos: int, expected: TokenType) -> Result<
    (TokenView, int),
    ParserErrorView,
> {
    if 0 <= pos < toks.len() {
        let t = toks[pos];
        if t.token_type == expected {
            Ok((t, pos + 1))
        } else {
            Err(
                ParserErrorView::TokenMismatch {
                    expected,
                    got: t.token_type,
                    span: t.span,
                    help: None,
                },
            )
        }
    } else {
        Err(ParserErrorView::UnexpectedEOF { span: empty_span() })
    }
}

/// `factor := INT | "print" "(" expr ")"`
pub open spec fn spec_parse_factor(toks: Seq<TokenView>, pos: int) -> Result<
    (AstView, int),
    ParserErrorView,
>
    decreases rem(toks, pos), 1int,
{
    if !(0 <= pos < toks.len()) {
        Err(ParserErrorView::UnexpectedEOF { span: empty_span() })
    } else {
        let t = toks[pos];
        if t.token_type == TokenType::Int {
            Ok((AstView::Int { val: dec_val(t.value) as i32 }, pos + 1))
        } else if t.token_type == TokenType::Keyword {
            if t.value == "print"@ {
                match spec_consume(toks, pos + 1, TokenType::LParen) {
                    Err(e) => Err(e),
                    Ok((_lp, p1)) => match spec_parse_expr(toks, p1) {
                        Err(e) => Err(e),
                        Ok((inner, p2)) => match spec_consume(toks, p2, TokenType::RParen) {
                            Err(e) => Err(e),
                            Ok((_rp, p3)) => Ok((AstView::Print { arg: Box::new(inner) }, p3)),
                        },
                    },
                }
            } else {
                Err(
                    ParserErrorView::TokenMismatch {
                        expected: TokenType::Keyword,
                        got: t.token_type,
                        span: t.span,
                        help: None,
                    },
                )
            }
        } else {
            Err(
                ParserErrorView::TokenMismatch {
                    expected: TokenType::Int,
                    got: t.token_type,
                    span: t.span,
                    help: None,
                },
            )
        }
    }
}

/// The left-associative tail of `term`: `(("*"|"/") factor)*`, folding
/// onto `left`.
pub open spec fn spec_parse_term_more(toks: Seq<TokenView>, pos: int, left: AstView) -> Result<
    (AstView, int),
    ParserErrorView,
>
    decreases rem(toks, pos), 0int,
{
    if 0 <= pos < toks.len() && toks[pos].token_type == TokenType::OP && (toks[pos].value == "*"@
        || toks[pos].value == "/"@) {
        match spec_parse_factor(toks, pos + 1) {
            Err(e) => Err(e),
            Ok((right, p2)) => {
                let combined = AstView::Op {
                    op: toks[pos].value,
                    left: Box::new(left),
                    right: Box::new(right),
                };
                if pos < p2 <= toks.len() {
                    spec_parse_term_more(toks, p2, combined)
                } else {
                    Ok((combined, p2))
                }
            },
        }
    } else {
        Ok((left, pos))
    }
}

/// `term := factor (("*"|"/") factor)*`
pub open spec fn spec_parse_term(toks: Seq<TokenView>, pos: int) -> Result<
    (AstView, int),
    ParserErrorView,
>
    decreases rem(toks, pos), 3int,
{
    match spec_parse_factor(toks, pos) {
        Err(e) => Err(e),
        Ok((left, p)) => {
            if 0 <= pos < p <= toks.len() {
                spec_parse_term_more(toks, p, left)
            } else {
                Ok((left, p))
            }
        },
    }
}

/// The left-associative tail of `expr`: `(("+"|"-") term)*`, folding
/// onto `left`.
pub open spec fn spec_parse_expr_more(toks: Seq<TokenView>, pos: int, left: AstView) -> Result<
    (AstView, int),
    ParserErrorView,
>
    decreases rem(toks, pos), 2int,
{
    if 0 <= pos < toks.len() && toks[pos].token_type == TokenType::OP && (toks[pos].value == "+"@
        || toks[pos].value == "-"@) {
        match spec_parse_term(toks, pos + 1) {
            Err(e) => Err(e),
            Ok((right, p2)) => {
                let combined = AstView::Op {
                    op: toks[pos].value,
                    left: Box::new(left),
                    right: Box::new(right),
                };
                if pos < p2 <= toks.len() {
                    spec_parse_expr_more(toks, p2, combined)
                } else {
                    Ok((combined, p2))
                }
            },
        }
    } else {
        Ok((left, pos))
    }
}

/// `expr := term (("+"|"-") term)*`
pub open spec fn spec_parse_expr(toks: Seq<TokenView>, pos: int) -> Result<
    (AstView, int),
    ParserErrorView,
>
    decreases rem(toks, pos), 4int,
{
    match spec_parse_term(toks, pos) {
        Err(e) => Err(e),
        Ok((left, p)) => {
            if 0 <= pos < p <= toks.len() {
                spec_parse_expr_more(toks, p, left)
            } else {
                Ok((left, p))
            }
        },
    }
}

/// Puts `a` in front of the statements of `r`, or keeps the error of `r`.
pub open spec fn prepend_stmt(a: AstView, r: Result<Seq<AstView>, ParserErrorView>) -> Result<
    Seq<AstView>,
    ParserErrorView,
> {
    match r {
        Ok(rest) => Ok(seq![a] + rest),
        Err(e) => Err(e),
    }
}

/// `program := expr*`, from position `pos` to the end of the tokens.
pub open spec fn spec_parse_program(toks: Seq<TokenView>, pos: int) -> Result<
    Seq<AstView>,
    ParserErrorView,
>
    decreases rem(toks, pos), 5int,
{
    if !(0 <= pos < toks.len()) {
        Ok(Seq::empty())
    } else {
        match spec_parse_expr(toks, pos) {
            Err(e) => Err(e),
            Ok((a, p)) => {
                if pos < p <= toks.len() {
                    prepend_stmt(a, spec_parse_program(toks, p))
                } else {
                    Ok(seq![a])
                }
            },
        }
    }
}

/// The whole parse from position `pos`: a `Program` of the statements.
pub open spec fn spec_parse_at(toks: Seq<TokenView>, pos: int) -> Result<
    AstView,
    ParserErrorView,
> {
    match spec_parse_program(toks, pos) {
        Ok(stmts) => Ok(AstView::Program { stmts }),
        Err(e) => Err(e),
    }
}

/// The whole parse of a token sequence.
pub open spec fn spec_parse(toks: Seq<TokenView>) -> Result<AstView, ParserErrorView> {
    spec_parse_at(toks, 0)
}

/// Statements already parsed, followed by whatever the rest gives.
pub open spec fn stmts_cont(
    pre: Seq<AstView>,
    r: Result<Seq<AstView>, ParserErrorView>,
) -> Result<Seq<AstView>, ParserErrorView> {
    match r {
        Ok(ts) => Ok(pre + ts),
        Err(e) => Err(e),
    }
}

proof fn lemma_stmts_cont_empty(r: Result<Seq<AstView>, ParserErrorView>)
    ensures
        stmts_cont(Seq::empty(), r) == r,
{
    match r {
        Ok(ts) => {
            assert(Seq::<AstView>::empty() + ts =~= ts);
        },
        Err(_) => {},
    }
}

proof fn lemma_stmts_cont_push(pre: Seq<AstView>, a: AstView, r: Result<Seq<AstView>, ParserErrorView>)
    ensures
        stmts_cont(pre, prepend_stmt(a, r)) == stmts_cont(pre.push(a), r),
{
    match r {
        Ok(ts) => {
            assert(pre + (seq![a] + ts) =~= pre.push(a) + ts);
        },
        Err(_) => {},
    }
}

proof fn lemma_ast_views_push(s: Seq<AstNode>, x: AstNode)
    ensures
        ast_views(s.push(x)) == ast_views(s).push(x@),
{
    assert(s.push(x).drop_last() =~= s);
    assert(s.push(x).last() == x);
}

/// Is this string a nonempty digit run whose value fits in an `i32`?
#[verifier::loop_isolation(false)]
fn int_text_ok(s: &String) -> (b: bool)
    ensures
        b == (s@.len() > 0 && all_digits(s@) && dec_val(s@) <= i32::MAX as int),
{
    let st = s.as_str();
    let len = st.unicode_len();
    if len == 0 {
        return false;
    }
    let mut acc: u64 = 0;
    let mut k: usize = 0;
    proof {
        assert(s@.take(0) =~= Seq::<char>::empty());
    }
    while k < len
        invariant
            k <= len,
            acc as int == dec_val(s@.take(k as int)),
            acc <= i32::MAX as u64,
            all_digits(s@.take(k as int)),
        decreases len - k,
    {
        let c = st.get_char(k);
        let u = c as u32;
        if u < '0' as u32 || u > '9' as u32 {
            proof {
                assert(!is_digit_char(s@[k as int]));
            }
            return false;
        }
        proof {
            lemma_dec_val_take_step(s@, k as int);
            assert(forall|m: int|
                0 <= m < s@.take(k as int + 1).len() ==> #[trigger] s@.take(k as int + 1)[m]
                    == s@.take(k as int).push(s@[k as int])[m]);
            assert(all_digits(s@.take(k as int + 1)));
        }
        let d = (c as u32 - '0' as u32) as u64;
        acc = acc * 10 + d;
        if acc > 2147483647 {
            proof {
                if all_digits(s@) && dec_val(s@) <= i32::MAX as int {
                    lemma_dec_val_prefix(s@, k as int + 1);
                }
            }
            return false;
        }
        k = k + 1;
    }
    proof {
        assert(s@.take(len as int) =~= s@);
    }
    true
}

/// Do all integer tokens of the sequence fit the parser's domain?
///
/// True exactly when [`tokens_wf`] holds of the token views, so a caller
/// can test the parser's precondition at run time.
#[verifier::loop_isolation(false)]
pub fn int_literals_fit(tokens: &Vec<Token>) -> (b: bool)
    ensures
        b == tokens_wf(tokens_view(tokens@)),
{
    let ghost toks = tokens_view(tokens@);
    let n = tokens.len();
    let mut i: usize = 0;
    while i < n
        invariant
            i <= n,
            forall|k: int| 0 <= k < i ==> token_wf(#[trigger] toks[k]),
        decreases n - i,
    {
        let t = &tokens[i];
        proof {
            assert(toks[i as int] == t@);
        }
        if t.token_type == TokenType::Int {
            if !int_text_ok(&t.value) {
                proof {
                    assert(!token_wf(toks[i as int]));
                }
                return false;
            }
        }
        i = i + 1;
    }
    true
}

/// Reads a decimal digit string as an `i32`.
#[verifier::loop_isolation(false)]
fn parse_i32(s: &String) -> (n: i32)
    requires
        s@.len() > 0,
        all_digits(s@),
        dec_val(s@) <= i32::MAX as int,
    ensures
        n as int == dec_val(s@),
{
    let st = s.as_str();
    let len = st.unicode_len();
    let mut acc: u32 = 0;
    let mut k: usize = 0;
    proof {
        assert(s@.take(0) =~= Seq::<char>::empty());
    }
    while k < len
        invariant
            k <= len,
            acc as int == dec_val(s@.take(k as int)),
            acc <= i32::MAX as u32,
        decreases len - k,
    {
        let c = st.get_char(k);
        proof {
            assert(is_digit_char(s@[k as int]));
            lemma_dec_val_take_step(s@, k as int);
            lemma_dec_val_prefix(s@, k as int + 1);
        }
        let d = c as u32 - '0' as u32;
        acc = acc * 10 + d;
        k = k + 1;
    }
    proof {
        assert(s@.take(len as int) =~= s@);
        lemma_dec_val_nonneg(s@);
    }
    acc as i32
}

/// Takes the token at `pos` when its class is `expected`; reports a
/// mismatch or the end of input otherwise.
fn consume_at(tokens: &Vec<Token>, pos: usize, expected: TokenType) -> (r: Result<
    (Token, usize),
    ParserError,
>)
    ensures
        ({
            let toks = tokens_view(tokens@);
            match r {
                Ok((t, p)) => spec_consume(toks, pos as int, expected) == Ok::<
                    (TokenView, int),
                    ParserErrorView,
                >((t@, p as int)) && p == pos + 1 && pos < tokens@.len(),
                Err(e) => spec_consume(toks, pos as int, expected) == Err::<
                    (TokenView, int),
                    ParserErrorView,
                >(e@),
            }
        }),
{
    if pos < tokens.len() {
        let t = &tokens[pos];
        if t.token_type == expected {
            Ok((t.clone(), pos + 1))
        } else {
            Err(
                ParserError::TokenMismatch {
                    expected,
                    got: t.token_type,
                    span: t.span.clone(),
                    help: None,
                },
            )
        }
    } else {
        Err(ParserError::UnexpectedEOF { span: make_empty_span() })
    }
}

/// Is the token at `pos` a `+` or `-` operator?
fn at_addsub(tokens: &Vec<Token>, pos: usize) -> (b: bool)
    ensures
        ({
            let toks = tokens_view(tokens@);
            b == (pos < tokens@.len() && toks[pos as int].token_type == TokenType::OP && (
            toks[pos as int].value == "+"@ || toks[pos as int].value == "-"@))
        }),
{
    if pos < tokens.len() {
        let t = &tokens[pos];
        if t.token_type == TokenType::OP {
            str_eq_lit(&t.value, "+") || str_eq_lit(&t.value, "-")
        } else {
            false
        }
    } else {
        false
    }
}

/// Is the token at `pos` a `*` or `/` operator?
fn at_muldiv(tokens: &Vec<Token>, pos: usize) -> (b: bool)
    ensures
        ({
            let toks = tokens_view(tokens@);
            b == (pos < tokens@.len() && toks[pos as int].token_type == TokenType::OP && (
            toks[pos as int].value == "*"@ || toks[pos as int].value == "/"@))
        }),
{
    if pos < tokens.len() {
        let t = &tokens[pos];
        if t.token_type == TokenType::OP {
            str_eq_lit(&t.value, "*") || str_eq_lit(&t.value, "/")
        } else {
            false
        }
    } else {
        false
    }
}

/// `factor`, from position `pos`.
fn parse_factor_at(tokens: &Vec<Token>, pos: usize) -> (r: Result<(AstNode, usize), ParserError>)
    requires
        tokens_wf(tokens_view(tokens@)),
    ensures
        ({
            let toks = tokens_view(tokens@);
            match r {
                Ok((node, p)) => spec_parse_factor(toks, pos as int) == Ok::<
                    (AstView, int),
                    ParserErrorView,
                >((node@, p as int)) && pos < p <= tokens@.len() && stmt_wf(node@) && op_count(
                    node@,
                ) <= p - pos,
                Err(e) => spec_parse_factor(toks, pos as int) == Err::<
                    (AstView, int),
                    ParserErrorView,
                >(e@),
            }
        }),
    decreases rem(tokens_view(tokens@), pos as int), 1int,
{
    let ghost toks = tokens_view(tokens@);
    if pos >= tokens.len() {
        return Err(ParserError::UnexpectedEOF { span: make_empty_span() });
    }
    let t = &tokens[pos];
    proof {
        assert(toks[pos as int] == t@);
        assert(token_wf(toks[pos as int]));
    }
    if t.token_type == TokenType::Int {
        let n = parse_i32(&t.value);
        Ok((AstNode::Int(n), pos + 1))
    } else if t.token_type == TokenType::Keyword {
        if str_eq_lit(&t.value, "print") {
            match consume_at(tokens, pos + 1, TokenType::LParen) {
                Err(e) => {
                    return Err(e);
                },
                Ok(_) => {},
            }
            let (inner, p2) = match parse_expr_at(tokens, pos + 2) {
                Ok(x) => x,
                Err(e) => {
                    return Err(e);
                },
            };
            match consume_at(tokens, p2, TokenType::RParen) {
                Err(e) => {
                    return Err(e);
                },
                Ok(_) => {},
            }
            Ok((AstNode::Print(Box::new(inner)), p2 + 1))
        } else {
            Err(
                ParserError::TokenMismatch {
                    expected: TokenType::Keyword,
                    got: t.token_type,
                    span: t.span.clone(),
                    help: None,
                },
            )
        }
    } else {
        Err(
            ParserError::TokenMismatch {
                expected: TokenType::Int,
                got: t.token_type,
                span: t.span.clone(),
                help: None,
            },
        )
    }
}

/// `term`, from position `pos`.
#[verifier::loop_isolation(false)]
fn parse_term_at(tokens: &Vec<Token>, pos: usize) -> (r: Result<(AstNode, usize), ParserError>)
    requires
        tokens_wf(tokens_view(tokens@)),
    ensures
        ({
            let toks = tokens_view(tokens@);
            match r {
                Ok((node, p)) => spec_parse_term(toks, pos as int) == Ok::<
                    (AstView, int),
                    ParserErrorView,
                >((node@, p as int)) && pos < p <= tokens@.len() && stmt_wf(node@) && op_count(
                    node@,
                ) <= p - pos,
                Err(e) => spec_parse_term(toks, pos as int) == Err::<
                    (AstView, int),
                    ParserErrorView,
                >(e@),
            }
        }),
    decreases rem(tokens_view(tokens@), pos as int), 3int,
{
    let ghost toks = tokens_view(tokens@);
    let first = match parse_factor_at(tokens, pos) {
        Ok(x) => x,
        Err(e) => {
            return Err(e);
        },
    };
    let mut left = first.0;
    let mut p = first.1;
    proof {
        assert(spec_parse_term(toks, pos as int) == spec_parse_term_more(toks, p as int, left@));
    }
    while at_muldiv(tokens, p)
        invariant
            pos < p <= tokens@.len(),
            stmt_wf(left@),
            op_count(left@) <= p - pos,
            spec_parse_term(toks, pos as int) == spec_parse_term_more(toks, p as int, left@),
        decreases tokens@.len() - p,
    {
        let op_token = match consume_at(tokens, p, TokenType::OP) {
            Ok(x) => x.0,
            Err(e) => {
                // the loop condition saw an operator token here
                proof {
                    assert(false);
                }
                return Err(e);
            },
        };
        let (right, p2) = match parse_factor_at(tokens, p + 1) {
            Ok(x) => x,
            Err(e) => {
                return Err(e);
            },
        };
        let combined = AstNode::Op {
            left: Box::new(left),
            op: op_token.value,
            right: Box::new(right),
        };
        proof {
            assert(spec_parse_term_more(toks, p as int, *combined@->Op_left)
                == spec_parse_term_more(toks, p2 as int, combined@));
        }
        left = combined;
        p = p2;
    }
    Ok((left, p))
}

/// `expr`, from position `pos`.
#[verifier::loop_isolation(false)]
fn parse_expr_at(tokens: &Vec<Token>, pos: usize) -> (r: Result<(AstNode, usize), ParserError>)
    requires
        tokens_wf(tokens_view(tokens@)),
    ensures
        ({
            let toks = tokens_view(tokens@);
            match r {
                Ok((node, p)) => spec_parse_expr(toks, pos as int) == Ok::<
                    (AstView, int),
                    ParserErrorView,
                >((node@, p as int)) && pos < p <= tokens@.len() && stmt_wf(node@) && op_count(
                    node@,
                ) <= p - pos,
                Err(e) => spec_parse_expr(toks, pos as int) == Err::<
                    (AstView, int),
                    ParserErrorView,
                >(e@),
            }
        }),
    decreases rem(tokens_view(tokens@), pos as int), 4int,
{
    let ghost toks = tokens_view(tokens@);
    let first = match parse_term_at(tokens, pos) {
        Ok(x) => x,
        Err(e) => {
            return Err(e);
        },
    };
    let mut left = first.0;
    let mut p = first.1;
    proof {
        assert(spec_parse_expr(toks, pos as int) == spec_parse_expr_more(toks, p as int, left@));
    }
    while at_addsub(tokens, p)
        invariant
            pos < p <= tokens@.len(),
            stmt_wf(left@),
            op_count(left@) <= p - pos,
            spec_parse_expr(toks, pos as int) == spec_parse_expr_more(toks, p as int, left@),
        decreases tokens@.len() - p,
    {
        let op_token = match consume_at(tokens, p, TokenType::OP) {
            Ok(x) => x.0,
            Err(e) => {
                // the loop condition saw an operator token here
                proof {
                    assert(false);
                }
                return Err(e);
            },
        };
        let (right, p2) = match parse_term_at(tokens, p + 1) {
            Ok(x) => x,
            Err(e) => {
                return Err(e);
            },
        };
        let combined = AstNode::Op {
            left: Box::new(left),
            op: op_token.value,
            right: Box::new(right),
        };
        proof {
            assert(spec_parse_expr_more(toks, p as int, *combined@->Op_left)
                == spec_parse_expr_more(toks, p2 as int, combined@));
        }
        left = combined;
        p = p2;
    }
    Ok((left, p))
}

/// Mathematical value of a [`Parser`]: its token views and its cursor.
pub ghost struct ParserView {
    pub tokens: Seq<TokenView>,
    pub pos: int,
}

/// A forward-only cursor over the token sequence.
pub struct Parser {
    pos: usize,
    tokens: Vec<Token>,
}

impl View for Parser {
    type V = ParserView;

    closed spec fn view(&self) -> ParserView {
        ParserView { tokens: tokens_view(self.tokens@), pos: self.pos as int }
    }
}

impl Parser {
    /// A parser over `tokens`, with the cursor at the start.
    pub fn new(tokens: Vec<Token>) -> (p: Parser)
        ensures
            p@.tokens == tokens_view(tokens@),
            p@.pos == 0,
    {
        Parser { pos: 0, tokens }
    }

    /// Parses the tokens into a `Program` of statements.
    ///
    /// Returns the tree [`spec_parse_at`] gives for the token views, a
    /// well-formed program whose operator count is bounded by the number
    /// of tokens; or the first syntax error.
    #[verifier::loop_isolation(false)]
    pub fn parse(&mut self) -> (r: Result<AstNode, ParserError>)
        requires
            tokens_wf(old(self)@.tokens),
        ensures
            ({
                let toks = old(self)@.tokens;
                let start = old(self)@.pos;
                match r {
                    Ok(ast) => spec_parse_at(toks, start) == Ok::<AstView, ParserErrorView>(ast@)
                        && crate::ast::program_wf(ast@) && op_count(ast@) <= rem(toks, start),
                    Err(e) => spec_parse_at(toks, start) == Err::<AstView, ParserErrorView>(e@),
                }
            }),
    {
        let ghost toks = old(self)@.tokens;
        let ghost start = old(self)@.pos;
        let mut stmts: Vec<AstNode> = Vec::new();
        proof {
            lemma_stmts_cont_empty(spec_parse_program(toks, start));
            assert(ast_views(stmts@) =~= Seq::<AstView>::empty());
        }
        while self.pos < self.tokens.len()
            invariant
                self@.tokens == toks,
                stmts@.len() <= self@.pos,
                forall|k: int| 0 <= k < stmts@.len() ==> stmt_wf(#[trigger] stmts@[k]@),
                crate::ast::op_count_stmts(ast_views(stmts@)) + rem(toks, self@.pos) <= rem(
                    toks,
                    start,
                ),
                stmts_cont(ast_views(stmts@), spec_parse_program(toks, self@.pos)) ==
                    spec_parse_program(toks, start),
            decreases self.tokens@.len() - self.pos,
        {
            let pos_now = self.pos;
            match parse_expr_at(&self.tokens, pos_now) {
                Err(e) => {
                    return Err(e);
                },
                Ok((node, p)) => {
                    proof {
                        assert(spec_parse_program(toks, pos_now as int) == prepend_stmt(
                            node@,
                            spec_parse_program(toks, p as int),
                        ));
                        lemma_ast_views_push(stmts@, node);
                        lemma_stmts_cont_push(
                            ast_views(stmts@),
                            node@,
                            spec_parse_program(toks, p as int),
                        );
                        assert(crate::ast::op_count_stmts(ast_views(stmts@).push(node@))
                            == crate::ast::op_count_stmts(ast_views(stmts@)) + op_count(node@)) by {
                            assert(ast_views(stmts@).push(node@).drop_last() =~= ast_views(
                                stmts@,
                            ));
                        }
                    }
                    stmts.push(node);
                    self.pos = p;
                },
            }
        }
        proof {
            assert(ast_views(stmts@) + Seq::<AstView>::empty() =~= ast_views(stmts@));
            crate::ast::lemma_ast_views(stmts@);
        }
        Ok(AstNode::Program(stmts))
    }
}

} // verus!
