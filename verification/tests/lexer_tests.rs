use kebab::lexer::lex;
use kebab::lexer_error::LexerError;
use kebab::token::TokenType;

fn kinds_and_values(source: &str) -> Vec<(TokenType, String)> {
    lex(source)
        .expect("lexing should succeed")
        .into_iter()
        .map(|t| (t.token_type, t.value))
        .collect()
}

#[test]
fn lexes_integers_operators_and_parens() {
    let tokens = kinds_and_values("12+(34*5)-6/7");
    let expected: Vec<(TokenType, String)> = vec![
        (TokenType::Int, "12".to_string()),
        (TokenType::OP, "+".to_string()),
        (TokenType::LParen, "(".to_string()),
        (TokenType::Int, "34".to_string()),
        (TokenType::OP, "*".to_string()),
        (TokenType::Int, "5".to_string()),
        (TokenType::RParen, ")".to_string()),
        (TokenType::OP, "-".to_string()),
        (TokenType::Int, "6".to_string()),
        (TokenType::OP, "/".to_string()),
        (TokenType::Int, "7".to_string()),
    ];
    assert_eq!(tokens, expected);
}

#[test]
fn classifies_print_as_keyword_and_other_words_as_identifiers() {
    let tokens = kinds_and_values("print printer abc1");
    let expected: Vec<(TokenType, String)> = vec![
        (TokenType::Keyword, "print".to_string()),
        (TokenType::Id, "printer".to_string()),
        (TokenType::Id, "abc1".to_string()),
    ];
    assert_eq!(tokens, expected);
}

#[test]
fn skips_spaces_and_tabs() {
    let tokens = kinds_and_values(" \t 1 \t+ 2 ");
    assert_eq!(tokens.len(), 3);
    assert_eq!(tokens[0].1, "1");
    assert_eq!(tokens[1].1, "+");
    assert_eq!(tokens[2].1, "2");
}

#[test]
fn records_token_positions() {
    let tokens = lex("12 + 3").expect("lexing should succeed");
    assert_eq!(tokens[0].span.start_line, 1);
    assert_eq!(tokens[0].span.start_col, 1);
    assert_eq!(tokens[1].span.start_line, 1);
    assert_eq!(tokens[1].span.start_col, 4);
    assert_eq!(tokens[2].span.start_line, 1);
    assert_eq!(tokens[2].span.start_col, 6);
    assert_eq!(tokens[0].span.source_snippet, "12");
}

#[test]
fn newline_resets_column_and_increments_line() {
    let tokens = lex("1\n23\r\n4").expect("lexing should succeed");
    assert_eq!(tokens[0].span.start_line, 1);
    assert_eq!(tokens[0].span.start_col, 1);
    assert_eq!(tokens[1].span.start_line, 2);
    assert_eq!(tokens[1].span.start_col, 1);
    assert_eq!(tokens[2].span.start_line, 3);
    assert_eq!(tokens[2].span.start_col, 1);
}

#[test]
fn invalid_character_position_and_snippet() {
    let err = lex("1 @ 2").expect_err("lexing should fail");
    let LexerError::InvalidChar { character, span, suggestion } = err;
    assert_eq!(character, '@');
    assert_eq!(span.start_line, 1);
    assert_eq!(span.start_col, 3);
    assert_eq!(span.source_snippet, "1 @ 2");
    assert_eq!(suggestion, None);
}

#[test]
fn invalid_character_on_later_line_keeps_only_that_line() {
    let err = lex("1+2\nprint(#)\n3").expect_err("lexing should fail");
    let LexerError::InvalidChar { character, span, .. } = err;
    assert_eq!(character, '#');
    assert_eq!(span.start_line, 2);
    assert_eq!(span.start_col, 7);
    assert_eq!(span.source_snippet, "print(#)");
}

#[test]
fn semicolon_gets_a_suggestion() {
    let err = lex("1;").expect_err("lexing should fail");
    let LexerError::InvalidChar { character, suggestion, .. } = err;
    assert_eq!(character, ';');
    assert_eq!(suggestion, Some("Remove this semicolon".to_string()));
}

#[test]
fn fails_on_first_invalid_character_only() {
    let err = lex("@ !").expect_err("lexing should fail");
    let LexerError::InvalidChar { character, span, .. } = err;
    assert_eq!(character, '@');
    assert_eq!(span.start_col, 1);
}

#[test]
fn empty_source_gives_no_tokens() {
    let tokens = lex("").expect("lexing should succeed");
    assert!(tokens.is_empty());
}
