use super_simple_compiler::lexer::{lex, LexError, Token};

#[test]
fn lex_declaration() {
    let tokens = lex("int a = 5;").unwrap();
    assert_eq!(
        tokens,
        vec![
            Token::Int,
            Token::Identifier("a".to_string()),
            Token::Equal,
            Token::Number(5),
            Token::Semicolon,
        ]
    );
}

#[test]
fn lex_empty_input() {
    assert_eq!(lex("").unwrap(), vec![]);
}

#[test]
fn lex_skips_whitespace() {
    let tokens = lex(" \n\t int \n x\t=\n1 ;").unwrap();
    assert_eq!(
        tokens,
        vec![
            Token::Int,
            Token::Identifier("x".to_string()),
            Token::Equal,
            Token::Number(1),
            Token::Semicolon,
        ]
    );
}

#[test]
fn lex_keywords_require_exact_match() {
    let tokens = lex("int if else print ifx print42 Else").unwrap();
    assert_eq!(
        tokens,
        vec![
            Token::Int,
            Token::If,
            Token::Else,
            Token::Print,
            Token::Identifier("ifx".to_string()),
            Token::Identifier("print42".to_string()),
            Token::Identifier("Else".to_string()),
        ]
    );
}

#[test]
fn lex_punctuation() {
    let tokens = lex("=><;(){}").unwrap();
    assert_eq!(
        tokens,
        vec![
            Token::Equal,
            Token::Greater,
            Token::Less,
            Token::Semicolon,
            Token::OpenParen,
            Token::CloseParen,
            Token::OpenBrace,
            Token::CloseBrace,
        ]
    );
}

#[test]
fn lex_string_literal() {
    let tokens = lex("print(\"hello world\");").unwrap();
    assert_eq!(
        tokens,
        vec![
            Token::Print,
            Token::OpenParen,
            Token::StringLiteral("hello world".to_string()),
            Token::CloseParen,
            Token::Semicolon,
        ]
    );
}

#[test]
fn lex_largest_number() {
    let tokens = lex("int a = 2147483647;").unwrap();
    assert_eq!(tokens[3], Token::Number(2147483647));
}

#[test]
fn lex_number_too_large() {
    assert_eq!(lex("int a = 2147483648;"), Err(LexError::NumberTooLarge));
    assert_eq!(lex("99999999999999999999"), Err(LexError::NumberTooLarge));
}

#[test]
fn lex_invalid_character() {
    assert_eq!(lex("int a = 5 @"), Err(LexError::InvalidChar('@')));
    assert_eq!(lex("#"), Err(LexError::InvalidChar('#')));
}

#[test]
fn lex_identifier_continues_through_unicode_alphanumerics() {
    let tokens = lex("int a\u{e9}9 = 1;").unwrap();
    assert_eq!(
        tokens,
        vec![
            Token::Int,
            Token::Identifier("a\u{e9}9".to_string()),
            Token::Equal,
            Token::Number(1),
            Token::Semicolon,
        ]
    );
}

#[test]
fn lex_word_stops_before_non_alphanumeric() {
    // The euro sign is not alphanumeric: the word ends before it, and the
    // sign itself is then an invalid character.
    assert_eq!(lex("a\u{20ac}"), Err(LexError::InvalidChar('\u{20ac}')));
}

#[test]
fn lex_word_starts_only_at_ascii_letters() {
    // A non-ASCII letter may continue a word but not begin one.
    assert_eq!(lex("\u{e9}a"), Err(LexError::InvalidChar('\u{e9}')));
}

#[test]
fn lex_unterminated_string_consumes_to_end() {
    // An unterminated literal is accepted up through the end of the input;
    // the pipeline then fails later, at the parsing stage.
    let tokens = lex("print(\"oops;").unwrap();
    assert_eq!(
        tokens,
        vec![
            Token::Print,
            Token::OpenParen,
            Token::StringLiteral("oops;".to_string()),
        ]
    );
}
