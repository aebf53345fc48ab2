use lox_front::error::Error;
use lox_front::scanner::Scanner;
use lox_front::token::{Literal, Token, TokenType};

fn tok(token_type: TokenType, lexeme: &str, literal: Option<Literal>, line: usize) -> Token {
    Token::new(token_type, lexeme.to_string(), literal, line)
}

#[test]
fn test_scan_tokens_single_characters() {
    let source = "(){},.-+;*".to_string();
    let mut scanner = Scanner::new(source);
    let result = scanner.scan_tokens().unwrap();
    let expected_tokens = vec![
        tok(TokenType::LeftParen, "(", None, 1),
        tok(TokenType::RightParen, ")", None, 1),
        tok(TokenType::LeftBrace, "{", None, 1),
        tok(TokenType::RightBrace, "}", None, 1),
        tok(TokenType::Comma, ",", None, 1),
        tok(TokenType::Dot, ".", None, 1),
        tok(TokenType::Minus, "-", None, 1),
        tok(TokenType::Plus, "+", None, 1),
        tok(TokenType::Semicolon, ";", None, 1),
        tok(TokenType::Star, "*", None, 1),
        tok(TokenType::Eof, "", None, 1),
    ];
    assert_eq!(result, expected_tokens);
}

#[test]
fn test_scan_tokens_operators() {
    let source = "! != == = < <= > >=".to_string();
    let mut scanner = Scanner::new(source);
    let result = scanner.scan_tokens().unwrap();
    let expected_tokens = vec![
        tok(TokenType::Bang, "!", None, 1),
        tok(TokenType::BangEqual, "!=", None, 1),
        tok(TokenType::EqualEqual, "==", None, 1),
        tok(TokenType::Equal, "=", None, 1),
        tok(TokenType::Less, "<", None, 1),
        tok(TokenType::LessEqual, "<=", None, 1),
        tok(TokenType::Greater, ">", None, 1),
        tok(TokenType::GreaterEqual, ">=", None, 1),
        tok(TokenType::Eof, "", None, 1),
    ];
    assert_eq!(result, expected_tokens);
}

#[test]
fn test_scan_tokens_string() {
    let source = "\"hello world\"".to_string();
    let mut scanner = Scanner::new(source);
    let result = scanner.scan_tokens().unwrap();
    let expected_tokens = vec![
        tok(
            TokenType::Str,
            "\"hello world\"",
            Some(Literal::Str("hello world".to_owned())),
            1,
        ),
        tok(TokenType::Eof, "", None, 1),
    ];
    assert_eq!(result, expected_tokens);
}

#[test]
fn test_scan_tokens_unterminated_string() {
    let source = "\"hello world".to_string();
    let mut scanner = Scanner::new(source);
    let result = scanner.scan_tokens();
    assert!(result.is_err());
    assert_eq!(result.unwrap_err(), Error::UnterminatedString(1));
}

#[test]
fn test_scan_tokens_number() {
    let source = "12345".to_string();
    let mut scanner = Scanner::new(source);
    let result = scanner.scan_tokens().unwrap();
    let expected_tokens = vec![
        tok(
            TokenType::Number,
            "12345",
            Some(Literal::Number("12345".to_string())),
            1,
        ),
        tok(TokenType::Eof, "", None, 1),
    ];
    assert_eq!(result, expected_tokens);
}

#[test]
fn test_scan_tokens_float_number() {
    let source = "123.45".to_string();
    let mut scanner = Scanner::new(source);
    let result = scanner.scan_tokens().unwrap();
    let expected_tokens = vec![
        tok(
            TokenType::Number,
            "123.45",
            Some(Literal::Number("123.45".to_string())),
            1,
        ),
        tok(TokenType::Eof, "", None, 1),
    ];
    assert_eq!(result, expected_tokens);
    // The literal payload is the exact decimal spelling of the value.
    let payload = match &result[0].literal {
        Some(Literal::Number(s)) => s.clone(),
        other => panic!("unexpected literal {:?}", other),
    };
    assert_eq!(payload.parse::<f64>().unwrap(), 123.45);
}

#[test]
fn test_scan_tokens_unexpected_character() {
    let source = "$".to_string();
    let mut scanner = Scanner::new(source);
    let result = scanner.scan_tokens();
    assert_eq!(result, Err(Error::UnexpectedCharacter(1)));
}

#[test]
fn test_scan_tokens_with_whitespace() {
    let source = "   ( ) { } ".to_string();
    let mut scanner = Scanner::new(source);
    let result = scanner.scan_tokens().unwrap();
    let expected_tokens = vec![
        tok(TokenType::LeftParen, "(", None, 1),
        tok(TokenType::RightParen, ")", None, 1),
        tok(TokenType::LeftBrace, "{", None, 1),
        tok(TokenType::RightBrace, "}", None, 1),
        tok(TokenType::Eof, "", None, 1),
    ];
    assert_eq!(result, expected_tokens);
}

#[test]
fn test_scan_tokens_multiple_lines() {
    let source = "(\n)".to_string();
    let mut scanner = Scanner::new(source);
    let result = scanner.scan_tokens().unwrap();
    let expected_tokens = vec![
        tok(TokenType::LeftParen, "(", None, 1),
        tok(TokenType::RightParen, ")", None, 2),
        tok(TokenType::Eof, "", None, 2),
    ];
    assert_eq!(result, expected_tokens);
}

#[test]
fn test_scan_tokens_identifiers_and_keywords() {
    let keywords = vec![
        ("and", TokenType::And),
        ("class", TokenType::Class),
        ("else", TokenType::Else),
        ("false", TokenType::False),
        ("for", TokenType::For),
        ("fun", TokenType::Fun),
        ("if", TokenType::If),
        ("nil", TokenType::Nil),
        ("or", TokenType::Or),
        ("print", TokenType::Print),
        ("return", TokenType::Return),
        ("super", TokenType::Super),
        ("this", TokenType::This),
        ("true", TokenType::True),
        ("var", TokenType::Var),
        ("while", TokenType::While),
    ];
    for (keyword, token_type) in keywords {
        let token_text = keyword.to_string();
        let expected_tokens = vec![
            tok(
                token_type,
                keyword,
                Some(Literal::Identifier(token_text.clone())),
                1,
            ),
            tok(TokenType::Eof, "", None, 1),
        ];
        let mut scanner = Scanner::new(token_text);
        let result = scanner.scan_tokens().unwrap();
        assert_eq!(result, expected_tokens);
    }
}

#[test]
fn test_scan_tokens_single_line_comment() {
    let source = " // This is a single-line comment\n".to_string();
    let mut scanner = Scanner::new(source);
    let result = scanner.scan_tokens().unwrap();
    let expected_tokens = vec![tok(TokenType::Eof, "", None, 2)];
    assert_eq!(result, expected_tokens);
}

#[test]
fn test_scan_tokens_multiline_comments() {
    let source = "/* This is a comment */".to_string();
    let mut scanner = Scanner::new(source);
    let result = scanner.scan_tokens().unwrap();
    let expected_tokens = vec![tok(TokenType::Eof, "", None, 1)];
    assert_eq!(result, expected_tokens);
}

#[test]
fn test_keyword_prefix_scans_as_identifier() {
    // Maximal munch: `classic` is one identifier, not the `class` keyword.
    let mut scanner = Scanner::new("classic".to_string());
    let result = scanner.scan_tokens().unwrap();
    let expected_tokens = vec![
        tok(
            TokenType::Identifier,
            "classic",
            Some(Literal::Identifier("classic".to_string())),
            1,
        ),
        tok(TokenType::Eof, "", None, 1),
    ];
    assert_eq!(result, expected_tokens);
}

#[test]
fn test_comment_elision_matches_plain_line_break() {
    // A line comment adds no token and no line: only the `\n` after it
    // counts, exactly as in the source without the comment.
    let mut with_comment = Scanner::new("a // comment\nb".to_string());
    let mut without_comment = Scanner::new("a\nb".to_string());
    let left = with_comment.scan_tokens().unwrap();
    let right = without_comment.scan_tokens().unwrap();
    assert_eq!(left, right);
}

#[test]
fn test_block_comment_counts_line_breaks() {
    let mut scanner = Scanner::new("/* a\nb */x".to_string());
    let result = scanner.scan_tokens().unwrap();
    let expected_tokens = vec![
        tok(
            TokenType::Identifier,
            "x",
            Some(Literal::Identifier("x".to_string())),
            2,
        ),
        tok(TokenType::Eof, "", None, 2),
    ];
    assert_eq!(result, expected_tokens);
}

#[test]
fn test_string_spanning_lines() {
    let mut scanner = Scanner::new("\"a\nb\"".to_string());
    let result = scanner.scan_tokens().unwrap();
    let expected_tokens = vec![
        tok(
            TokenType::Str,
            "\"a\nb\"",
            Some(Literal::Str("a\nb".to_string())),
            2,
        ),
        tok(TokenType::Eof, "", None, 2),
    ];
    assert_eq!(result, expected_tokens);
}

#[test]
fn test_number_trailing_dot_left_unconsumed() {
    // A bare `.` after the digits is not part of the number.
    let mut scanner = Scanner::new("123.".to_string());
    let result = scanner.scan_tokens().unwrap();
    let expected_tokens = vec![
        tok(
            TokenType::Number,
            "123",
            Some(Literal::Number("123".to_string())),
            1,
        ),
        tok(TokenType::Dot, ".", None, 1),
        tok(TokenType::Eof, "", None, 1),
    ];
    assert_eq!(result, expected_tokens);
}

#[test]
fn test_unterminated_string_reports_final_line() {
    // The error carries the line at which the closing quote was due.
    let mut scanner = Scanner::new("\"a\nbc".to_string());
    let result = scanner.scan_tokens();
    assert_eq!(result, Err(Error::UnterminatedString(2)));
}
