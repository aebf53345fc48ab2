use lox_front::ast_printer::AstPrinter;
use lox_front::error::Error;
use lox_front::expr::{BinaryExpr, Expr, GroupingExpr, LiteralExpr, UnaryExpr};
use lox_front::parser::Parser;
use lox_front::run_source;
use lox_front::scanner::Scanner;
use lox_front::token::{Literal, Token, TokenType};

fn parse_source(source: &str) -> Result<Expr, Error> {
    let mut scanner = Scanner::new(source.to_string());
    let tokens = scanner.scan_tokens().expect("scan failed");
    let mut parser = Parser::new(tokens);
    parser.parse()
}

fn op(token_type: TokenType, lexeme: &str) -> Token {
    Token::new(token_type, lexeme.to_string(), None, 1)
}

fn number(text: &str) -> Expr {
    Expr::Literal(LiteralExpr::new(Some(Literal::Number(text.to_string()))))
}

#[test]
fn test_parse_precedence_multiplication_binds_tighter() {
    let result = parse_source("1 + 2 * 3").unwrap();
    let expected = Expr::Binary(BinaryExpr::new(
        number("1"),
        op(TokenType::Plus, "+"),
        Expr::Binary(BinaryExpr::new(
            number("2"),
            op(TokenType::Star, "*"),
            number("3"),
        )),
    ));
    assert_eq!(result, expected);
}

#[test]
fn test_parse_subtraction_is_left_associative() {
    let result = parse_source("1 - 2 - 3").unwrap();
    let expected = Expr::Binary(BinaryExpr::new(
        Expr::Binary(BinaryExpr::new(
            number("1"),
            op(TokenType::Minus, "-"),
            number("2"),
        )),
        op(TokenType::Minus, "-"),
        number("3"),
    ));
    assert_eq!(result, expected);
}

#[test]
fn test_parse_grouping() {
    let result = parse_source("(1 + 2)").unwrap();
    let expected = Expr::Grouping(GroupingExpr::new(Expr::Binary(BinaryExpr::new(
        number("1"),
        op(TokenType::Plus, "+"),
        number("2"),
    ))));
    assert_eq!(result, expected);
}

#[test]
fn test_parse_missing_close_paren_fails() {
    let result = parse_source("(1 + 2");
    assert!(matches!(result, Err(Error::ParseError(_))));
}

#[test]
fn test_parse_error_message_names_line_and_position() {
    let result = parse_source("(1 + 2");
    match result {
        Err(Error::ParseError(msg)) => {
            assert_eq!(msg, "1 at end. Expect `)` after expression.");
        }
        other => panic!("expected a parse error, got {:?}", other),
    }
}

#[test]
fn test_parse_expect_expression_at_stray_operator() {
    let result = parse_source("+");
    match result {
        Err(Error::ParseError(msg)) => {
            assert_eq!(msg, "1 at `+`. Expect expression.");
        }
        other => panic!("expected a parse error, got {:?}", other),
    }
}

#[test]
fn test_parse_unary_nests_to_the_right() {
    let result = parse_source("!-1").unwrap();
    let expected = Expr::Unary(UnaryExpr::new(
        op(TokenType::Bang, "!"),
        Expr::Unary(UnaryExpr::new(op(TokenType::Minus, "-"), number("1"))),
    ));
    assert_eq!(result, expected);
}

#[test]
fn test_parse_comma_keeps_only_last_operand() {
    let result = parse_source("1, 2, 3").unwrap();
    assert_eq!(result, number("3"));
}

#[test]
fn test_parse_literal_keywords() {
    let t = parse_source("true").unwrap();
    assert_eq!(
        t,
        Expr::Literal(LiteralExpr::new(Some(Literal::Identifier(
            "True".to_string()
        ))))
    );
    let f = parse_source("false").unwrap();
    assert_eq!(
        f,
        Expr::Literal(LiteralExpr::new(Some(Literal::Identifier(
            "False".to_string()
        ))))
    );
    let n = parse_source("nil").unwrap();
    assert_eq!(
        n,
        Expr::Literal(LiteralExpr::new(Some(Literal::Identifier(
            "null".to_string()
        ))))
    );
}

#[test]
fn test_parse_string_literal_carries_payload() {
    let result = parse_source("\"hi\"").unwrap();
    assert_eq!(
        result,
        Expr::Literal(LiteralExpr::new(Some(Literal::Str("hi".to_string()))))
    );
}

#[test]
fn test_parse_comparison_and_equality_levels() {
    // `1 < 2 == true`: the comparison binds tighter than the equality.
    let result = parse_source("1 < 2 == true").unwrap();
    let expected = Expr::Binary(BinaryExpr::new(
        Expr::Binary(BinaryExpr::new(
            number("1"),
            op(TokenType::Less, "<"),
            number("2"),
        )),
        op(TokenType::EqualEqual, "=="),
        Expr::Literal(LiteralExpr::new(Some(Literal::Identifier(
            "True".to_string(),
        )))),
    ));
    assert_eq!(result, expected);
}

#[test]
fn test_print_binary_tree() {
    let expr = parse_source("1 + 2 * 3").unwrap();
    let printer = AstPrinter {};
    let printed = printer.print(&expr).unwrap();
    assert_eq!(printed, "( + Number(1) ( * Number(2) Number(3)))");
}

#[test]
fn test_print_literals_and_grouping() {
    let expr = parse_source("(\"hi\")").unwrap();
    let printer = AstPrinter {};
    let printed = printer.print(&expr).unwrap();
    assert_eq!(printed, "( group Str(\"hi\"))");

    let nil_expr = Expr::Literal(LiteralExpr::new(None));
    assert_eq!(printer.print(&nil_expr).unwrap(), "nil");
}

#[test]
fn test_run_source_end_to_end() {
    let printed = run_source("-1 * (2 + 3)".to_string()).unwrap();
    assert_eq!(printed, "( * ( - Number(1)) ( group ( + Number(2) Number(3))))");
}

#[test]
fn test_run_source_propagates_scan_error() {
    let result = run_source("1 + $".to_string());
    assert_eq!(result, Err(Error::UnexpectedCharacter(1)));
}
