use lox::expr::{BinaryOp, Expr, Literal, UnaryOp};
use lox::parser::{parse_binary_op, parse_unary_op, Parser, ParserError};
use lox::scanner::scan_tokens;
use lox::token::{Token, TokenType};

fn parse_text(input: &str) -> Result<Expr, ParserError> {
    let tokens = scan_tokens(input).expect("Failed to scan input string");
    Parser::new(tokens).parse()
}

fn number() -> Box<Expr> {
    Box::new(Expr::Literal(Literal::Number))
}

#[test]
fn test_parse_unary_op() {
    let unary_op = parse_unary_op(&Token {
        ty: TokenType::Minus,
        lexeme: vec!['-'],
        literal: None,
        line: 1,
    })
    .expect("Failed to parse Token");
    assert_eq!(UnaryOp::Minus, unary_op);

    let error = parse_unary_op(&Token {
        ty: TokenType::Plus,
        lexeme: vec!['+'],
        literal: None,
        line: 1,
    })
    .expect_err("Unexpectedly Success to parse Token");
    assert_eq!(ParserError(format!("should be unaryOp")), error);
}

#[test]
fn test_parse_binary_op() {
    let binary_op = parse_binary_op(&Token {
        ty: TokenType::EqualEqual,
        lexeme: vec!['=', '='],
        literal: None,
        line: 1,
    })
    .expect("Failed to parse Token");
    assert_eq!(BinaryOp::EqualEqual, binary_op);

    let error = parse_binary_op(&Token {
        ty: TokenType::Bang,
        lexeme: vec!['!'],
        literal: None,
        line: 1,
    })
    .expect_err("Unexpectedly Success to parse Token");
    assert_eq!(ParserError(format!("should be binaryOp")), error);
}

#[test]
fn test_simple_tokens() {
    let input = "2 + 3";
    let tokens = scan_tokens(input).expect("Failed to scan input string");
    println!("{tokens:?}");
    let expr = Parser::new(tokens).parse().expect("Failed to parse Tokens");
    assert_eq!(
        Expr::Binary(
            Box::new(Expr::Literal(Literal::Number)),
            BinaryOp::Plus,
            Box::new(Expr::Literal(Literal::Number)),
        ),
        expr
    );
}

#[test]
fn subtraction_is_left_associative() {
    assert_eq!(
        parse_text("1 - 2 - 3"),
        Ok(Expr::Binary(
            Box::new(Expr::Binary(number(), BinaryOp::Minus, number())),
            BinaryOp::Minus,
            number(),
        ))
    );
}

#[test]
fn prefix_operators_nest_to_the_right() {
    assert_eq!(
        parse_text("!!true"),
        Ok(Expr::Unary(
            UnaryOp::Bang,
            Box::new(Expr::Unary(UnaryOp::Bang, Box::new(Expr::Literal(Literal::True)))),
        ))
    );
    assert_eq!(
        parse_text("-nil"),
        Ok(Expr::Unary(UnaryOp::Minus, Box::new(Expr::Literal(Literal::Nil))))
    );
}

#[test]
fn tighter_levels_bind_first() {
    assert_eq!(
        parse_text("1 + 2 * 3"),
        Ok(Expr::Binary(
            number(),
            BinaryOp::Plus,
            Box::new(Expr::Binary(number(), BinaryOp::Star, number())),
        ))
    );
    assert_eq!(
        parse_text("1 < 2 == false"),
        Ok(Expr::Binary(
            Box::new(Expr::Binary(number(), BinaryOp::Less, number())),
            BinaryOp::EqualEqual,
            Box::new(Expr::Literal(Literal::False)),
        ))
    );
    assert_eq!(
        parse_text("(1 + 2) / \"s\""),
        Ok(Expr::Binary(
            Box::new(Expr::Grouping(Box::new(Expr::Binary(number(), BinaryOp::Plus, number())))),
            BinaryOp::Slash,
            Box::new(Expr::Literal(Literal::String)),
        ))
    );
}

#[test]
fn trailing_tokens_are_left_for_the_caller() {
    assert_eq!(parse_text("1 2"), Ok(Expr::Literal(Literal::Number)));
}

#[test]
fn missing_expression_reports_line_and_lexeme() {
    assert_eq!(
        parse_text(""),
        Err(ParserError("token line 1 at end, error Expect expression".to_string()))
    );
    assert_eq!(
        parse_text("+"),
        Err(ParserError("token line 1, lexeme: +, error Expect expression".to_string()))
    );
    assert_eq!(
        parse_text("\n\n\n\n\n\n\n\n\n\n\n\n1 + var"),
        Err(ParserError("token line 13, lexeme: var, error Expect expression".to_string()))
    );
}

#[test]
fn missing_closing_parenthesis_is_an_error_and_recovery_is_independent() {
    assert_eq!(
        parse_text("(1 + 2"),
        Err(ParserError("token line 1 at end, error expect ')' after expression".to_string()))
    );
    // A later, independent parse of well-formed input still succeeds.
    assert_eq!(
        parse_text("(1 + 2)"),
        Ok(Expr::Grouping(Box::new(Expr::Binary(number(), BinaryOp::Plus, number()))))
    );
}

#[test]
fn recovery_skips_to_the_next_statement() {
    let tokens = scan_tokens("(1 ; 2").expect("scan failed");
    let mut parser = Parser::new(tokens);
    assert_eq!(
        parser.parse(),
        Err(ParserError("token line 1, lexeme: ;, error expect ')' after expression".to_string()))
    );
    assert_eq!(parser.parse(), Ok(Expr::Literal(Literal::Number)));

    let tokens = scan_tokens("* 1 2 var x").expect("scan failed");
    let mut parser = Parser::new(tokens);
    assert!(parser.parse().is_err());
    // recovery stops before `var`, which begins a statement
    assert!(parser.parse().is_err());
}
