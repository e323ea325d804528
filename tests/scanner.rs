use lox::scanner::{scan_tokens, LexError};
use lox::token::{match_keywords, Literal, Number, Token, TokenType};

fn token(ty: TokenType, lexeme: &str, literal: Option<Literal>, line: usize) -> Token {
    Token { ty, lexeme: lexeme.chars().collect(), literal, line }
}

fn identifier(name: &str) -> Option<Literal> {
    Some(Literal::Identifier(name.to_string()))
}

fn number(integer: &str, fraction: &str) -> Option<Literal> {
    Some(Literal::Number(Number { integer: integer.to_string(), fraction: fraction.to_string() }))
}

fn decoded(n: &Number) -> f64 {
    let text = if n.fraction.is_empty() {
        n.integer.clone()
    } else {
        format!("{}.{}", n.integer, n.fraction)
    };
    text.parse().unwrap()
}

fn one_char_expected() -> Vec<Token> {
    vec![
        token(TokenType::LBrace, "{", None, 1),
        token(TokenType::RBrace, "}", None, 1),
        token(TokenType::LParan, "(", None, 1),
        token(TokenType::RParan, ")", None, 1),
        token(TokenType::Comma, ",", None, 1),
        token(TokenType::Dot, ".", None, 1),
        token(TokenType::Minus, "-", None, 1),
        token(TokenType::Plus, "+", None, 1),
        token(TokenType::SemiColon, ";", None, 1),
        token(TokenType::Slash, "/", None, 1),
        token(TokenType::Star, "*", None, 1),
        token(TokenType::Eof, "", None, 1),
    ]
}

fn conditional_expected() -> Vec<Token> {
    vec![
        token(TokenType::Bang, "!", None, 1),
        token(TokenType::BangEqual, "!=", None, 1),
        token(TokenType::EqualEqual, "==", None, 1),
        token(TokenType::Equal, "=", None, 1),
        token(TokenType::Greater, ">", None, 1),
        token(TokenType::GreaterEqual, ">=", None, 1),
        token(TokenType::Less, "<", None, 1),
        token(TokenType::LessEqual, "<=", None, 1),
        token(TokenType::Eof, "", None, 1),
    ]
}

const COMMENT_INPUT: &str = r#"
        (
          // コメントアウト
        )
        "#;

fn comment_expected() -> Vec<Token> {
    vec![
        token(TokenType::LParan, "(", None, 2),
        token(TokenType::RParan, ")", None, 4),
        token(TokenType::Eof, "", None, 5),
    ]
}

const STRING_INPUT: &str = r#"
        "hello_world"
        "#;

fn string_expected() -> Vec<Token> {
    vec![
        token(
            TokenType::String,
            "\"hello_world\"",
            Some(Literal::Str("hello_world".to_string())),
            2,
        ),
        token(TokenType::Eof, "", None, 3),
    ]
}

const NUMBER_INPUT: &str = r#"
        0.145
        "#;

fn number_expected() -> Vec<Token> {
    vec![
        token(TokenType::Number, "0.145", number("0", "145"), 2),
        token(TokenType::Eof, "", None, 3),
    ]
}

fn check_number_value(tokens: &[Token], expected: f64) {
    match &tokens[0].literal {
        Some(Literal::Number(n)) => assert_eq!(decoded(n), expected),
        other => panic!("expected a number literal, got {other:?}"),
    }
}

#[test]
fn scanner_test_one_char_token() {
    let tokens = scan_tokens("{}(),.-+;/*").expect("scan failed");
    let expected = one_char_expected();
    assert_eq!(expected.len(), tokens.len());
    assert_eq!(expected, tokens);
}

#[test]
fn scanner_test_conditional_char_token() {
    let tokens = scan_tokens("!!====>>=<<=").expect("scan failed");
    let expected = conditional_expected();
    assert_eq!(expected.len(), tokens.len());
    assert_eq!(expected, tokens);
}

#[test]
fn scanner_test_comment_out() {
    let tokens = scan_tokens(COMMENT_INPUT).expect("scan failed");
    let expected = comment_expected();
    assert_eq!(expected.len(), tokens.len());
    assert_eq!(expected, tokens);
}

#[test]
fn scanner_test_string_literal() {
    let tokens = scan_tokens(STRING_INPUT).expect("scan failed");
    let expected = string_expected();
    assert_eq!(expected.len(), tokens.len());
    assert_eq!(expected, tokens);
}

#[test]
fn scanner_test_number_literal() {
    let tokens = scan_tokens(NUMBER_INPUT).expect("scan failed");
    let expected = number_expected();
    assert_eq!(expected.len(), tokens.len());
    assert_eq!(expected, tokens);
    check_number_value(&tokens, 0.145);
}

#[test]
fn scanner_refactor_test_one_char_token() {
    let tokens = scan_tokens("{}(),.-+;/*").expect("scan failed");
    let expected = one_char_expected();
    assert_eq!(expected.len(), tokens.len());
    assert_eq!(expected, tokens);
}

#[test]
fn scanner_refactor_test_conditional_char_token() {
    let tokens = scan_tokens("!!====>>=<<=").expect("scan failed");
    let expected = conditional_expected();
    assert_eq!(expected.len(), tokens.len());
    assert_eq!(expected, tokens);
}

#[test]
fn scanner_refactor_test_comment_out() {
    let tokens = scan_tokens(COMMENT_INPUT).expect("scan failed");
    let expected = comment_expected();
    assert_eq!(expected.len(), tokens.len());
    assert_eq!(expected, tokens);
}

#[test]
fn scanner_refactor_test_string_literal() {
    let tokens = scan_tokens(STRING_INPUT).expect("scan failed");
    let expected = string_expected();
    assert_eq!(expected.len(), tokens.len());
    assert_eq!(expected, tokens);
}

#[test]
fn scanner_refactor_test_number_literal() {
    let tokens = scan_tokens(NUMBER_INPUT).expect("scan failed");
    let expected = number_expected();
    assert_eq!(expected.len(), tokens.len());
    assert_eq!(expected, tokens);
    check_number_value(&tokens, 0.145);
}

#[test]
fn test_keyword() {
    let input = r#"
        var five = 5;
        "#;
    let expected = vec![
        token(TokenType::Var, "var", None, 2),
        token(TokenType::Identifier, "five", identifier("five"), 2),
        token(TokenType::Equal, "=", None, 2),
        token(TokenType::Number, "5", number("5", ""), 2),
        token(TokenType::SemiColon, ";", None, 2),
        token(TokenType::Eof, "", None, 3),
    ];
    let tokens = scan_tokens(input).expect("scan failed");
    assert_eq!(expected.len(), tokens.len());
    assert_eq!(expected, tokens);
    check_number_value(&tokens[3..], 5.0);
}

#[test]
fn test_lox() {
    let input = r#"
        var condAdd = fun(a, b) {
            if (a > 0) {
                return a + b;
            } else {
                return a;
            }
        }
        "#;
    let expected = vec![
        token(TokenType::Var, "var", None, 2),
        token(TokenType::Identifier, "condAdd", identifier("condAdd"), 2),
        token(TokenType::Equal, "=", None, 2),
        token(TokenType::Fun, "fun", None, 2),
        token(TokenType::LParan, "(", None, 2),
        token(TokenType::Identifier, "a", identifier("a"), 2),
        token(TokenType::Comma, ",", None, 2),
        token(TokenType::Identifier, "b", identifier("b"), 2),
        token(TokenType::RParan, ")", None, 2),
        token(TokenType::LBrace, "{", None, 2),
        token(TokenType::If, "if", None, 3),
        token(TokenType::LParan, "(", None, 3),
        token(TokenType::Identifier, "a", identifier("a"), 3),
        token(TokenType::Greater, ">", None, 3),
        token(TokenType::Number, "0", number("0", ""), 3),
        token(TokenType::RParan, ")", None, 3),
        token(TokenType::LBrace, "{", None, 3),
        token(TokenType::Return, "return", None, 4),
        token(TokenType::Identifier, "a", identifier("a"), 4),
        token(TokenType::Plus, "+", None, 4),
        token(TokenType::Identifier, "b", identifier("b"), 4),
        token(TokenType::SemiColon, ";", None, 4),
        token(TokenType::RBrace, "}", None, 5),
        token(TokenType::Else, "else", None, 5),
        token(TokenType::LBrace, "{", None, 5),
        token(TokenType::Return, "return", None, 6),
        token(TokenType::Identifier, "a", identifier("a"), 6),
        token(TokenType::SemiColon, ";", None, 6),
        token(TokenType::RBrace, "}", None, 7),
        token(TokenType::RBrace, "}", None, 8),
        token(TokenType::Eof, "", None, 9),
    ];
    let tokens = scan_tokens(input).expect("scan failed");
    assert_eq!(expected.len(), tokens.len());
    assert_eq!(expected, tokens);
    check_number_value(&tokens[14..], 0.0);
}

#[test]
fn punctuation_scans_one_token_per_character() {
    let input = "(){},.-+;/*";
    let tokens = scan_tokens(input).expect("scan failed");
    assert_eq!(tokens.len(), input.chars().count() + 1);
    for (c, t) in input.chars().zip(tokens.iter()) {
        assert_eq!(t.lexeme, vec![c]);
        assert_eq!(t.ty.symbol(), c.to_string());
        assert_eq!(t.literal, None);
        assert_eq!(t.line, 1);
    }
    assert_eq!(tokens[tokens.len() - 1], token(TokenType::Eof, "", None, 1));
}

#[test]
fn two_character_operators_are_preferred() {
    let tokens = scan_tokens("!!=<<=>>====").expect("scan failed");
    let kinds: Vec<TokenType> = tokens.iter().map(|t| t.ty).collect();
    assert_eq!(
        kinds,
        vec![
            TokenType::Bang,
            TokenType::BangEqual,
            TokenType::Less,
            TokenType::LessEqual,
            TokenType::Greater,
            TokenType::GreaterEqual,
            TokenType::EqualEqual,
            TokenType::Equal,
            TokenType::Eof,
        ]
    );
}

#[test]
fn comment_yields_no_tokens_and_next_line_counts() {
    let tokens = scan_tokens("a // b c ( )\nd").expect("scan failed");
    assert_eq!(
        tokens,
        vec![
            token(TokenType::Identifier, "a", identifier("a"), 1),
            token(TokenType::Identifier, "d", identifier("d"), 2),
            token(TokenType::Eof, "", None, 2),
        ]
    );
    let tokens = scan_tokens("// only a comment").expect("scan failed");
    assert_eq!(tokens, vec![token(TokenType::Eof, "", None, 1)]);
}

#[test]
fn string_spanning_lines_keeps_newline_and_closing_line() {
    let tokens = scan_tokens("\"a\nb\"").expect("scan failed");
    assert_eq!(
        tokens,
        vec![
            token(TokenType::String, "\"a\nb\"", Some(Literal::Str("a\nb".to_string())), 2),
            token(TokenType::Eof, "", None, 2),
        ]
    );
}

#[test]
fn string_with_multibyte_characters() {
    let tokens = scan_tokens("\"héllo, 世界\"").expect("scan failed");
    assert_eq!(tokens[0].literal, Some(Literal::Str("héllo, 世界".to_string())));
    assert_eq!(tokens[0].lexeme.len(), 11);
}

#[test]
fn unterminated_string_is_an_error() {
    assert_eq!(scan_tokens("\"abc"), Err(LexError::UnterminatedString));
    assert_eq!(scan_tokens("1 + \"abc\n"), Err(LexError::UnterminatedString));
    assert_eq!(LexError::UnterminatedString.message(), "Unterminated string");
}

#[test]
fn invalid_character_is_an_error() {
    assert_eq!(scan_tokens("1 @ 2"), Err(LexError::InvalidToken('@')));
    assert_eq!(scan_tokens("snake_case"), Err(LexError::InvalidToken('_')));
    assert_eq!(LexError::InvalidToken('@').message(), "invalid token: @");
}

#[test]
fn numbers_decode_exactly() {
    let tokens = scan_tokens("0.145").expect("scan failed");
    assert_eq!(tokens[0], token(TokenType::Number, "0.145", number("0", "145"), 1));
    check_number_value(&tokens, 0.145);

    let tokens = scan_tokens("5").expect("scan failed");
    assert_eq!(tokens[0], token(TokenType::Number, "5", number("5", ""), 1));
    check_number_value(&tokens, 5.0);
}

#[test]
fn number_without_digits_after_dot_stops_before_it() {
    let tokens = scan_tokens("12.").expect("scan failed");
    assert_eq!(
        tokens,
        vec![
            token(TokenType::Number, "12", number("12", ""), 1),
            token(TokenType::Dot, ".", None, 1),
            token(TokenType::Eof, "", None, 1),
        ]
    );
    let tokens = scan_tokens("3.5.1").expect("scan failed");
    assert_eq!(tokens[0], token(TokenType::Number, "3.5", number("3", "5"), 1));
    assert_eq!(tokens[1].ty, TokenType::Dot);
    assert_eq!(tokens[2], token(TokenType::Number, "1", number("1", ""), 1));
}

#[test]
fn keywords_and_identifiers() {
    assert_eq!(match_keywords("if"), Some(TokenType::If));
    assert_eq!(match_keywords("while"), Some(TokenType::While));
    assert_eq!(match_keywords("unknown"), None);
    assert_eq!(match_keywords("classy"), None);
    let words = [
        ("and", TokenType::And),
        ("class", TokenType::Class),
        ("else", TokenType::Else),
        ("false", TokenType::False),
        ("for", TokenType::For),
        ("fun", TokenType::Fun),
        ("if", TokenType::If),
        ("nil", TokenType::Nil),
        ("or", TokenType::Or),
        ("print", TokenType::Print),
        ("return", TokenType::Return),
        ("super", TokenType::Super),
        ("this", TokenType::This),
        ("true", TokenType::True),
        ("var", TokenType::Var),
        ("while", TokenType::While),
    ];
    for (w, k) in words {
        assert_eq!(match_keywords(w), Some(k));
        assert_eq!(k.symbol(), w);
        let tokens = scan_tokens(w).expect("scan failed");
        assert_eq!(tokens[0], token(k, w, None, 1));
    }
}

#[test]
fn empty_input_is_just_eof() {
    assert_eq!(scan_tokens(""), Ok(vec![token(TokenType::Eof, "", None, 1)]));
    assert_eq!(scan_tokens(" \t\r\n\n"), Ok(vec![token(TokenType::Eof, "", None, 3)]));
}
