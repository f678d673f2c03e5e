use lox_expr::parser::{parse, BinaryExpression, Expr, LiteralExpression, ParseError, UnaryExpression};
use lox_expr::scanner::{is_alphabetic, is_numeric, scan_program, LexError};
use lox_expr::token::{Token, TokenType, Value};

#[test]
fn scan_empty_yields_only_eof_sentinel() {
    let tokens = scan_program("").unwrap();
    assert_eq!(1, tokens.len());
    assert_eq!(TokenType::Eof, tokens[0].token_type);
    assert_eq!("", tokens[0].lexeme);
    assert_eq!(1, tokens[0].line);
}

#[test]
fn scan_number_yields_number_then_eof() {
    let tokens = scan_program("123").unwrap();
    assert_eq!(2, tokens.len());
    assert_eq!(TokenType::Number, tokens[0].token_type);
    assert_eq!("123", tokens[0].lexeme);
    assert_eq!(Some(Value::Number(String::from("123"))), tokens[0].value);
    match &tokens[0].value {
        Some(Value::Number(spelling)) => {
            assert_eq!(123.0, spelling.parse::<f64>().unwrap());
        }
        other => panic!("expected a number payload, got {:?}", other),
    }
    assert_eq!(TokenType::Eof, tokens[1].token_type);
}

#[test]
fn scan_string_yields_string_then_eof() {
    let tokens = scan_program("\"thing\"").unwrap();
    assert_eq!(2, tokens.len());
    assert_eq!(TokenType::String, tokens[0].token_type);
    assert_eq!("thing", tokens[0].lexeme);
    assert_eq!(Some(Value::String(String::from("thing"))), tokens[0].value);
    assert_eq!(TokenType::Eof, tokens[1].token_type);
}

#[test]
fn bang_equals_is_a_single_token() {
    let tokens = scan_program("!=").unwrap();
    assert_eq!(2, tokens.len());
    assert_eq!(TokenType::BangEquals, tokens[0].token_type);
    assert_eq!("!=", tokens[0].lexeme);
    assert_eq!(TokenType::Eof, tokens[1].token_type);
}

#[test]
fn token_after_each_newline_reports_next_line() {
    let tokens = scan_program("a\nb\nc").unwrap();
    assert_eq!(1, tokens[0].line);
    assert_eq!(2, tokens[1].line);
    assert_eq!(3, tokens[2].line);
    let lines: Vec<usize> = tokens.iter().map(|t| t.line).collect();
    let mut sorted = lines.clone();
    sorted.sort();
    assert_eq!(sorted, lines);
}

#[test]
fn eof_sentinel_reports_last_line() {
    let tokens = scan_program("1\n").unwrap();
    assert_eq!(2, tokens.len());
    assert_eq!(1, tokens[0].line);
    assert_eq!(TokenType::Eof, tokens[1].token_type);
    assert_eq!(2, tokens[1].line);
}

#[test]
fn parse_negation_of_variable() {
    let tokens = scan_program("!x").unwrap();
    let expressions = parse(&tokens).unwrap();
    assert_eq!(1, expressions.len());
    assert_eq!(
        expressions[0],
        Expr::Unary(UnaryExpression::new(
            TokenType::Bang,
            Box::new(Expr::Literal(LiteralExpression::Variable(String::from("x"))))
        ))
    );
}

#[test]
fn factor_binds_tighter_than_term() {
    let tokens = scan_program("1+2*3").unwrap();
    let expressions = parse(&tokens).unwrap();
    assert_eq!(1, expressions.len());
    assert_eq!(
        expressions[0],
        Expr::Binary(BinaryExpression::new(
            Box::new(Expr::Literal(LiteralExpression::Number(String::from("1")))),
            TokenType::Plus,
            Box::new(Expr::Binary(BinaryExpression::new(
                Box::new(Expr::Literal(LiteralExpression::Number(String::from("2")))),
                TokenType::Star,
                Box::new(Expr::Literal(LiteralExpression::Number(String::from("3")))),
            ))),
        ))
    );
}

#[test]
fn grouping_overrides_precedence() {
    let tokens = scan_program("(1+2)*3").unwrap();
    let expressions = parse(&tokens).unwrap();
    assert_eq!(1, expressions.len());
    assert_eq!(
        expressions[0],
        Expr::Binary(BinaryExpression::new(
            Box::new(Expr::Grouping(Box::new(Expr::Binary(BinaryExpression::new(
                Box::new(Expr::Literal(LiteralExpression::Number(String::from("1")))),
                TokenType::Plus,
                Box::new(Expr::Literal(LiteralExpression::Number(String::from("2")))),
            ))))),
            TokenType::Star,
            Box::new(Expr::Literal(LiteralExpression::Number(String::from("3")))),
        ))
    );
}

#[test]
fn missing_close_paren_is_expected_token_error() {
    let tokens = scan_program("(1+2").unwrap();
    let result = parse(&tokens);
    assert_eq!(
        result,
        Err(ParseError::ExpectedToken {
            expected: TokenType::RightParen,
            found: TokenType::Eof,
            line: 1,
        })
    );
}

#[test]
fn unterminated_string_is_lex_error() {
    let result = scan_program("\"unterminated");
    assert_eq!(result, Err(LexError::UnterminatedString { line: 1 }));
}

#[test]
fn unexpected_char_is_lex_error() {
    let result = scan_program("3 % 4");
    assert_eq!(result, Err(LexError::UnexpectedChar { ch: '%', line: 1 }));
}

#[test]
fn unexpected_char_reports_its_line() {
    let result = scan_program("3\n@");
    assert_eq!(result, Err(LexError::UnexpectedChar { ch: '@', line: 2 }));
}

#[test]
fn operator_in_primary_position_is_unexpected_token_error() {
    let tokens = scan_program("+ 3").unwrap();
    let result = parse(&tokens);
    assert_eq!(
        result,
        Err(ParseError::UnexpectedToken { found: TokenType::Plus, line: 1 })
    );
}

#[test]
fn operand_missing_at_end_is_unexpected_end_error() {
    let tokens = scan_program("!").unwrap();
    let result = parse(&tokens);
    assert_eq!(result, Err(ParseError::UnexpectedEnd { line: 1 }));
}

#[test]
fn parse_returns_a_result_on_every_scanned_input() {
    let inputs = ["", "1+", ")", "((", "nil nil", "a*b<c", "!", "1 2 3", "(x"];
    for source in inputs {
        let tokens = scan_program(source).unwrap();
        match parse(&tokens) {
            Ok(expressions) => {
                assert!(expressions.len() <= tokens.len());
            }
            Err(
                ParseError::UnexpectedToken { .. }
                | ParseError::ExpectedToken { .. }
                | ParseError::UnexpectedEnd { .. },
            ) => {}
        }
    }
}

#[test]
fn decimal_number_is_one_token() {
    let tokens = scan_program("3.14").unwrap();
    assert_eq!(2, tokens.len());
    assert_eq!(TokenType::Number, tokens[0].token_type);
    assert_eq!("3.14", tokens[0].lexeme);
    match &tokens[0].value {
        Some(Value::Number(spelling)) => {
            assert_eq!(3.14, spelling.parse::<f64>().unwrap());
        }
        other => panic!("expected a number payload, got {:?}", other),
    }
}

#[test]
fn trailing_dot_is_not_part_of_number() {
    let tokens = scan_program("123.").unwrap();
    assert_eq!(3, tokens.len());
    assert_eq!(TokenType::Number, tokens[0].token_type);
    assert_eq!("123", tokens[0].lexeme);
    assert_eq!(TokenType::Dot, tokens[1].token_type);
}

#[test]
fn comment_without_newline_runs_to_end_of_input() {
    let tokens = scan_program("4 // trailing comment").unwrap();
    assert_eq!(2, tokens.len());
    assert_eq!(TokenType::Number, tokens[0].token_type);
    assert_eq!(TokenType::Eof, tokens[1].token_type);
}

#[test]
fn identifier_constructor_resolves_keywords() {
    let token = Token::new_identifier(String::from("while"), 7);
    assert_eq!(TokenType::While, token.token_type);
    assert_eq!("while", token.lexeme);
    assert_eq!(7, token.line);
    let other = Token::new_identifier(String::from("walrus"), 7);
    assert_eq!(TokenType::Identifier, other.token_type);
}

#[test]
fn token_constructors_carry_their_payloads() {
    let plain = Token::new(TokenType::Semicolon, String::from(";"), 3);
    assert_eq!(TokenType::Semicolon, plain.token_type);
    assert_eq!(";", plain.lexeme);
    assert_eq!(None, plain.value);
    assert_eq!(3, plain.line);

    let string = Token::new_string(String::from("pear"), 4);
    assert_eq!(TokenType::String, string.token_type);
    assert_eq!("pear", string.lexeme);
    assert_eq!(Some(Value::String(String::from("pear"))), string.value);

    let number = Token::new_number(String::from("27.5"), 5);
    assert_eq!(TokenType::Number, number.token_type);
    assert_eq!("27.5", number.lexeme);
    assert_eq!(Some(Value::Number(String::from("27.5"))), number.value);
}

#[test]
fn first_character_classification() {
    assert!(is_alphabetic("banana"));
    assert!(!is_alphabetic("1banana"));
    assert!(is_numeric("9x"));
    assert!(!is_numeric("x9"));
}
