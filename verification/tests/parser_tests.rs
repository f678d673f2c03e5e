use lox_expr::parser::{parse, BinaryExpression, Expr, LiteralExpression, UnaryExpression};
use lox_expr::scanner::scan_program;
use lox_expr::token::TokenType;

#[test]
fn parse_an_identifier() {
    let tokens = scan_program("somevar").unwrap();
    assert_eq!(tokens.len(), 2);
    let expressions = parse(&tokens).unwrap();
    assert_eq!(expressions.len(), 1);
    assert_eq!(
        expressions[0],
        Expr::Literal(LiteralExpression::Variable(String::from("somevar")))
    );
}

#[test]
fn parse_a_number() {
    let tokens = scan_program("432").unwrap();
    assert_eq!(tokens.len(), 2);
    let expressions = parse(&tokens).unwrap();
    assert_eq!(expressions.len(), 1);
    assert_eq!(
        expressions[0],
        Expr::Literal(LiteralExpression::Number(String::from("432")))
    );
}

#[test]
fn parse_a_string() {
    let tokens = scan_program("\"thing\"").unwrap();
    assert_eq!(tokens.len(), 2);
    let expressions = parse(&tokens).unwrap();
    assert_eq!(expressions.len(), 1);
    assert_eq!(
        expressions[0],
        Expr::Literal(LiteralExpression::String(String::from("thing")))
    );
}

#[test]
fn parse_simple_negation() {
    let tokens = scan_program("!somevar").unwrap();
    assert_eq!(tokens.len(), 3);
    let expressions = parse(&tokens).unwrap();
    assert_eq!(expressions.len(), 1);
    assert_eq!(
        expressions[0],
        Expr::Unary(UnaryExpression::new(
            tokens[0].token_type,
            Box::new(Expr::Literal(LiteralExpression::Variable(String::from("somevar"))))
        ))
    );
}

#[test]
fn parse_literal_keywords() {
    let tokens = scan_program("true false nil").unwrap();
    let expressions = parse(&tokens).unwrap();
    assert_eq!(expressions.len(), 3);
    assert_eq!(expressions[0], Expr::Literal(LiteralExpression::Boolean(true)));
    assert_eq!(expressions[1], Expr::Literal(LiteralExpression::Boolean(false)));
    assert_eq!(expressions[2], Expr::Literal(LiteralExpression::Nil));
}

#[test]
fn parse_left_associative_fold() {
    let tokens = scan_program("1-2-3").unwrap();
    let expressions = parse(&tokens).unwrap();
    assert_eq!(expressions.len(), 1);
    assert_eq!(
        expressions[0],
        Expr::Binary(BinaryExpression::new(
            Box::new(Expr::Binary(BinaryExpression::new(
                Box::new(Expr::Literal(LiteralExpression::Number(String::from("1")))),
                TokenType::Minus,
                Box::new(Expr::Literal(LiteralExpression::Number(String::from("2")))),
            ))),
            TokenType::Minus,
            Box::new(Expr::Literal(LiteralExpression::Number(String::from("3")))),
        ))
    );
}

#[test]
fn parse_comparison_level() {
    let tokens = scan_program("1+2 < 3*4").unwrap();
    let expressions = parse(&tokens).unwrap();
    assert_eq!(expressions.len(), 1);
    assert_eq!(
        expressions[0],
        Expr::Binary(BinaryExpression::new(
            Box::new(Expr::Binary(BinaryExpression::new(
                Box::new(Expr::Literal(LiteralExpression::Number(String::from("1")))),
                TokenType::Plus,
                Box::new(Expr::Literal(LiteralExpression::Number(String::from("2")))),
            ))),
            TokenType::Less,
            Box::new(Expr::Binary(BinaryExpression::new(
                Box::new(Expr::Literal(LiteralExpression::Number(String::from("3")))),
                TokenType::Star,
                Box::new(Expr::Literal(LiteralExpression::Number(String::from("4")))),
            ))),
        ))
    );
}

#[test]
fn parse_double_negation_is_right_associative() {
    let tokens = scan_program("!!x").unwrap();
    let expressions = parse(&tokens).unwrap();
    assert_eq!(expressions.len(), 1);
    assert_eq!(
        expressions[0],
        Expr::Unary(UnaryExpression::new(
            TokenType::Bang,
            Box::new(Expr::Unary(UnaryExpression::new(
                TokenType::Bang,
                Box::new(Expr::Literal(LiteralExpression::Variable(String::from("x"))))
            )))
        ))
    );
}

#[test]
fn parse_several_expressions_until_eof() {
    let tokens = scan_program("1 two \"three\"").unwrap();
    let expressions = parse(&tokens).unwrap();
    assert_eq!(expressions.len(), 3);
    assert_eq!(expressions[0], Expr::Literal(LiteralExpression::Number(String::from("1"))));
    assert_eq!(expressions[1], Expr::Literal(LiteralExpression::Variable(String::from("two"))));
    assert_eq!(expressions[2], Expr::Literal(LiteralExpression::String(String::from("three"))));
}
