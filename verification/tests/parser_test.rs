use arith::ast::{Expr, Statement};
use arith::errors::ParserError;
use arith::number::Number;
use arith::parser::Parser;
use arith::tokenizer::{Token, TokenType, Tokenizer};

fn num(value: f64) -> Number {
    Number::from_bits(value.to_bits())
}

fn to_number(text: String) -> Option<Number> {
    text.parse::<f64>().ok().map(num)
}

fn parse_ok(input: &str) -> Result<Statement, ParserError> {
    let mut tokenizer = Tokenizer::new(input.to_string());
    let tokens = tokenizer.tokenize().unwrap();
    let mut parser = Parser::new(tokens);
    parser.parse(&to_number)
}

fn assert_parse_ok(input: &str, expected: Statement) {
    match parse_ok(input) {
        Ok(stmt) => assert_eq!(stmt, expected),
        Err(e) => panic!("Parsing failed for input '{}': {}", input, e.to_text()),
    }
}

fn binary(left: Expr, op: TokenType, right: Expr) -> Expr {
    Expr::BinaryOp {
        left: Box::new(left),
        op,
        right: Box::new(right),
    }
}

#[test]
fn test_simple_number() {
    assert_parse_ok("42", Statement::Expression(Expr::Number(num(42.0))));
}

#[test]
fn test_simple_binary() {
    assert_parse_ok(
        "1+2",
        Statement::Expression(Expr::BinaryOp {
            left: Box::new(Expr::Number(num(1.0))),
            op: TokenType::Plus,
            right: Box::new(Expr::Number(num(2.0))),
        }),
    );
}

#[test]
fn test_let_statement_untyped() {
    assert_parse_ok(
        "let x = 42",
        Statement::Let {
            name: "x".to_string(),
            annotation: None,
            value: Expr::Number(num(42.0)),
        },
    );
}

#[test]
fn test_let_statement_typed() {
    assert_parse_ok(
        "let y: Int = 3.14",
        Statement::Let {
            name: "y".to_string(),
            annotation: Some("Int".to_string()),
            value: Expr::Number(num(3.14)),
        },
    );
}

#[test]
fn parser_test_variable_reference() {
    assert_parse_ok("x", Statement::Expression(Expr::Variable("x".to_string())));
}

#[test]
fn test_complex_expression() {
    assert_parse_ok(
        "let result = 1 + 2 * 3",
        Statement::Let {
            name: "result".to_string(),
            annotation: None,
            value: Expr::BinaryOp {
                left: Box::new(Expr::Number(num(1.0))),
                op: TokenType::Plus,
                right: Box::new(Expr::BinaryOp {
                    left: Box::new(Expr::Number(num(2.0))),
                    op: TokenType::Mul,
                    right: Box::new(Expr::Number(num(3.0))),
                }),
            },
        },
    );
}

#[test]
fn test_empty_input_is_empty_expression() {
    assert_parse_ok("", Statement::Expression(Expr::Empty));
    assert_parse_ok("   ", Statement::Expression(Expr::Empty));
    assert_parse_ok("; only a comment", Statement::Expression(Expr::Empty));
}

#[test]
fn test_assignment_statement() {
    assert_parse_ok(
        "x = 99",
        Statement::Assignment {
            name: "x".to_string(),
            value: Expr::Number(num(99.0)),
        },
    );
}

#[test]
fn test_compound_assignment_statements() {
    for (text, op) in [
        ("x += 2", TokenType::PlusAssign),
        ("x -= 2", TokenType::MinusAssign),
        ("x *= 2", TokenType::MulAssign),
        ("x /= 2", TokenType::DivAssign),
    ] {
        assert_parse_ok(
            text,
            Statement::CompoundAssignment {
                name: "x".to_string(),
                op,
                value: Expr::Number(num(2.0)),
            },
        );
    }
}

#[test]
fn test_left_associative_grouping() {
    assert_parse_ok(
        "1 - 2 - 3",
        Statement::Expression(binary(
            binary(Expr::Number(num(1.0)), TokenType::Minus, Expr::Number(num(2.0))),
            TokenType::Minus,
            Expr::Number(num(3.0)),
        )),
    );
    assert_parse_ok(
        "8 / 4 / 2",
        Statement::Expression(binary(
            binary(Expr::Number(num(8.0)), TokenType::Div, Expr::Number(num(4.0))),
            TokenType::Div,
            Expr::Number(num(2.0)),
        )),
    );
}

#[test]
fn test_implicit_multiplication_grouping() {
    assert_parse_ok(
        "2 * 3(4)",
        Statement::Expression(binary(
            binary(Expr::Number(num(2.0)), TokenType::Mul, Expr::Number(num(3.0))),
            TokenType::Mul,
            Expr::Number(num(4.0)),
        )),
    );
    assert_parse_ok(
        "10 / 2(5)",
        Statement::Expression(binary(
            binary(Expr::Number(num(10.0)), TokenType::Div, Expr::Number(num(2.0))),
            TokenType::Mul,
            Expr::Number(num(5.0)),
        )),
    );
    assert_parse_ok(
        "2(3) / 4",
        Statement::Expression(binary(
            binary(Expr::Number(num(2.0)), TokenType::Mul, Expr::Number(num(3.0))),
            TokenType::Div,
            Expr::Number(num(4.0)),
        )),
    );
    assert_parse_ok(
        "1 + 2(3)",
        Statement::Expression(binary(
            Expr::Number(num(1.0)),
            TokenType::Plus,
            binary(Expr::Number(num(2.0)), TokenType::Mul, Expr::Number(num(3.0))),
        )),
    );
    assert_parse_ok(
        "2(3) * 4",
        Statement::Expression(binary(
            binary(Expr::Number(num(2.0)), TokenType::Mul, Expr::Number(num(3.0))),
            TokenType::Mul,
            Expr::Number(num(4.0)),
        )),
    );
    assert_parse_ok(
        "a b c",
        Statement::Expression(binary(
            binary(
                Expr::Variable("a".to_string()),
                TokenType::Mul,
                Expr::Variable("b".to_string()),
            ),
            TokenType::Mul,
            Expr::Variable("c".to_string()),
        )),
    );
}

#[test]
fn test_unary_binds_tighter_than_binary() {
    assert_parse_ok(
        "-2 * 3",
        Statement::Expression(binary(
            Expr::UnaryOp {
                op: TokenType::Minus,
                expr: Box::new(Expr::Number(num(2.0))),
            },
            TokenType::Mul,
            Expr::Number(num(3.0)),
        )),
    );
    assert_parse_ok(
        "-2(3)",
        Statement::Expression(binary(
            Expr::UnaryOp {
                op: TokenType::Minus,
                expr: Box::new(Expr::Number(num(2.0))),
            },
            TokenType::Mul,
            Expr::Number(num(3.0)),
        )),
    );
    assert_parse_ok(
        "2 - -3",
        Statement::Expression(binary(
            Expr::Number(num(2.0)),
            TokenType::Minus,
            Expr::UnaryOp {
                op: TokenType::Minus,
                expr: Box::new(Expr::Number(num(3.0))),
            },
        )),
    );
}

#[test]
fn test_empty_parentheses_parse() {
    assert_parse_ok("()", Statement::Expression(Expr::EmptyParen));
}

#[test]
fn test_tokens_after_the_statement_are_left() {
    assert_parse_ok("1 )", Statement::Expression(Expr::Number(num(1.0))));
}

#[test]
fn test_unexpected_token_points_at_the_token() {
    assert_eq!(
        parse_ok("1 + * 2"),
        Err(ParserError::UnexpectedToken {
            found: TokenType::Mul,
            line: 1,
            col: 5,
        })
    );
    assert_eq!(
        parse_ok("(1 + 2"),
        Err(ParserError::UnexpectedToken {
            found: TokenType::EOF,
            line: 1,
            col: 7,
        })
    );
    assert_eq!(
        parse_ok("let = 1"),
        Err(ParserError::UnexpectedToken {
            found: TokenType::Assign,
            line: 1,
            col: 5,
        })
    );
    assert_eq!(
        parse_ok("let x: = 1"),
        Err(ParserError::UnexpectedToken {
            found: TokenType::Assign,
            line: 1,
            col: 8,
        })
    );
    assert_eq!(
        parse_ok("let x 1"),
        Err(ParserError::UnexpectedToken {
            found: TokenType::Number {
                value: "1".to_string()
            },
            line: 1,
            col: 7,
        })
    );
}

#[test]
fn test_unexpected_end_of_input() {
    assert_eq!(
        parse_ok("1 +"),
        Err(ParserError::UnexpectedEOF { line: 1, col: 4 })
    );
    assert_eq!(
        parse_ok("-"),
        Err(ParserError::UnexpectedEOF { line: 1, col: 2 })
    );
    assert_eq!(
        parse_ok("let x ="),
        Err(ParserError::UnexpectedEOF { line: 1, col: 8 })
    );
}

#[test]
fn test_invalid_number() {
    assert_eq!(
        parse_ok("2 + 1e"),
        Err(ParserError::InvalidNumber {
            value: "1e".to_string(),
            line: 1,
            col: 5,
        })
    );
}

#[test]
fn test_comments_and_newlines_are_filtered() {
    let tokens = vec![
        Token::number("1", 1, 1),
        Token::comment("note", 1, 2),
        Token::new(TokenType::Newline, 1, 7, 7),
        Token::plus(2, 1),
        Token::number("2", 2, 2),
        Token::eof(2, 3),
    ];
    let mut parser = Parser::new(tokens);
    assert_eq!(
        parser.parse(&to_number),
        Ok(Statement::Expression(binary(
            Expr::Number(num(1.0)),
            TokenType::Plus,
            Expr::Number(num(2.0)),
        )))
    );
}

#[test]
fn test_parser_error_messages() {
    assert_eq!(
        ParserError::UnexpectedToken {
            found: TokenType::Plus,
            line: 2,
            col: 10,
        }
        .to_text(),
        "Unexpected token: found Plus\n at line 2, col 10"
    );
    assert_eq!(
        ParserError::UnexpectedEOF { line: 1, col: 4 }.to_text(),
        "Unexpected end of input at line 1, col 4"
    );
    assert_eq!(
        ParserError::InvalidNumber {
            value: "1e".to_string(),
            line: 3,
            col: 1,
        }
        .to_text(),
        "Invalid number: 1e at line 3, col 1"
    );
    assert_eq!(
        ParserError::TokenizerError {
            message: "Unexpected character '@'".to_string(),
            line: 1,
            col: 120,
        }
        .to_text(),
        "Tokenizer error: Unexpected character '@' at line 1, col 120"
    );
}
