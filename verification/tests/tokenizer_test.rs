use arith::errors::TokenizerError;
use arith::tokenizer::{Token, TokenType, Tokenizer};

fn assert_tokenize_ok(input: &str, expected: Vec<Token>) {
    match Tokenizer::new(input.to_string()).tokenize() {
        Ok(tokens) => assert_eq!(tokens, expected),
        Err(e) => panic!("Tokenizing failed for input \"{}\": {}", input, e.to_text()),
    }
}

fn assert_tokenize_err(input: &str, expected_err: TokenizerError) {
    match Tokenizer::new(input.to_string()).tokenize() {
        Ok(tokens) => panic!(
            "Tokenizing should have failed for input \"{}\", but got tokens: {:?}",
            input, tokens
        ),
        Err(e) => assert_eq!(e, expected_err),
    }
}

#[test]
fn test_simple_expression() {
    assert_tokenize_ok(
        "1+1",
        vec![
            Token::number("1", 1, 1),
            Token::plus(1, 2),
            Token::number("1", 1, 3),
            Token::eof(1, 4),
        ],
    );
}

#[test]
fn test_parentheses() {
    assert_tokenize_ok(
        "(2*3)",
        vec![
            Token::paran_open(1, 1),
            Token::number("2", 1, 2),
            Token::mul(1, 3),
            Token::number("3", 1, 4),
            Token::paran_close(1, 5),
            Token::eof(1, 6),
        ],
    );
}

#[test]
fn test_multi_digit_number() {
    assert_tokenize_ok(
        "123+456",
        vec![
            Token::number("123", 1, 1),
            Token::plus(1, 4),
            Token::number("456", 1, 5),
            Token::eof(1, 8),
        ],
    );
}

#[test]
fn test_float_number() {
    assert_tokenize_ok(
        "3.14*2",
        vec![
            Token::number("3.14", 1, 1),
            Token::mul(1, 5),
            Token::number("2", 1, 6),
            Token::eof(1, 7),
        ],
    );
}

#[test]
fn test_comment() {
    assert_tokenize_ok(
        "1+2;this is a comment",
        vec![
            Token::number("1", 1, 1),
            Token::plus(1, 2),
            Token::number("2", 1, 3),
            Token::comment("this is a comment", 1, 4),
            Token::eof(1, 22),
        ],
    );
}

#[test]
fn test_newline_and_whitespace() {
    assert_tokenize_ok(
        "1 + 2\n3",
        vec![
            Token::number("1", 1, 1),
            Token::plus(1, 3),
            Token::number("2", 1, 5),
            Token::new(TokenType::Newline, 1, 6, 6),
            Token::number("3", 2, 1),
            Token::eof(2, 2),
        ],
    );
}

#[test]
fn test_empty_input() {
    assert_tokenize_ok("", vec![Token::eof(1, 1)]);
}

#[test]
fn test_trailing_operator() {
    assert_tokenize_ok(
        "1+",
        vec![
            Token::number("1", 1, 1),
            Token::plus(1, 2),
            Token::eof(1, 3),
        ],
    );
}

#[test]
fn test_numbers_stuck_together() {
    assert_tokenize_ok(
        "123456",
        vec![Token::number("123456", 1, 1), Token::eof(1, 7)],
    );
}

#[test]
fn test_invalid_float_number() {
    assert_tokenize_err(
        "3.14.15",
        TokenizerError::UnexpectedCharacter {
            found: '.',
            line: 1,
            col: 5,
        },
    );
}

#[test]
fn test_scientific_notation() {
    assert_tokenize_ok("1e-5", vec![Token::number("1e-5", 1, 1), Token::eof(1, 5)]);
}

#[test]
fn test_whitespace_only_input() {
    assert_tokenize_ok("   ", vec![Token::eof(1, 4)]);
}

#[test]
fn test_variable_declaration_untyped() {
    assert_tokenize_ok(
        "let x = 42",
        vec![
            Token::let_token(1, 1, 3),
            Token::identifier("x", 1, 5, 5),
            Token::assign(1, 7),
            Token::number("42", 1, 9),
            Token::eof(1, 11),
        ],
    );
}

#[test]
fn test_variable_declaration_typed() {
    assert_tokenize_ok(
        "let y: Int = 3.14",
        vec![
            Token::let_token(1, 1, 3),
            Token::identifier("y", 1, 5, 5),
            Token::colon(1, 6),
            Token::identifier("Int", 1, 8, 10),
            Token::assign(1, 12),
            Token::number("3.14", 1, 14),
            Token::eof(1, 18),
        ],
    );
}

#[test]
fn tokenizer_test_variable_reference() {
    assert_tokenize_ok("x", vec![Token::identifier("x", 1, 1, 1), Token::eof(1, 2)]);
}

#[test]
fn tokenizer_test_variable_reassignment() {
    assert_tokenize_ok(
        "x = 99",
        vec![
            Token::identifier("x", 1, 1, 1),
            Token::assign(1, 3),
            Token::number("99", 1, 5),
            Token::eof(1, 7),
        ],
    );
}

#[test]
fn test_multiple_variables() {
    assert_tokenize_ok(
        "let a = 1\nlet b: Float = 2.5\na = 3\nb",
        vec![
            Token::let_token(1, 1, 3),
            Token::identifier("a", 1, 5, 5),
            Token::assign(1, 7),
            Token::number("1", 1, 9),
            Token::new(TokenType::Newline, 1, 10, 10),
            Token::let_token(2, 1, 3),
            Token::identifier("b", 2, 5, 5),
            Token::colon(2, 6),
            Token::identifier("Float", 2, 8, 12),
            Token::assign(2, 14),
            Token::number("2.5", 2, 16),
            Token::new(TokenType::Newline, 2, 19, 19),
            Token::identifier("a", 3, 1, 1),
            Token::assign(3, 3),
            Token::number("3", 3, 5),
            Token::new(TokenType::Newline, 3, 6, 6),
            Token::identifier("b", 4, 1, 1),
            Token::eof(4, 2),
        ],
    );
}
