use tiny_basic::lexer::{lex, Error};
use tiny_basic::token::Token;

#[test]
fn lex_hello_world_returns_tokens() {
    let code = b"PRINT \"Hello, World!\"";
    let expected = vec![
        Token::Print,
        Token::StringLiteral {
            value: b"Hello, World!".to_vec(),
        },
    ];

    let actual = lex(code);

    assert_eq!(Ok(expected), actual);
}

#[test]
fn lex_expression_returns_tokens() {
    let expression = b"1 + 2 * 3 / 4 - 5";
    let expected = vec![
        Token::NumberLiteral(1),
        Token::Plus,
        Token::NumberLiteral(2),
        Token::Multiply,
        Token::NumberLiteral(3),
        Token::Divide,
        Token::NumberLiteral(4),
        Token::Minus,
        Token::NumberLiteral(5),
    ];

    let actual = lex(expression);

    assert_eq!(Ok(expected), actual);
}

#[test]
fn lex_keywords_returns_tokens() {
    let code = b"PRINT IF THEN GOTO INPUT LET GOSUB RETURN CLEAR LIST RUN END";
    let expected = vec![
        Token::Print,
        Token::If,
        Token::Then,
        Token::Goto,
        Token::Input,
        Token::Let,
        Token::GoSub,
        Token::Return,
        Token::Clear,
        Token::List,
        Token::Run,
        Token::End,
    ];

    let actual = lex(code);

    assert_eq!(Ok(expected), actual);
}

#[test]
fn lex_variable_returns_token() {
    let code = b"IF A < B THEN PRINT Z";
    let expected = vec![
        Token::If,
        Token::Variable { identifier: b'A' },
        Token::LessThan,
        Token::Variable { identifier: b'B' },
        Token::Then,
        Token::Print,
        Token::Variable { identifier: b'Z' },
    ];

    let actual = lex(code);

    assert_eq!(Ok(expected), actual);
}

#[test]
fn lex_lowercase_variable_returns_uppercase_token() {
    let code = b"IF a < b THEN PRINT z";
    let expected = vec![
        Token::If,
        Token::Variable { identifier: b'A' },
        Token::LessThan,
        Token::Variable { identifier: b'B' },
        Token::Then,
        Token::Print,
        Token::Variable { identifier: b'Z' },
    ];

    let actual = lex(code);

    assert_eq!(Ok(expected), actual);
}

#[test]
fn lex_unknown_identifier_returns_error() {
    let invalid_code = b"PRINT HELLO";

    let actual = lex(invalid_code);

    assert_eq!(Err(Error::UnknownIdentifier), actual);
}

#[test]
fn lex_non_terminated_string_returns_error() {
    let invalid_code = b"PRINT \"Hello, World!";

    let actual = lex(invalid_code);

    assert_eq!(Err(Error::NonTerminatedStringLiteral), actual);
}

#[test]
fn lex_empty_string_literal_returns_tokens() {
    let code = br#"PRINT "", """#;
    let expected = vec![
        Token::Print,
        Token::StringLiteral { value: Vec::new() },
        Token::Comma,
        Token::StringLiteral { value: Vec::new() },
    ];

    let actual = lex(code);

    assert_eq!(Ok(expected), actual);
}

#[test]
fn lex_number_with_boundary_digit_returns_tokens() {
    let code = b"9999";
    let expected = vec![Token::NumberLiteral(9999)];

    let actual = lex(code);

    assert_eq!(Ok(expected), actual);
}

#[test]
fn simple_input() {
    let sample_code = b"PRINT 2 + 5";
    let expected = vec![
        Token::Print,
        Token::NumberLiteral(2),
        Token::Plus,
        Token::NumberLiteral(5),
    ];

    let result = lex(sample_code);

    assert_eq!(Ok(expected), result);
}

#[test]
fn empty_input_should_return_empty_vector() {
    let code = b"";
    let expected: Vec<Token> = Vec::new();
    let result = lex(code);

    assert_eq!(Ok(expected), result);
}

#[test]
fn lex_invalid_character_returns_error() {
    let invalid_code = b"PRINT @";

    let actual = lex(invalid_code);

    assert_eq!(Err(Error::InvalidCharacter), actual);
}

#[test]
fn lex_number_overflow_wraps() {
    // Digit accumulation uses wrapping 16-bit arithmetic.
    let code = b"99999";
    let expected = vec![Token::NumberLiteral(-31073)];

    let actual = lex(code);

    assert_eq!(Ok(expected), actual);
}

#[test]
fn lex_two_byte_operators() {
    let code = b"<= >= <> ><";
    let expected = vec![
        Token::LessThanOrEqual,
        Token::GreaterThanOrEqual,
        Token::NotEqual,
        Token::NotEqual,
    ];

    let actual = lex(code);

    assert_eq!(Ok(expected), actual);
}
