use std::collections::VecDeque;
use tiny_basic::ast::{
    AdditiveOperator, Expression, ExpressionListElement, Factor, Line, NumberLiteral, Statement,
    StringLiteral, Term,
};
use tiny_basic::parser::{Error, Parser};
use tiny_basic::token::Token;

#[test]
fn parse_line_hello_world_returns_ast() {
    let tokens = VecDeque::from([
        Token::NumberLiteral(10),
        Token::Print,
        Token::StringLiteral {
            value: b"Hello, World!".to_vec(),
        },
    ]);
    let expected = Line::new(
        Some(10),
        Statement::Print {
            expression_list: vec![ExpressionListElement::StringLiteral(StringLiteral::new(
                b"Hello, World!".to_vec(),
            ))],
        },
    );
    let mut parser = Parser::new(tokens);

    let actual = parser.parse_line();

    assert_eq!(Ok(expected), actual);
}

#[test]
fn parse_line_terms_returns_ast() {
    let tokens = VecDeque::from([
        Token::NumberLiteral(10),
        Token::Print,
        Token::NumberLiteral(2),
        Token::Plus,
        Token::NumberLiteral(3),
    ]);

    let expected = Line::new(
        Some(10),
        Statement::Print {
            expression_list: vec![ExpressionListElement::Expression(Expression::new(
                None,
                Term::new(Factor::NumberLiteral(NumberLiteral::new(2)), vec![]),
                vec![(
                    AdditiveOperator::Addition,
                    Term::new(Factor::NumberLiteral(NumberLiteral::new(3)), vec![]),
                )],
            ))],
        },
    );
    let mut parser = Parser::new(tokens);

    let actual = parser.parse_line();

    assert_eq!(Ok(expected), actual);
}

#[test]
fn parse_line_with_unary_operator_returns_ast() {
    let tokens = VecDeque::from([
        Token::NumberLiteral(10),
        Token::Print,
        Token::Minus,
        Token::NumberLiteral(2),
        Token::Plus,
        Token::NumberLiteral(3),
    ]);
    let expected = Line::new(
        Some(10),
        Statement::Print {
            expression_list: vec![ExpressionListElement::Expression(Expression::new(
                Some(AdditiveOperator::Subtraction),
                Term::new(Factor::NumberLiteral(NumberLiteral::new(2)), vec![]),
                vec![(
                    AdditiveOperator::Addition,
                    Term::new(Factor::NumberLiteral(NumberLiteral::new(3)), vec![]),
                )],
            ))],
        },
    );
    let mut parser = Parser::new(tokens);

    let actual = parser.parse_line();

    assert_eq!(Ok(expected), actual);
}

fn parse_source(code: &[u8]) -> Result<Line, Error> {
    let tokens = tiny_basic::lexer::lex(code).expect("the line must tokenize");
    Parser::new(VecDeque::from(tokens)).parse_line()
}

#[test]
fn parse_line_number_out_of_range_returns_error() {
    let actual = parse_source(b"300 END");

    assert_eq!(Err(Error::LineNumberOutOfRange), actual);
}

#[test]
fn parse_missing_keyword_returns_error() {
    let actual = parse_source(b"10 5");

    assert_eq!(Err(Error::KeywordNotFound), actual);
}

#[test]
fn parse_missing_variable_returns_error() {
    let actual = parse_source(b"LET 5 = 1");

    assert_eq!(Err(Error::VariableNotFound), actual);
}

#[test]
fn parse_missing_relational_operator_returns_error() {
    let actual = parse_source(b"IF 1 THEN END");

    assert_eq!(Err(Error::RelationalOperatorNotFound), actual);
}

#[test]
fn parse_exhausted_tokens_returns_error() {
    let actual = parse_source(b"PRINT");

    assert_eq!(Err(Error::NoMoreToken), actual);
}

#[test]
fn parse_unexpected_token_returns_error() {
    let actual = parse_source(b"LET A 5");

    assert_eq!(
        Err(Error::UnexpectedToken {
            expected: Token::Equal,
            found: Token::NumberLiteral(5),
        }),
        actual
    );
}

#[test]
fn parse_statement_direct_entry_point() {
    let tokens = VecDeque::from([Token::Return]);
    let mut parser = Parser::new(tokens);

    let actual = parser.parse_statement();

    assert_eq!(Ok(Statement::Return), actual);
}
