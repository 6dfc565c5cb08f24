//! Lexical tokens and their mathematical view.

use vstd::prelude::*;

verus! {

/// One lexical unit of a source line.
///
/// Tokens are immutable value objects produced by the lexer and consumed by
/// the parser within the lifetime of one source line.
#[derive(Debug, PartialEq)]
pub enum Token {
    Comma,
    OpeningParenthesis,
    ClosingParenthesis,
    Equal,
    NotEqual,
    LessThan,
    LessThanOrEqual,
    GreaterThan,
    GreaterThanOrEqual,
    Plus,
    Minus,
    Multiply,
    Divide,
    NumberLiteral(i16),
    StringLiteral { value: Vec<u8> },
    Variable { identifier: u8 },
    Print,
    If,
    Then,
    Goto,
    Input,
    Let,
    GoSub,
    Return,
    Clear,
    List,
    Run,
    End,
}

/// The mathematical value of a [`Token`]: the same alternatives, with the
/// byte vector of a string literal replaced by a byte sequence.
pub enum TokenV {
    Comma,
    OpeningParenthesis,
    ClosingParenthesis,
    Equal,
    NotEqual,
    LessThan,
    LessThanOrEqual,
    GreaterThan,
    GreaterThanOrEqual,
    Plus,
    Minus,
    Multiply,
    Divide,
    NumberLiteral(i16),
    StringLiteral(Seq<u8>),
    Variable(u8),
    Print,
    If,
    Then,
    Goto,
    Input,
    Let,
    GoSub,
    Return,
    Clear,
    List,
    Run,
    End,
}

impl View for Token {
    type V = TokenV;

    open spec fn view(&self) -> TokenV {
        match self {
            Token::Comma => TokenV::Comma,
            Token::OpeningParenthesis => TokenV::OpeningParenthesis,
            Token::ClosingParenthesis => TokenV::ClosingParenthesis,
            Token::Equal => TokenV::Equal,
            Token::NotEqual => TokenV::NotEqual,
            Token::LessThan => TokenV::LessThan,
            Token::LessThanOrEqual => TokenV::LessThanOrEqual,
            Token::GreaterThan => TokenV::GreaterThan,
            Token::GreaterThanOrEqual => TokenV::GreaterThanOrEqual,
            Token::Plus => TokenV::Plus,
            Token::Minus => TokenV::Minus,
            Token::Multiply => TokenV::Multiply,
            Token::Divide => TokenV::Divide,
            Token::NumberLiteral(value) => TokenV::NumberLiteral(*value),
            Token::StringLiteral { value } => TokenV::StringLiteral(value@),
            Token::Variable { identifier } => TokenV::Variable(*identifier),
            Token::Print => TokenV::Print,
            Token::If => TokenV::If,
            Token::Then => TokenV::Then,
            Token::Goto => TokenV::Goto,
            Token::Input => TokenV::Input,
            Token::Let => TokenV::Let,
            Token::GoSub => TokenV::GoSub,
            Token::Return => TokenV::Return,
            Token::Clear => TokenV::Clear,
            Token::List => TokenV::List,
            Token::Run => TokenV::Run,
            Token::End => TokenV::End,
        }
    }
}

/// The views of a sequence of tokens, in order.
pub open spec fn token_views(tokens: Seq<Token>) -> Seq<TokenV> {
    tokens.map_values(|t: Token| t@)
}

} // verus!
