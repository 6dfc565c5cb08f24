//! Round trips: rendering a parsed statement and reading the rendering
//! back reproduces the statement, for every statement variant.

use std::collections::VecDeque;
use tiny_basic::ast::Line;
use tiny_basic::lexer::lex;
use tiny_basic::parser::Parser;
use tiny_basic::render::{render_line, render_statement};

fn parse_source(code: &[u8]) -> Line {
    let tokens = lex(code).expect("the line must tokenize");
    Parser::new(VecDeque::from(tokens))
        .parse_line()
        .expect("the line must parse")
}

fn assert_statement_round_trips(code: &[u8]) {
    let first = parse_source(code);
    let rendered = render_statement(first.statement());
    let second = parse_source(&rendered);
    assert_eq!(first.statement(), second.statement());
    assert_eq!(rendered, render_statement(second.statement()));
}

#[test]
fn print_statement_round_trips() {
    assert_statement_round_trips(b"PRINT \"Hello, World!\", 1 + 2 * (3 - A), \"\"");
}

#[test]
fn if_statement_round_trips() {
    assert_statement_round_trips(b"IF A < B THEN PRINT Z");
    assert_statement_round_trips(b"IF A + 1 <= 2 THEN IF B <> C THEN LET D = 4");
    assert_statement_round_trips(b"IF A = B THEN GOTO 10");
    assert_statement_round_trips(b"IF A >= B THEN RETURN");
    assert_statement_round_trips(b"IF A > B THEN CLEAR");
}

#[test]
fn goto_statement_round_trips() {
    assert_statement_round_trips(b"GOTO 10 + A");
}

#[test]
fn input_statement_round_trips() {
    assert_statement_round_trips(b"INPUT A");
    assert_statement_round_trips(b"INPUT A, B, C");
}

#[test]
fn let_statement_round_trips() {
    assert_statement_round_trips(b"LET A = -1 + 2 / (B - 3)");
}

#[test]
fn gosub_statement_round_trips() {
    assert_statement_round_trips(b"GOSUB 30");
}

#[test]
fn keyword_statements_round_trip() {
    assert_statement_round_trips(b"RETURN");
    assert_statement_round_trips(b"CLEAR");
    assert_statement_round_trips(b"LIST");
    assert_statement_round_trips(b"RUN");
    assert_statement_round_trips(b"END");
}

#[test]
fn numbered_line_round_trips() {
    let first = parse_source(b"10 PRINT 2+3");
    let rendered = render_line(&first);
    assert_eq!(b"10 PRINT 2 + 3".to_vec(), rendered);
    let second = parse_source(&rendered);
    assert_eq!(first, second);
}

#[test]
fn rendering_keeps_the_unary_sign() {
    let first = parse_source(b"PRINT -2 + 3");
    let rendered = render_statement(first.statement());
    assert_eq!(b"PRINT -2 + 3".to_vec(), rendered);
    let second = parse_source(&rendered);
    assert_eq!(first.statement(), second.statement());
}
