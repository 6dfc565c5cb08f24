use std::collections::VecDeque;
use tiny_basic::evaluator::{Error, Evaluator, Outcome};
use tiny_basic::lexer::lex;
use tiny_basic::parser::Parser;

const STEP_LIMIT: u64 = 10_000;

fn enter(
    evaluator: &mut Evaluator,
    code: &[u8],
    inputs: &mut VecDeque<Vec<u8>>,
    output: &mut Vec<u8>,
) -> Result<Outcome, Error> {
    let tokens = lex(code).expect("the line must tokenize");
    let line = Parser::new(VecDeque::from(tokens))
        .parse_line()
        .expect("the line must parse");
    evaluator.process_line(line, inputs, output, STEP_LIMIT)
}

fn enter_ok(evaluator: &mut Evaluator, code: &[u8]) -> Vec<u8> {
    let mut inputs = VecDeque::new();
    let mut output = Vec::new();
    let outcome = enter(evaluator, code, &mut inputs, &mut output);
    assert_eq!(Ok(Outcome::Done), outcome);
    output
}

#[test]
fn evaluate_print_sum() {
    let mut evaluator = Evaluator::new();

    let output = enter_ok(&mut evaluator, b"PRINT 2+3");

    assert_eq!(b"5 \n".to_vec(), output);
}

#[test]
fn evaluate_precedence_multiplication_before_addition() {
    let mut evaluator = Evaluator::new();

    let output = enter_ok(&mut evaluator, b"PRINT 2 + 3 * 4");

    assert_eq!(b"14 \n".to_vec(), output);
}

#[test]
fn evaluate_precedence_parentheses_first() {
    let mut evaluator = Evaluator::new();

    let output = enter_ok(&mut evaluator, b"PRINT (2 + 3) * 4");

    assert_eq!(b"20 \n".to_vec(), output);
}

#[test]
fn uninitialized_variables_evaluate_to_zero() {
    let mut evaluator = Evaluator::new();

    for letter in b'A'..=b'Z' {
        let code = vec![b'P', b'R', b'I', b'N', b'T', b' ', letter];
        let output = enter_ok(&mut evaluator, &code);
        assert_eq!(b"0 \n".to_vec(), output);
    }
}

#[test]
fn let_stores_and_print_reads() {
    let mut evaluator = Evaluator::new();

    enter_ok(&mut evaluator, b"LET A = 41 + 1");
    let output = enter_ok(&mut evaluator, b"PRINT A");

    assert_eq!(b"42 \n".to_vec(), output);
}

#[test]
fn print_emits_all_elements_left_to_right() {
    let mut evaluator = Evaluator::new();

    let output = enter_ok(&mut evaluator, b"PRINT 1, \"A\", 2");

    assert_eq!(b"1 A 2 \n".to_vec(), output);
}

#[test]
fn goto_loop_never_falls_off_the_end() {
    let mut evaluator = Evaluator::new();
    enter_ok(&mut evaluator, b"10 LET A=1");
    enter_ok(&mut evaluator, b"20 GOTO 10");

    let mut inputs = VecDeque::new();
    let mut output = Vec::new();
    let outcome = enter(&mut evaluator, b"RUN", &mut inputs, &mut output);

    assert_eq!(Ok(Outcome::OutOfSteps), outcome);
}

#[test]
fn goto_unknown_line_is_an_error() {
    // The documented policy: a jump to a line number holding no
    // statement fails with an unknown-line-number error.
    let mut evaluator = Evaluator::new();
    enter_ok(&mut evaluator, b"10 GOTO 99");

    let mut inputs = VecDeque::new();
    let mut output = Vec::new();
    let outcome = enter(&mut evaluator, b"RUN", &mut inputs, &mut output);

    assert_eq!(Err(Error::UnknownLineNumber), outcome);
}

#[test]
fn goto_out_of_range_is_an_error() {
    let mut evaluator = Evaluator::new();

    let mut inputs = VecDeque::new();
    let mut output = Vec::new();
    let outcome = enter(&mut evaluator, b"GOTO 300", &mut inputs, &mut output);

    assert_eq!(Err(Error::LineNumberOutOfRange), outcome);
}

#[test]
fn gosub_return_prints_once_and_terminates() {
    let mut evaluator = Evaluator::new();
    enter_ok(&mut evaluator, b"10 GOSUB 30");
    enter_ok(&mut evaluator, b"20 END");
    enter_ok(&mut evaluator, b"30 PRINT \"X\"");
    enter_ok(&mut evaluator, b"40 RETURN");

    let mut inputs = VecDeque::new();
    let mut output = Vec::new();
    let outcome = enter(&mut evaluator, b"RUN", &mut inputs, &mut output);

    assert_eq!(Ok(Outcome::Done), outcome);
    assert_eq!(b"X \n".to_vec(), output);
}

#[test]
fn clear_removes_lines_but_keeps_variables() {
    let mut evaluator = Evaluator::new();
    enter_ok(&mut evaluator, b"10 PRINT 1");
    enter_ok(&mut evaluator, b"LET A = 5");

    enter_ok(&mut evaluator, b"CLEAR");

    let listing = enter_ok(&mut evaluator, b"LIST");
    assert_eq!(Vec::<u8>::new(), listing);
    let output = enter_ok(&mut evaluator, b"PRINT A");
    assert_eq!(b"5 \n".to_vec(), output);
}

#[test]
fn list_renders_stored_lines_in_order() {
    let mut evaluator = Evaluator::new();
    enter_ok(&mut evaluator, b"20 goto 10");
    enter_ok(&mut evaluator, b"10 print \"HI\", A + 1");

    let listing = enter_ok(&mut evaluator, b"LIST");

    assert_eq!(b"10 PRINT \"HI\", A + 1\n20 GOTO 10\n".to_vec(), listing);
}

#[test]
fn storing_a_line_twice_overwrites_it() {
    let mut evaluator = Evaluator::new();
    enter_ok(&mut evaluator, b"10 PRINT 1");
    enter_ok(&mut evaluator, b"10 PRINT 2");

    let listing = enter_ok(&mut evaluator, b"LIST");

    assert_eq!(b"10 PRINT 2\n".to_vec(), listing);
}

#[test]
fn input_assigns_values_positionally() {
    let mut evaluator = Evaluator::new();
    let mut inputs = VecDeque::from([b"3 4".to_vec()]);
    let mut output = Vec::new();

    let outcome = enter(&mut evaluator, b"INPUT A, B", &mut inputs, &mut output);

    assert_eq!(Ok(Outcome::Done), outcome);
    assert_eq!(b"3 4 \n".to_vec(), enter_ok(&mut evaluator, b"PRINT A, B"));
}

#[test]
fn input_with_empty_queue_pauses() {
    let mut evaluator = Evaluator::new();
    let mut inputs = VecDeque::new();
    let mut output = Vec::new();

    let outcome = enter(&mut evaluator, b"INPUT A", &mut inputs, &mut output);
    assert_eq!(Ok(Outcome::NeedInput), outcome);

    // Nothing changed; supplying a line and entering the same statement
    // again completes it.
    inputs.push_back(b"-7".to_vec());
    let outcome = enter(&mut evaluator, b"INPUT A", &mut inputs, &mut output);
    assert_eq!(Ok(Outcome::Done), outcome);
    assert_eq!(b"-7 \n".to_vec(), enter_ok(&mut evaluator, b"PRINT A"));
}

#[test]
fn input_with_wrong_count_is_an_error() {
    let mut evaluator = Evaluator::new();
    let mut inputs = VecDeque::from([b"1 2".to_vec()]);
    let mut output = Vec::new();

    let outcome = enter(&mut evaluator, b"INPUT A", &mut inputs, &mut output);

    assert_eq!(Err(Error::WrongUserInput), outcome);
}

#[test]
fn input_with_a_non_number_is_an_error() {
    let mut evaluator = Evaluator::new();
    let mut inputs = VecDeque::from([b"x".to_vec()]);
    let mut output = Vec::new();

    let outcome = enter(&mut evaluator, b"INPUT A", &mut inputs, &mut output);

    assert_eq!(Err(Error::CannotParseNumber), outcome);
}

#[test]
fn input_during_run_pauses_and_resumes() {
    let mut evaluator = Evaluator::new();
    enter_ok(&mut evaluator, b"10 INPUT A");
    enter_ok(&mut evaluator, b"20 PRINT A * 2");

    let mut inputs = VecDeque::new();
    let mut output = Vec::new();
    let outcome = enter(&mut evaluator, b"RUN", &mut inputs, &mut output);
    assert_eq!(Ok(Outcome::NeedInput), outcome);

    inputs.push_back(b"21".to_vec());
    let outcome = evaluator.resume_run(&mut inputs, &mut output, STEP_LIMIT);
    assert_eq!(Ok(Outcome::Done), outcome);
    assert_eq!(b"42 \n".to_vec(), output);
}

#[test]
fn division_by_zero_is_an_error() {
    let mut evaluator = Evaluator::new();
    let mut inputs = VecDeque::new();
    let mut output = Vec::new();

    let outcome = enter(&mut evaluator, b"PRINT 1/0", &mut inputs, &mut output);

    assert_eq!(Err(Error::DivisionByZero), outcome);
}

#[test]
fn division_truncates_toward_zero() {
    let mut evaluator = Evaluator::new();

    assert_eq!(b"3 \n".to_vec(), enter_ok(&mut evaluator, b"PRINT 7/2"));
    assert_eq!(b"-3 \n".to_vec(), enter_ok(&mut evaluator, b"PRINT -7/2"));
}

#[test]
fn addition_wraps_at_the_16_bit_boundary() {
    let mut evaluator = Evaluator::new();

    let output = enter_ok(&mut evaluator, b"PRINT 32767 + 1");

    assert_eq!(b"-32768 \n".to_vec(), output);
}

#[test]
fn if_runs_the_nested_statement_only_when_true() {
    let mut evaluator = Evaluator::new();

    assert_eq!(
        b"1 \n".to_vec(),
        enter_ok(&mut evaluator, b"IF 1 < 2 THEN PRINT 1")
    );
    assert_eq!(
        Vec::<u8>::new(),
        enter_ok(&mut evaluator, b"IF 2 < 1 THEN PRINT 1")
    );
}

#[test]
fn return_with_empty_stack_ends_the_run() {
    let mut evaluator = Evaluator::new();
    enter_ok(&mut evaluator, b"10 RETURN");
    enter_ok(&mut evaluator, b"20 PRINT 1");

    let mut inputs = VecDeque::new();
    let mut output = Vec::new();
    let outcome = enter(&mut evaluator, b"RUN", &mut inputs, &mut output);

    assert_eq!(Ok(Outcome::Done), outcome);
    assert_eq!(Vec::<u8>::new(), output);
}

#[test]
fn end_stops_the_run_before_later_lines() {
    let mut evaluator = Evaluator::new();
    enter_ok(&mut evaluator, b"10 PRINT 1");
    enter_ok(&mut evaluator, b"20 END");
    enter_ok(&mut evaluator, b"30 PRINT 2");

    let mut inputs = VecDeque::new();
    let mut output = Vec::new();
    let outcome = enter(&mut evaluator, b"RUN", &mut inputs, &mut output);

    assert_eq!(Ok(Outcome::Done), outcome);
    assert_eq!(b"1 \n".to_vec(), output);
}

#[test]
fn resume_after_the_step_limit_continues() {
    let mut evaluator = Evaluator::new();
    enter_ok(&mut evaluator, b"10 GOTO 10");

    let mut inputs = VecDeque::new();
    let mut output = Vec::new();
    let tokens = lex(b"RUN").unwrap();
    let line = Parser::new(VecDeque::from(tokens)).parse_line().unwrap();
    let outcome = evaluator.process_line(line, &mut inputs, &mut output, 7);
    assert_eq!(Ok(Outcome::OutOfSteps), outcome);

    let outcome = evaluator.resume_run(&mut inputs, &mut output, 7);
    assert_eq!(Ok(Outcome::OutOfSteps), outcome);
}
