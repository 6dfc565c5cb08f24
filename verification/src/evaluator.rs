//! The evaluator: persistent interpreter state and statement execution.
//!
//! A numbered line is stored into the program; an unnumbered line's
//! statement runs immediately. `RUN` replays the stored program from line 0
//! within an explicit step limit, each visited slot costing one step; the
//! run ends by reaching the end of storage, `END`, an empty `RETURN` stack,
//! an error, or the limit.
//!
//! Documented policies: all 16-bit arithmetic wraps on overflow; division
//! by zero is a runtime error; `GOTO` and `GOSUB` to a line number holding
//! no statement is an unknown-line-number error, while the sequential
//! advance of `RUN` silently skips empty slots; the execution cursor
//! saturates at the end of storage.
//!
//! An `INPUT` statement takes the next line from a queue of input lines
//! supplied by the caller. When the queue is empty, execution pauses with
//! [`Outcome::NeedInput`] before anything changes: the caller pushes a
//! line and resumes.

use crate::arith::{add16, div16, mul16, neg16, sub16, wadd, wdiv, wmul, wneg, wsub};
use crate::ast::{
    elements_view, lemma_elements_view, lemma_factor_ops_view, lemma_term_ops_view, line_view,
    variables_view, AdditiveOperator, ElementV, Expression, ExpressionListElement, ExpressionV,
    Factor, FactorV, Line, LineV, MultiplicativeOperator, RelationalOperator, Statement,
    StatementV, TermV, Term, Variable,
};
use crate::lexer::is_space;
use crate::render::{push_i16, render_line, spec_render_i16, spec_render_line};
use std::collections::VecDeque;
use vstd::prelude::*;

verus! {

/// A runtime error.
#[derive(Debug, PartialEq, Clone, Copy)]
pub enum Error {
    /// A jump target outside 0 through 255.
    LineNumberOutOfRange,
    /// A jump to a line number holding no statement.
    UnknownLineNumber,
    /// An input line with the wrong number of values.
    WrongUserInput,
    /// An input value that is not a 16-bit integer.
    CannotParseNumber,
    /// A division by zero.
    DivisionByZero,
}

/// How processing a line ended.
#[derive(Debug, PartialEq, Clone, Copy)]
pub enum Outcome {
    /// The line was stored, or its statement ran to completion.
    Done,
    /// An `INPUT` statement needs one line of values; nothing changed.
    /// Push a line onto the input queue and run the same line again, or
    /// resume the run.
    NeedInput,
    /// The step limit ran out before the stored program finished.
    OutOfSteps,
}

/// Where execution continues after one statement.
#[derive(Debug, PartialEq, Clone, Copy)]
pub enum Flow {
    /// Advance to the next line.
    Next,
    /// The statement set the cursor itself.
    Jump,
    /// Start the stored program from line 0.
    StartRun,
    /// End the run.
    EndRun,
    /// Pause for one line of input; nothing changed.
    NeedInput,
}

/// The mathematical view of the evaluator state: 256 storage slots, the
/// call stack of saved cursors, the execution cursor, and 26 variables.
#[verifier::ext_equal]
pub struct StateV {
    pub storage: Seq<Option<LineV>>,
    pub stack: Seq<int>,
    pub pc: int,
    pub vars: Seq<i16>,
}

/// The effect of one statement: the state after it, the remaining input
/// lines, the bytes it printed, and where execution continues.
#[verifier::ext_equal]
pub struct StepV {
    pub state: StateV,
    pub inputs: Seq<Seq<u8>>,
    pub output: Seq<u8>,
    pub result: Result<Flow, Error>,
}

/// The effect of a whole run or of processing a line.
#[verifier::ext_equal]
pub struct RunV {
    pub state: StateV,
    pub inputs: Seq<Seq<u8>>,
    pub output: Seq<u8>,
    pub result: Result<Outcome, Error>,
}

/// The variable slot of an identifying byte, counted from `A`.
pub open spec fn var_index(id: u8) -> int {
    id - 65
}

/// The value of a variable; a slot outside the table reads as zero.
pub open spec fn var_value(vars: Seq<i16>, id: u8) -> i16 {
    if 0 <= var_index(id) < vars.len() {
        vars[var_index(id)]
    } else {
        0
    }
}

/// The variable table after storing `v` under `id`.
pub open spec fn store_var(vars: Seq<i16>, id: u8, v: i16) -> Seq<i16> {
    if 0 <= var_index(id) < vars.len() {
        vars.update(var_index(id), v)
    } else {
        vars
    }
}

/// The variable table after assigning values to variables positionally.
pub open spec fn assign_vars(vars: Seq<i16>, ids: Seq<u8>, vals: Seq<i16>) -> Seq<i16>
    recommends
        ids.len() == vals.len(),
    decreases ids.len(),
{
    if ids.len() == 0 {
        vars
    } else {
        assign_vars(store_var(vars, ids[0], vals[0]), ids.drop_first(), vals.drop_first())
    }
}

/// The value of a factor: a variable's current value, a literal, or a
/// parenthesized expression.
pub open spec fn spec_eval_factor(f: FactorV, vars: Seq<i16>) -> Result<i16, Error>
    decreases f, 0int,
{
    match f {
        FactorV::Variable(id) => Ok(var_value(vars, id)),
        FactorV::NumberLiteral(v) => Ok(v),
        FactorV::Expression(e) => spec_eval_expression(*e, vars),
    }
}

/// A term's trailing operations folded left to right onto `acc` with
/// wrapping multiplication and truncating division.
pub open spec fn spec_eval_operations(
    acc: i16,
    ops: Seq<(MultiplicativeOperator, FactorV)>,
    vars: Seq<i16>,
) -> Result<i16, Error>
    decreases ops, 1int,
{
    if ops.len() == 0 {
        Ok(acc)
    } else {
        match spec_eval_factor(ops[0].1, vars) {
            Ok(v) => match ops[0].0 {
                MultiplicativeOperator::Multiplication => spec_eval_operations(
                    wmul(acc, v),
                    ops.drop_first(),
                    vars,
                ),
                MultiplicativeOperator::Division => if v == 0 {
                    Err(Error::DivisionByZero)
                } else {
                    spec_eval_operations(wdiv(acc, v), ops.drop_first(), vars)
                },
            },
            Err(e) => Err(e),
        }
    }
}

/// The value of a term.
pub open spec fn spec_eval_term(t: TermV, vars: Seq<i16>) -> Result<i16, Error>
    decreases t, 2int,
{
    match spec_eval_factor(t.factor, vars) {
        Ok(v) => spec_eval_operations(v, t.operations, vars),
        Err(e) => Err(e),
    }
}

/// An expression's trailing terms folded left to right onto `acc` with
/// wrapping addition and subtraction.
pub open spec fn spec_eval_others(
    acc: i16,
    others: Seq<(AdditiveOperator, TermV)>,
    vars: Seq<i16>,
) -> Result<i16, Error>
    decreases others, 3int,
{
    if others.len() == 0 {
        Ok(acc)
    } else {
        match spec_eval_term(others[0].1, vars) {
            Ok(v) => spec_eval_others(
                match others[0].0 {
                    AdditiveOperator::Addition => wadd(acc, v),
                    AdditiveOperator::Subtraction => wsub(acc, v),
                },
                others.drop_first(),
                vars,
            ),
            Err(e) => Err(e),
        }
    }
}

/// The value of an expression: the first term, negated under a leading
/// minus, then the other terms folded left to right.
pub open spec fn spec_eval_expression(e: ExpressionV, vars: Seq<i16>) -> Result<i16, Error>
    decreases e, 4int,
{
    match spec_eval_term(e.term, vars) {
        Ok(first) => {
            let signed = if e.unary_operator == Some(AdditiveOperator::Subtraction) {
                wneg(first)
            } else {
                first
            };
            spec_eval_others(signed, e.others, vars)
        },
        Err(e) => Err(e),
    }
}

/// A relational operator applied to two 16-bit values.
pub open spec fn spec_compare(op: RelationalOperator, l: i16, r: i16) -> bool {
    match op {
        RelationalOperator::Equal => l == r,
        RelationalOperator::NotEqual => l != r,
        RelationalOperator::LessThan => l < r,
        RelationalOperator::LessThanOrEqual => l <= r,
        RelationalOperator::GreaterThan => l > r,
        RelationalOperator::GreaterThanOrEqual => l >= r,
    }
}

/// How many leading bytes of `s` are ASCII whitespace.
pub open spec fn leading_ws(s: Seq<u8>) -> int
    decreases s.len(),
{
    if s.len() > 0 && is_space(s[0]) {
        1 + leading_ws(s.drop_first())
    } else {
        0
    }
}

/// How many trailing bytes of `s` are ASCII whitespace.
pub open spec fn trailing_ws(s: Seq<u8>) -> int
    decreases s.len(),
{
    if s.len() > 0 && is_space(s.last()) {
        1 + trailing_ws(s.drop_last())
    } else {
        0
    }
}

/// `s` with leading and trailing ASCII whitespace removed.
pub open spec fn spec_trim(s: Seq<u8>) -> Seq<u8> {
    if leading_ws(s) == s.len() {
        Seq::empty()
    } else {
        s.subrange(leading_ws(s), s.len() - trailing_ws(s))
    }
}

/// How many leading bytes of `s` are not a space.
pub open spec fn nonsep_run(s: Seq<u8>) -> int
    decreases s.len(),
{
    if s.len() > 0 && s[0] != 32 {
        1 + nonsep_run(s.drop_first())
    } else {
        0
    }
}

/// Whether every byte of `s` is a decimal digit.
pub open spec fn all_digits(s: Seq<u8>) -> bool {
    forall|i: int| 0 <= i < s.len() ==> 48 <= #[trigger] s[i] <= 57
}

/// The unbounded value of a digit sequence.
pub open spec fn digits_int(s: Seq<u8>) -> int
    decreases s.len(),
{
    if s.len() == 0 {
        0
    } else {
        digits_int(s.drop_last()) * 10 + (s.last() - 48)
    }
}

/// The 16-bit value a decimal segment parses to: an optional sign, then
/// one or more digits, the whole value within the 16-bit range.
pub open spec fn spec_parse_i16(s: Seq<u8>) -> Option<i16> {
    let body = if s.len() > 0 && (s[0] == 43 || s[0] == 45) {
        s.drop_first()
    } else {
        s
    };
    let negative = s.len() > 0 && s[0] == 45;
    if body.len() == 0 || !all_digits(body) {
        None
    } else {
        let v = if negative {
            -digits_int(body)
        } else {
            digits_int(body)
        };
        if -32768 <= v <= 32767 {
            Some(v as i16)
        } else {
            None
        }
    }
}

/// The values of an input line: segments split on single spaces, each a
/// 16-bit decimal integer.
pub open spec fn spec_parse_inputs(s: Seq<u8>) -> Option<Seq<i16>>
    decreases s.len(),
    via spec_parse_inputs_decreases
{
    let k = nonsep_run(s);
    match spec_parse_i16(s.take(k)) {
        None => None,
        Some(v) => if k == s.len() {
            Some(seq![v])
        } else {
            match spec_parse_inputs(s.skip(k + 1)) {
                Some(vs) => Some(seq![v] + vs),
                None => None,
            }
        },
    }
}

#[via_fn]
proof fn spec_parse_inputs_decreases(s: Seq<u8>) {
    lemma_nonsep_run(s);
}

/// The run up to the first space is a well-delimited prefix.
proof fn lemma_nonsep_run(s: Seq<u8>)
    ensures
        0 <= nonsep_run(s) <= s.len(),
        forall|k: int| 0 <= k < nonsep_run(s) ==> #[trigger] s[k] != 32,
        nonsep_run(s) < s.len() ==> s[nonsep_run(s)] == 32,
    decreases s.len(),
{
    if s.len() > 0 && s[0] != 32 {
        lemma_nonsep_run(s.drop_first());
        assert forall|k: int| 0 <= k < nonsep_run(s) implies #[trigger] s[k] != 32 by {
            if k > 0 {
                assert(s.drop_first()[k - 1] != 32);
            }
        }
    }
}

/// A prefix free of spaces delimited by one or by the end is the run up
/// to the first space.
proof fn lemma_nonsep_run_is(s: Seq<u8>, m: int)
    requires
        0 <= m <= s.len(),
        forall|k: int| 0 <= k < m ==> #[trigger] s[k] != 32,
        m < s.len() ==> s[m] == 32,
    ensures
        nonsep_run(s) == m,
    decreases s.len(),
{
    if m == 0 {
    } else {
        assert(s[0] != 32);
        lemma_nonsep_run_is(s.drop_first(), m - 1);
    }
}

/// What a `PRINT` list emits: each string literal's raw bytes, each
/// expression's decimal value, every element followed by one space, then
/// one newline — unless an evaluation fails, which stops the list after
/// what was already emitted.
pub open spec fn spec_print_elements(list: Seq<ElementV>, vars: Seq<i16>) -> (Seq<u8>, Result<
    (),
    Error,
>)
    decreases list.len(),
{
    if list.len() == 0 {
        (seq![10u8], Ok(()))
    } else {
        match list[0] {
            ElementV::StringLiteral(s) => {
                let rest = spec_print_elements(list.drop_first(), vars);
                (s + seq![32u8] + rest.0, rest.1)
            },
            ElementV::Expression(e) => match spec_eval_expression(e, vars) {
                Ok(v) => {
                    let rest = spec_print_elements(list.drop_first(), vars);
                    (spec_render_i16(v) + seq![32u8] + rest.0, rest.1)
                },
                Err(er) => (Seq::empty(), Err(er)),
            },
        }
    }
}

/// What `LIST` emits from slot `i` on: every stored line, in ascending
/// order, rendered with its number and followed by a newline.
pub open spec fn spec_list_output(storage: Seq<Option<LineV>>, i: int) -> Seq<u8>
    decreases storage.len() - i,
{
    if i < 0 || i >= storage.len() {
        Seq::empty()
    } else {
        (match storage[i] {
            Some(l) => spec_render_line(l) + seq![10u8],
            None => Seq::empty(),
        }) + spec_list_output(storage, i + 1)
    }
}

/// A step that changes nothing but the result.
pub open spec fn spec_no_effect(st: StateV, inputs: Seq<Seq<u8>>, result: Result<
    Flow,
    Error,
>) -> StepV {
    StepV { state: st, inputs, output: Seq::empty(), result }
}

/// The cursor advanced by one slot, saturating at the end of storage.
pub open spec fn next_pc(pc: int) -> int {
    if pc + 1 <= 256 {
        pc + 1
    } else {
        256
    }
}

/// The effect of one statement on the interpreter state.
#[verifier::opaque]
pub open spec fn spec_execute(st: StateV, stmt: StatementV, inputs: Seq<Seq<u8>>) -> StepV
    decreases stmt,
{
    match stmt {
        StatementV::Print { expression_list } => {
            let printed = spec_print_elements(expression_list, st.vars);
            StepV {
                state: st,
                inputs,
                output: printed.0,
                result: match printed.1 {
                    Ok(_) => Ok(Flow::Next),
                    Err(e) => Err(e),
                },
            }
        },
        StatementV::If { left, operator, right, then } => match spec_eval_expression(
            left,
            st.vars,
        ) {
            Err(e) => spec_no_effect(st, inputs, Err(e)),
            Ok(l) => match spec_eval_expression(right, st.vars) {
                Err(e) => spec_no_effect(st, inputs, Err(e)),
                Ok(r) => if spec_compare(operator, l, r) {
                    spec_execute(st, *then, inputs)
                } else {
                    spec_no_effect(st, inputs, Ok(Flow::Next))
                },
            },
        },
        StatementV::Goto { expression } => match spec_eval_expression(expression, st.vars) {
            Err(e) => spec_no_effect(st, inputs, Err(e)),
            Ok(v) => if !(0 <= v <= 255) {
                spec_no_effect(st, inputs, Err(Error::LineNumberOutOfRange))
            } else if st.storage[v as int] is None {
                spec_no_effect(st, inputs, Err(Error::UnknownLineNumber))
            } else {
                StepV {
                    state: StateV { pc: v as int, ..st },
                    inputs,
                    output: Seq::empty(),
                    result: Ok(Flow::Jump),
                }
            },
        },
        StatementV::Input { variable_list } => {
            if inputs.len() == 0 {
                spec_no_effect(st, inputs, Ok(Flow::NeedInput))
            } else {
                match spec_parse_inputs(spec_trim(inputs[0])) {
                    None => spec_no_effect(st, inputs.drop_first(), Err(Error::CannotParseNumber)),
                    Some(vals) => if vals.len() != variable_list.len() {
                        spec_no_effect(st, inputs.drop_first(), Err(Error::WrongUserInput))
                    } else {
                        StepV {
                            state: StateV {
                                vars: assign_vars(st.vars, variable_list, vals),
                                ..st
                            },
                            inputs: inputs.drop_first(),
                            output: Seq::empty(),
                            result: Ok(Flow::Next),
                        }
                    },
                }
            }
        },
        StatementV::Let { variable, expression } => match spec_eval_expression(
            expression,
            st.vars,
        ) {
            Err(e) => spec_no_effect(st, inputs, Err(e)),
            Ok(v) => StepV {
                state: StateV { vars: store_var(st.vars, variable, v), ..st },
                inputs,
                output: Seq::empty(),
                result: Ok(Flow::Next),
            },
        },
        StatementV::GoSub { expression } => match spec_eval_expression(expression, st.vars) {
            Err(e) => spec_no_effect(st, inputs, Err(e)),
            Ok(v) => if !(0 <= v <= 255) {
                spec_no_effect(st, inputs, Err(Error::LineNumberOutOfRange))
            } else if st.storage[v as int] is None {
                // The cursor was already saved when the jump fails: effects
                // committed before a failing step stay committed.
                spec_no_effect(
                    StateV { stack: st.stack.push(st.pc), ..st },
                    inputs,
                    Err(Error::UnknownLineNumber),
                )
            } else {
                StepV {
                    state: StateV { pc: v as int, stack: st.stack.push(st.pc), ..st },
                    inputs,
                    output: Seq::empty(),
                    result: Ok(Flow::Jump),
                }
            },
        },
        StatementV::Return => if st.stack.len() == 0 {
            StepV {
                state: StateV { pc: 256, ..st },
                inputs,
                output: Seq::empty(),
                result: Ok(Flow::Jump),
            }
        } else {
            StepV {
                state: StateV { pc: st.stack.last(), stack: st.stack.drop_last(), ..st },
                inputs,
                output: Seq::empty(),
                result: Ok(Flow::Next),
            }
        },
        StatementV::Clear => StepV {
            state: StateV { storage: Seq::new(256, |i: int| None), ..st },
            inputs,
            output: Seq::empty(),
            result: Ok(Flow::Next),
        },
        StatementV::List => StepV {
            state: st,
            inputs,
            output: spec_list_output(st.storage, 0),
            result: Ok(Flow::Next),
        },
        StatementV::Run => spec_no_effect(st, inputs, Ok(Flow::StartRun)),
        StatementV::End => spec_no_effect(st, inputs, Ok(Flow::EndRun)),
    }
}

/// A run result with earlier output put in front.
pub open spec fn prepend_output(out: Seq<u8>, r: RunV) -> RunV {
    RunV { output: out + r.output, ..r }
}

/// The effect of running the stored program from the current cursor for
/// at most `fuel` visited slots: empty slots are skipped, stored
/// statements execute and the cursor advances unless the statement moved
/// it, until the cursor leaves storage, the run ends, input is needed, an
/// error occurs, or the fuel runs out.
pub open spec fn spec_run(st: StateV, inputs: Seq<Seq<u8>>, fuel: nat) -> RunV
    decreases fuel,
{
    if st.pc < 0 || st.pc >= st.storage.len() {
        RunV { state: st, inputs, output: Seq::empty(), result: Ok(Outcome::Done) }
    } else if fuel == 0 {
        RunV { state: st, inputs, output: Seq::empty(), result: Ok(Outcome::OutOfSteps) }
    } else {
        match st.storage[st.pc] {
            None => spec_run(StateV { pc: st.pc + 1, ..st }, inputs, (fuel - 1) as nat),
            Some(line) => {
                let step = spec_execute(st, line.statement, inputs);
                match step.result {
                    Err(e) => RunV {
                        state: step.state,
                        inputs: step.inputs,
                        output: step.output,
                        result: Err(e),
                    },
                    Ok(flow) => match flow {
                        Flow::Next => prepend_output(
                            step.output,
                            spec_run(
                                StateV { pc: next_pc(step.state.pc), ..step.state },
                                step.inputs,
                                (fuel - 1) as nat,
                            ),
                        ),
                        Flow::Jump => prepend_output(
                            step.output,
                            spec_run(step.state, step.inputs, (fuel - 1) as nat),
                        ),
                        Flow::StartRun => prepend_output(
                            step.output,
                            spec_run(
                                StateV { pc: 0, ..step.state },
                                step.inputs,
                                (fuel - 1) as nat,
                            ),
                        ),
                        Flow::EndRun => RunV {
                            state: step.state,
                            inputs: step.inputs,
                            output: step.output,
                            result: Ok(Outcome::Done),
                        },
                        Flow::NeedInput => RunV {
                            state: step.state,
                            inputs: step.inputs,
                            output: step.output,
                            result: Ok(Outcome::NeedInput),
                        },
                    },
                }
            },
        }
    }
}

/// The effect of processing one line: a numbered line is stored,
/// overwriting its slot; an unnumbered line's statement runs immediately,
/// and a `RUN` it triggers is driven for at most `fuel` steps.
pub open spec fn spec_process_line(
    st: StateV,
    line: LineV,
    inputs: Seq<Seq<u8>>,
    fuel: nat,
) -> RunV {
    match line.number {
        Some(n) => RunV {
            state: StateV { storage: st.storage.update(n as int, Some(line)), ..st },
            inputs,
            output: Seq::empty(),
            result: Ok(Outcome::Done),
        },
        None => {
            let step = spec_execute(st, line.statement, inputs);
            match step.result {
                Err(e) => RunV {
                    state: step.state,
                    inputs: step.inputs,
                    output: step.output,
                    result: Err(e),
                },
                Ok(flow) => match flow {
                    Flow::StartRun => prepend_output(
                        step.output,
                        spec_run(StateV { pc: 0, ..step.state }, step.inputs, fuel),
                    ),
                    Flow::NeedInput => RunV {
                        state: step.state,
                        inputs: step.inputs,
                        output: step.output,
                        result: Ok(Outcome::NeedInput),
                    },
                    _ => RunV {
                        state: step.state,
                        inputs: step.inputs,
                        output: step.output,
                        result: Ok(Outcome::Done),
                    },
                },
            }
        },
    }
}

/// A digit sequence's value is never negative.
proof fn lemma_digits_int_nonneg(s: Seq<u8>)
    requires
        all_digits(s),
    ensures
        digits_int(s) >= 0,
    decreases s.len(),
{
    if s.len() > 0 {
        assert(all_digits(s.drop_last()));
        lemma_digits_int_nonneg(s.drop_last());
    }
}

/// Extending a digit sequence never shrinks its value.
proof fn lemma_digits_int_monotone(s: Seq<u8>, k: int)
    requires
        all_digits(s),
        0 <= k <= s.len(),
    ensures
        digits_int(s) >= digits_int(s.take(k)),
    decreases s.len() - k,
{
    if k < s.len() {
        assert(all_digits(s.take(k)));
        assert(s.take(k + 1).drop_last() =~= s.take(k));
        assert(s.take(k + 1).last() == s[k]);
        lemma_digits_int_nonneg(s.take(k));
        lemma_digits_int_monotone(s, k + 1);
    } else {
        assert(s.take(k) =~= s);
    }
}

/// The leading whitespace is a well-delimited prefix.
proof fn lemma_leading_ws_is(s: Seq<u8>, m: int)
    requires
        0 <= m <= s.len(),
        forall|k: int| 0 <= k < m ==> is_space(#[trigger] s[k]),
        m < s.len() ==> !is_space(s[m]),
    ensures
        leading_ws(s) == m,
    decreases s.len(),
{
    if m == 0 {
    } else {
        assert(is_space(s[0]));
        lemma_leading_ws_is(s.drop_first(), m - 1);
    }
}

/// The trailing whitespace is a well-delimited suffix.
proof fn lemma_trailing_ws_is(s: Seq<u8>, m: int)
    requires
        0 <= m <= s.len(),
        forall|k: int| s.len() - m <= k < s.len() ==> is_space(#[trigger] s[k]),
        m < s.len() ==> !is_space(s[s.len() - m - 1]),
    ensures
        trailing_ws(s) == m,
    decreases s.len(),
{
    if m == 0 {
    } else {
        assert(is_space(s.last()));
        lemma_trailing_ws_is(s.drop_last(), m - 1);
    }
}

/// Whether a byte is ASCII whitespace.
fn is_space_byte(c: u8) -> (r: bool)
    ensures
        r == is_space(c),
{
    c == 32 || c == 9 || c == 10 || c == 12 || c == 13
}

/// The 16-bit value of the bytes of `line` from `from` to `to`, read as
/// one decimal segment.
#[verifier::loop_isolation(false)]
fn parse_i16_range(line: &Vec<u8>, from: usize, to: usize) -> (r: Option<i16>)
    requires
        from <= to <= line.len(),
    ensures
        r == spec_parse_i16(line@.subrange(from as int, to as int)),
{
    let ghost seg = line@.subrange(from as int, to as int);
    if from == to {
        return None;
    }
    let first = line[from];
    proof {
        assert(seg[0] == line@[from as int]);
    }
    let negative = first == 45;
    let start = if first == 43 || first == 45 {
        from + 1
    } else {
        from
    };
    let ghost body = if first == 43 || first == 45 {
        seg.drop_first()
    } else {
        seg
    };
    proof {
        assert(body =~= line@.subrange(start as int, to as int));
    }
    if start == to {
        return None;
    }
    let mut acc: i32 = 0;
    let mut k = start;
    while k < to
        invariant
            start <= k <= to <= line.len(),
            body == line@.subrange(start as int, to as int),
            all_digits(body.take(k - start)),
            0 <= acc <= 32768,
            acc == digits_int(body.take(k - start)),
        decreases to - k,
    {
        let d = line[k];
        if d < 48 || d > 57 {
            proof {
                assert(body[k - start] == line@[k as int]);
                assert(!all_digits(body));
            }
            return None;
        }
        proof {
            assert(body.take(k - start + 1).drop_last() =~= body.take(k - start));
            assert(body.take(k - start + 1).last() == body[k - start]);
            assert(body[k - start] == line@[k as int]);
        }
        acc = acc * 10 + ((d - 48) as i32);
        k = k + 1;
        if acc > 32768 {
            proof {
                // Either a later byte is no digit, or the full value can
                // only grow: the segment is no 16-bit number either way.
                if all_digits(body) {
                    lemma_digits_int_monotone(body, k - start);
                }
            }
            return None;
        }
    }
    proof {
        assert(body.take(to - start) =~= body);
        assert(acc == digits_int(body));
    }
    if negative {
        Some((-acc) as i16)
    } else {
        if acc > 32767 {
            None
        } else {
            Some(acc as i16)
        }
    }
}

/// The values of one input line: trimmed of surrounding whitespace, split
/// on single spaces, each segment a 16-bit decimal integer.
fn parse_input_line(line: &Vec<u8>) -> (r: Result<Vec<i16>, Error>)
    ensures
        match r {
            Ok(v) => spec_parse_inputs(spec_trim(line@)) == Some(v@),
            Err(e) => spec_parse_inputs(spec_trim(line@)) is None && e == Error::CannotParseNumber,
        },
{
    let mut start: usize = 0;
    while start < line.len() && is_space_byte(line[start])
        invariant
            start <= line.len(),
            forall|k: int| 0 <= k < start ==> is_space(#[trigger] line@[k]),
        decreases line.len() - start,
    {
        start = start + 1;
    }
    proof {
        lemma_leading_ws_is(line@, start as int);
    }
    let mut end: usize = line.len();
    while end > start && is_space_byte(line[end - 1])
        invariant
            start <= end <= line.len(),
            forall|k: int| end <= k < line.len() ==> is_space(#[trigger] line@[k]),
        decreases end,
    {
        end = end - 1;
    }
    let ghost trimmed = spec_trim(line@);
    if start == end {
        // Nothing but whitespace: one empty segment, which is no number.
        proof {
            if start < line.len() {
                assert(is_space(line@[start as int]));
                assert(false);
            }
            assert(trimmed =~= Seq::<u8>::empty());
            assert(nonsep_run(trimmed) == 0);
            assert(spec_parse_i16(trimmed.take(0)) is None);
        }
        return Err(Error::CannotParseNumber);
    }
    proof {
        lemma_trailing_ws_is(line@, line@.len() - end);
        assert(trimmed =~= line@.subrange(start as int, end as int));
    }
    let mut values: Vec<i16> = Vec::new();
    let mut pos = start;
    proof {
        assert(trimmed.skip(0) =~= trimmed);
        if let Some(vs) = spec_parse_inputs(trimmed) {
            assert(vs =~= values@ + vs);
        }
    }
    loop
        invariant
            start <= pos <= end <= line.len(),
            start < end,
            trimmed == line@.subrange(start as int, end as int),
            trimmed == spec_trim(line@),
            ({
                let tail = spec_parse_inputs(trimmed.skip(pos - start));
                match spec_parse_inputs(trimmed) {
                    Some(vs) => tail is Some && vs == values@ + tail.unwrap(),
                    None => tail is None,
                }
            }) || (spec_parse_inputs(trimmed) is None && spec_parse_inputs(
                trimmed.skip(pos - start),
            ) is None),
        decreases end - pos,
    {
        let ghost cur = trimmed.skip(pos - start);
        let mut seg_end = pos;
        while seg_end < end && line[seg_end] != 32
            invariant
                pos <= seg_end <= end <= line.len(),
                forall|k: int| pos <= k < seg_end ==> #[trigger] line@[k] != 32,
            decreases end - seg_end,
        {
            seg_end = seg_end + 1;
        }
        proof {
            assert forall|k: int| 0 <= k < seg_end - pos implies #[trigger] cur[k] != 32 by {
                assert(cur[k] == line@[pos + k]);
            }
            if seg_end < end {
                assert(cur[seg_end - pos] == line@[seg_end as int]);
            }
            lemma_nonsep_run_is(cur, seg_end - pos);
            assert(cur.take(seg_end - pos) =~= line@.subrange(pos as int, seg_end as int));
        }
        let parsed = parse_i16_range(line, pos, seg_end);
        match parsed {
            None => {
                return Err(Error::CannotParseNumber);
            },
            Some(v) => {
                values.push(v);
                if seg_end == end {
                    proof {
                        assert(cur.len() == seg_end - pos);
                        assert(spec_parse_inputs(cur) == Some(seq![v]));
                        if let Some(vs) = spec_parse_inputs(trimmed) {
                            assert(vs == values@.drop_last() + seq![v]);
                            assert(vs =~= values@);
                        }
                    }
                    return Ok(values);
                }
                proof {
                    assert(cur.skip(seg_end - pos + 1) =~= trimmed.skip(seg_end + 1 - start));
                    assert(spec_parse_inputs(cur) == (match spec_parse_inputs(
                        trimmed.skip(seg_end + 1 - start),
                    ) {
                        Some(vs) => Some(seq![v] + vs),
                        None => None::<Seq<i16>>,
                    }));
                    if let Some(vs) = spec_parse_inputs(trimmed) {
                        if let Some(tail2) = spec_parse_inputs(trimmed.skip(seg_end + 1 - start)) {
                            assert(vs =~= values@ + tail2);
                        }
                    }
                }
                pos = seg_end + 1;
            },
        }
    }
}


/// Composing two output prefixes.
proof fn lemma_prepend_compose(a: Seq<u8>, b: Seq<u8>, r: RunV)
    ensures
        prepend_output(a, prepend_output(b, r)) == prepend_output(a + b, r),
{
    assert(a + (b + r.output) =~= (a + b) + r.output);
    assert(prepend_output(a, prepend_output(b, r)) =~= prepend_output(a + b, r));
}

/// Unfolding one exited run: the cursor left storage or the fuel is gone.
proof fn lemma_run_exit(st: StateV, ins: Seq<Seq<u8>>, fuel: nat)
    requires
        st.pc < 0 || st.pc >= st.storage.len() || fuel == 0,
    ensures
        spec_run(st, ins, fuel) == (RunV {
            state: st,
            inputs: ins,
            output: Seq::empty(),
            result: if st.pc < 0 || st.pc >= st.storage.len() {
                Ok(Outcome::Done)
            } else {
                Ok(Outcome::OutOfSteps)
            },
        }),
{
    assert(spec_run(st, ins, fuel) =~= (RunV {
        state: st,
        inputs: ins,
        output: Seq::empty(),
        result: if st.pc < 0 || st.pc >= st.storage.len() {
            Ok(Outcome::Done)
        } else {
            Ok(Outcome::OutOfSteps)
        },
    }));
}

/// Unfolding one skipped empty slot.
proof fn lemma_run_skip(st: StateV, ins: Seq<Seq<u8>>, fuel: nat)
    requires
        0 <= st.pc < st.storage.len(),
        fuel > 0,
        st.storage[st.pc] is None,
    ensures
        spec_run(st, ins, fuel) == spec_run(StateV { pc: st.pc + 1, ..st }, ins, (fuel - 1) as nat),
{
}

/// Unfolding one executed statement of a run.
proof fn lemma_run_step(st: StateV, ins: Seq<Seq<u8>>, fuel: nat)
    requires
        0 <= st.pc < st.storage.len(),
        fuel > 0,
        st.storage[st.pc] is Some,
    ensures
        ({
            let step = spec_execute(st, st.storage[st.pc].unwrap().statement, ins);
            match step.result {
                Err(e) => spec_run(st, ins, fuel) == (RunV {
                    state: step.state,
                    inputs: step.inputs,
                    output: step.output,
                    result: Err(e),
                }),
                Ok(flow) => match flow {
                    Flow::Next => spec_run(st, ins, fuel) == prepend_output(
                        step.output,
                        spec_run(
                            StateV { pc: next_pc(step.state.pc), ..step.state },
                            step.inputs,
                            (fuel - 1) as nat,
                        ),
                    ),
                    Flow::Jump => spec_run(st, ins, fuel) == prepend_output(
                        step.output,
                        spec_run(step.state, step.inputs, (fuel - 1) as nat),
                    ),
                    Flow::StartRun => spec_run(st, ins, fuel) == prepend_output(
                        step.output,
                        spec_run(StateV { pc: 0, ..step.state }, step.inputs, (fuel - 1) as nat),
                    ),
                    Flow::EndRun => spec_run(st, ins, fuel) == (RunV {
                        state: step.state,
                        inputs: step.inputs,
                        output: step.output,
                        result: Ok(Outcome::Done),
                    }),
                    Flow::NeedInput => spec_run(st, ins, fuel) == (RunV {
                        state: step.state,
                        inputs: step.inputs,
                        output: step.output,
                        result: Ok(Outcome::NeedInput),
                    }),
                },
            }
        }),
{
}

/// The views of the input queue's lines, in order.
pub open spec fn inputs_view(q: VecDeque<Vec<u8>>) -> Seq<Seq<u8>> {
    q@.map_values(|v: Vec<u8>| v@)
}

/// The views of the storage slots, in order.
pub open spec fn storage_views(s: Seq<Option<Line>>) -> Seq<Option<LineV>> {
    s.map_values(
        |ol: Option<Line>|
            match ol {
                Some(l) => Some(line_view(l)),
                None => None,
            },
    )
}

/// The fresh interpreter state: empty storage, empty call stack, cursor
/// at line 0, every variable zero.
pub open spec fn initial_state() -> StateV {
    StateV {
        storage: Seq::new(256, |i: int| None),
        stack: Seq::empty(),
        pc: 0,
        vars: Seq::new(26, |i: int| 0i16),
    }
}

/// The evaluator: the stored program, the call stack of saved cursors,
/// the execution cursor, and the 26 variables. This state lives for the
/// whole interactive session and is mutated only by statement execution.
pub struct Evaluator {
    storage: Vec<Option<Line>>,
    stack: Vec<usize>,
    program_counter: usize,
    variables: Vec<i16>,
}

impl View for Evaluator {
    type V = StateV;

    closed spec fn view(&self) -> StateV {
        StateV {
            storage: storage_views(self.storage@),
            stack: self.stack@.map_values(|x: usize| x as int),
            pc: self.program_counter as int,
            vars: self.variables@,
        }
    }
}

impl Evaluator {
    /// The evaluator's structural invariant: 256 storage slots, 26
    /// variables, the cursor and every saved cursor within storage.
    pub closed spec fn wf(self) -> bool {
        &&& self.storage@.len() == 256
        &&& self.variables@.len() == 26
        &&& self.program_counter <= 256
        &&& forall|i: int| 0 <= i < self.stack@.len() ==> #[trigger] self.stack@[i] <= 256
    }

    /// A fresh evaluator: nothing stored, every variable zero.
    pub fn new() -> (r: Self)
        ensures
            r.wf(),
            r@ == initial_state(),
    {
        let mut storage: Vec<Option<Line>> = Vec::new();
        let mut i: usize = 0;
        while i < 256
            invariant
                i <= 256,
                storage@.len() == i,
                forall|j: int| 0 <= j < i ==> storage@[j] is None,
            decreases 256 - i,
        {
            storage.push(None);
            i = i + 1;
        }
        let mut variables: Vec<i16> = Vec::new();
        let mut k: usize = 0;
        while k < 26
            invariant
                k <= 26,
                variables@.len() == k,
                forall|j: int| 0 <= j < k ==> variables@[j] == 0i16,
            decreases 26 - k,
        {
            variables.push(0);
            k = k + 1;
        }
        let r = Evaluator { storage, stack: Vec::new(), program_counter: 0, variables };
        proof {
            assert(storage_views(r.storage@) =~= Seq::new(256, |i: int| None::<LineV>));
            assert(r.variables@ =~= Seq::new(26, |i: int| 0i16));
            assert(r.stack@.map_values(|x: usize| x as int) =~= Seq::<int>::empty());
            assert(r@ =~= initial_state());
        }
        r
    }

    /// The current value of a variable.
    fn load_variable(&self, identifier: u8) -> (r: i16)
        requires
            self.wf(),
            65 <= identifier <= 90,
        ensures
            r == var_value(self@.vars, identifier),
    {
        let offset = (identifier - 65) as usize;
        self.variables[offset]
    }

    /// Store a value into a variable.
    fn store_variable(&mut self, identifier: u8, value: i16)
        requires
            old(self).wf(),
            65 <= identifier <= 90,
        ensures
            final(self).wf(),
            final(self)@ == (StateV {
                vars: store_var(old(self)@.vars, identifier, value),
                ..old(self)@
            }),
    {
        let offset = (identifier - 65) as usize;
        self.variables[offset] = value;
        proof {
            assert(self.variables@ =~= store_var(old(self).variables@, identifier, value));
            assert(self@ =~= (StateV {
                vars: store_var(old(self)@.vars, identifier, value),
                ..old(self)@
            }));
        }
    }

    /// The value of a factor under the current variables.
    fn evaluate_factor(&self, factor: &Factor) -> (r: Result<i16, Error>)
        requires
            self.wf(),
        ensures
            r == spec_eval_factor(factor@, self@.vars),
        decreases *factor, 0int,
    {
        match factor {
            Factor::Variable(variable) => Ok(self.load_variable(variable.identifier())),
            Factor::NumberLiteral(number) => Ok(number.value()),
            Factor::Expression(expression) => self.evaluate_expression(expression),
        }
    }

    /// A term's operations from index `i` on, folded onto `acc`.
    fn evaluate_operations(
        &self,
        acc: i16,
        ops: &Vec<(MultiplicativeOperator, Factor)>,
        i: usize,
    ) -> (r: Result<i16, Error>)
        requires
            self.wf(),
            i <= ops.len(),
        ensures
            r == spec_eval_operations(
                acc,
                crate::ast::factor_ops_view(ops@).skip(i as int),
                self@.vars,
            ),
        decreases ops@, ops.len() - i,
    {
        proof {
            lemma_factor_ops_view(ops@);
        }
        let ghost view = crate::ast::factor_ops_view(ops@);
        if i == ops.len() {
            proof {
                assert(view.skip(i as int) =~= Seq::<(MultiplicativeOperator, FactorV)>::empty());
            }
            Ok(acc)
        } else {
            let pair = &ops[i];
            proof {
                assert(view.skip(i as int)[0] == (pair.0, pair.1@));
                assert(view.skip(i as int).drop_first() =~= view.skip(i as int + 1));
            }
            match self.evaluate_factor(&pair.1) {
                Err(e) => Err(e),
                Ok(v) => match pair.0 {
                    MultiplicativeOperator::Multiplication => self.evaluate_operations(
                        mul16(acc, v),
                        ops,
                        i + 1,
                    ),
                    MultiplicativeOperator::Division => {
                        if v == 0 {
                            Err(Error::DivisionByZero)
                        } else {
                            self.evaluate_operations(div16(acc, v), ops, i + 1)
                        }
                    },
                },
            }
        }
    }

    /// The value of a term under the current variables.
    fn evaluate_term(&self, term: &Term) -> (r: Result<i16, Error>)
        requires
            self.wf(),
        ensures
            r == spec_eval_term(term@, self@.vars),
        decreases *term, 2int,
    {
        match self.evaluate_factor(&term.factor) {
            Err(e) => Err(e),
            Ok(v) => {
                let r = self.evaluate_operations(v, &term.operations, 0);
                proof {
                    assert(crate::ast::factor_ops_view(term.operations@).skip(0)
                        =~= crate::ast::factor_ops_view(term.operations@));
                }
                r
            },
        }
    }

    /// An expression's other terms from index `i` on, folded onto `acc`.
    fn evaluate_others(
        &self,
        acc: i16,
        others: &Vec<(AdditiveOperator, Term)>,
        i: usize,
    ) -> (r: Result<i16, Error>)
        requires
            self.wf(),
            i <= others.len(),
        ensures
            r == spec_eval_others(
                acc,
                crate::ast::term_ops_view(others@).skip(i as int),
                self@.vars,
            ),
        decreases others@, others.len() - i,
    {
        proof {
            lemma_term_ops_view(others@);
        }
        let ghost view = crate::ast::term_ops_view(others@);
        if i == others.len() {
            proof {
                assert(view.skip(i as int) =~= Seq::<(AdditiveOperator, TermV)>::empty());
            }
            Ok(acc)
        } else {
            let pair = &others[i];
            proof {
                assert(view.skip(i as int)[0] == (pair.0, pair.1@));
                assert(view.skip(i as int).drop_first() =~= view.skip(i as int + 1));
            }
            match self.evaluate_term(&pair.1) {
                Err(e) => Err(e),
                Ok(v) => match pair.0 {
                    AdditiveOperator::Addition => self.evaluate_others(add16(acc, v), others, i + 1),
                    AdditiveOperator::Subtraction => self.evaluate_others(
                        sub16(acc, v),
                        others,
                        i + 1,
                    ),
                },
            }
        }
    }

    /// The value of an expression under the current variables.
    fn evaluate_expression(&self, expression: &Expression) -> (r: Result<i16, Error>)
        requires
            self.wf(),
        ensures
            r == spec_eval_expression(expression@, self@.vars),
        decreases *expression, 4int,
    {
        match self.evaluate_term(&expression.term) {
            Err(e) => Err(e),
            Ok(first) => {
                let signed = match &expression.unary_operator {
                    Some(AdditiveOperator::Subtraction) => neg16(first),
                    _ => first,
                };
                let r = self.evaluate_others(signed, &expression.others, 0);
                proof {
                    assert(crate::ast::term_ops_view(expression.others@).skip(0)
                        =~= crate::ast::term_ops_view(expression.others@));
                }
                r
            },
        }
    }

    /// The line number a 16-bit value names, when it lies in 0 through 255.
    fn to_line_number(value: i16) -> (r: Result<u8, Error>)
        ensures
            match r {
                Ok(n) => 0 <= value <= 255 && n == value as u8,
                Err(e) => !(0 <= value <= 255) && e == Error::LineNumberOutOfRange,
            },
    {
        if 0 <= value && value <= 255 {
            Ok(value as u8)
        } else {
            Err(Error::LineNumberOutOfRange)
        }
    }

    /// Set the cursor to a stored line. Jumping to a number holding no
    /// statement is an unknown-line-number error, by the documented policy.
    fn jump(&mut self, line_number: u8) -> (r: Result<(), Error>)
        requires
            old(self).wf(),
        ensures
            final(self).wf(),
            match r {
                Ok(_) => old(self)@.storage[line_number as int] is Some && final(self)@
                    == (StateV { pc: line_number as int, ..old(self)@ }),
                Err(e) => old(self)@.storage[line_number as int] is None && e
                    == Error::UnknownLineNumber && final(self)@ == old(self)@,
            },
    {
        let idx = line_number as usize;
        if self.storage[idx].is_some() {
            self.program_counter = idx;
            proof {
                assert(self@ =~= (StateV { pc: line_number as int, ..old(self)@ }));
            }
            Ok(())
        } else {
            Err(Error::UnknownLineNumber)
        }
    }

    /// Store a numbered line, overwriting whatever its slot held.
    fn load_line(&mut self, line: Line)
        requires
            old(self).wf(),
            line.number is Some,
        ensures
            final(self).wf(),
            final(self)@ == (StateV {
                storage: old(self)@.storage.update(
                    line.number.unwrap() as int,
                    Some(line_view(line)),
                ),
                ..old(self)@
            }),
    {
        let label = match line.number {
            Some(n) => n,
            None => unreached(),
        };
        let ghost stored = line;
        self.storage[label as usize] = Some(line);
        proof {
            assert(storage_views(self.storage@) =~= old(self)@.storage.update(
                label as int,
                Some(line_view(stored)),
            ));
            assert(self@ =~= (StateV {
                storage: old(self)@.storage.update(label as int, Some(line_view(stored))),
                ..old(self)@
            }));
        }
    }

    /// 256 empty storage slots.
    fn empty_storage() -> (r: Vec<Option<Line>>)
        ensures
            r@.len() == 256,
            storage_views(r@) == Seq::new(256, |i: int| None::<LineV>),
    {
        let mut storage: Vec<Option<Line>> = Vec::new();
        let mut i: usize = 0;
        while i < 256
            invariant
                i <= 256,
                storage@.len() == i,
                forall|j: int| 0 <= j < i ==> storage@[j] is None,
            decreases 256 - i,
        {
            storage.push(None);
            i = i + 1;
        }
        proof {
            assert(storage_views(storage@) =~= Seq::new(256, |i: int| None::<LineV>));
        }
        storage
    }

    /// Emit a `PRINT` list from element `i` on: raw bytes of string
    /// literals, decimal values of expressions, each element followed by
    /// one space, a newline at the end; left to right, stopping after an
    /// evaluation error.
    fn print_elements(
        &self,
        list: &Vec<ExpressionListElement>,
        i: usize,
        output: &mut Vec<u8>,
    ) -> (r: Result<(), Error>)
        requires
            self.wf(),
            i <= list.len(),
        ensures
            ({
                let printed = spec_print_elements(elements_view(list@).skip(i as int), self@.vars);
                final(output)@ == old(output)@ + printed.0 && r == printed.1
            }),
        decreases list.len() - i,
    {
        proof {
            lemma_elements_view(list@);
        }
        let ghost view = elements_view(list@);
        if i == list.len() {
            output.push(10);
            proof {
                assert(view.skip(i as int) =~= Seq::<ElementV>::empty());
                assert(output@ =~= old(output)@ + seq![10u8]);
            }
            Ok(())
        } else {
            proof {
                assert(view.skip(i as int)[0] == list@[i as int]@);
                assert(view.skip(i as int).drop_first() =~= view.skip(i as int + 1));
            }
            match &list[i] {
                ExpressionListElement::StringLiteral(s) => {
                    append_bytes(output, &s.value);
                    output.push(32);
                },
                ExpressionListElement::Expression(e) => {
                    match self.evaluate_expression(e) {
                        Ok(v) => {
                            push_i16(v, output);
                            output.push(32);
                        },
                        Err(er) => {
                            return Err(er);
                        },
                    }
                },
            }
            let r = self.print_elements(list, i + 1, output);
            proof {
                assert(output@ =~= old(output)@ + spec_print_elements(
                    view.skip(i as int),
                    self@.vars,
                ).0);
            }
            r
        }
    }

    /// Consume one input line and assign its values positionally, or
    /// pause when no line is queued.
    fn exec_input(
        &mut self,
        variable_list: &Vec<Variable>,
        inputs: &mut VecDeque<Vec<u8>>,
    ) -> (r: Result<Flow, Error>)
        requires
            old(self).wf(),
        ensures
            final(self).wf(),
            ({
                let step = spec_execute(
                    old(self)@,
                    StatementV::Input { variable_list: variables_view(variable_list@) },
                    inputs_view(*old(inputs)),
                );
                &&& final(self)@ == step.state
                &&& inputs_view(*final(inputs)) == step.inputs
                &&& step.output == Seq::<u8>::empty()
                &&& r == step.result
            }),
    {
        proof {
            reveal(spec_execute);
        }
        if inputs.len() == 0 {
            Ok(Flow::NeedInput)
        } else {
            let line = match inputs.pop_front() {
                Some(l) => l,
                None => unreached(),
            };
            proof {
                assert(inputs_view(*inputs) =~= inputs_view(*old(inputs)).drop_first());
                assert(line@ == inputs_view(*old(inputs))[0]);
            }
            match parse_input_line(&line) {
                Err(e) => Err(e),
                Ok(nums) => {
                    if nums.len() != variable_list.len() {
                        Err(Error::WrongUserInput)
                    } else {
                        let ghost vars0 = self@.vars;
                        let ghost st0 = self@;
                        let ghost ids = variables_view(variable_list@);
                        let ghost vals = nums@;
                        proof {
                            assert(ids.len() == variable_list@.len());
                            assert(ids.skip(0) =~= ids);
                            assert(vals.skip(0) =~= vals);
                        }
                        let mut idx: usize = 0;
                        while idx < nums.len()
                            invariant
                                self.wf(),
                                idx <= nums.len(),
                                nums@ == vals,
                                ids == variables_view(variable_list@),
                                ids.len() == vals.len(),
                                nums@.len() == variable_list@.len(),
                                self@ == (StateV { vars: self@.vars, ..st0 }),
                                assign_vars(vars0, ids, vals) == assign_vars(
                                    self@.vars,
                                    ids.skip(idx as int),
                                    vals.skip(idx as int),
                                ),
                            decreases nums.len() - idx,
                        {
                            let id = variable_list[idx].identifier();
                            proof {
                                assert(ids.len() == variable_list@.len());
                                assert(ids.skip(idx as int)[0] == ids[idx as int]);
                                assert(ids[idx as int] == variable_list@[idx as int].id());
                                assert(ids.skip(idx as int).drop_first() =~= ids.skip(
                                    idx as int + 1,
                                ));
                                assert(vals.skip(idx as int).drop_first() =~= vals.skip(
                                    idx as int + 1,
                                ));
                                assert(vals.skip(idx as int)[0] == vals[idx as int]);
                            }
                            self.store_variable(id, nums[idx]);
                            idx = idx + 1;
                        }
                        proof {
                            assert(ids.skip(nums@.len() as int) =~= Seq::<u8>::empty());
                            assert(vals.skip(nums@.len() as int) =~= Seq::<i16>::empty());
                        }
                        Ok(Flow::Next)
                    }
                },
            }
        }
    }

    /// Emit every stored line in ascending order, rendered with its
    /// number and followed by a newline.
    fn exec_list(&self, output: &mut Vec<u8>)
        requires
            self.wf(),
        ensures
            final(output)@ == old(output)@ + spec_list_output(self@.storage, 0),
    {
        let ghost sv = self@.storage;
        let ghost base = old(output)@.len();
        let mut i: usize = 0;
        while i < 256
            invariant
                self.wf(),
                sv == self@.storage,
                i <= 256,
                output@.len() >= base,
                output@.subrange(0, base as int) == old(output)@,
                spec_list_output(sv, 0) == output@.skip(base as int) + spec_list_output(
                    sv,
                    i as int,
                ),
            decreases 256 - i,
        {
            match &self.storage[i] {
                Some(line) => {
                    let ghost before = output@;
                    let rendered = render_line(line);
                    append_bytes(output, &rendered);
                    output.push(10);
                    proof {
                        assert(sv[i as int] == Some(line_view(*line)));
                        assert(output@.subrange(0, base as int) =~= old(output)@);
                        assert(output@.skip(base as int) =~= before.skip(base as int) + (
                        spec_render_line(line_view(*line)) + seq![10u8]));
                        assert(spec_list_output(sv, 0) =~= output@.skip(base as int)
                            + spec_list_output(sv, i as int + 1));
                    }
                },
                None => {
                    proof {
                        assert(sv[i as int] is None);
                    }
                },
            }
            i = i + 1;
        }
        proof {
            assert(spec_list_output(sv, 256) =~= Seq::<u8>::empty());
            assert(output@ =~= old(output)@ + spec_list_output(sv, 0));
        }
    }

    /// Execute one statement against the current state: the heart of both
    /// direct mode and the `RUN` loop.
    #[verifier::loop_isolation(false)]
    #[verifier::rlimit(100)]
    fn run_direct(
        &mut self,
        statement: &Statement,
        inputs: &mut VecDeque<Vec<u8>>,
        output: &mut Vec<u8>,
    ) -> (r: Result<Flow, Error>)
        requires
            old(self).wf(),
        ensures
            final(self).wf(),
            ({
                let step = spec_execute(old(self)@, statement@, inputs_view(*old(inputs)));
                &&& final(self)@ == step.state
                &&& inputs_view(*final(inputs)) == step.inputs
                &&& final(output)@ == old(output)@ + step.output
                &&& r == step.result
            }),
        decreases *statement,
    {
        proof {
            reveal(spec_execute);
        }
        match statement {
            Statement::Print { expression_list } => {
                let r = self.print_elements(expression_list, 0, output);
                proof {
                    assert(elements_view(expression_list@).skip(0) =~= elements_view(
                        expression_list@,
                    ));
                }
                match r {
                    Ok(_) => Ok(Flow::Next),
                    Err(e) => Err(e),
                }
            },
            Statement::If { left, operator, right, then } => {
                let left_value = match self.evaluate_expression(left) {
                    Ok(v) => v,
                    Err(e) => {
                        return Err(e);
                    },
                };
                let right_value = match self.evaluate_expression(right) {
                    Ok(v) => v,
                    Err(e) => {
                        return Err(e);
                    },
                };
                let condition = match operator {
                    RelationalOperator::Equal => left_value == right_value,
                    RelationalOperator::NotEqual => left_value != right_value,
                    RelationalOperator::LessThan => left_value < right_value,
                    RelationalOperator::LessThanOrEqual => left_value <= right_value,
                    RelationalOperator::GreaterThan => left_value > right_value,
                    RelationalOperator::GreaterThanOrEqual => left_value >= right_value,
                };
                if condition {
                    self.run_direct(then, inputs, output)
                } else {
                    Ok(Flow::Next)
                }
            },
            Statement::Goto { expression } => {
                let value = match self.evaluate_expression(expression) {
                    Ok(v) => v,
                    Err(e) => {
                        return Err(e);
                    },
                };
                let line_number = match Self::to_line_number(value) {
                    Ok(n) => n,
                    Err(e) => {
                        return Err(e);
                    },
                };
                match self.jump(line_number) {
                    Ok(_) => Ok(Flow::Jump),
                    Err(e) => Err(e),
                }
            },
            Statement::Input { variable_list } => self.exec_input(variable_list, inputs),
            Statement::Let { variable, expression } => {
                let value = match self.evaluate_expression(expression) {
                    Ok(v) => v,
                    Err(e) => {
                        return Err(e);
                    },
                };
                self.store_variable(variable.identifier(), value);
                Ok(Flow::Next)
            },
            Statement::GoSub { expression } => {
                let value = match self.evaluate_expression(expression) {
                    Ok(v) => v,
                    Err(e) => {
                        return Err(e);
                    },
                };
                let line_number = match Self::to_line_number(value) {
                    Ok(n) => n,
                    Err(e) => {
                        return Err(e);
                    },
                };
                self.stack.push(self.program_counter);
                proof {
                    assert(self@.stack =~= old(self)@.stack.push(old(self)@.pc));
                    assert(self@ =~= (StateV {
                        stack: old(self)@.stack.push(old(self)@.pc),
                        ..old(self)@
                    }));
                }
                match self.jump(line_number) {
                    Ok(_) => Ok(Flow::Jump),
                    Err(e) => Err(e),
                }
            },
            Statement::Return => match self.stack.pop() {
                Some(saved) => {
                    self.program_counter = saved;
                    proof {
                        assert(old(self)@.stack.last() == saved as int);
                        assert(self@.stack =~= old(self)@.stack.drop_last());
                        assert(self@ =~= (StateV {
                            pc: old(self)@.stack.last(),
                            stack: old(self)@.stack.drop_last(),
                            ..old(self)@
                        }));
                    }
                    Ok(Flow::Next)
                },
                None => {
                    self.program_counter = 256;
                    proof {
                        assert(self@ =~= (StateV { pc: 256, ..old(self)@ }));
                    }
                    Ok(Flow::Jump)
                },
            },
            Statement::Clear => {
                let storage = Self::empty_storage();
                self.storage = storage;
                proof {
                    assert(self@ =~= (StateV {
                        storage: Seq::new(256, |i: int| None),
                        ..old(self)@
                    }));
                }
                Ok(Flow::Next)
            },
            Statement::List => {
                self.exec_list(output);
                Ok(Flow::Next)
            },
            Statement::Run => Ok(Flow::StartRun),
            Statement::End => Ok(Flow::EndRun),
        }
    }

    /// Run the stored program from the current cursor, visiting at most
    /// `fuel` slots: empty slots are skipped, stored statements execute
    /// and the cursor advances unless the statement moved it.
        #[verifier::rlimit(100)]
    #[verifier::spinoff_prover]
    fn run_indirect(
        &mut self,
        inputs: &mut VecDeque<Vec<u8>>,
        output: &mut Vec<u8>,
        fuel: u64,
    ) -> (r: Result<Outcome, Error>)
        requires
            old(self).wf(),
        ensures
            final(self).wf(),
            ({
                let rv = spec_run(old(self)@, inputs_view(*old(inputs)), fuel as nat);
                &&& final(self)@ == rv.state
                &&& inputs_view(*final(inputs)) == rv.inputs
                &&& final(output)@ == old(output)@ + rv.output
                &&& r == rv.result
            }),
    {
        let ghost st0 = old(self)@;
        let ghost in0 = inputs_view(*old(inputs));
        let ghost base = old(output)@.len();
        let mut remaining: u64 = fuel;
        proof {
            assert(output@.subrange(0, base as int) =~= old(output)@);
            assert(output@.skip(base as int) =~= Seq::<u8>::empty());
            assert(spec_run(st0, in0, fuel as nat) =~= prepend_output(
                output@.skip(base as int),
                spec_run(self@, inputs_view(*inputs), remaining as nat),
            ));
        }
        loop
            invariant
                self.wf(),
                st0 == old(self)@,
                in0 == inputs_view(*old(inputs)),
                base == old(output)@.len(),
                output@.len() >= base,
                output@.subrange(0, base as int) == old(output)@,
                spec_run(st0, in0, fuel as nat) == prepend_output(
                    output@.skip(base as int),
                    spec_run(self@, inputs_view(*inputs), remaining as nat),
                ),
            decreases remaining,
        {
            let ghost cur = self@;
            let ghost cur_in = inputs_view(*inputs);
            let ghost pre = output@.skip(base as int);
            proof {
                assert(output@ =~= output@.subrange(0, base as int) + output@.skip(base as int));
            }
            if self.program_counter >= self.storage.len() || remaining == 0 {
                proof {
                    lemma_run_exit(cur, cur_in, remaining as nat);
                    assert(pre + Seq::<u8>::empty() =~= pre);
                    assert(old(output)@ + (pre + Seq::<u8>::empty()) =~= output@);
                }
                if self.program_counter >= self.storage.len() {
                    return Ok(Outcome::Done);
                }
                return Ok(Outcome::OutOfSteps);
            }
            let pc = self.program_counter;
            let maybe: Option<Statement> = match &self.storage[pc] {
                Some(line) => Some(line.statement.clone()),
                None => None,
            };
            match maybe {
                None => {
                    proof {
                        assert(cur.storage[pc as int] is None);
                        lemma_run_skip(cur, cur_in, remaining as nat);
                    }
                    self.program_counter = pc + 1;
                    remaining = remaining - 1;
                    proof {
                        assert(self@ =~= (StateV { pc: cur.pc + 1, ..cur }));
                    }
                },
                Some(statement) => {
                    proof {
                        assert(cur.storage[pc as int] == Some(line_view(
                            self.storage@[pc as int].unwrap(),
                        )));
                        assert(statement@ == cur.storage[pc as int].unwrap().statement);
                        lemma_run_step(cur, cur_in, remaining as nat);
                    }
                    let ghost step = spec_execute(
                        cur,
                        cur.storage[pc as int].unwrap().statement,
                        cur_in,
                    );
                    let step_result = self.run_direct(&statement, inputs, output);
                    proof {
                        assert(output@.subrange(0, base as int) =~= old(output)@);
                        assert(output@.skip(base as int) =~= pre + step.output);
                    }
                    match step_result {
                        Err(e) => {
                            proof {
                                assert(old(output)@ + (pre + step.output) =~= output@);
                            }
                            return Err(e);
                        },
                        Ok(flow) => match flow {
                            Flow::Next => {
                                let npc = self.program_counter;
                                if npc < 256 {
                                    self.program_counter = npc + 1;
                                } else {
                                    self.program_counter = 256;
                                }
                                remaining = remaining - 1;
                                proof {
                                    assert(self@ =~= (StateV {
                                        pc: next_pc(step.state.pc),
                                        ..step.state
                                    }));
                                    lemma_prepend_compose(
                                        pre,
                                        step.output,
                                        spec_run(self@, inputs_view(*inputs), remaining as nat),
                                    );
                                }
                            },
                            Flow::Jump => {
                                remaining = remaining - 1;
                                proof {
                                    lemma_prepend_compose(
                                        pre,
                                        step.output,
                                        spec_run(self@, inputs_view(*inputs), remaining as nat),
                                    );
                                }
                            },
                            Flow::StartRun => {
                                self.program_counter = 0;
                                remaining = remaining - 1;
                                proof {
                                    assert(self@ =~= (StateV { pc: 0, ..step.state }));
                                    lemma_prepend_compose(
                                        pre,
                                        step.output,
                                        spec_run(self@, inputs_view(*inputs), remaining as nat),
                                    );
                                }
                            },
                            Flow::EndRun => {
                                proof {
                                    assert(old(output)@ + (pre + step.output) =~= output@);
                                }
                                return Ok(Outcome::Done);
                            },
                            Flow::NeedInput => {
                                proof {
                                    assert(old(output)@ + (pre + step.output) =~= output@);
                                }
                                return Ok(Outcome::NeedInput);
                            },
                        },
                    }
                },
            }
        }
    }

    /// Process one line: store it under its number, or execute its
    /// statement immediately, driving a `RUN` it starts for at most
    /// `fuel` steps.
    ///
    /// Everything that happens is what [`spec_process_line`] says of the
    /// old state, the line, the queued input lines and the limit: how the
    /// state changes, which input lines are consumed, exactly which bytes
    /// are appended to `output`, and the result.
    pub fn process_line(
        &mut self,
        line: Line,
        inputs: &mut VecDeque<Vec<u8>>,
        output: &mut Vec<u8>,
        fuel: u64,
    ) -> (r: Result<Outcome, Error>)
        requires
            old(self).wf(),
        ensures
            final(self).wf(),
            ({
                let rv = spec_process_line(
                    old(self)@,
                    line@,
                    inputs_view(*old(inputs)),
                    fuel as nat,
                );
                &&& final(self)@ == rv.state
                &&& inputs_view(*final(inputs)) == rv.inputs
                &&& final(output)@ == old(output)@ + rv.output
                &&& r == rv.result
            }),
    {
        if line.number.is_some() {
            self.load_line(line);
            proof {
                assert(final(output)@ =~= old(output)@ + Seq::<u8>::empty());
            }
            Ok(Outcome::Done)
        } else {
            let statement = line.statement;
            let ghost st0 = old(self)@;
            let ghost in0 = inputs_view(*old(inputs));
            let ghost step = spec_execute(st0, line@.statement, in0);
            let ghost out_mid = output@;
            match self.run_direct(&statement, inputs, output) {
                Err(e) => Err(e),
                Ok(flow) => match flow {
                    Flow::StartRun => {
                        self.program_counter = 0;
                        proof {
                            assert(self@ =~= (StateV { pc: 0, ..step.state }));
                        }
                        let r = self.run_indirect(inputs, output, fuel);
                        proof {
                            let rv = spec_run(
                                (StateV { pc: 0, ..step.state }),
                                step.inputs,
                                fuel as nat,
                            );
                            assert(output@ =~= old(output)@ + (step.output + rv.output));
                        }
                        r
                    },
                    Flow::NeedInput => Ok(Outcome::NeedInput),
                    _ => Ok(Outcome::Done),
                },
            }
        }
    }

    /// Resume the stored program from the current cursor, after input was
    /// supplied or the step limit ran out, for at most `fuel` more steps.
    pub fn resume_run(
        &mut self,
        inputs: &mut VecDeque<Vec<u8>>,
        output: &mut Vec<u8>,
        fuel: u64,
    ) -> (r: Result<Outcome, Error>)
        requires
            old(self).wf(),
        ensures
            final(self).wf(),
            ({
                let rv = spec_run(old(self)@, inputs_view(*old(inputs)), fuel as nat);
                &&& final(self)@ == rv.state
                &&& inputs_view(*final(inputs)) == rv.inputs
                &&& final(output)@ == old(output)@ + rv.output
                &&& r == rv.result
            }),
    {
        self.run_indirect(inputs, output, fuel)
    }
}

/// Append a copy of `bytes` to `out`.
fn append_bytes(out: &mut Vec<u8>, bytes: &Vec<u8>)
    ensures
        final(out)@ == old(out)@ + bytes@,
{
    let mut k: usize = 0;
    while k < bytes.len()
        invariant
            k <= bytes.len(),
            out@ == old(out)@ + bytes@.subrange(0, k as int),
        decreases bytes.len() - k,
    {
        out.push(bytes[k]);
        proof {
            assert(out@ =~= old(out)@ + bytes@.subrange(0, k as int + 1));
        }
        k = k + 1;
    }
    proof {
        assert(bytes@.subrange(0, bytes@.len() as int) =~= bytes@);
    }
}

} // verus!
