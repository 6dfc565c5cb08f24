//! General laws of the interpreter, stated and proved once and for all.
//!
//! The round-trip laws say that reading a rendered statement back gives
//! the statement it came from: its source text tokenizes to exactly its
//! tokens, and parsing those tokens reproduces it, so rendering the
//! result reproduces the text. The laws hold of every renderable and
//! lexable tree: number literals not negative (a negative literal
//! renders with a minus sign and reads back as a negated positive
//! literal), `PRINT` and `INPUT` lists not empty, variables uppercase,
//! and no double quote inside a string literal (its rendering could not
//! escape one) — all of which hold of every tree the parser produces.
//!
//! Beside them: a fresh interpreter reads every variable as zero;
//! `CLEAR` empties storage, touches nothing else, and leaves `LIST` with
//! nothing to say; and the two-line program `10 LET A=1`, `20 GOTO 10`
//! never ends a run by falling off the end, however large the step
//! limit.

use crate::ast::{
    AdditiveOperator, ElementV, ExpressionV, FactorV, LineV, MultiplicativeOperator,
    RelationalOperator, StatementV, TermV,
};
use crate::evaluator::{
    initial_state, spec_execute, spec_list_output, spec_run, var_value, Flow, Outcome, StateV,
};
use crate::parser::{
    spec_parse_expression, spec_parse_factor, spec_parse_line, spec_parse_operations,
    spec_parse_others, spec_parse_print_elements, spec_parse_statement, spec_parse_term,
    spec_parse_variable_list, ErrorV,
};
use crate::arith::{lemma_wrap16_range, wadd, wmul};
use crate::lexer::{
    digits_value, is_alnum, is_alpha, is_digit, keyword_of, lex_cons, lemma_alnum_run_is,
    lemma_digit_run_is, lemma_digits_value_push, lemma_nonquote_run_is, spec_lex, to_upper,
    upper_seq,
};
use crate::render::{
    add_op_byte, dec_digits, mul_op_byte, spec_render_element, spec_render_elements,
    spec_render_elements_tail, spec_render_expression,
    spec_render_factor, spec_render_i16, spec_render_line, spec_render_operations,
    spec_render_others, spec_render_relational, spec_render_statement, spec_render_term,
    spec_render_variables, spec_render_variables_tail,
};
use crate::token::TokenV;
use vstd::prelude::*;

verus! {

// ---------------------------------------------------------------------------
// Renderable trees
// ---------------------------------------------------------------------------

/// A factor whose rendering reads back as the same factor: its number
/// literals are not negative.
pub open spec fn renderable_factor(f: FactorV) -> bool
    decreases f,
{
    match f {
        FactorV::Variable(_) => true,
        FactorV::NumberLiteral(v) => v >= 0,
        FactorV::Expression(e) => renderable_expression(*e),
    }
}

pub open spec fn renderable_operations(s: Seq<(MultiplicativeOperator, FactorV)>) -> bool
    decreases s,
{
    s.len() == 0 || (renderable_factor(s[0].1) && renderable_operations(s.drop_first()))
}

pub open spec fn renderable_term(t: TermV) -> bool
    decreases t,
{
    renderable_factor(t.factor) && renderable_operations(t.operations)
}

pub open spec fn renderable_others(s: Seq<(AdditiveOperator, TermV)>) -> bool
    decreases s,
{
    s.len() == 0 || (renderable_term(s[0].1) && renderable_others(s.drop_first()))
}

pub open spec fn renderable_expression(e: ExpressionV) -> bool
    decreases e,
{
    renderable_term(e.term) && renderable_others(e.others)
}

pub open spec fn renderable_element(e: ElementV) -> bool
    decreases e,
{
    match e {
        ElementV::StringLiteral(_) => true,
        ElementV::Expression(ex) => renderable_expression(ex),
    }
}

pub open spec fn renderable_elements(s: Seq<ElementV>) -> bool
    decreases s,
{
    s.len() == 0 || (renderable_element(s[0]) && renderable_elements(s.drop_first()))
}

/// A statement whose rendering reads back as the same statement: number
/// literals not negative, `PRINT` and `INPUT` lists not empty.
pub open spec fn renderable_statement(st: StatementV) -> bool
    decreases st,
{
    match st {
        StatementV::Print { expression_list } => expression_list.len() > 0 && renderable_elements(
            expression_list,
        ),
        StatementV::If { left, operator, right, then } => renderable_expression(left)
            && renderable_expression(right) && renderable_statement(*then),
        StatementV::Goto { expression } => renderable_expression(expression),
        StatementV::Input { variable_list } => variable_list.len() > 0,
        StatementV::Let { variable, expression } => renderable_expression(expression),
        StatementV::GoSub { expression } => renderable_expression(expression),
        StatementV::Return => true,
        StatementV::Clear => true,
        StatementV::List => true,
        StatementV::Run => true,
        StatementV::End => true,
    }
}

pub open spec fn renderable_line(l: LineV) -> bool {
    renderable_statement(l.statement)
}

// ---------------------------------------------------------------------------
// The tokens a tree renders to
// ---------------------------------------------------------------------------

/// The token a relational operator renders to.
pub open spec fn relational_token(op: RelationalOperator) -> TokenV {
    match op {
        RelationalOperator::Equal => TokenV::Equal,
        RelationalOperator::NotEqual => TokenV::NotEqual,
        RelationalOperator::LessThan => TokenV::LessThan,
        RelationalOperator::LessThanOrEqual => TokenV::LessThanOrEqual,
        RelationalOperator::GreaterThan => TokenV::GreaterThan,
        RelationalOperator::GreaterThanOrEqual => TokenV::GreaterThanOrEqual,
    }
}

/// The token a multiplicative operator renders to.
pub open spec fn mul_token(op: MultiplicativeOperator) -> TokenV {
    match op {
        MultiplicativeOperator::Multiplication => TokenV::Multiply,
        MultiplicativeOperator::Division => TokenV::Divide,
    }
}

/// The token an additive operator renders to.
pub open spec fn add_token(op: AdditiveOperator) -> TokenV {
    match op {
        AdditiveOperator::Addition => TokenV::Plus,
        AdditiveOperator::Subtraction => TokenV::Minus,
    }
}

/// The tokens a factor renders to.
pub open spec fn factor_tokens(f: FactorV) -> Seq<TokenV>
    decreases f,
{
    match f {
        FactorV::Variable(id) => seq![TokenV::Variable(id)],
        FactorV::NumberLiteral(v) => seq![TokenV::NumberLiteral(v)],
        FactorV::Expression(e) => seq![TokenV::OpeningParenthesis] + expression_tokens(*e) + seq![
            TokenV::ClosingParenthesis,
        ],
    }
}

/// The tokens a term's trailing operations render to.
pub open spec fn operations_tokens(s: Seq<(MultiplicativeOperator, FactorV)>) -> Seq<TokenV>
    decreases s,
{
    if s.len() == 0 {
        Seq::empty()
    } else {
        seq![mul_token(s[0].0)] + factor_tokens(s[0].1) + operations_tokens(s.drop_first())
    }
}

/// The tokens a term renders to.
pub open spec fn term_tokens(t: TermV) -> Seq<TokenV>
    decreases t,
{
    factor_tokens(t.factor) + operations_tokens(t.operations)
}

/// The tokens an expression's trailing terms render to.
pub open spec fn others_tokens(s: Seq<(AdditiveOperator, TermV)>) -> Seq<TokenV>
    decreases s,
{
    if s.len() == 0 {
        Seq::empty()
    } else {
        seq![add_token(s[0].0)] + term_tokens(s[0].1) + others_tokens(s.drop_first())
    }
}

/// The tokens an expression renders to.
pub open spec fn expression_tokens(e: ExpressionV) -> Seq<TokenV>
    decreases e,
{
    (match e.unary_operator {
        Some(op) => seq![add_token(op)],
        None => Seq::empty(),
    }) + term_tokens(e.term) + others_tokens(e.others)
}

/// The tokens a `PRINT` element renders to.
pub open spec fn element_tokens(e: ElementV) -> Seq<TokenV>
    decreases e,
{
    match e {
        ElementV::StringLiteral(s) => seq![TokenV::StringLiteral(s)],
        ElementV::Expression(ex) => expression_tokens(ex),
    }
}

/// The tokens a `PRINT` list renders to, separated by commas.
pub open spec fn elements_tokens(s: Seq<ElementV>) -> Seq<TokenV>
    decreases s,
{
    if s.len() == 0 {
        Seq::empty()
    } else if s.len() == 1 {
        element_tokens(s[0])
    } else {
        element_tokens(s[0]) + seq![TokenV::Comma] + elements_tokens(s.drop_first())
    }
}

/// The tokens an `INPUT` variable list renders to, separated by commas.
pub open spec fn variables_tokens(ids: Seq<u8>) -> Seq<TokenV>
    decreases ids.len(),
{
    if ids.len() == 0 {
        Seq::empty()
    } else if ids.len() == 1 {
        seq![TokenV::Variable(ids[0])]
    } else {
        seq![TokenV::Variable(ids[0]), TokenV::Comma] + variables_tokens(ids.drop_first())
    }
}

/// The tokens a statement renders to.
pub open spec fn statement_tokens(st: StatementV) -> Seq<TokenV>
    decreases st,
{
    match st {
        StatementV::Print { expression_list } => seq![TokenV::Print] + elements_tokens(
            expression_list,
        ),
        StatementV::If { left, operator, right, then } => seq![TokenV::If] + expression_tokens(
            left,
        ) + seq![relational_token(operator)] + expression_tokens(right) + seq![TokenV::Then]
            + statement_tokens(*then),
        StatementV::Goto { expression } => seq![TokenV::Goto] + expression_tokens(expression),
        StatementV::Input { variable_list } => seq![TokenV::Input] + variables_tokens(
            variable_list,
        ),
        StatementV::Let { variable, expression } => seq![
            TokenV::Let,
            TokenV::Variable(variable),
            TokenV::Equal,
        ] + expression_tokens(expression),
        StatementV::GoSub { expression } => seq![TokenV::GoSub] + expression_tokens(expression),
        StatementV::Return => seq![TokenV::Return],
        StatementV::Clear => seq![TokenV::Clear],
        StatementV::List => seq![TokenV::List],
        StatementV::Run => seq![TokenV::Run],
        StatementV::End => seq![TokenV::End],
    }
}

/// The tokens a line renders to.
pub open spec fn line_tokens(l: LineV) -> Seq<TokenV> {
    (match l.number {
        Some(n) => seq![TokenV::NumberLiteral(n as i16)],
        None => Seq::empty(),
    }) + statement_tokens(l.statement)
}

// ---------------------------------------------------------------------------
// The parser inverts token rendering
// ---------------------------------------------------------------------------

/// Tokens that may follow a term without being swallowed into it.
pub open spec fn term_follow_ok(rest: Seq<TokenV>) -> bool {
    rest.len() == 0 || (rest[0] != TokenV::Multiply && rest[0] != TokenV::Divide)
}

/// Tokens that may follow an expression without being swallowed into it.
pub open spec fn expression_follow_ok(rest: Seq<TokenV>) -> bool {
    rest.len() == 0 || (rest[0] != TokenV::Plus && rest[0] != TokenV::Minus && rest[0]
        != TokenV::Multiply && rest[0] != TokenV::Divide)
}

/// Tokens that may follow a statement without being swallowed into it.
pub open spec fn statement_follow_ok(rest: Seq<TokenV>) -> bool {
    rest.len() == 0 || (rest[0] != TokenV::Comma && rest[0] != TokenV::Plus && rest[0]
        != TokenV::Minus && rest[0] != TokenV::Multiply && rest[0] != TokenV::Divide)
}

/// A factor renders to at least one token, and never to a leading sign
/// or operator.
proof fn lemma_factor_tokens_head(f: FactorV)
    ensures
        factor_tokens(f).len() >= 1,
        factor_tokens(f)[0] != TokenV::Plus,
        factor_tokens(f)[0] != TokenV::Minus,
        factor_tokens(f)[0] != TokenV::Multiply,
        factor_tokens(f)[0] != TokenV::Divide,
        factor_tokens(f)[0] != TokenV::Comma,
{
}

/// Parsing the tokens of a factor gives the factor back.
proof fn lemma_parse_factor_tokens(f: FactorV, rest: Seq<TokenV>)
    requires
        renderable_factor(f),
    ensures
        spec_parse_factor(factor_tokens(f) + rest) == Ok::<(FactorV, Seq<TokenV>), ErrorV>(
            (f, rest),
        ),
    decreases f, 0int,
{
    let ts = factor_tokens(f) + rest;
    match f {
        FactorV::Variable(id) => {
            assert(ts[0] == TokenV::Variable(id));
            assert(ts.drop_first() =~= rest);
        },
        FactorV::NumberLiteral(v) => {
            assert(ts[0] == TokenV::NumberLiteral(v));
            assert(ts.drop_first() =~= rest);
        },
        FactorV::Expression(e) => {
            let inner = seq![TokenV::ClosingParenthesis] + rest;
            assert(ts[0] == TokenV::OpeningParenthesis);
            assert(ts.drop_first() =~= expression_tokens(*e) + inner);
            lemma_parse_expression_tokens(*e, inner);
            assert(inner[0] == TokenV::ClosingParenthesis);
            assert(inner.drop_first() =~= rest);
        },
    }
}

/// Parsing the tokens of a term's operations gives them back.
proof fn lemma_parse_operations_tokens(s: Seq<(MultiplicativeOperator, FactorV)>, rest: Seq<TokenV>)
    requires
        renderable_operations(s),
        term_follow_ok(rest),
    ensures
        spec_parse_operations(operations_tokens(s) + rest) == Ok::<
            (Seq<(MultiplicativeOperator, FactorV)>, Seq<TokenV>),
            ErrorV,
        >((s, rest)),
    decreases s, 1int,
{
    let ts = operations_tokens(s) + rest;
    if s.len() == 0 {
        assert(ts =~= rest);
        assert(spec_parse_operations(rest) == Ok::<
            (Seq<(MultiplicativeOperator, FactorV)>, Seq<TokenV>),
            ErrorV,
        >((Seq::empty(), rest)));
        assert(s =~= Seq::<(MultiplicativeOperator, FactorV)>::empty());
    } else {
        let tail = operations_tokens(s.drop_first()) + rest;
        assert(ts[0] == mul_token(s[0].0));
        assert(ts.drop_first() =~= factor_tokens(s[0].1) + tail);
        lemma_parse_factor_tokens(s[0].1, tail);
        lemma_factor_tokens_head(s[0].1);
        assert(tail.len() < ts.len());
        lemma_parse_operations_tokens(s.drop_first(), rest);
        assert(seq![(s[0].0, s[0].1)] + s.drop_first() =~= s);
    }
}

/// Parsing the tokens of a term gives the term back.
proof fn lemma_parse_term_tokens(t: TermV, rest: Seq<TokenV>)
    requires
        renderable_term(t),
        term_follow_ok(rest),
    ensures
        spec_parse_term(term_tokens(t) + rest) == Ok::<(TermV, Seq<TokenV>), ErrorV>((t, rest)),
    decreases t, 2int,
{
    let ts = term_tokens(t) + rest;
    let mid = operations_tokens(t.operations) + rest;
    assert(ts =~= factor_tokens(t.factor) + mid);
    lemma_parse_factor_tokens(t.factor, mid);
    lemma_factor_tokens_head(t.factor);
    assert(mid.len() < ts.len());
    if t.operations.len() > 0 {
        lemma_factor_tokens_head(t.operations[0].1);
    }
    lemma_parse_operations_tokens(t.operations, rest);
    assert((TermV { factor: t.factor, operations: t.operations }) =~= t);
}

/// Parsing the tokens of an expression's other terms gives them back.
proof fn lemma_parse_others_tokens(s: Seq<(AdditiveOperator, TermV)>, rest: Seq<TokenV>)
    requires
        renderable_others(s),
        expression_follow_ok(rest),
    ensures
        spec_parse_others(others_tokens(s) + rest) == Ok::<
            (Seq<(AdditiveOperator, TermV)>, Seq<TokenV>),
            ErrorV,
        >((s, rest)),
    decreases s, 3int,
{
    let ts = others_tokens(s) + rest;
    if s.len() == 0 {
        assert(ts =~= rest);
        assert(spec_parse_others(rest) == Ok::<
            (Seq<(AdditiveOperator, TermV)>, Seq<TokenV>),
            ErrorV,
        >((Seq::empty(), rest)));
        assert(s =~= Seq::<(AdditiveOperator, TermV)>::empty());
    } else {
        let tail = others_tokens(s.drop_first()) + rest;
        assert(ts[0] == add_token(s[0].0));
        assert(ts.drop_first() =~= term_tokens(s[0].1) + tail);
        assert(term_follow_ok(tail)) by {
            if s.drop_first().len() > 0 {
                assert(tail[0] == add_token(s.drop_first()[0].0));
            } else {
                assert(tail =~= rest);
            }
        }
        lemma_parse_term_tokens(s[0].1, tail);
        lemma_factor_tokens_head(s[0].1.factor);
        assert(tail.len() < ts.len());
        lemma_parse_others_tokens(s.drop_first(), rest);
        assert(seq![(s[0].0, s[0].1)] + s.drop_first() =~= s);
    }
}

/// Parsing the tokens of an expression gives the expression back.
proof fn lemma_parse_expression_tokens(e: ExpressionV, rest: Seq<TokenV>)
    requires
        renderable_expression(e),
        expression_follow_ok(rest),
    ensures
        spec_parse_expression(expression_tokens(e) + rest) == Ok::<
            (ExpressionV, Seq<TokenV>),
            ErrorV,
        >((e, rest)),
    decreases e, 4int,
{
    let ts = expression_tokens(e) + rest;
    let mid = others_tokens(e.others) + rest;
    assert(term_follow_ok(mid)) by {
        if e.others.len() > 0 {
            assert(mid[0] == add_token(e.others[0].0));
        } else {
            assert(mid =~= rest);
        }
    }
    lemma_factor_tokens_head(e.term.factor);
    match e.unary_operator {
        Some(op) => {
            assert(ts[0] == add_token(op));
            assert(ts.drop_first() =~= term_tokens(e.term) + mid);
            lemma_parse_term_tokens(e.term, mid);
            assert(mid.len() < ts.len());
            lemma_parse_others_tokens(e.others, rest);
            assert((ExpressionV {
                unary_operator: e.unary_operator,
                term: e.term,
                others: e.others,
            }) =~= e);
        },
        None => {
            assert(ts =~= term_tokens(e.term) + mid);
            assert(ts[0] == factor_tokens(e.term.factor)[0]);
            lemma_parse_term_tokens(e.term, mid);
            assert(mid.len() < ts.len());
            lemma_parse_others_tokens(e.others, rest);
            assert((ExpressionV {
                unary_operator: e.unary_operator,
                term: e.term,
                others: e.others,
            }) =~= e);
        },
    }
}

/// Parsing the tokens of a `PRINT` list gives the list back.
proof fn lemma_parse_elements_tokens(s: Seq<ElementV>, rest: Seq<TokenV>)
    requires
        renderable_elements(s),
        s.len() > 0,
        statement_follow_ok(rest),
    ensures
        spec_parse_print_elements(elements_tokens(s) + rest) == Ok::<
            (Seq<ElementV>, Seq<TokenV>),
            ErrorV,
        >((s, rest)),
    decreases s, 5int,
{
    let ts = elements_tokens(s) + rest;
    if s.len() == 1 {
        assert(ts =~= element_tokens(s[0]) + rest);
        match s[0] {
            ElementV::StringLiteral(str) => {
                assert(ts[0] == TokenV::StringLiteral(str));
                assert(ts.drop_first() =~= rest);
            },
            ElementV::Expression(ex) => {
                lemma_factor_tokens_head(ex.term.factor);
                if ex.unary_operator is None {
                    assert(ts[0] == factor_tokens(ex.term.factor)[0]);
                }
                lemma_parse_expression_tokens(ex, rest);
            },
        }
        assert(seq![s[0]] =~= s);
    } else {
        let tail = seq![TokenV::Comma] + (elements_tokens(s.drop_first()) + rest);
        assert(ts =~= element_tokens(s[0]) + tail);
        match s[0] {
            ElementV::StringLiteral(str) => {
                assert(ts[0] == TokenV::StringLiteral(str));
                assert(ts.drop_first() =~= tail);
            },
            ElementV::Expression(ex) => {
                lemma_factor_tokens_head(ex.term.factor);
                if ex.unary_operator is None {
                    assert(ts[0] == factor_tokens(ex.term.factor)[0]);
                }
                lemma_parse_expression_tokens(ex, tail);
            },
        }
        assert(tail[0] == TokenV::Comma);
        assert(tail.len() < ts.len());
        assert(tail.drop_first() =~= elements_tokens(s.drop_first()) + rest);
        lemma_parse_elements_tokens(s.drop_first(), rest);
        assert(seq![s[0]] + s.drop_first() =~= s);
    }
}

/// Parsing the tokens of an `INPUT` variable list gives it back.
proof fn lemma_parse_variables_tokens(ids: Seq<u8>, rest: Seq<TokenV>)
    requires
        ids.len() > 0,
        rest.len() == 0 || rest[0] != TokenV::Comma,
    ensures
        spec_parse_variable_list(variables_tokens(ids) + rest) == Ok::<
            (Seq<u8>, Seq<TokenV>),
            ErrorV,
        >((ids, rest)),
    decreases ids.len(),
{
    let ts = variables_tokens(ids) + rest;
    assert(ts[0] == TokenV::Variable(ids[0]));
    if ids.len() == 1 {
        assert(ts.drop_first() =~= rest);
        assert(seq![ids[0]] =~= ids);
    } else {
        assert(ts.drop_first() =~= seq![TokenV::Comma] + (variables_tokens(ids.drop_first())
            + rest));
        assert(ts.drop_first()[0] == TokenV::Comma);
        assert(ts.drop_first().drop_first() =~= variables_tokens(ids.drop_first()) + rest);
        lemma_parse_variables_tokens(ids.drop_first(), rest);
        assert(seq![ids[0]] + ids.drop_first() =~= ids);
    }
}

/// Parsing the tokens of a statement gives the statement back.
#[verifier::rlimit(100)]
proof fn lemma_parse_statement_tokens(st: StatementV, rest: Seq<TokenV>)
    requires
        renderable_statement(st),
        statement_follow_ok(rest),
    ensures
        spec_parse_statement(statement_tokens(st) + rest) == Ok::<
            (StatementV, Seq<TokenV>),
            ErrorV,
        >((st, rest)),
    decreases st,
{
    let ts = statement_tokens(st) + rest;
    match st {
        StatementV::Print { expression_list } => {
            assert(ts[0] == TokenV::Print);
            assert(ts.drop_first() =~= elements_tokens(expression_list) + rest);
            lemma_parse_elements_tokens(expression_list, rest);
        },
        StatementV::If { left, operator, right, then } => {
            let after_left = seq![relational_token(operator)] + expression_tokens(right) + seq![
                TokenV::Then,
            ] + statement_tokens(*then) + rest;
            let after_right = seq![TokenV::Then] + statement_tokens(*then) + rest;
            let after_then = statement_tokens(*then) + rest;
            assert(ts[0] == TokenV::If);
            assert(ts.drop_first() =~= expression_tokens(left) + after_left);
            lemma_parse_expression_tokens(left, after_left);
            assert(after_left[0] == relational_token(operator));
            assert(crate::parser::spec_relational(relational_token(operator)) == Some(operator));
            assert(after_left.drop_first() =~= expression_tokens(right) + after_right);
            assert(after_left.len() < ts.len());
            lemma_parse_expression_tokens(right, after_right);
            assert(after_right[0] == TokenV::Then);
            assert(after_right.len() < ts.len());
            assert(after_right.drop_first() =~= after_then);
            lemma_parse_statement_tokens(*then, rest);
        },
        StatementV::Goto { expression } => {
            assert(ts[0] == TokenV::Goto);
            assert(ts.drop_first() =~= expression_tokens(expression) + rest);
            lemma_parse_expression_tokens(expression, rest);
        },
        StatementV::Input { variable_list } => {
            assert(ts[0] == TokenV::Input);
            assert(ts.drop_first() =~= variables_tokens(variable_list) + rest);
            lemma_parse_variables_tokens(variable_list, rest);
        },
        StatementV::Let { variable, expression } => {
            assert(ts[0] == TokenV::Let);
            assert(ts[1] == TokenV::Variable(variable));
            assert(ts[2] == TokenV::Equal);
            assert(ts.drop_first()[0] == TokenV::Variable(variable));
            assert(ts.drop_first().drop_first()[0] == TokenV::Equal);
            assert(ts.drop_first().drop_first().drop_first() =~= expression_tokens(expression)
                + rest);
            lemma_parse_expression_tokens(expression, rest);
        },
        StatementV::GoSub { expression } => {
            assert(ts[0] == TokenV::GoSub);
            assert(ts.drop_first() =~= expression_tokens(expression) + rest);
            lemma_parse_expression_tokens(expression, rest);
        },
        StatementV::Return => {
            assert(ts[0] == TokenV::Return);
            assert(ts.drop_first() =~= rest);
        },
        StatementV::Clear => {
            assert(ts[0] == TokenV::Clear);
            assert(ts.drop_first() =~= rest);
        },
        StatementV::List => {
            assert(ts[0] == TokenV::List);
            assert(ts.drop_first() =~= rest);
        },
        StatementV::Run => {
            assert(ts[0] == TokenV::Run);
            assert(ts.drop_first() =~= rest);
        },
        StatementV::End => {
            assert(ts[0] == TokenV::End);
            assert(ts.drop_first() =~= rest);
        },
    }
}

/// Round trip for statements: parsing the tokens a renderable statement
/// renders to gives the statement back, with no tokens left over.
pub proof fn lemma_statement_round_trip(st: StatementV)
    requires
        renderable_statement(st),
    ensures
        spec_parse_statement(statement_tokens(st)) == Ok::<(StatementV, Seq<TokenV>), ErrorV>(
            (st, Seq::empty()),
        ),
{
    lemma_parse_statement_tokens(st, Seq::empty());
    assert(statement_tokens(st) + Seq::<TokenV>::empty() =~= statement_tokens(st));
}

/// Round trip for lines: parsing the tokens a renderable line renders to
/// gives the line back, its number included.
pub proof fn lemma_line_round_trip(l: LineV)
    requires
        renderable_line(l),
    ensures
        spec_parse_line(line_tokens(l)) == Ok::<LineV, ErrorV>(l),
{
    let ts = line_tokens(l);
    match l.number {
        Some(n) => {
            assert(ts[0] == TokenV::NumberLiteral(n as i16));
            assert(ts.drop_first() =~= statement_tokens(l.statement));
            lemma_statement_round_trip(l.statement);
            assert((LineV { number: Some((n as i16) as u8), statement: l.statement }) =~= l);
        },
        None => {
            assert(ts =~= statement_tokens(l.statement));
            lemma_statement_round_trip(l.statement);
            if ts.len() > 0 && ts[0] is NumberLiteral {
                assert(false);
            }
            assert((LineV { number: None, statement: l.statement }) =~= l);
        },
    }
}

/// An uninitialized variable evaluates to zero: in a fresh interpreter
/// state, every variable `A` through `Z` reads as zero.
pub proof fn lemma_fresh_variable_zero(id: u8)
    requires
        65 <= id <= 90,
    ensures
        var_value(initial_state().vars, id) == 0,
        crate::evaluator::spec_eval_factor(FactorV::Variable(id), initial_state().vars) == Ok::<
            i16,
            crate::evaluator::Error,
        >(0),
{
}

/// Storage holding no line from slot `i` on lists nothing.
proof fn lemma_list_output_empty(storage: Seq<Option<LineV>>, i: int)
    requires
        forall|j: int| 0 <= j < storage.len() ==> storage[j] is None,
    ensures
        spec_list_output(storage, i) == Seq::<u8>::empty(),
    decreases storage.len() - i,
{
    if 0 <= i < storage.len() {
        lemma_list_output_empty(storage, i + 1);
        assert(spec_list_output(storage, i) =~= Seq::<u8>::empty());
    }
}

/// `CLEAR` removes every stored line and leaves the variables, the call
/// stack and the cursor untouched; a `LIST` right after it emits nothing.
pub proof fn lemma_clear_then_list(st: StateV, inputs: Seq<Seq<u8>>)
    ensures
        ({
            let step = spec_execute(st, StatementV::Clear, inputs);
            &&& step.state.vars == st.vars
            &&& step.state.stack == st.stack
            &&& step.state.pc == st.pc
            &&& forall|i: int| 0 <= i < step.state.storage.len() ==> step.state.storage[i] is None
            &&& step.output == Seq::<u8>::empty()
            &&& step.result == Ok::<Flow, crate::evaluator::Error>(Flow::Next)
            &&& spec_execute(step.state, StatementV::List, step.inputs).output == Seq::<
                u8,
            >::empty()
        }),
{
    reveal(spec_execute);
    let step = spec_execute(st, StatementV::Clear, inputs);
    lemma_list_output_empty(step.state.storage, 0);
}

/// The expression consisting of the single number literal `v`.
pub open spec fn literal_expression(v: i16) -> ExpressionV {
    ExpressionV {
        unary_operator: None,
        term: TermV { factor: FactorV::NumberLiteral(v), operations: Seq::empty() },
        others: Seq::empty(),
    }
}

/// The stored program `10 LET A=1`, `20 GOTO 10` and nothing else.
pub open spec fn endless_program() -> Seq<Option<LineV>> {
    Seq::new(
        256,
        |i: int|
            if i == 10 {
                Some(
                    LineV {
                        number: Some(10u8),
                        statement: StatementV::Let { variable: 65, expression: literal_expression(1) },
                    },
                )
            } else if i == 20 {
                Some(
                    LineV {
                        number: Some(20u8),
                        statement: StatementV::Goto { expression: literal_expression(10) },
                    },
                )
            } else {
                None
            },
    )
}

/// The program `10 LET A=1`, `20 GOTO 10` never terminates by falling off
/// the end: however large the step limit, a run inside it always stops
/// with the limit, never by completing.
pub proof fn lemma_endless_program_never_falls_off(st: StateV, inputs: Seq<Seq<u8>>, fuel: nat)
    requires
        st.storage == endless_program(),
        0 <= st.pc <= 20,
    ensures
        spec_run(st, inputs, fuel).result == Ok::<Outcome, crate::evaluator::Error>(
            Outcome::OutOfSteps,
        ),
    decreases fuel,
{
    reveal(spec_execute);
    if fuel == 0 {
    } else if st.pc == 10 {
        let step = spec_execute(st, st.storage[10].unwrap().statement, inputs);
        assert(step.result == Ok::<Flow, crate::evaluator::Error>(Flow::Next));
        assert(step.state.pc == 10);
        lemma_endless_program_never_falls_off(
            StateV { pc: 11, ..step.state },
            step.inputs,
            (fuel - 1) as nat,
        );
    } else if st.pc == 20 {
        let step = spec_execute(st, st.storage[20].unwrap().statement, inputs);
        assert(st.storage[10] is Some);
        assert(step.result == Ok::<Flow, crate::evaluator::Error>(Flow::Jump));
        assert(step.state.pc == 10);
        lemma_endless_program_never_falls_off(step.state, step.inputs, (fuel - 1) as nat);
    } else {
        assert(st.storage[st.pc] is None);
        lemma_endless_program_never_falls_off(
            StateV { pc: st.pc + 1, ..st },
            inputs,
            (fuel - 1) as nat,
        );
    }
}

// ---------------------------------------------------------------------------
// The lexer inverts byte rendering
// ---------------------------------------------------------------------------

/// A factor whose rendered text reads back as the same tokens: its
/// variables are uppercase letters.
pub open spec fn lexable_factor(f: FactorV) -> bool
    decreases f,
{
    match f {
        FactorV::Variable(id) => 65 <= id <= 90,
        FactorV::NumberLiteral(_) => true,
        FactorV::Expression(e) => lexable_expression(*e),
    }
}

pub open spec fn lexable_operations(s: Seq<(MultiplicativeOperator, FactorV)>) -> bool
    decreases s,
{
    s.len() == 0 || (lexable_factor(s[0].1) && lexable_operations(s.drop_first()))
}

pub open spec fn lexable_term(t: TermV) -> bool
    decreases t,
{
    lexable_factor(t.factor) && lexable_operations(t.operations)
}

pub open spec fn lexable_others(s: Seq<(AdditiveOperator, TermV)>) -> bool
    decreases s,
{
    s.len() == 0 || (lexable_term(s[0].1) && lexable_others(s.drop_first()))
}

pub open spec fn lexable_expression(e: ExpressionV) -> bool
    decreases e,
{
    lexable_term(e.term) && lexable_others(e.others)
}

/// An element whose rendered text reads back as the same tokens: a string
/// literal holds no double quote, which its rendering could not escape.
pub open spec fn lexable_element(e: ElementV) -> bool
    decreases e,
{
    match e {
        ElementV::StringLiteral(s) => forall|i: int| 0 <= i < s.len() ==> #[trigger] s[i] != 34,
        ElementV::Expression(ex) => lexable_expression(ex),
    }
}

pub open spec fn lexable_elements(s: Seq<ElementV>) -> bool
    decreases s,
{
    s.len() == 0 || (lexable_element(s[0]) && lexable_elements(s.drop_first()))
}

/// A statement whose rendered text reads back as the same tokens: its
/// variables are uppercase letters and its string literals hold no double
/// quote.
pub open spec fn lexable_statement(st: StatementV) -> bool
    decreases st,
{
    match st {
        StatementV::Print { expression_list } => lexable_elements(expression_list),
        StatementV::If { left, operator, right, then } => lexable_expression(left)
            && lexable_expression(right) && lexable_statement(*then),
        StatementV::Goto { expression } => lexable_expression(expression),
        StatementV::Input { variable_list } => forall|i: int|
            0 <= i < variable_list.len() ==> 65 <= #[trigger] variable_list[i] <= 90,
        StatementV::Let { variable, expression } => 65 <= variable <= 90 && lexable_expression(
            expression,
        ),
        StatementV::GoSub { expression } => lexable_expression(expression),
        StatementV::Return => true,
        StatementV::Clear => true,
        StatementV::List => true,
        StatementV::Run => true,
        StatementV::End => true,
    }
}

pub open spec fn lexable_line(l: LineV) -> bool {
    lexable_statement(l.statement)
}

/// Text that may follow a rendered piece without running into it: empty,
/// or starting with anything but a letter or digit.
pub open spec fn text_boundary_ok(t: Seq<u8>) -> bool {
    t.len() == 0 || !is_alnum(t[0])
}

/// Glue a token sequence onto the front of a lexing result.
pub open spec fn lex_append(ts: Seq<TokenV>, rest: Result<Seq<TokenV>, crate::lexer::Error>) -> Result<
    Seq<TokenV>,
    crate::lexer::Error,
> {
    match rest {
        Ok(more) => Ok(ts + more),
        Err(e) => Err(e),
    }
}

proof fn lemma_lex_append_assoc(
    a: Seq<TokenV>,
    b: Seq<TokenV>,
    r: Result<Seq<TokenV>, crate::lexer::Error>,
)
    ensures
        lex_append(a, lex_append(b, r)) == lex_append(a + b, r),
{
    if let Ok(more) = r {
        assert(a + (b + more) =~= (a + b) + more);
    }
}

proof fn lemma_cons_is_append(t: TokenV, r: Result<Seq<TokenV>, crate::lexer::Error>)
    ensures
        lex_cons(t, r) == lex_append(seq![t], r),
{
}

/// Lexing skips one leading space.
proof fn lemma_lex_space(t: Seq<u8>)
    ensures
        spec_lex(seq![32u8] + t) == spec_lex(t),
{
    let s = seq![32u8] + t;
    assert(s[0] == 32);
    assert(s.drop_first() =~= t);
}

/// One punctuation or operator byte lexes to its token.
proof fn lemma_lex_punct(c: u8, tv: TokenV, t: Seq<u8>)
    requires
        (c == 44 && tv == TokenV::Comma) || (c == 40 && tv == TokenV::OpeningParenthesis) || (c
            == 41 && tv == TokenV::ClosingParenthesis) || (c == 61 && tv == TokenV::Equal) || (c
            == 43 && tv == TokenV::Plus) || (c == 45 && tv == TokenV::Minus) || (c == 42 && tv
            == TokenV::Multiply) || (c == 47 && tv == TokenV::Divide),
    ensures
        spec_lex(seq![c] + t) == lex_append(seq![tv], spec_lex(t)),
{
    let s = seq![c] + t;
    assert(s[0] == c);
    assert(s.drop_first() =~= t);
    lemma_cons_is_append(tv, spec_lex(t));
}

/// A rendered relational operator, followed by a space, lexes to its
/// token.
proof fn lemma_lex_relational(op: RelationalOperator, t: Seq<u8>)
    requires
        t.len() > 0,
        t[0] == 32,
    ensures
        spec_lex(spec_render_relational(op) + t) == lex_append(
            seq![relational_token(op)],
            spec_lex(t),
        ),
{
    let s = spec_render_relational(op) + t;
    lemma_cons_is_append(relational_token(op), spec_lex(t));
    match op {
        RelationalOperator::Equal => {
            assert(s[0] == 61);
            assert(s.drop_first() =~= t);
        },
        RelationalOperator::NotEqual => {
            assert(s[0] == 60 && s[1] == 62);
            assert(s.skip(2) =~= t);
        },
        RelationalOperator::LessThan => {
            assert(s[0] == 60 && s[1] == 32);
            assert(s.drop_first() =~= t);
        },
        RelationalOperator::LessThanOrEqual => {
            assert(s[0] == 60 && s[1] == 61);
            assert(s.skip(2) =~= t);
        },
        RelationalOperator::GreaterThan => {
            assert(s[0] == 62 && s[1] == 32);
            assert(s.drop_first() =~= t);
        },
        RelationalOperator::GreaterThanOrEqual => {
            assert(s[0] == 62 && s[1] == 61);
            assert(s.skip(2) =~= t);
        },
    }
}

/// One uppercase letter at a boundary lexes to a variable token.
proof fn lemma_lex_variable_byte(id: u8, t: Seq<u8>)
    requires
        65 <= id <= 90,
        text_boundary_ok(t),
    ensures
        spec_lex(seq![id] + t) == lex_append(seq![TokenV::Variable(id)], spec_lex(t)),
{
    let s = seq![id] + t;
    assert(s[0] == id);
    if s.len() > 1 {
        assert(s[1] == t[0]);
    }
    lemma_alnum_run_is(s, 1);
    assert(s.skip(1) =~= t);
    assert(to_upper(id) == id);
    lemma_cons_is_append(TokenV::Variable(id), spec_lex(t));
}

/// The decimal digits of a natural number are digits.
proof fn lemma_dec_digits_are_digits(n: nat)
    ensures
        dec_digits(n).len() >= 1,
        forall|k: int| 0 <= k < dec_digits(n).len() ==> is_digit(#[trigger] dec_digits(n)[k]),
    decreases n,
{
    if n >= 10 {
        lemma_dec_digits_are_digits(n / 10);
        assert forall|k: int| 0 <= k < dec_digits(n).len() implies is_digit(
            #[trigger] dec_digits(n)[k],
        ) by {
            if k < dec_digits(n).len() - 1 {
                assert(dec_digits(n)[k] == dec_digits(n / 10)[k]);
            }
        }
    }
}

/// Accumulating the decimal digits of an in-range value gives the value
/// back.
proof fn lemma_digits_value_round_trip(n: int)
    requires
        0 <= n <= 32767,
    ensures
        digits_value(dec_digits(n as nat), 0) == n as i16,
    decreases n,
{
    if n < 10 {
        reveal_with_fuel(digits_value, 2);
        assert(dec_digits(n as nat) =~= seq![(48 + n) as u8]);
        assert(dec_digits(n as nat).drop_first() =~= Seq::<u8>::empty());
        lemma_wrap16_range(0);
        lemma_wrap16_range(n);
    } else {
        lemma_digits_value_round_trip(n / 10);
        let d = (48 + n % 10) as u8;
        assert(dec_digits(n as nat) == dec_digits((n / 10) as nat).push(d));
        lemma_digits_value_push(dec_digits((n / 10) as nat), 0, d);
        lemma_wrap16_range((n / 10) * 10);
        lemma_wrap16_range(n);
        assert(n / 10 * 10 + n % 10 == n);
        assert(wadd(wmul((n / 10) as i16, 10), (d - 48) as i16) == n as i16);
    }
}

/// A rendered non-negative number at a boundary lexes to its literal.
proof fn lemma_lex_number(v: i16, t: Seq<u8>)
    requires
        v >= 0,
        text_boundary_ok(t),
    ensures
        spec_lex(spec_render_i16(v) + t) == lex_append(seq![TokenV::NumberLiteral(v)], spec_lex(t)),
{
    let digits = dec_digits(v as nat);
    let s = spec_render_i16(v) + t;
    lemma_dec_digits_are_digits(v as nat);
    assert(s =~= digits + t);
    assert forall|k: int| 0 <= k < digits.len() implies is_digit(#[trigger] s[k]) by {
        assert(s[k] == digits[k]);
    }
    if digits.len() < s.len() {
        assert(s[digits.len() as int] == t[0]);
    }
    lemma_digit_run_is(s, digits.len() as int);
    assert(s.take(digits.len() as int) =~= digits);
    assert(s.skip(digits.len() as int) =~= t);
    lemma_digits_value_round_trip(v as int);
    lemma_cons_is_append(TokenV::NumberLiteral(v), spec_lex(t));
}

/// A quoted string free of quotes lexes to its literal.
proof fn lemma_lex_string(sv: Seq<u8>, t: Seq<u8>)
    requires
        forall|i: int| 0 <= i < sv.len() ==> #[trigger] sv[i] != 34,
    ensures
        spec_lex(seq![34u8] + sv + seq![34u8] + t) == lex_append(
            seq![TokenV::StringLiteral(sv)],
            spec_lex(t),
        ),
{
    let s = seq![34u8] + sv + seq![34u8] + t;
    assert(s[0] == 34);
    let rest = s.drop_first();
    assert(rest =~= sv + seq![34u8] + t);
    assert forall|k: int| 0 <= k < sv.len() implies #[trigger] rest[k] != 34 by {
        assert(rest[k] == sv[k]);
    }
    assert(rest[sv.len() as int] == 34);
    lemma_nonquote_run_is(rest, sv.len() as int);
    assert(rest.take(sv.len() as int) =~= sv);
    assert(rest.skip(sv.len() as int + 1) =~= t);
    lemma_cons_is_append(TokenV::StringLiteral(sv), spec_lex(t));
}

/// An uppercase keyword at a boundary lexes to its token.
proof fn lemma_lex_word(w: Seq<u8>, tv: TokenV, t: Seq<u8>)
    requires
        w.len() >= 2,
        forall|k: int| 0 <= k < w.len() ==> 65 <= #[trigger] w[k] <= 90,
        keyword_of(w) == Some(tv),
        text_boundary_ok(t),
    ensures
        spec_lex(w + t) == lex_append(seq![tv], spec_lex(t)),
{
    let s = w + t;
    assert(is_alpha(s[0]));
    assert forall|k: int| 0 <= k < w.len() implies is_alnum(#[trigger] s[k]) by {
        assert(s[k] == w[k]);
    }
    if w.len() < s.len() {
        assert(s[w.len() as int] == t[0]);
    }
    lemma_alnum_run_is(s, w.len() as int);
    assert(s.take(w.len() as int) =~= w);
    assert(upper_seq(w) =~= w) by {
        assert(forall|k: int| 0 <= k < w.len() ==> #[trigger] upper_seq(w)[k] == to_upper(w[k]));
    }
    assert(s.skip(w.len() as int) =~= t);
    lemma_cons_is_append(tv, spec_lex(t));
}

/// Lexing the rendered text of a factor yields its tokens.
proof fn lemma_lex_render_factor(f: FactorV, t: Seq<u8>)
    requires
        renderable_factor(f),
        lexable_factor(f),
        text_boundary_ok(t),
    ensures
        spec_lex(spec_render_factor(f) + t) == lex_append(factor_tokens(f), spec_lex(t)),
    decreases f, 0int,
{
    match f {
        FactorV::Variable(id) => {
            assert(spec_render_factor(f) + t =~= seq![id] + t);
            lemma_lex_variable_byte(id, t);
        },
        FactorV::NumberLiteral(v) => {
            lemma_lex_number(v, t);
        },
        FactorV::Expression(e) => {
            let close_t = seq![41u8] + t;
            let expr_t = spec_render_expression(*e) + close_t;
            assert(spec_render_factor(f) + t =~= seq![40u8] + expr_t);
            lemma_lex_punct(40, TokenV::OpeningParenthesis, expr_t);
            lemma_lex_render_expression(*e, close_t);
            lemma_lex_punct(41, TokenV::ClosingParenthesis, t);
            lemma_lex_append_assoc(
                expression_tokens(*e),
                seq![TokenV::ClosingParenthesis],
                spec_lex(t),
            );
            lemma_lex_append_assoc(
                seq![TokenV::OpeningParenthesis],
                expression_tokens(*e) + seq![TokenV::ClosingParenthesis],
                spec_lex(t),
            );
            assert(seq![TokenV::OpeningParenthesis] + (expression_tokens(*e) + seq![
                TokenV::ClosingParenthesis,
            ]) =~= factor_tokens(f));
        },
    }
}

/// Lexing the rendered text of a term's operations yields their tokens.
proof fn lemma_lex_render_operations(s: Seq<(MultiplicativeOperator, FactorV)>, t: Seq<u8>)
    requires
        renderable_operations(s),
        lexable_operations(s),
        text_boundary_ok(t),
    ensures
        spec_lex(spec_render_operations(s) + t) == lex_append(operations_tokens(s), spec_lex(t)),
    decreases s, 1int,
{
    if s.len() == 0 {
        assert(spec_render_operations(s) + t =~= t);
        if let Ok(more) = spec_lex(t) {
            assert(operations_tokens(s) + more =~= more);
        }
    } else {
        let rest_t = spec_render_operations(s.drop_first()) + t;
        let factor_t = spec_render_factor(s[0].1) + rest_t;
        let op_t = seq![32u8] + factor_t;
        assert(spec_render_operations(s) + t =~= seq![32u8] + (seq![mul_op_byte(s[0].0)] + op_t));
        lemma_lex_space(seq![mul_op_byte(s[0].0)] + op_t);
        lemma_lex_punct(mul_op_byte(s[0].0), mul_token(s[0].0), op_t);
        lemma_lex_space(factor_t);
        assert(text_boundary_ok(rest_t)) by {
            if s.drop_first().len() > 0 {
                assert(rest_t[0] == 32);
            } else {
                assert(rest_t =~= t);
            }
        }
        lemma_lex_render_factor(s[0].1, rest_t);
        lemma_lex_render_operations(s.drop_first(), t);
        lemma_lex_append_assoc(
            factor_tokens(s[0].1),
            operations_tokens(s.drop_first()),
            spec_lex(t),
        );
        lemma_lex_append_assoc(
            seq![mul_token(s[0].0)],
            factor_tokens(s[0].1) + operations_tokens(s.drop_first()),
            spec_lex(t),
        );
        assert(seq![mul_token(s[0].0)] + (factor_tokens(s[0].1) + operations_tokens(
            s.drop_first(),
        )) =~= operations_tokens(s));
    }
}

/// Lexing the rendered text of a term yields its tokens.
proof fn lemma_lex_render_term(tm: TermV, t: Seq<u8>)
    requires
        renderable_term(tm),
        lexable_term(tm),
        text_boundary_ok(t),
    ensures
        spec_lex(spec_render_term(tm) + t) == lex_append(term_tokens(tm), spec_lex(t)),
    decreases tm, 2int,
{
    let ops_t = spec_render_operations(tm.operations) + t;
    assert(spec_render_term(tm) + t =~= spec_render_factor(tm.factor) + ops_t);
    assert(text_boundary_ok(ops_t)) by {
        if tm.operations.len() > 0 {
            assert(ops_t[0] == 32);
        } else {
            assert(ops_t =~= t);
        }
    }
    lemma_lex_render_factor(tm.factor, ops_t);
    lemma_lex_render_operations(tm.operations, t);
    lemma_lex_append_assoc(
        factor_tokens(tm.factor),
        operations_tokens(tm.operations),
        spec_lex(t),
    );
}

/// Lexing the rendered text of an expression's other terms yields their
/// tokens.
proof fn lemma_lex_render_others(s: Seq<(AdditiveOperator, TermV)>, t: Seq<u8>)
    requires
        renderable_others(s),
        lexable_others(s),
        text_boundary_ok(t),
    ensures
        spec_lex(spec_render_others(s) + t) == lex_append(others_tokens(s), spec_lex(t)),
    decreases s, 3int,
{
    if s.len() == 0 {
        assert(spec_render_others(s) + t =~= t);
        if let Ok(more) = spec_lex(t) {
            assert(others_tokens(s) + more =~= more);
        }
    } else {
        let rest_t = spec_render_others(s.drop_first()) + t;
        let term_t = spec_render_term(s[0].1) + rest_t;
        let op_t = seq![32u8] + term_t;
        assert(spec_render_others(s) + t =~= seq![32u8] + (seq![add_op_byte(s[0].0)] + op_t));
        lemma_lex_space(seq![add_op_byte(s[0].0)] + op_t);
        lemma_lex_punct(add_op_byte(s[0].0), add_token(s[0].0), op_t);
        lemma_lex_space(term_t);
        assert(text_boundary_ok(rest_t)) by {
            if s.drop_first().len() > 0 {
                assert(rest_t[0] == 32);
            } else {
                assert(rest_t =~= t);
            }
        }
        lemma_lex_render_term(s[0].1, rest_t);
        lemma_lex_render_others(s.drop_first(), t);
        lemma_lex_append_assoc(term_tokens(s[0].1), others_tokens(s.drop_first()), spec_lex(t));
        lemma_lex_append_assoc(
            seq![add_token(s[0].0)],
            term_tokens(s[0].1) + others_tokens(s.drop_first()),
            spec_lex(t),
        );
        assert(seq![add_token(s[0].0)] + (term_tokens(s[0].1) + others_tokens(s.drop_first()))
            =~= others_tokens(s));
    }
}

/// Lexing the rendered text of an expression yields its tokens.
proof fn lemma_lex_render_expression(e: ExpressionV, t: Seq<u8>)
    requires
        renderable_expression(e),
        lexable_expression(e),
        text_boundary_ok(t),
    ensures
        spec_lex(spec_render_expression(e) + t) == lex_append(expression_tokens(e), spec_lex(t)),
    decreases e, 4int,
{
    let others_t = spec_render_others(e.others) + t;
    let term_t = spec_render_term(e.term) + others_t;
    assert(text_boundary_ok(others_t)) by {
        if e.others.len() > 0 {
            assert(others_t[0] == 32);
        } else {
            assert(others_t =~= t);
        }
    }
    lemma_lex_render_term(e.term, others_t);
    lemma_lex_render_others(e.others, t);
    lemma_lex_append_assoc(term_tokens(e.term), others_tokens(e.others), spec_lex(t));
    match e.unary_operator {
        Some(op) => {
            assert(spec_render_expression(e) + t =~= seq![add_op_byte(op)] + term_t);
            lemma_lex_punct(add_op_byte(op), add_token(op), term_t);
            lemma_lex_append_assoc(
                seq![add_token(op)],
                term_tokens(e.term) + others_tokens(e.others),
                spec_lex(t),
            );
            assert(seq![add_token(op)] + (term_tokens(e.term) + others_tokens(e.others))
                =~= expression_tokens(e));
        },
        None => {
            assert(spec_render_expression(e) + t =~= term_t);
            assert(term_tokens(e.term) + others_tokens(e.others) =~= expression_tokens(e));
        },
    }
}

/// Lexing the rendered text of a `PRINT` element yields its tokens.
proof fn lemma_lex_render_element(el: ElementV, t: Seq<u8>)
    requires
        renderable_element(el),
        lexable_element(el),
        text_boundary_ok(t),
    ensures
        spec_lex(spec_render_element(el) + t) == lex_append(element_tokens(el), spec_lex(t)),
    decreases el, 5int,
{
    match el {
        ElementV::StringLiteral(sv) => {
            assert(spec_render_element(el) + t =~= seq![34u8] + sv + seq![34u8] + t);
            lemma_lex_string(sv, t);
        },
        ElementV::Expression(ex) => {
            lemma_lex_render_expression(ex, t);
        },
    }
}

/// Lexing the rendered text of the `PRINT` elements after the first
/// yields a comma and the remaining elements' tokens.
proof fn lemma_lex_render_elements_tail(s: Seq<ElementV>, t: Seq<u8>)
    requires
        renderable_elements(s),
        lexable_elements(s),
        text_boundary_ok(t),
    ensures
        spec_lex(spec_render_elements_tail(s) + t) == lex_append(
            if s.len() == 0 {
                Seq::<TokenV>::empty()
            } else {
                seq![TokenV::Comma] + elements_tokens(s)
            },
            spec_lex(t),
        ),
    decreases s, 6int,
{
    if s.len() == 0 {
        assert(spec_render_elements_tail(s) + t =~= t);
        if let Ok(more) = spec_lex(t) {
            assert(Seq::<TokenV>::empty() + more =~= more);
        }
    } else {
        let rest_t = spec_render_elements_tail(s.drop_first()) + t;
        let elem_t = spec_render_element(s[0]) + rest_t;
        let comma_t = seq![32u8] + elem_t;
        assert(spec_render_elements_tail(s) + t =~= seq![44u8] + comma_t);
        lemma_lex_punct(44, TokenV::Comma, comma_t);
        lemma_lex_space(elem_t);
        assert(text_boundary_ok(rest_t)) by {
            if s.drop_first().len() > 0 {
                assert(rest_t[0] == 44);
            } else {
                assert(rest_t =~= t);
            }
        }
        lemma_lex_render_element(s[0], rest_t);
        lemma_lex_render_elements_tail(s.drop_first(), t);
        let tail_tokens: Seq<TokenV> = if s.drop_first().len() == 0 {
            Seq::empty()
        } else {
            seq![TokenV::Comma] + elements_tokens(s.drop_first())
        };
        lemma_lex_append_assoc(element_tokens(s[0]), tail_tokens, spec_lex(t));
        lemma_lex_append_assoc(
            seq![TokenV::Comma],
            element_tokens(s[0]) + tail_tokens,
            spec_lex(t),
        );
        assert(seq![TokenV::Comma] + (element_tokens(s[0]) + tail_tokens) =~= seq![TokenV::Comma]
            + elements_tokens(s));
    }
}

/// Lexing the rendered text of a `PRINT` list yields its tokens.
proof fn lemma_lex_render_elements(s: Seq<ElementV>, t: Seq<u8>)
    requires
        renderable_elements(s),
        lexable_elements(s),
        s.len() > 0,
        text_boundary_ok(t),
    ensures
        spec_lex(spec_render_elements(s) + t) == lex_append(elements_tokens(s), spec_lex(t)),
    decreases s, 7int,
{
    let rest_t = spec_render_elements_tail(s.drop_first()) + t;
    assert(spec_render_elements(s) + t =~= spec_render_element(s[0]) + rest_t);
    assert(text_boundary_ok(rest_t)) by {
        if s.drop_first().len() > 0 {
            assert(rest_t[0] == 44);
        } else {
            assert(rest_t =~= t);
        }
    }
    lemma_lex_render_element(s[0], rest_t);
    lemma_lex_render_elements_tail(s.drop_first(), t);
    let tail_tokens: Seq<TokenV> = if s.drop_first().len() == 0 {
        Seq::empty()
    } else {
        seq![TokenV::Comma] + elements_tokens(s.drop_first())
    };
    lemma_lex_append_assoc(element_tokens(s[0]), tail_tokens, spec_lex(t));
    assert(element_tokens(s[0]) + tail_tokens =~= elements_tokens(s));
}

/// Lexing the rendered text of the `INPUT` variables after the first
/// yields a comma and the remaining variables' tokens.
proof fn lemma_lex_render_variables_tail(ids: Seq<u8>, t: Seq<u8>)
    requires
        forall|i: int| 0 <= i < ids.len() ==> 65 <= #[trigger] ids[i] <= 90,
        text_boundary_ok(t),
    ensures
        spec_lex(spec_render_variables_tail(ids) + t) == lex_append(
            if ids.len() == 0 {
                Seq::<TokenV>::empty()
            } else {
                seq![TokenV::Comma] + variables_tokens(ids)
            },
            spec_lex(t),
        ),
    decreases ids.len(),
{
    if ids.len() == 0 {
        assert(spec_render_variables_tail(ids) + t =~= t);
        if let Ok(more) = spec_lex(t) {
            assert(Seq::<TokenV>::empty() + more =~= more);
        }
    } else {
        let rest_t = spec_render_variables_tail(ids.drop_first()) + t;
        let var_t = seq![ids[0]] + rest_t;
        let comma_t = seq![32u8] + var_t;
        assert(spec_render_variables_tail(ids) + t =~= seq![44u8] + comma_t);
        lemma_lex_punct(44, TokenV::Comma, comma_t);
        lemma_lex_space(var_t);
        assert(text_boundary_ok(rest_t)) by {
            if ids.drop_first().len() > 0 {
                assert(rest_t[0] == 44);
            } else {
                assert(rest_t =~= t);
            }
        }
        lemma_lex_variable_byte(ids[0], rest_t);
        lemma_lex_render_variables_tail(ids.drop_first(), t);
        let tail_tokens: Seq<TokenV> = if ids.drop_first().len() == 0 {
            Seq::empty()
        } else {
            seq![TokenV::Comma] + variables_tokens(ids.drop_first())
        };
        lemma_lex_append_assoc(seq![TokenV::Variable(ids[0])], tail_tokens, spec_lex(t));
        lemma_lex_append_assoc(
            seq![TokenV::Comma],
            seq![TokenV::Variable(ids[0])] + tail_tokens,
            spec_lex(t),
        );
        assert(seq![TokenV::Comma] + (seq![TokenV::Variable(ids[0])] + tail_tokens) =~= seq![
            TokenV::Comma,
        ] + variables_tokens(ids));
    }
}

/// Lexing the rendered text of an `INPUT` variable list yields its
/// tokens.
proof fn lemma_lex_render_variables(ids: Seq<u8>, t: Seq<u8>)
    requires
        forall|i: int| 0 <= i < ids.len() ==> 65 <= #[trigger] ids[i] <= 90,
        ids.len() > 0,
        text_boundary_ok(t),
    ensures
        spec_lex(spec_render_variables(ids) + t) == lex_append(variables_tokens(ids), spec_lex(t)),
    decreases ids.len(),
{
    let rest_t = spec_render_variables_tail(ids.drop_first()) + t;
    assert(spec_render_variables(ids) + t =~= seq![ids[0]] + rest_t);
    assert(text_boundary_ok(rest_t)) by {
        if ids.drop_first().len() > 0 {
            assert(rest_t[0] == 44);
        } else {
            assert(rest_t =~= t);
        }
    }
    lemma_lex_variable_byte(ids[0], rest_t);
    lemma_lex_render_variables_tail(ids.drop_first(), t);
    let tail_tokens: Seq<TokenV> = if ids.drop_first().len() == 0 {
        Seq::empty()
    } else {
        seq![TokenV::Comma] + variables_tokens(ids.drop_first())
    };
    lemma_lex_append_assoc(seq![TokenV::Variable(ids[0])], tail_tokens, spec_lex(t));
    assert(seq![TokenV::Variable(ids[0])] + tail_tokens =~= variables_tokens(ids));
}

/// Lexing the rendered text of a statement yields its tokens.
proof fn lemma_lex_render_statement(st: StatementV, t: Seq<u8>)
    requires
        renderable_statement(st),
        lexable_statement(st),
        text_boundary_ok(t),
    ensures
        spec_lex(spec_render_statement(st) + t) == lex_append(statement_tokens(st), spec_lex(t)),
    decreases st, 1int,
{
    match st {
        StatementV::Print { .. } => {
            lemma_lex_render_statement_print(st, t);
        },
        StatementV::If { .. } => {
            lemma_lex_render_statement_if(st, t);
        },
        StatementV::Let { .. } => {
            lemma_lex_render_statement_let(st, t);
        },
        StatementV::Input { .. } => {
            lemma_lex_render_statement_input(st, t);
        },
        StatementV::Goto { expression } => {
            let word = seq![71u8, 79u8, 84u8, 79u8];
            let expr_t = spec_render_expression(expression) + t;
            let space_t = seq![32u8] + expr_t;
            assert(spec_render_statement(st) + t =~= word + space_t);
            lemma_lex_word(word, TokenV::Goto, space_t);
            lemma_lex_space(expr_t);
            lemma_lex_render_expression(expression, t);
            lemma_lex_append_assoc(seq![TokenV::Goto], expression_tokens(expression), spec_lex(t));
            assert(seq![TokenV::Goto] + expression_tokens(expression) =~= statement_tokens(st));
        },
        StatementV::GoSub { expression } => {
            let word = seq![71u8, 79u8, 83u8, 85u8, 66u8];
            let expr_t = spec_render_expression(expression) + t;
            let space_t = seq![32u8] + expr_t;
            assert(spec_render_statement(st) + t =~= word + space_t);
            lemma_lex_word(word, TokenV::GoSub, space_t);
            lemma_lex_space(expr_t);
            lemma_lex_render_expression(expression, t);
            lemma_lex_append_assoc(
                seq![TokenV::GoSub],
                expression_tokens(expression),
                spec_lex(t),
            );
            assert(seq![TokenV::GoSub] + expression_tokens(expression) =~= statement_tokens(st));
        },
        StatementV::Return => {
            let word = seq![82u8, 69u8, 84u8, 85u8, 82u8, 78u8];
            assert(spec_render_statement(st) + t =~= word + t);
            lemma_lex_word(word, TokenV::Return, t);
        },
        StatementV::Clear => {
            let word = seq![67u8, 76u8, 69u8, 65u8, 82u8];
            assert(spec_render_statement(st) + t =~= word + t);
            lemma_lex_word(word, TokenV::Clear, t);
        },
        StatementV::List => {
            let word = seq![76u8, 73u8, 83u8, 84u8];
            assert(spec_render_statement(st) + t =~= word + t);
            lemma_lex_word(word, TokenV::List, t);
        },
        StatementV::Run => {
            let word = seq![82u8, 85u8, 78u8];
            assert(spec_render_statement(st) + t =~= word + t);
            lemma_lex_word(word, TokenV::Run, t);
        },
        StatementV::End => {
            let word = seq![69u8, 78u8, 68u8];
            assert(spec_render_statement(st) + t =~= word + t);
            lemma_lex_word(word, TokenV::End, t);
        },
    }
}

proof fn lemma_lex_render_statement_print(st: StatementV, t: Seq<u8>)
    requires
        renderable_statement(st),
        lexable_statement(st),
        text_boundary_ok(t),
        st is Print,
    ensures
        spec_lex(spec_render_statement(st) + t) == lex_append(statement_tokens(st), spec_lex(t)),
    decreases st, 0int,
{
    match st {
        StatementV::Print { expression_list } => {
            let word = seq![80u8, 82u8, 73u8, 78u8, 84u8];
            let elems_t = spec_render_elements(expression_list) + t;
            let space_t = seq![32u8] + elems_t;
            assert(spec_render_statement(st) + t =~= word + space_t);
            lemma_lex_word(word, TokenV::Print, space_t);
            lemma_lex_space(elems_t);
            lemma_lex_render_elements(expression_list, t);
            lemma_lex_append_assoc(
                seq![TokenV::Print],
                elements_tokens(expression_list),
                spec_lex(t),
            );
            assert(seq![TokenV::Print] + elements_tokens(expression_list) =~= statement_tokens(
                st,
            ));
        },
        _ => {},
    }
}

#[verifier::rlimit(100)]
proof fn lemma_lex_render_statement_if(st: StatementV, t: Seq<u8>)
    requires
        renderable_statement(st),
        lexable_statement(st),
        text_boundary_ok(t),
        st is If,
    ensures
        spec_lex(spec_render_statement(st) + t) == lex_append(statement_tokens(st), spec_lex(t)),
    decreases st, 0int,
{
    match st {
        StatementV::If { left, operator, right, then } => {
            let word = seq![73u8, 70u8];
            let then_word = seq![84u8, 72u8, 69u8, 78u8];
            let then_t = spec_render_statement(*then) + t;
            let sp5_t = seq![32u8] + then_t;
            let thenw_t = then_word + sp5_t;
            let sp4_t = seq![32u8] + thenw_t;
            let right_t = spec_render_expression(right) + sp4_t;
            let sp3_t = seq![32u8] + right_t;
            let rel_t = spec_render_relational(operator) + sp3_t;
            let sp2_t = seq![32u8] + rel_t;
            let left_t = spec_render_expression(left) + sp2_t;
            let sp1_t = seq![32u8] + left_t;
            assert(spec_render_statement(st) + t =~= word + sp1_t);
            lemma_lex_word(word, TokenV::If, sp1_t);
            lemma_lex_space(left_t);
            lemma_lex_render_expression(left, sp2_t);
            lemma_lex_space(rel_t);
            lemma_lex_relational(operator, sp3_t);
            lemma_lex_space(right_t);
            lemma_lex_render_expression(right, sp4_t);
            lemma_lex_space(thenw_t);
            lemma_lex_word(then_word, TokenV::Then, sp5_t);
            lemma_lex_space(then_t);
            lemma_lex_render_statement(*then, t);
            let tail4 = statement_tokens(*then);
            let tail3 = seq![TokenV::Then] + tail4;
            let tail2 = expression_tokens(right) + tail3;
            let tail1 = seq![relational_token(operator)] + tail2;
            let tail0 = expression_tokens(left) + tail1;
            lemma_lex_append_assoc(seq![TokenV::Then], tail4, spec_lex(t));
            lemma_lex_append_assoc(expression_tokens(right), tail3, spec_lex(t));
            lemma_lex_append_assoc(seq![relational_token(operator)], tail2, spec_lex(t));
            lemma_lex_append_assoc(expression_tokens(left), tail1, spec_lex(t));
            lemma_lex_append_assoc(seq![TokenV::If], tail0, spec_lex(t));
            assert(seq![TokenV::If] + tail0 =~= statement_tokens(st));
        },
        _ => {},
    }
}

proof fn lemma_lex_render_statement_input(st: StatementV, t: Seq<u8>)
    requires
        renderable_statement(st),
        lexable_statement(st),
        text_boundary_ok(t),
        st is Input,
    ensures
        spec_lex(spec_render_statement(st) + t) == lex_append(statement_tokens(st), spec_lex(t)),
    decreases st, 0int,
{
    match st {
        StatementV::Input { variable_list } => {
            let word = seq![73u8, 78u8, 80u8, 85u8, 84u8];
            let vars_t = spec_render_variables(variable_list) + t;
            let space_t = seq![32u8] + vars_t;
            assert(spec_render_statement(st) + t =~= word + space_t);
            lemma_lex_word(word, TokenV::Input, space_t);
            lemma_lex_space(vars_t);
            lemma_lex_render_variables(variable_list, t);
            lemma_lex_append_assoc(
                seq![TokenV::Input],
                variables_tokens(variable_list),
                spec_lex(t),
            );
            assert(seq![TokenV::Input] + variables_tokens(variable_list) =~= statement_tokens(
                st,
            ));
        },
        _ => {},
    }
}

proof fn lemma_lex_render_statement_let(st: StatementV, t: Seq<u8>)
    requires
        renderable_statement(st),
        lexable_statement(st),
        text_boundary_ok(t),
        st is Let,
    ensures
        spec_lex(spec_render_statement(st) + t) == lex_append(statement_tokens(st), spec_lex(t)),
    decreases st, 0int,
{
    match st {
        StatementV::Let { variable, expression } => {
            let word = seq![76u8, 69u8, 84u8];
            let expr_t = spec_render_expression(expression) + t;
            let sp3_t = seq![32u8] + expr_t;
            let eq_t = seq![61u8] + sp3_t;
            let sp2_t = seq![32u8] + eq_t;
            let var_t = seq![variable] + sp2_t;
            let sp1_t = seq![32u8] + var_t;
            assert(spec_render_statement(st) + t =~= word + sp1_t);
            lemma_lex_word(word, TokenV::Let, sp1_t);
            lemma_lex_space(var_t);
            lemma_lex_variable_byte(variable, sp2_t);
            lemma_lex_space(eq_t);
            lemma_lex_punct(61, TokenV::Equal, sp3_t);
            lemma_lex_space(expr_t);
            lemma_lex_render_expression(expression, t);
            let tail2 = expression_tokens(expression);
            let tail1 = seq![TokenV::Equal] + tail2;
            let tail0 = seq![TokenV::Variable(variable)] + tail1;
            lemma_lex_append_assoc(seq![TokenV::Equal], tail2, spec_lex(t));
            lemma_lex_append_assoc(seq![TokenV::Variable(variable)], tail1, spec_lex(t));
            lemma_lex_append_assoc(seq![TokenV::Let], tail0, spec_lex(t));
            assert(seq![TokenV::Let] + tail0 =~= statement_tokens(st));
        },
        _ => {},
    }
}

/// Round trip, the full pipeline: the rendered source text of a
/// renderable and lexable statement tokenizes to exactly the statement's
/// tokens, and parsing those tokens gives the statement back with
/// nothing left over. Rendering the parsed statement therefore
/// reproduces the text it came from.
pub proof fn lemma_statement_full_round_trip(st: StatementV)
    requires
        renderable_statement(st),
        lexable_statement(st),
    ensures
        spec_lex(spec_render_statement(st)) == Ok::<Seq<TokenV>, crate::lexer::Error>(
            statement_tokens(st),
        ),
        spec_parse_statement(statement_tokens(st)) == Ok::<(StatementV, Seq<TokenV>), ErrorV>(
            (st, Seq::empty()),
        ),
{
    lemma_lex_render_statement(st, Seq::empty());
    assert(spec_render_statement(st) + Seq::<u8>::empty() =~= spec_render_statement(st));
    assert(statement_tokens(st) + Seq::<TokenV>::empty() =~= statement_tokens(st));
    lemma_statement_round_trip(st);
}

/// Round trip for whole lines, the line number included.
pub proof fn lemma_line_full_round_trip(l: LineV)
    requires
        renderable_line(l),
        lexable_line(l),
    ensures
        spec_lex(spec_render_line(l)) == Ok::<Seq<TokenV>, crate::lexer::Error>(line_tokens(l)),
        spec_parse_line(line_tokens(l)) == Ok::<LineV, ErrorV>(l),
{
    match l.number {
        Some(n) => {
            let stmt_text = spec_render_statement(l.statement);
            let space_t = seq![32u8] + stmt_text;
            assert(spec_render_line(l) =~= spec_render_i16(n as i16) + space_t);
            lemma_lex_number(n as i16, space_t);
            lemma_lex_space(stmt_text);
            lemma_lex_render_statement(l.statement, Seq::empty());
            assert(stmt_text + Seq::<u8>::empty() =~= stmt_text);
            lemma_lex_append_assoc(
                seq![TokenV::NumberLiteral(n as i16)],
                statement_tokens(l.statement),
                spec_lex(Seq::empty()),
            );
            assert(statement_tokens(l.statement) + Seq::<TokenV>::empty() =~= statement_tokens(
                l.statement,
            ));
            assert(seq![TokenV::NumberLiteral(n as i16)] + statement_tokens(l.statement)
                =~= line_tokens(l));
        },
        None => {
            assert(spec_render_line(l) =~= spec_render_statement(l.statement));
            lemma_lex_render_statement(l.statement, Seq::empty());
            assert(spec_render_statement(l.statement) + Seq::<u8>::empty()
                =~= spec_render_statement(l.statement));
            assert(statement_tokens(l.statement) + Seq::<TokenV>::empty() =~= statement_tokens(
                l.statement,
            ));
            assert(line_tokens(l) =~= statement_tokens(l.statement));
        },
    }
    lemma_line_round_trip(l);
}

} // verus!
