//! Rendering an abstract syntax tree back into source text.
//!
//! `LIST` prints every stored line as `<number> <statement text>`, with the
//! operator symbols `+ - * / = <> < <= > >=` and the keyword text of the
//! grammar. String literals are rendered inside their double quotes, so a
//! rendered statement reads back through the lexer and parser.

use crate::ast::{
    AdditiveOperator, ElementV, Expression, ExpressionListElement, ExpressionV, Factor, FactorV,
    Line, LineV, MultiplicativeOperator, RelationalOperator, Statement, StatementV, TermV, Term,
    Variable,
};
use vstd::prelude::*;

verus! {

/// The decimal digits of a natural number, most significant first.
pub open spec fn dec_digits(n: nat) -> Seq<u8>
    decreases n,
{
    if n < 10 {
        seq![(48 + n) as u8]
    } else {
        dec_digits(n / 10).push((48 + n % 10) as u8)
    }
}

/// The decimal rendering of a 16-bit value, with a leading minus sign when
/// negative.
pub open spec fn spec_render_i16(v: i16) -> Seq<u8> {
    if v < 0 {
        seq![45u8] + dec_digits((-(v as int)) as nat)
    } else {
        dec_digits(v as nat)
    }
}

/// The symbol of a multiplicative operator.
pub open spec fn mul_op_byte(op: MultiplicativeOperator) -> u8 {
    match op {
        MultiplicativeOperator::Multiplication => 42,
        MultiplicativeOperator::Division => 47,
    }
}

/// The symbol of an additive operator.
pub open spec fn add_op_byte(op: AdditiveOperator) -> u8 {
    match op {
        AdditiveOperator::Addition => 43,
        AdditiveOperator::Subtraction => 45,
    }
}

/// The symbol of a relational operator.
pub open spec fn spec_render_relational(op: RelationalOperator) -> Seq<u8> {
    match op {
        RelationalOperator::Equal => seq![61u8],
        RelationalOperator::NotEqual => seq![60u8, 62u8],
        RelationalOperator::LessThan => seq![60u8],
        RelationalOperator::LessThanOrEqual => seq![60u8, 61u8],
        RelationalOperator::GreaterThan => seq![62u8],
        RelationalOperator::GreaterThanOrEqual => seq![62u8, 61u8],
    }
}

/// The rendering of a factor.
pub open spec fn spec_render_factor(f: FactorV) -> Seq<u8>
    decreases f,
{
    match f {
        FactorV::Variable(id) => seq![id],
        FactorV::NumberLiteral(v) => spec_render_i16(v),
        FactorV::Expression(e) => seq![40u8] + spec_render_expression(*e) + seq![41u8],
    }
}

/// The rendering of a term's trailing operations, each as ` op factor`.
pub open spec fn spec_render_operations(s: Seq<(MultiplicativeOperator, FactorV)>) -> Seq<u8>
    decreases s,
{
    if s.len() == 0 {
        Seq::empty()
    } else {
        seq![32u8, mul_op_byte(s[0].0), 32u8] + spec_render_factor(s[0].1)
            + spec_render_operations(s.drop_first())
    }
}

/// The rendering of a term.
pub open spec fn spec_render_term(t: TermV) -> Seq<u8>
    decreases t,
{
    spec_render_factor(t.factor) + spec_render_operations(t.operations)
}

/// The rendering of an expression's trailing terms, each as ` op term`.
pub open spec fn spec_render_others(s: Seq<(AdditiveOperator, TermV)>) -> Seq<u8>
    decreases s,
{
    if s.len() == 0 {
        Seq::empty()
    } else {
        seq![32u8, add_op_byte(s[0].0), 32u8] + spec_render_term(s[0].1)
            + spec_render_others(s.drop_first())
    }
}

/// The rendering of an expression: the optional sign, the first term, then
/// the other terms.
pub open spec fn spec_render_expression(e: ExpressionV) -> Seq<u8>
    decreases e,
{
    (match e.unary_operator {
        Some(op) => seq![add_op_byte(op)],
        None => Seq::empty(),
    }) + spec_render_term(e.term) + spec_render_others(e.others)
}

/// The rendering of one `PRINT` element: a quoted string literal or an
/// expression.
pub open spec fn spec_render_element(e: ElementV) -> Seq<u8>
    decreases e,
{
    match e {
        ElementV::StringLiteral(s) => seq![34u8] + s + seq![34u8],
        ElementV::Expression(e) => spec_render_expression(e),
    }
}

/// The rendering of a `PRINT` element list, separated by `, `.
pub open spec fn spec_render_elements(s: Seq<ElementV>) -> Seq<u8>
    decreases s,
{
    if s.len() == 0 {
        Seq::empty()
    } else {
        spec_render_element(s[0]) + spec_render_elements_tail(s.drop_first())
    }
}

/// The rendering of the `PRINT` elements after the first.
pub open spec fn spec_render_elements_tail(s: Seq<ElementV>) -> Seq<u8>
    decreases s,
{
    if s.len() == 0 {
        Seq::empty()
    } else {
        seq![44u8, 32u8] + spec_render_element(s[0]) + spec_render_elements_tail(s.drop_first())
    }
}

/// The rendering of an `INPUT` variable list, separated by `, `.
pub open spec fn spec_render_variables(s: Seq<u8>) -> Seq<u8>
    decreases s,
{
    if s.len() == 0 {
        Seq::empty()
    } else {
        seq![s[0]] + spec_render_variables_tail(s.drop_first())
    }
}

/// The rendering of the `INPUT` variables after the first.
pub open spec fn spec_render_variables_tail(s: Seq<u8>) -> Seq<u8>
    decreases s,
{
    if s.len() == 0 {
        Seq::empty()
    } else {
        seq![44u8, 32u8, s[0]] + spec_render_variables_tail(s.drop_first())
    }
}

/// The rendering of a statement, in the keyword text of the grammar.
pub open spec fn spec_render_statement(st: StatementV) -> Seq<u8>
    decreases st,
{
    match st {
        StatementV::Print { expression_list } => seq![80u8, 82u8, 73u8, 78u8, 84u8, 32u8]
            + spec_render_elements(expression_list),
        StatementV::If { left, operator, right, then } => seq![73u8, 70u8, 32u8]
            + spec_render_expression(left) + seq![32u8] + spec_render_relational(operator)
            + seq![32u8] + spec_render_expression(right) + seq![
            32u8,
            84u8,
            72u8,
            69u8,
            78u8,
            32u8,
        ] + spec_render_statement(*then),
        StatementV::Goto { expression } => seq![71u8, 79u8, 84u8, 79u8, 32u8]
            + spec_render_expression(expression),
        StatementV::Input { variable_list } => seq![73u8, 78u8, 80u8, 85u8, 84u8, 32u8]
            + spec_render_variables(variable_list),
        StatementV::Let { variable, expression } => seq![76u8, 69u8, 84u8, 32u8, variable]
            + seq![32u8, 61u8, 32u8] + spec_render_expression(expression),
        StatementV::GoSub { expression } => seq![71u8, 79u8, 83u8, 85u8, 66u8, 32u8]
            + spec_render_expression(expression),
        StatementV::Return => seq![82u8, 69u8, 84u8, 85u8, 82u8, 78u8],
        StatementV::Clear => seq![67u8, 76u8, 69u8, 65u8, 82u8],
        StatementV::List => seq![76u8, 73u8, 83u8, 84u8],
        StatementV::Run => seq![82u8, 85u8, 78u8],
        StatementV::End => seq![69u8, 78u8, 68u8],
    }
}

/// The rendering of a line: the number, a space, then the statement.
pub open spec fn spec_render_line(l: LineV) -> Seq<u8> {
    (match l.number {
        Some(n) => dec_digits(n as nat).push(32u8),
        None => Seq::empty(),
    }) + spec_render_statement(l.statement)
}

/// Append the decimal digits of `n`.
fn push_digits(n: u16, out: &mut Vec<u8>)
    ensures
        final(out)@ == old(out)@ + dec_digits(n as nat),
    decreases n,
{
    if n < 10 {
        out.push(48 + n as u8);
        proof {
            assert(out@ =~= old(out)@ + dec_digits(n as nat));
        }
    } else {
        push_digits(n / 10, out);
        out.push(48 + (n % 10) as u8);
        proof {
            assert(out@ =~= old(out)@ + dec_digits(n as nat));
        }
    }
}

/// Append the decimal rendering of a 16-bit value.
pub(crate) fn push_i16(v: i16, out: &mut Vec<u8>)
    ensures
        final(out)@ == old(out)@ + spec_render_i16(v),
{
    if v < 0 {
        out.push(45);
        let magnitude: u16 = (-(v as i32)) as u16;
        push_digits(magnitude, out);
        proof {
            assert(out@ =~= old(out)@ + spec_render_i16(v));
        }
    } else {
        push_digits(v as u16, out);
    }
}

/// Append the rendering of a factor.
fn push_factor(f: &Factor, out: &mut Vec<u8>)
    ensures
        final(out)@ == old(out)@ + spec_render_factor(f@),
    decreases *f, 0int,
{
    match f {
        Factor::Variable(v) => {
            out.push(v.identifier());
            proof {
                assert(out@ =~= old(out)@ + spec_render_factor(f@));
            }
        },
        Factor::NumberLiteral(n) => {
            push_i16(n.value, out);
        },
        Factor::Expression(e) => {
            out.push(40);
            push_expression(e, out);
            out.push(41);
            proof {
                assert(out@ =~= old(out)@ + spec_render_factor(f@));
            }
        },
    }
}

/// Append the rendering of a term's operations from index `i` on.
fn push_operations(ops: &Vec<(MultiplicativeOperator, Factor)>, i: usize, out: &mut Vec<u8>)
    requires
        i <= ops.len(),
    ensures
        final(out)@ == old(out)@ + spec_render_operations(crate::ast::factor_ops_view(ops@).skip(i as int)),
    decreases ops@, ops.len() - i,
{
    proof {
        crate::ast::lemma_factor_ops_view(ops@);
    }
    let ghost view = crate::ast::factor_ops_view(ops@);
    if i < ops.len() {
        let pair = &ops[i];
        let op_byte: u8 = match pair.0 {
            MultiplicativeOperator::Multiplication => 42,
            MultiplicativeOperator::Division => 47,
        };
        out.push(32);
        out.push(op_byte);
        out.push(32);
        push_factor(&pair.1, out);
        push_operations(ops, i + 1, out);
        proof {
            assert(view.skip(i as int).drop_first() =~= view.skip(i as int + 1));
            assert(view.skip(i as int)[0] == (pair.0, pair.1@));
            assert(out@ =~= old(out)@ + spec_render_operations(view.skip(i as int)));
        }
    } else {
        proof {
            assert(view.skip(i as int) =~= Seq::<(MultiplicativeOperator, FactorV)>::empty());
        }
    }
}

/// Append the rendering of a term.
fn push_term(t: &Term, out: &mut Vec<u8>)
    ensures
        final(out)@ == old(out)@ + spec_render_term(t@),
    decreases *t, 1int,
{
    push_factor(&t.factor, out);
    push_operations(&t.operations, 0, out);
    proof {
        assert(crate::ast::factor_ops_view(t.operations@).skip(0) =~= crate::ast::factor_ops_view(
            t.operations@,
        ));
        assert(out@ =~= old(out)@ + spec_render_term(t@));
    }
}

/// Append the rendering of an expression's other terms from index `i` on.
fn push_others(others: &Vec<(AdditiveOperator, Term)>, i: usize, out: &mut Vec<u8>)
    requires
        i <= others.len(),
    ensures
        final(out)@ == old(out)@ + spec_render_others(crate::ast::term_ops_view(others@).skip(i as int)),
    decreases others@, others.len() - i,
{
    proof {
        crate::ast::lemma_term_ops_view(others@);
    }
    let ghost view = crate::ast::term_ops_view(others@);
    if i < others.len() {
        let pair = &others[i];
        let op_byte: u8 = match pair.0 {
            AdditiveOperator::Addition => 43,
            AdditiveOperator::Subtraction => 45,
        };
        out.push(32);
        out.push(op_byte);
        out.push(32);
        push_term(&pair.1, out);
        push_others(others, i + 1, out);
        proof {
            assert(view.skip(i as int).drop_first() =~= view.skip(i as int + 1));
            assert(view.skip(i as int)[0] == (pair.0, pair.1@));
            assert(out@ =~= old(out)@ + spec_render_others(view.skip(i as int)));
        }
    } else {
        proof {
            assert(view.skip(i as int) =~= Seq::<(AdditiveOperator, TermV)>::empty());
        }
    }
}

/// Append the rendering of an expression.
fn push_expression(e: &Expression, out: &mut Vec<u8>)
    ensures
        final(out)@ == old(out)@ + spec_render_expression(e@),
    decreases *e, 2int,
{
    match e.unary_operator {
        Some(AdditiveOperator::Addition) => out.push(43),
        Some(AdditiveOperator::Subtraction) => out.push(45),
        None => (),
    }
    push_term(&e.term, out);
    push_others(&e.others, 0, out);
    proof {
        assert(crate::ast::term_ops_view(e.others@).skip(0) =~= crate::ast::term_ops_view(
            e.others@,
        ));
        assert(out@ =~= old(out)@ + spec_render_expression(e@));
    }
}

/// Append the rendering of the `PRINT` elements from index `i` on.
fn push_elements(list: &Vec<ExpressionListElement>, i: usize, out: &mut Vec<u8>)
    requires
        i <= list.len(),
    ensures
        final(out)@ == old(out)@ + (if i == 0 {
            spec_render_elements(crate::ast::elements_view(list@).skip(i as int))
        } else {
            spec_render_elements_tail(crate::ast::elements_view(list@).skip(i as int))
        }),
    decreases list@, list.len() - i,
{
    proof {
        crate::ast::lemma_elements_view(list@);
    }
    let ghost view = crate::ast::elements_view(list@);
    if i < list.len() {
        if i > 0 {
            out.push(44);
            out.push(32);
        }
        match &list[i] {
            ExpressionListElement::StringLiteral(s) => {
                out.push(34);
                let mut k: usize = 0;
                while k < s.value.len()
                    invariant
                        k <= s.value.len(),
                        out@ == old(out)@ + (if i == 0 {
                            Seq::<u8>::empty()
                        } else {
                            seq![44u8, 32u8]
                        }) + seq![34u8] + s.value@.subrange(0, k as int),
                    decreases s.value.len() - k,
                {
                    out.push(s.value[k]);
                    proof {
                        assert(out@ =~= old(out)@ + (if i == 0 {
                            Seq::<u8>::empty()
                        } else {
                            seq![44u8, 32u8]
                        }) + seq![34u8] + s.value@.subrange(0, k as int + 1));
                    }
                    k = k + 1;
                }
                out.push(34);
                proof {
                    assert(s.value@.subrange(0, s.value@.len() as int) =~= s.value@);
                }
            },
            ExpressionListElement::Expression(e) => {
                push_expression(e, out);
            },
        }
        push_elements(list, i + 1, out);
        proof {
            assert(view.skip(i as int).drop_first() =~= view.skip(i as int + 1));
            assert(view.skip(i as int)[0] == list@[i as int]@);
            if i == 0 {
                assert(out@ =~= old(out)@ + spec_render_elements(view.skip(i as int)));
            } else {
                assert(out@ =~= old(out)@ + spec_render_elements_tail(view.skip(i as int)));
            }
        }
    } else {
        proof {
            assert(view.skip(i as int) =~= Seq::<ElementV>::empty());
            assert(out@ =~= old(out)@);
        }
    }
}

/// Append the rendering of the `INPUT` variables from index `i` on.
fn push_variables(list: &Vec<Variable>, i: usize, out: &mut Vec<u8>)
    requires
        i <= list.len(),
    ensures
        final(out)@ == old(out)@ + (if i == 0 {
            spec_render_variables(crate::ast::variables_view(list@).skip(i as int))
        } else {
            spec_render_variables_tail(crate::ast::variables_view(list@).skip(i as int))
        }),
    decreases list.len() - i,
{
    let ghost view = crate::ast::variables_view(list@);
    if i < list.len() {
        if i > 0 {
            out.push(44);
            out.push(32);
        }
        out.push(list[i].identifier());
        push_variables(list, i + 1, out);
        proof {
            assert(view.skip(i as int).drop_first() =~= view.skip(i as int + 1));
            assert(view.skip(i as int)[0] == list@[i as int].id());
            if i == 0 {
                assert(out@ =~= old(out)@ + spec_render_variables(view.skip(i as int)));
            } else {
                assert(out@ =~= old(out)@ + spec_render_variables_tail(view.skip(i as int)));
            }
        }
    } else {
        proof {
            assert(view.skip(i as int) =~= Seq::<u8>::empty());
            assert(out@ =~= old(out)@);
        }
    }
}

/// Append a keyword's bytes.
fn push_bytes(bytes: &[u8], out: &mut Vec<u8>)
    ensures
        final(out)@ == old(out)@ + bytes@,
{
    let mut k: usize = 0;
    while k < bytes.len()
        invariant
            k <= bytes.len(),
            out@ == old(out)@ + bytes@.subrange(0, k as int),
        decreases bytes.len() - k,
    {
        out.push(bytes[k]);
        proof {
            assert(out@ =~= old(out)@ + bytes@.subrange(0, k as int + 1));
        }
        k = k + 1;
    }
    proof {
        assert(bytes@.subrange(0, bytes@.len() as int) =~= bytes@);
    }
}

/// Append the rendering of a statement.
#[verifier::rlimit(60)]
fn push_statement(st: &Statement, out: &mut Vec<u8>)
    ensures
        final(out)@ == old(out)@ + spec_render_statement(st@),
    decreases *st,
{
    match st {
        Statement::Print { expression_list } => {
            push_bytes(&[80, 82, 73, 78, 84, 32], out);
            push_elements(expression_list, 0, out);
            proof {
                assert(crate::ast::elements_view(expression_list@).skip(0)
                    =~= crate::ast::elements_view(expression_list@));
                assert(out@ =~= old(out)@ + spec_render_statement(st@));
            }
        },
        Statement::If { left, operator, right, then } => {
            push_bytes(&[73, 70, 32], out);
            push_expression(left, out);
            out.push(32);
            match operator {
                RelationalOperator::Equal => push_bytes(&[61], out),
                RelationalOperator::NotEqual => push_bytes(&[60, 62], out),
                RelationalOperator::LessThan => push_bytes(&[60], out),
                RelationalOperator::LessThanOrEqual => push_bytes(&[60, 61], out),
                RelationalOperator::GreaterThan => push_bytes(&[62], out),
                RelationalOperator::GreaterThanOrEqual => push_bytes(&[62, 61], out),
            }
            out.push(32);
            push_expression(right, out);
            push_bytes(&[32, 84, 72, 69, 78, 32], out);
            push_statement(then, out);
            proof {
                assert(out@ =~= old(out)@ + spec_render_statement(st@));
            }
        },
        Statement::Goto { expression } => {
            push_bytes(&[71, 79, 84, 79, 32], out);
            push_expression(expression, out);
            proof {
                assert(out@ =~= old(out)@ + spec_render_statement(st@));
            }
        },
        Statement::Input { variable_list } => {
            push_bytes(&[73, 78, 80, 85, 84, 32], out);
            push_variables(variable_list, 0, out);
            proof {
                assert(crate::ast::variables_view(variable_list@).skip(0)
                    =~= crate::ast::variables_view(variable_list@));
                assert(out@ =~= old(out)@ + spec_render_statement(st@));
            }
        },
        Statement::Let { variable, expression } => {
            push_bytes(&[76, 69, 84, 32], out);
            out.push(variable.identifier());
            push_bytes(&[32, 61, 32], out);
            push_expression(expression, out);
            proof {
                assert(out@ =~= old(out)@ + spec_render_statement(st@));
            }
        },
        Statement::GoSub { expression } => {
            push_bytes(&[71, 79, 83, 85, 66, 32], out);
            push_expression(expression, out);
            proof {
                assert(out@ =~= old(out)@ + spec_render_statement(st@));
            }
        },
        Statement::Return => {
            push_bytes(&[82, 69, 84, 85, 82, 78], out);
            proof {
                assert(out@ =~= old(out)@ + spec_render_statement(st@));
            }
        },
        Statement::Clear => {
            push_bytes(&[67, 76, 69, 65, 82], out);
            proof {
                assert(out@ =~= old(out)@ + spec_render_statement(st@));
            }
        },
        Statement::List => {
            push_bytes(&[76, 73, 83, 84], out);
            proof {
                assert(out@ =~= old(out)@ + spec_render_statement(st@));
            }
        },
        Statement::Run => {
            push_bytes(&[82, 85, 78], out);
            proof {
                assert(out@ =~= old(out)@ + spec_render_statement(st@));
            }
        },
        Statement::End => {
            push_bytes(&[69, 78, 68], out);
            proof {
                assert(out@ =~= old(out)@ + spec_render_statement(st@));
            }
        },
    }
}

/// Render a statement as source text.
pub fn render_statement(statement: &Statement) -> (r: Vec<u8>)
    ensures
        r@ == spec_render_statement(statement@),
{
    let mut out: Vec<u8> = Vec::new();
    push_statement(statement, &mut out);
    proof {
        assert(Seq::<u8>::empty() + spec_render_statement(statement@) =~= spec_render_statement(
            statement@,
        ));
    }
    out
}

/// Render a line as source text: its number, a space, its statement.
pub fn render_line(line: &Line) -> (r: Vec<u8>)
    ensures
        r@ == spec_render_line(line@),
{
    let mut out: Vec<u8> = Vec::new();
    match line.number {
        Some(n) => {
            push_digits(n as u16, &mut out);
            out.push(32);
        },
        None => (),
    }
    push_statement(&line.statement, &mut out);
    proof {
        assert(out@ =~= spec_render_line(line@));
    }
    out
}

} // verus!
