//! The grammar model: variables, literals, operators, expression trees,
//! statements and lines, together with their mathematical views.
//!
//! Each executable type has a view type in which every `Vec` is replaced by a
//! `Seq`, a `Variable` by its identifying byte and a literal by its value, so
//! that contracts can speak of the tree as a mathematical value.

use vstd::prelude::*;

verus! {

/// A variable reference: one uppercase ASCII letter, `A` through `Z`.
///
/// Handing anything else to [`Variable::new`] is a programming error, not a
/// user error, and is rejected at construction.
#[derive(Debug, PartialEq, Clone, Copy)]
pub struct Variable {
    identifier: u8,
}

impl Variable {
    /// The identifying byte, as a mathematical value.
    pub closed spec fn id(self) -> u8 {
        self.identifier
    }

    #[verifier::type_invariant]
    spec fn type_inv(self) -> bool {
        65 <= self.identifier <= 90
    }

    pub fn new(identifier: u8) -> (r: Self)
        requires
            65 <= identifier <= 90,
        ensures
            r.id() == identifier,
    {
        Self { identifier }
    }

    pub fn identifier(&self) -> (r: u8)
        ensures
            r == self.id(),
            65 <= r <= 90,
    {
        proof {
            use_type_invariant(self);
        }
        self.identifier
    }
}

/// A 16-bit signed number literal.
#[derive(Debug, PartialEq, Clone, Copy)]
pub struct NumberLiteral {
    pub value: i16,
}

impl NumberLiteral {
    pub fn new(value: i16) -> (r: Self)
        ensures
            r.value == value,
    {
        Self { value }
    }

    pub fn value(&self) -> (r: i16)
        ensures
            r == self.value,
    {
        self.value
    }
}

/// A byte-string literal: the raw bytes between a pair of double quotes,
/// with no escape processing and no validation as UTF-8.
#[derive(Debug, PartialEq)]
pub struct StringLiteral {
    pub value: Vec<u8>,
}

impl StringLiteral {
    pub fn new(value: Vec<u8>) -> (r: Self)
        ensures
            r.value == value,
    {
        Self { value }
    }

    pub fn value(&self) -> (r: &Vec<u8>)
        ensures
            *r == self.value,
    {
        &self.value
    }
}

/// The lowest level of the three-level expression grammar: a variable, a
/// number literal, or a parenthesized expression.
#[derive(Debug, PartialEq)]
pub enum Factor {
    Variable(Variable),
    NumberLiteral(NumberLiteral),
    Expression(Box<Expression>),
}

/// A multiplicative operator, `*` or `/`.
#[derive(Debug, PartialEq, Clone, Copy)]
pub enum MultiplicativeOperator {
    Multiplication,
    Division,
}

/// One factor followed by zero or more multiplicative operations, applied
/// left to right.
#[derive(Debug, PartialEq)]
pub struct Term {
    pub factor: Factor,
    pub operations: Vec<(MultiplicativeOperator, Factor)>,
}

impl Term {
    pub fn new(factor: Factor, next: Vec<(MultiplicativeOperator, Factor)>) -> (r: Self)
        ensures
            r.factor == factor,
            r.operations == next,
    {
        Self { factor, operations: next }
    }

    pub fn factor(&self) -> (r: &Factor)
        ensures
            *r == self.factor,
    {
        &self.factor
    }

    pub fn operations(&self) -> (r: &[(MultiplicativeOperator, Factor)])
        ensures
            r@ == self.operations@,
    {
        self.operations.as_slice()
    }
}

/// An additive operator, `+` or `-`.
#[derive(Debug, PartialEq, Clone, Copy)]
pub enum AdditiveOperator {
    Addition,
    Subtraction,
}

/// An optional leading sign, one term, and zero or more additive operations,
/// applied left to right. An absent leading sign reads as an implicit `+`.
#[derive(Debug, PartialEq)]
pub struct Expression {
    pub unary_operator: Option<AdditiveOperator>,
    pub term: Term,
    pub others: Vec<(AdditiveOperator, Term)>,
}

impl Expression {
    pub fn new(
        unary_operator: Option<AdditiveOperator>,
        term: Term,
        others: Vec<(AdditiveOperator, Term)>,
    ) -> (r: Self)
        ensures
            r.unary_operator == unary_operator,
            r.term == term,
            r.others == others,
    {
        Self { unary_operator, term, others }
    }

    pub fn unary_operator(&self) -> (r: &Option<AdditiveOperator>)
        ensures
            *r == self.unary_operator,
    {
        &self.unary_operator
    }

    pub fn term(&self) -> (r: &Term)
        ensures
            *r == self.term,
    {
        &self.term
    }

    pub fn others(&self) -> (r: &[(AdditiveOperator, Term)])
        ensures
            r@ == self.others@,
    {
        self.others.as_slice()
    }
}

/// One element of a `PRINT` list: a string literal or an expression.
#[derive(Debug, PartialEq)]
pub enum ExpressionListElement {
    StringLiteral(StringLiteral),
    Expression(Expression),
}

/// A relational operator of an `IF` statement.
#[derive(Debug, PartialEq, Clone, Copy)]
pub enum RelationalOperator {
    Equal,
    NotEqual,
    LessThan,
    LessThanOrEqual,
    GreaterThan,
    GreaterThanOrEqual,
}

/// One statement of the dialect.
#[derive(Debug, PartialEq)]
pub enum Statement {
    Print { expression_list: Vec<ExpressionListElement> },
    If {
        left: Expression,
        operator: RelationalOperator,
        right: Expression,
        then: Box<Statement>,
    },
    Goto { expression: Expression },
    Input { variable_list: Vec<Variable> },
    Let { variable: Variable, expression: Expression },
    GoSub { expression: Expression },
    Return,
    Clear,
    List,
    Run,
    End,
}

/// An optional line number (0 through 255) paired with one statement.
///
/// A line with a number is stored into the program; a line without one is
/// executed immediately.
#[derive(Debug, PartialEq)]
pub struct Line {
    pub number: Option<u8>,
    pub statement: Statement,
}

impl Line {
    pub fn new(number: Option<u8>, statement: Statement) -> (r: Self)
        ensures
            r.number == number,
            r.statement == statement,
    {
        Self { number, statement }
    }

    pub fn number(&self) -> (r: Option<u8>)
        ensures
            r == self.number,
    {
        self.number
    }

    pub fn statement(&self) -> (r: &Statement)
        ensures
            *r == self.statement,
    {
        &self.statement
    }
}

// ---------------------------------------------------------------------------
// Views
// ---------------------------------------------------------------------------

/// The mathematical view of a [`Factor`].
pub enum FactorV {
    Variable(u8),
    NumberLiteral(i16),
    Expression(Box<ExpressionV>),
}

/// The mathematical view of a [`Term`].
pub struct TermV {
    pub factor: FactorV,
    pub operations: Seq<(MultiplicativeOperator, FactorV)>,
}

/// The mathematical view of an [`Expression`].
pub struct ExpressionV {
    pub unary_operator: Option<AdditiveOperator>,
    pub term: TermV,
    pub others: Seq<(AdditiveOperator, TermV)>,
}

/// The mathematical view of an [`ExpressionListElement`].
pub enum ElementV {
    StringLiteral(Seq<u8>),
    Expression(ExpressionV),
}

/// The mathematical view of a [`Statement`].
pub enum StatementV {
    Print { expression_list: Seq<ElementV> },
    If {
        left: ExpressionV,
        operator: RelationalOperator,
        right: ExpressionV,
        then: Box<StatementV>,
    },
    Goto { expression: ExpressionV },
    Input { variable_list: Seq<u8> },
    Let { variable: u8, expression: ExpressionV },
    GoSub { expression: ExpressionV },
    Return,
    Clear,
    List,
    Run,
    End,
}

/// The mathematical view of a [`Line`].
pub struct LineV {
    pub number: Option<u8>,
    pub statement: StatementV,
}

pub open spec fn factor_view(f: Factor) -> FactorV
    decreases f,
{
    match f {
        Factor::Variable(v) => FactorV::Variable(v.id()),
        Factor::NumberLiteral(n) => FactorV::NumberLiteral(n.value),
        Factor::Expression(e) => FactorV::Expression(Box::new(expression_view(*e))),
    }
}

pub open spec fn factor_ops_view(s: Seq<(MultiplicativeOperator, Factor)>) -> Seq<
    (MultiplicativeOperator, FactorV),
>
    decreases s,
{
    if s.len() == 0 {
        Seq::empty()
    } else {
        seq![(s[0].0, factor_view(s[0].1))] + factor_ops_view(s.drop_first())
    }
}

pub open spec fn term_view(t: Term) -> TermV
    decreases t,
{
    TermV { factor: factor_view(t.factor), operations: factor_ops_view(t.operations@) }
}

pub open spec fn term_ops_view(s: Seq<(AdditiveOperator, Term)>) -> Seq<(AdditiveOperator, TermV)>
    decreases s,
{
    if s.len() == 0 {
        Seq::empty()
    } else {
        seq![(s[0].0, term_view(s[0].1))] + term_ops_view(s.drop_first())
    }
}

pub open spec fn expression_view(e: Expression) -> ExpressionV
    decreases e,
{
    ExpressionV {
        unary_operator: e.unary_operator,
        term: term_view(e.term),
        others: term_ops_view(e.others@),
    }
}

pub open spec fn element_view(e: ExpressionListElement) -> ElementV
    decreases e,
{
    match e {
        ExpressionListElement::StringLiteral(s) => ElementV::StringLiteral(s.value@),
        ExpressionListElement::Expression(e) => ElementV::Expression(expression_view(e)),
    }
}

pub open spec fn elements_view(s: Seq<ExpressionListElement>) -> Seq<ElementV>
    decreases s,
{
    if s.len() == 0 {
        Seq::empty()
    } else {
        seq![element_view(s[0])] + elements_view(s.drop_first())
    }
}

pub open spec fn variables_view(s: Seq<Variable>) -> Seq<u8> {
    s.map_values(|v: Variable| v.id())
}

pub open spec fn statement_view(s: Statement) -> StatementV
    decreases s,
{
    match s {
        Statement::Print { expression_list } => StatementV::Print {
            expression_list: elements_view(expression_list@),
        },
        Statement::If { left, operator, right, then } => StatementV::If {
            left: expression_view(left),
            operator,
            right: expression_view(right),
            then: Box::new(statement_view(*then)),
        },
        Statement::Goto { expression } => StatementV::Goto {
            expression: expression_view(expression),
        },
        Statement::Input { variable_list } => StatementV::Input {
            variable_list: variables_view(variable_list@),
        },
        Statement::Let { variable, expression } => StatementV::Let {
            variable: variable.id(),
            expression: expression_view(expression),
        },
        Statement::GoSub { expression } => StatementV::GoSub {
            expression: expression_view(expression),
        },
        Statement::Return => StatementV::Return,
        Statement::Clear => StatementV::Clear,
        Statement::List => StatementV::List,
        Statement::Run => StatementV::Run,
        Statement::End => StatementV::End,
    }
}

pub open spec fn line_view(l: Line) -> LineV {
    LineV { number: l.number, statement: statement_view(l.statement) }
}

pub proof fn lemma_factor_ops_view(s: Seq<(MultiplicativeOperator, Factor)>)
    ensures
        factor_ops_view(s).len() == s.len(),
        forall|i: int|
            0 <= i < s.len() ==> #[trigger] factor_ops_view(s)[i] == (
                s[i].0,
                factor_view(s[i].1),
            ),
    decreases s.len(),
{
    if s.len() > 0 {
        lemma_factor_ops_view(s.drop_first());
        assert forall|i: int| 0 <= i < s.len() implies #[trigger] factor_ops_view(s)[i] == (
            s[i].0,
            factor_view(s[i].1),
        ) by {
            if i > 0 {
                assert(factor_ops_view(s)[i] == factor_ops_view(s.drop_first())[i - 1]);
                assert(s.drop_first()[i - 1] == s[i]);
            }
        }
    }
}

pub proof fn lemma_term_ops_view(s: Seq<(AdditiveOperator, Term)>)
    ensures
        term_ops_view(s).len() == s.len(),
        forall|i: int|
            0 <= i < s.len() ==> #[trigger] term_ops_view(s)[i] == (s[i].0, term_view(s[i].1)),
    decreases s.len(),
{
    if s.len() > 0 {
        lemma_term_ops_view(s.drop_first());
        assert forall|i: int| 0 <= i < s.len() implies #[trigger] term_ops_view(s)[i] == (
            s[i].0,
            term_view(s[i].1),
        ) by {
            if i > 0 {
                assert(term_ops_view(s)[i] == term_ops_view(s.drop_first())[i - 1]);
                assert(s.drop_first()[i - 1] == s[i]);
            }
        }
    }
}

pub proof fn lemma_elements_view(s: Seq<ExpressionListElement>)
    ensures
        elements_view(s).len() == s.len(),
        forall|i: int| 0 <= i < s.len() ==> #[trigger] elements_view(s)[i] == element_view(s[i]),
    decreases s.len(),
{
    if s.len() > 0 {
        lemma_elements_view(s.drop_first());
        assert forall|i: int| 0 <= i < s.len() implies #[trigger] elements_view(s)[i]
            == element_view(s[i]) by {
            if i > 0 {
                assert(elements_view(s)[i] == elements_view(s.drop_first())[i - 1]);
                assert(s.drop_first()[i - 1] == s[i]);
            }
        }
    }
}

// ---------------------------------------------------------------------------
// Cloning
// ---------------------------------------------------------------------------

/// A byte-for-byte copy of a vector.
pub(crate) fn copy_bytes(v: &Vec<u8>) -> (r: Vec<u8>)
    ensures
        r@ == v@,
{
    let mut r: Vec<u8> = Vec::new();
    let mut i: usize = 0;
    while i < v.len()
        invariant
            i <= v.len(),
            r@ == v@.subrange(0, i as int),
        decreases v.len() - i,
    {
        r.push(v[i]);
        proof {
            assert(r@ =~= v@.subrange(0, i + 1));
        }
        i = i + 1;
    }
    proof {
        assert(r@ =~= v@);
    }
    r
}

impl Clone for StringLiteral {
    fn clone(&self) -> (r: Self)
        ensures
            r.value@ == self.value@,
    {
        StringLiteral { value: copy_bytes(&self.value) }
    }
}

impl Clone for Factor {
    fn clone(&self) -> (r: Self)
        ensures
            r@ == self@,
        decreases *self,
    {
        match self {
            Factor::Variable(v) => Factor::Variable(*v),
            Factor::NumberLiteral(n) => Factor::NumberLiteral(*n),
            Factor::Expression(e) => Factor::Expression(Box::new((**e).clone())),
        }
    }
}

impl Clone for Term {
    fn clone(&self) -> (r: Self)
        ensures
            r@ == self@,
        decreases *self,
    {
        let factor = self.factor.clone();
        let mut operations: Vec<(MultiplicativeOperator, Factor)> = Vec::new();
        let mut i: usize = 0;
        while i < self.operations.len()
            invariant
                i <= self.operations.len(),
                operations@.len() == i,
                forall|j: int|
                    0 <= j < i ==> #[trigger] operations@[j].0 == self.operations@[j].0
                        && operations@[j].1@ == self.operations@[j].1@,
            decreases self.operations.len() - i,
        {
            let pair = &self.operations[i];
            operations.push((pair.0, pair.1.clone()));
            i = i + 1;
        }
        proof {
            lemma_factor_ops_view(operations@);
            lemma_factor_ops_view(self.operations@);
            assert(factor_ops_view(operations@) =~= factor_ops_view(self.operations@));
        }
        Term { factor, operations }
    }
}

impl Clone for Expression {
    fn clone(&self) -> (r: Self)
        ensures
            r@ == self@,
        decreases *self,
    {
        let term = self.term.clone();
        let mut others: Vec<(AdditiveOperator, Term)> = Vec::new();
        let mut i: usize = 0;
        while i < self.others.len()
            invariant
                i <= self.others.len(),
                others@.len() == i,
                forall|j: int|
                    0 <= j < i ==> #[trigger] others@[j].0 == self.others@[j].0
                        && others@[j].1@ == self.others@[j].1@,
            decreases self.others.len() - i,
        {
            let pair = &self.others[i];
            others.push((pair.0, pair.1.clone()));
            i = i + 1;
        }
        proof {
            lemma_term_ops_view(others@);
            lemma_term_ops_view(self.others@);
            assert(term_ops_view(others@) =~= term_ops_view(self.others@));
        }
        Expression { unary_operator: self.unary_operator, term, others }
    }
}

impl Clone for ExpressionListElement {
    fn clone(&self) -> (r: Self)
        ensures
            r@ == self@,
    {
        match self {
            ExpressionListElement::StringLiteral(s) => ExpressionListElement::StringLiteral(
                s.clone(),
            ),
            ExpressionListElement::Expression(e) => ExpressionListElement::Expression(e.clone()),
        }
    }
}

impl Clone for Statement {
    fn clone(&self) -> (r: Self)
        ensures
            r@ == self@,
        decreases *self,
    {
        match self {
            Statement::Print { expression_list } => {
                let mut list: Vec<ExpressionListElement> = Vec::new();
                let mut i: usize = 0;
                while i < expression_list.len()
                    invariant
                        i <= expression_list.len(),
                        list@.len() == i,
                        forall|j: int| 0 <= j < i ==> #[trigger] list@[j]@ == expression_list@[j]@,
                    decreases expression_list.len() - i,
                {
                    list.push(expression_list[i].clone());
                    i = i + 1;
                }
                proof {
                    lemma_elements_view(list@);
                    lemma_elements_view(expression_list@);
                    assert forall|k: int| 0 <= k < list@.len() implies elements_view(list@)[k]
                        == elements_view(expression_list@)[k] by {
                        assert(list@[k]@ == expression_list@[k]@);
                    }
                    assert(elements_view(list@) =~= elements_view(expression_list@));
                }
                Statement::Print { expression_list: list }
            },
            Statement::If { left, operator, right, then } => Statement::If {
                left: left.clone(),
                operator: *operator,
                right: right.clone(),
                then: Box::new((**then).clone()),
            },
            Statement::Goto { expression } => Statement::Goto { expression: expression.clone() },
            Statement::Input { variable_list } => {
                let mut list: Vec<Variable> = Vec::new();
                let mut i: usize = 0;
                while i < variable_list.len()
                    invariant
                        i <= variable_list.len(),
                        list@ == variable_list@.subrange(0, i as int),
                    decreases variable_list.len() - i,
                {
                    list.push(variable_list[i]);
                    proof {
                        assert(list@ =~= variable_list@.subrange(0, i + 1));
                    }
                    i = i + 1;
                }
                proof {
                    assert(list@ =~= variable_list@);
                }
                Statement::Input { variable_list: list }
            },
            Statement::Let { variable, expression } => Statement::Let {
                variable: *variable,
                expression: expression.clone(),
            },
            Statement::GoSub { expression } => Statement::GoSub {
                expression: expression.clone(),
            },
            Statement::Return => Statement::Return,
            Statement::Clear => Statement::Clear,
            Statement::List => Statement::List,
            Statement::Run => Statement::Run,
            Statement::End => Statement::End,
        }
    }
}

impl Clone for Line {
    fn clone(&self) -> (r: Self)
        ensures
            r@ == self@,
    {
        Line { number: self.number, statement: self.statement.clone() }
    }
}

impl View for Factor {
    type V = FactorV;

    open spec fn view(&self) -> FactorV {
        factor_view(*self)
    }
}

impl View for Term {
    type V = TermV;

    open spec fn view(&self) -> TermV {
        term_view(*self)
    }
}

impl View for Expression {
    type V = ExpressionV;

    open spec fn view(&self) -> ExpressionV {
        expression_view(*self)
    }
}

impl View for ExpressionListElement {
    type V = ElementV;

    open spec fn view(&self) -> ElementV {
        element_view(*self)
    }
}

impl View for Statement {
    type V = StatementV;

    open spec fn view(&self) -> StatementV {
        statement_view(*self)
    }
}

impl View for Line {
    type V = LineV;

    open spec fn view(&self) -> LineV {
        line_view(*self)
    }
}

} // verus!
