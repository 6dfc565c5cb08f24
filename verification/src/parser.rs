//! Recursive-descent parsing: a token sequence in, one [`Line`] out.
//!
//! The grammar, one function per nonterminal:
//!
//! ```text
//! Line       := [NumberLiteral] Statement
//! Statement  := PRINT ExprListElem (',' ExprListElem)*
//!             | IF Expression RelOp Expression THEN Statement
//!             | GOTO Expression
//!             | INPUT Variable (',' Variable)*
//!             | LET Variable '=' Expression
//!             | GOSUB Expression
//!             | RETURN | CLEAR | LIST | RUN | END
//! ExprListElem := StringLiteral | Expression
//! Expression := ['+'|'-'] Term (('+'|'-') Term)*
//! Term       := Factor (('*'|'/') Factor)*
//! Factor     := Variable | NumberLiteral | '(' Expression ')'
//! ```
//!
//! The next unconsumed token alone determines each alternative. What each
//! parsing function returns is stated by the `spec_parse_*` functions over
//! token views; tokens left over after the statement are ignored, as they
//! always were.

use crate::ast::{
    elements_view, factor_ops_view, term_ops_view, variables_view, AdditiveOperator, ElementV,
    Expression, ExpressionListElement, ExpressionV, Factor, FactorV, Line, LineV,
    MultiplicativeOperator, NumberLiteral, RelationalOperator, Statement, StatementV,
    StringLiteral, Term, TermV, Variable,
};
use crate::lexer::{wf_token, wf_tokens};
use crate::token::{token_views, Token, TokenV};
use std::collections::VecDeque;
use vstd::prelude::*;

verus! {

/// A syntactic error.
#[derive(Debug, PartialEq)]
pub enum Error {
    /// An expected token was not the one found.
    UnexpectedToken { expected: Token, found: Token },
    /// A variable was required and something else stood there.
    VariableNotFound,
    /// The token sequence ended before a required token appeared.
    NoMoreToken,
    /// The operator of an `IF` was not relational.
    RelationalOperatorNotFound,
    /// The first token of a statement was no statement keyword.
    KeywordNotFound,
    /// A leading line number was outside 0 through 255.
    LineNumberOutOfRange,
}

/// The mathematical view of a parser [`Error`].
pub enum ErrorV {
    UnexpectedToken { expected: TokenV, found: TokenV },
    VariableNotFound,
    NoMoreToken,
    RelationalOperatorNotFound,
    KeywordNotFound,
    LineNumberOutOfRange,
}

impl View for Error {
    type V = ErrorV;

    open spec fn view(&self) -> ErrorV {
        match self {
            Error::UnexpectedToken { expected, found } => ErrorV::UnexpectedToken {
                expected: expected@,
                found: found@,
            },
            Error::VariableNotFound => ErrorV::VariableNotFound,
            Error::NoMoreToken => ErrorV::NoMoreToken,
            Error::RelationalOperatorNotFound => ErrorV::RelationalOperatorNotFound,
            Error::KeywordNotFound => ErrorV::KeywordNotFound,
            Error::LineNumberOutOfRange => ErrorV::LineNumberOutOfRange,
        }
    }
}

/// What parsing a factor returns: the factor and the remaining tokens.
pub open spec fn spec_parse_factor(ts: Seq<TokenV>) -> Result<(FactorV, Seq<TokenV>), ErrorV>
    decreases ts.len(), 0int,
{
    if ts.len() == 0 {
        Err(ErrorV::NoMoreToken)
    } else {
        match ts[0] {
            TokenV::Variable(id) => Ok((FactorV::Variable(id), ts.drop_first())),
            TokenV::NumberLiteral(v) => Ok((FactorV::NumberLiteral(v), ts.drop_first())),
            TokenV::OpeningParenthesis => match spec_parse_expression(ts.drop_first()) {
                Ok((e, rest)) => if rest.len() == 0 {
                    Err(ErrorV::NoMoreToken)
                } else if rest[0] == TokenV::ClosingParenthesis {
                    Ok((FactorV::Expression(Box::new(e)), rest.drop_first()))
                } else {
                    Err(
                        ErrorV::UnexpectedToken {
                            expected: TokenV::ClosingParenthesis,
                            found: rest[0],
                        },
                    )
                },
                Err(e) => Err(e),
            },
            _ => Err(
                ErrorV::UnexpectedToken { expected: TokenV::OpeningParenthesis, found: ts[0] },
            ),
        }
    }
}

// In the spec parsers below, recursion on what an inner parse left over
// is guarded by a strict-decrease test on its length so that the
// definitions visibly terminate. A successful inner parse always consumes
// at least one token, so the guard holds wherever the executable parser
// is proved against these definitions, and the unguarded branch is never
// reached.
/// What parsing the `('*'|'/') Factor` repetition returns.
pub open spec fn spec_parse_operations(ts: Seq<TokenV>) -> Result<
    (Seq<(MultiplicativeOperator, FactorV)>, Seq<TokenV>),
    ErrorV,
>
    decreases ts.len(), 1int,
{
    if ts.len() > 0 && (ts[0] == TokenV::Multiply || ts[0] == TokenV::Divide) {
        let op = if ts[0] == TokenV::Multiply {
            MultiplicativeOperator::Multiplication
        } else {
            MultiplicativeOperator::Division
        };
        match spec_parse_factor(ts.drop_first()) {
            Ok((f, rest)) => if rest.len() < ts.len() {
                match spec_parse_operations(rest) {
                    Ok((ops, rest2)) => Ok((seq![(op, f)] + ops, rest2)),
                    Err(e) => Err(e),
                }
            } else {
                arbitrary()
            },
            Err(e) => Err(e),
        }
    } else {
        Ok((seq![], ts))
    }
}

/// What parsing a term returns.
pub open spec fn spec_parse_term(ts: Seq<TokenV>) -> Result<(TermV, Seq<TokenV>), ErrorV>
    decreases ts.len(), 2int,
{
    match spec_parse_factor(ts) {
        Ok((f, rest)) => if rest.len() < ts.len() {
            match spec_parse_operations(rest) {
                Ok((ops, rest2)) => Ok((TermV { factor: f, operations: ops }, rest2)),
                Err(e) => Err(e),
            }
        } else {
            arbitrary()
        },
        Err(e) => Err(e),
    }
}

/// What parsing the `('+'|'-') Term` repetition returns.
pub open spec fn spec_parse_others(ts: Seq<TokenV>) -> Result<
    (Seq<(AdditiveOperator, TermV)>, Seq<TokenV>),
    ErrorV,
>
    decreases ts.len(), 3int,
{
    if ts.len() > 0 && (ts[0] == TokenV::Plus || ts[0] == TokenV::Minus) {
        let op = if ts[0] == TokenV::Plus {
            AdditiveOperator::Addition
        } else {
            AdditiveOperator::Subtraction
        };
        match spec_parse_term(ts.drop_first()) {
            Ok((t, rest)) => if rest.len() < ts.len() {
                match spec_parse_others(rest) {
                    Ok((more, rest2)) => Ok((seq![(op, t)] + more, rest2)),
                    Err(e) => Err(e),
                }
            } else {
                arbitrary()
            },
            Err(e) => Err(e),
        }
    } else {
        Ok((seq![], ts))
    }
}

/// What parsing an expression returns.
pub open spec fn spec_parse_expression(ts: Seq<TokenV>) -> Result<
    (ExpressionV, Seq<TokenV>),
    ErrorV,
>
    decreases ts.len(), 4int,
{
    let unary: Option<AdditiveOperator> = if ts.len() > 0 && ts[0] == TokenV::Plus {
        Some(AdditiveOperator::Addition)
    } else if ts.len() > 0 && ts[0] == TokenV::Minus {
        Some(AdditiveOperator::Subtraction)
    } else {
        None
    };
    let ts1 = if unary is Some {
        ts.drop_first()
    } else {
        ts
    };
    match spec_parse_term(ts1) {
        Ok((t, rest)) => if rest.len() < ts.len() {
            match spec_parse_others(rest) {
                Ok((others, rest2)) => Ok(
                    (ExpressionV { unary_operator: unary, term: t, others }, rest2),
                ),
                Err(e) => Err(e),
            }
        } else {
            arbitrary()
        },
        Err(e) => Err(e),
    }
}

/// What parsing the `PRINT` element list returns.
pub open spec fn spec_parse_print_elements(ts: Seq<TokenV>) -> Result<
    (Seq<ElementV>, Seq<TokenV>),
    ErrorV,
>
    decreases ts.len(), 5int,
{
    let first: Result<(ElementV, Seq<TokenV>), ErrorV> = if ts.len() > 0 && ts[0] is StringLiteral {
        Ok((ElementV::StringLiteral(ts[0]->StringLiteral_0), ts.drop_first()))
    } else {
        match spec_parse_expression(ts) {
            Ok((e, rest)) => Ok((ElementV::Expression(e), rest)),
            Err(e) => Err(e),
        }
    };
    match first {
        Ok((el, rest)) => if rest.len() > 0 && rest[0] == TokenV::Comma {
            if rest.len() < ts.len() {
                match spec_parse_print_elements(rest.drop_first()) {
                    Ok((more, rest2)) => Ok((seq![el] + more, rest2)),
                    Err(e) => Err(e),
                }
            } else {
                arbitrary()
            }
        } else {
            Ok((seq![el], rest))
        },
        Err(e) => Err(e),
    }
}

/// What parsing the `INPUT` variable list returns.
pub open spec fn spec_parse_variable_list(ts: Seq<TokenV>) -> Result<
    (Seq<u8>, Seq<TokenV>),
    ErrorV,
>
    decreases ts.len(),
{
    if ts.len() == 0 {
        Err(ErrorV::VariableNotFound)
    } else {
        match ts[0] {
            TokenV::Variable(id) => {
                let rest = ts.drop_first();
                if rest.len() > 0 && rest[0] == TokenV::Comma {
                    match spec_parse_variable_list(rest.drop_first()) {
                        Ok((vs, rest2)) => Ok((seq![id] + vs, rest2)),
                        Err(e) => Err(e),
                    }
                } else {
                    Ok((seq![id], rest))
                }
            },
            _ => Err(ErrorV::VariableNotFound),
        }
    }
}

/// The relational operator a token stands for, if any.
pub open spec fn spec_relational(t: TokenV) -> Option<RelationalOperator> {
    match t {
        TokenV::Equal => Some(RelationalOperator::Equal),
        TokenV::NotEqual => Some(RelationalOperator::NotEqual),
        TokenV::LessThan => Some(RelationalOperator::LessThan),
        TokenV::LessThanOrEqual => Some(RelationalOperator::LessThanOrEqual),
        TokenV::GreaterThan => Some(RelationalOperator::GreaterThan),
        TokenV::GreaterThanOrEqual => Some(RelationalOperator::GreaterThanOrEqual),
        _ => None,
    }
}

/// What parsing a statement returns.
pub open spec fn spec_parse_statement(ts: Seq<TokenV>) -> Result<
    (StatementV, Seq<TokenV>),
    ErrorV,
>
    decreases ts.len(), 6int,
{
    if ts.len() == 0 {
        Err(ErrorV::NoMoreToken)
    } else {
        match ts[0] {
            TokenV::Print => match spec_parse_print_elements(ts.drop_first()) {
                Ok((list, rest)) => Ok((StatementV::Print { expression_list: list }, rest)),
                Err(e) => Err(e),
            },
            TokenV::If => match spec_parse_expression(ts.drop_first()) {
                Ok((left, r1)) => if r1.len() == 0 {
                    Err(ErrorV::RelationalOperatorNotFound)
                } else {
                    match spec_relational(r1[0]) {
                        None => Err(ErrorV::RelationalOperatorNotFound),
                        Some(operator) => if r1.len() < ts.len() {
                            match spec_parse_expression(r1.drop_first()) {
                                Ok((right, r2)) => if r2.len() == 0 {
                                    Err(ErrorV::NoMoreToken)
                                } else if r2[0] != TokenV::Then {
                                    Err(
                                        ErrorV::UnexpectedToken {
                                            expected: TokenV::Then,
                                            found: r2[0],
                                        },
                                    )
                                } else if r2.len() < ts.len() {
                                    match spec_parse_statement(r2.drop_first()) {
                                        Ok((then, r3)) => Ok(
                                            (
                                                StatementV::If {
                                                    left,
                                                    operator,
                                                    right,
                                                    then: Box::new(then),
                                                },
                                                r3,
                                            ),
                                        ),
                                        Err(e) => Err(e),
                                    }
                                } else {
                                    arbitrary()
                                },
                                Err(e) => Err(e),
                            }
                        } else {
                            arbitrary()
                        },
                    }
                },
                Err(e) => Err(e),
            },
            TokenV::Goto => match spec_parse_expression(ts.drop_first()) {
                Ok((e, rest)) => Ok((StatementV::Goto { expression: e }, rest)),
                Err(e) => Err(e),
            },
            TokenV::Input => match spec_parse_variable_list(ts.drop_first()) {
                Ok((vs, rest)) => Ok((StatementV::Input { variable_list: vs }, rest)),
                Err(e) => Err(e),
            },
            TokenV::Let => {
                let t1 = ts.drop_first();
                if t1.len() == 0 {
                    Err(ErrorV::VariableNotFound)
                } else {
                    match t1[0] {
                        TokenV::Variable(id) => {
                            let t2 = t1.drop_first();
                            if t2.len() == 0 {
                                Err(ErrorV::NoMoreToken)
                            } else if t2[0] != TokenV::Equal {
                                Err(
                                    ErrorV::UnexpectedToken {
                                        expected: TokenV::Equal,
                                        found: t2[0],
                                    },
                                )
                            } else {
                                match spec_parse_expression(t2.drop_first()) {
                                    Ok((e, rest)) => Ok(
                                        (StatementV::Let { variable: id, expression: e }, rest),
                                    ),
                                    Err(e) => Err(e),
                                }
                            }
                        },
                        _ => Err(ErrorV::VariableNotFound),
                    }
                }
            },
            TokenV::GoSub => match spec_parse_expression(ts.drop_first()) {
                Ok((e, rest)) => Ok((StatementV::GoSub { expression: e }, rest)),
                Err(e) => Err(e),
            },
            TokenV::Return => Ok((StatementV::Return, ts.drop_first())),
            TokenV::Clear => Ok((StatementV::Clear, ts.drop_first())),
            TokenV::List => Ok((StatementV::List, ts.drop_first())),
            TokenV::Run => Ok((StatementV::Run, ts.drop_first())),
            TokenV::End => Ok((StatementV::End, ts.drop_first())),
            _ => Err(ErrorV::KeywordNotFound),
        }
    }
}

/// What parsing a whole line returns: an optional leading line number in
/// 0 through 255, then one statement. Tokens after the statement are
/// ignored.
pub open spec fn spec_parse_line(ts: Seq<TokenV>) -> Result<LineV, ErrorV> {
    let with_number: Result<(Option<u8>, Seq<TokenV>), ErrorV> = if ts.len() > 0
        && ts[0] is NumberLiteral {
        let v = ts[0]->NumberLiteral_0;
        if 0 <= v <= 255 {
            Ok((Some(v as u8), ts.drop_first()))
        } else {
            Err(ErrorV::LineNumberOutOfRange)
        }
    } else {
        Ok((None, ts))
    };
    match with_number {
        Ok((number, ts1)) => match spec_parse_statement(ts1) {
            Ok((statement, _)) => Ok(LineV { number, statement }),
            Err(e) => Err(e),
        },
        Err(e) => Err(e),
    }
}

/// The recursive-descent parser: a stateful cursor over one line's tokens.
///
/// Its view is the sequence of remaining token views. A parser is well
/// formed when every variable token it holds carries an uppercase letter,
/// as every token stream produced by the lexer does; handing it anything
/// else is a programming error.
pub struct Parser {
    tokens: VecDeque<Token>,
}

impl View for Parser {
    type V = Seq<TokenV>;

    closed spec fn view(&self) -> Seq<TokenV> {
        token_views(self.tokens@)
    }
}

impl Parser {
    /// Every variable token held carries an uppercase letter.
    pub closed spec fn wf(self) -> bool {
        wf_tokens(self.tokens@)
    }

    pub fn new(tokens: VecDeque<Token>) -> (r: Self)
        ensures
            r@ == token_views(tokens@),
            wf_tokens(tokens@) ==> r.wf(),
    {
        Self { tokens }
    }

    fn consume_token(&mut self) -> (r: Option<Token>)
        requires
            old(self).wf(),
        ensures
            final(self).wf(),
            match r {
                Some(t) => old(self)@.len() > 0 && t@ == old(self)@[0] && wf_token(t) && final(self)@ == old(self)@.drop_first(),
                None => old(self)@.len() == 0 && final(self)@ == old(self)@,
            },
    {
        let r = self.tokens.pop_front();
        proof {
            match r {
                Some(ref t) => {
                    assert(token_views(self.tokens@) =~= token_views(old(self).tokens@)
                        .drop_first());
                    assert(wf_token(*t));
                    assert forall|i: int| 0 <= i < self.tokens@.len() implies wf_token(
                        #[trigger] self.tokens@[i],
                    ) by {
                        assert(self.tokens@[i] == old(self).tokens@[i + 1]);
                    }
                },
                None => {},
            }
        }
        r
    }

    fn peek_token(&self) -> (r: Option<&Token>)
        ensures
            match r {
                Some(t) => self@.len() > 0 && t@ == self@[0],
                None => self@.len() == 0,
            },
    {
        if self.tokens.len() > 0 {
            Some(&self.tokens[0])
        } else {
            None
        }
    }

    fn expect(&mut self, expected: Token) -> (r: Result<(), Error>)
        requires
            old(self).wf(),
        ensures
            final(self).wf(),
            match r {
                Ok(_) => old(self)@.len() > 0 && old(self)@[0] == expected@ && final(self)@ == old(self)@.drop_first(),
                Err(e) => (old(self)@.len() == 0 && e@ == ErrorV::NoMoreToken) || (old(self)@.len() > 0 && old(self)@[0] != expected@ && e@ == (ErrorV::UnexpectedToken {
                    expected: expected@,
                    found: old(self)@[0],
                })),
            },
    {
        match self.consume_token() {
            Some(token) => {
                if token_eq(&token, &expected) {
                    Ok(())
                } else {
                    Err(Error::UnexpectedToken { expected, found: token })
                }
            },
            None => Err(Error::NoMoreToken),
        }
    }

    /// Parse one line: an optional leading line number, then one statement.
    ///
    /// Returns exactly what [`spec_parse_line`] says of the remaining
    /// tokens. Tokens left over after the statement are ignored.
    pub fn parse_line(&mut self) -> (r: Result<Line, Error>)
        requires
            old(self).wf(),
        ensures
            final(self).wf(),
            match r {
                Ok(line) => spec_parse_line(old(self)@) == Ok::<LineV, ErrorV>(line@),
                Err(e) => spec_parse_line(old(self)@) == Err::<LineV, ErrorV>(e@),
            },
    {
        let number: Option<u8> = match self.peek_token() {
            Some(Token::NumberLiteral(value)) => {
                let value = *value;
                if 0 <= value && value <= 255 {
                    let _ = self.consume_token();
                    Some(value as u8)
                } else {
                    return Err(Error::LineNumberOutOfRange);
                }
            },
            _ => None,
        };
        match self.parse_statement() {
            Ok(statement) => Ok(Line { number, statement }),
            Err(e) => Err(e),
        }
    }

    /// Parse one statement, the direct-mode entry point.
    ///
    /// Returns exactly what [`spec_parse_statement`] says of the remaining
    /// tokens.
    pub fn parse_statement(&mut self) -> (r: Result<Statement, Error>)
        requires
            old(self).wf(),
        ensures
            final(self).wf(),
            match r {
                Ok(st) => spec_parse_statement(old(self)@) == Ok::<
                    (StatementV, Seq<TokenV>),
                    ErrorV,
                >((st@, final(self)@)) && final(self)@.len() < old(self)@.len(),
                Err(e) => spec_parse_statement(old(self)@) == Err::<
                    (StatementV, Seq<TokenV>),
                    ErrorV,
                >(e@),
            },
        decreases old(self)@.len(), 6int,
    {
        match self.consume_token() {
            None => Err(Error::NoMoreToken),
            Some(Token::Print) => match self.parse_print_elements() {
                Ok(expression_list) => Ok(Statement::Print { expression_list }),
                Err(e) => Err(e),
            },
            Some(Token::If) => match self.parse_expression() {
                Err(e) => Err(e),
                Ok(left) => {
                    let operator = match self.consume_token() {
                        Some(Token::Equal) => RelationalOperator::Equal,
                        Some(Token::NotEqual) => RelationalOperator::NotEqual,
                        Some(Token::LessThan) => RelationalOperator::LessThan,
                        Some(Token::LessThanOrEqual) => RelationalOperator::LessThanOrEqual,
                        Some(Token::GreaterThan) => RelationalOperator::GreaterThan,
                        Some(Token::GreaterThanOrEqual) => RelationalOperator::GreaterThanOrEqual,
                        _ => {
                            return Err(Error::RelationalOperatorNotFound);
                        },
                    };
                    match self.parse_expression() {
                        Err(e) => Err(e),
                        Ok(right) => match self.expect(Token::Then) {
                            Err(e) => Err(e),
                            Ok(_) => match self.parse_statement() {
                                Err(e) => Err(e),
                                Ok(then) => Ok(
                                    Statement::If { left, operator, right, then: Box::new(then) },
                                ),
                            },
                        },
                    }
                },
            },
            Some(Token::Goto) => match self.parse_expression() {
                Ok(expression) => Ok(Statement::Goto { expression }),
                Err(e) => Err(e),
            },
            Some(Token::Input) => match self.parse_variable_list() {
                Ok(variable_list) => Ok(Statement::Input { variable_list }),
                Err(e) => Err(e),
            },
            Some(Token::Let) => {
                let variable = match self.consume_token() {
                    Some(Token::Variable { identifier }) => Variable::new(identifier),
                    _ => {
                        return Err(Error::VariableNotFound);
                    },
                };
                match self.expect(Token::Equal) {
                    Err(e) => Err(e),
                    Ok(_) => match self.parse_expression() {
                        Ok(expression) => Ok(Statement::Let { variable, expression }),
                        Err(e) => Err(e),
                    },
                }
            },
            Some(Token::GoSub) => match self.parse_expression() {
                Ok(expression) => Ok(Statement::GoSub { expression }),
                Err(e) => Err(e),
            },
            Some(Token::Return) => Ok(Statement::Return),
            Some(Token::Clear) => Ok(Statement::Clear),
            Some(Token::List) => Ok(Statement::List),
            Some(Token::Run) => Ok(Statement::Run),
            Some(Token::End) => Ok(Statement::End),
            Some(_) => Err(Error::KeywordNotFound),
        }
    }

    fn parse_print_elements(&mut self) -> (r: Result<Vec<ExpressionListElement>, Error>)
        requires
            old(self).wf(),
        ensures
            final(self).wf(),
            match r {
                Ok(v) => spec_parse_print_elements(old(self)@) == Ok::<
                    (Seq<ElementV>, Seq<TokenV>),
                    ErrorV,
                >((elements_view(v@), final(self)@)) && final(self)@.len() < old(self)@.len(),
                Err(e) => spec_parse_print_elements(old(self)@) == Err::<
                    (Seq<ElementV>, Seq<TokenV>),
                    ErrorV,
                >(e@),
            },
        decreases old(self)@.len(), 5int,
    {
        let is_string = match self.peek_token() {
            Some(Token::StringLiteral { .. }) => true,
            _ => false,
        };
        let element = if is_string {
            match self.consume_token() {
                Some(Token::StringLiteral { value }) => ExpressionListElement::StringLiteral(
                    StringLiteral { value },
                ),
                _ => unreached(),
            }
        } else {
            match self.parse_expression() {
                Ok(e) => ExpressionListElement::Expression(e),
                Err(e) => {
                    return Err(e);
                },
            }
        };
        let has_comma = match self.peek_token() {
            Some(Token::Comma) => true,
            _ => false,
        };
        if has_comma {
            let _ = self.consume_token();
            match self.parse_print_elements() {
                Err(e) => Err(e),
                Ok(mut list) => {
                    let ghost tail = list@;
                    list.insert(0, element);
                    proof {
                        assert(list@ =~= seq![element].add(tail));
                        assert(list@.drop_first() =~= tail);
                        assert(elements_view(list@) =~= seq![element@] + elements_view(tail));
                    }
                    Ok(list)
                },
            }
        } else {
            let v = vec![element];
            proof {
                assert(v@.drop_first() =~= Seq::<ExpressionListElement>::empty());
                assert(elements_view(Seq::<ExpressionListElement>::empty()) == Seq::<
                    ElementV,
                >::empty());
                assert(elements_view(v@) =~= seq![element@]);
            }
            Ok(v)
        }
    }

    fn parse_variable_list(&mut self) -> (r: Result<Vec<Variable>, Error>)
        requires
            old(self).wf(),
        ensures
            final(self).wf(),
            match r {
                Ok(v) => spec_parse_variable_list(old(self)@) == Ok::<
                    (Seq<u8>, Seq<TokenV>),
                    ErrorV,
                >((variables_view(v@), final(self)@)) && final(self)@.len() < old(self)@.len(),
                Err(e) => spec_parse_variable_list(old(self)@) == Err::<
                    (Seq<u8>, Seq<TokenV>),
                    ErrorV,
                >(e@),
            },
        decreases old(self)@.len(),
    {
        match self.consume_token() {
            Some(Token::Variable { identifier }) => {
                let variable = Variable::new(identifier);
                let has_comma = match self.peek_token() {
                    Some(Token::Comma) => true,
                    _ => false,
                };
                if has_comma {
                    let _ = self.consume_token();
                    match self.parse_variable_list() {
                        Err(e) => Err(e),
                        Ok(mut list) => {
                            let ghost tail = list@;
                            list.insert(0, variable);
                            proof {
                                assert(list@ =~= seq![variable].add(tail));
                                assert(variables_view(list@) =~= seq![identifier] + variables_view(
                                    tail,
                                ));
                            }
                            Ok(list)
                        },
                    }
                } else {
                    let v = vec![variable];
                    proof {
                        assert(variables_view(v@) =~= seq![identifier]);
                    }
                    Ok(v)
                }
            },
            _ => Err(Error::VariableNotFound),
        }
    }

    fn parse_expression(&mut self) -> (r: Result<Expression, Error>)
        requires
            old(self).wf(),
        ensures
            final(self).wf(),
            match r {
                Ok(e) => spec_parse_expression(old(self)@) == Ok::<
                    (ExpressionV, Seq<TokenV>),
                    ErrorV,
                >((e@, final(self)@)) && final(self)@.len() < old(self)@.len(),
                Err(er) => spec_parse_expression(old(self)@) == Err::<
                    (ExpressionV, Seq<TokenV>),
                    ErrorV,
                >(er@),
            },
        decreases old(self)@.len(), 4int,
    {
        let unary_operator: Option<AdditiveOperator> = match self.peek_token() {
            Some(Token::Plus) => Some(AdditiveOperator::Addition),
            Some(Token::Minus) => Some(AdditiveOperator::Subtraction),
            _ => None,
        };
        if unary_operator.is_some() {
            let _ = self.consume_token();
        }
        match self.parse_term() {
            Err(e) => Err(e),
            Ok(term) => match self.parse_others() {
                Err(e) => Err(e),
                Ok(others) => Ok(Expression { unary_operator, term, others }),
            },
        }
    }

    fn parse_others(&mut self) -> (r: Result<Vec<(AdditiveOperator, Term)>, Error>)
        requires
            old(self).wf(),
        ensures
            final(self).wf(),
            match r {
                Ok(v) => spec_parse_others(old(self)@) == Ok::<
                    (Seq<(AdditiveOperator, TermV)>, Seq<TokenV>),
                    ErrorV,
                >((term_ops_view(v@), final(self)@)) && final(self)@.len() <= old(self)@.len(),
                Err(e) => spec_parse_others(old(self)@) == Err::<
                    (Seq<(AdditiveOperator, TermV)>, Seq<TokenV>),
                    ErrorV,
                >(e@),
            },
        decreases old(self)@.len(), 3int,
    {
        let operator: Option<AdditiveOperator> = match self.peek_token() {
            Some(Token::Plus) => Some(AdditiveOperator::Addition),
            Some(Token::Minus) => Some(AdditiveOperator::Subtraction),
            _ => None,
        };
        match operator {
            None => {
                let v: Vec<(AdditiveOperator, Term)> = Vec::new();
                proof {
                    assert(term_ops_view(v@) =~= Seq::<(AdditiveOperator, TermV)>::empty());
                }
                Ok(v)
            },
            Some(op) => {
                let _ = self.consume_token();
                match self.parse_term() {
                    Err(e) => Err(e),
                    Ok(term) => match self.parse_others() {
                        Err(e) => Err(e),
                        Ok(mut list) => {
                            let ghost tail = list@;
                            list.insert(0, (op, term));
                            proof {
                                assert(list@ =~= seq![(op, term)].add(tail));
                                assert(list@.drop_first() =~= tail);
                                assert(term_ops_view(list@) =~= seq![(op, term@)] + term_ops_view(
                                    tail,
                                ));
                            }
                            Ok(list)
                        },
                    },
                }
            },
        }
    }

    fn parse_term(&mut self) -> (r: Result<Term, Error>)
        requires
            old(self).wf(),
        ensures
            final(self).wf(),
            match r {
                Ok(t) => spec_parse_term(old(self)@) == Ok::<(TermV, Seq<TokenV>), ErrorV>(
                    (t@, final(self)@),
                ) && final(self)@.len() < old(self)@.len(),
                Err(e) => spec_parse_term(old(self)@) == Err::<(TermV, Seq<TokenV>), ErrorV>(e@),
            },
        decreases old(self)@.len(), 2int,
    {
        match self.parse_factor() {
            Err(e) => Err(e),
            Ok(factor) => match self.parse_operations() {
                Err(e) => Err(e),
                Ok(operations) => Ok(Term { factor, operations }),
            },
        }
    }

    fn parse_operations(&mut self) -> (r: Result<Vec<(MultiplicativeOperator, Factor)>, Error>)
        requires
            old(self).wf(),
        ensures
            final(self).wf(),
            match r {
                Ok(v) => spec_parse_operations(old(self)@) == Ok::<
                    (Seq<(MultiplicativeOperator, FactorV)>, Seq<TokenV>),
                    ErrorV,
                >((factor_ops_view(v@), final(self)@)) && final(self)@.len() <= old(self)@.len(),
                Err(e) => spec_parse_operations(old(self)@) == Err::<
                    (Seq<(MultiplicativeOperator, FactorV)>, Seq<TokenV>),
                    ErrorV,
                >(e@),
            },
        decreases old(self)@.len(), 1int,
    {
        let operator: Option<MultiplicativeOperator> = match self.peek_token() {
            Some(Token::Multiply) => Some(MultiplicativeOperator::Multiplication),
            Some(Token::Divide) => Some(MultiplicativeOperator::Division),
            _ => None,
        };
        match operator {
            None => {
                let v: Vec<(MultiplicativeOperator, Factor)> = Vec::new();
                proof {
                    assert(factor_ops_view(v@) =~= Seq::<(MultiplicativeOperator, FactorV)>::empty());
                }
                Ok(v)
            },
            Some(op) => {
                let _ = self.consume_token();
                match self.parse_factor() {
                    Err(e) => Err(e),
                    Ok(factor) => match self.parse_operations() {
                        Err(e) => Err(e),
                        Ok(mut list) => {
                            let ghost tail = list@;
                            list.insert(0, (op, factor));
                            proof {
                                assert(list@ =~= seq![(op, factor)].add(tail));
                                assert(list@.drop_first() =~= tail);
                                assert(factor_ops_view(list@) =~= seq![(op, factor@)]
                                    + factor_ops_view(tail));
                            }
                            Ok(list)
                        },
                    },
                }
            },
        }
    }

    fn parse_factor(&mut self) -> (r: Result<Factor, Error>)
        requires
            old(self).wf(),
        ensures
            final(self).wf(),
            match r {
                Ok(f) => spec_parse_factor(old(self)@) == Ok::<(FactorV, Seq<TokenV>), ErrorV>(
                    (f@, final(self)@),
                ) && final(self)@.len() < old(self)@.len(),
                Err(e) => spec_parse_factor(old(self)@) == Err::<(FactorV, Seq<TokenV>), ErrorV>(
                    e@,
                ),
            },
        decreases old(self)@.len(), 0int,
    {
        match self.consume_token() {
            None => Err(Error::NoMoreToken),
            Some(Token::Variable { identifier }) => Ok(Factor::Variable(Variable::new(identifier))),
            Some(Token::NumberLiteral(value)) => Ok(Factor::NumberLiteral(NumberLiteral { value })),
            Some(Token::OpeningParenthesis) => match self.parse_expression() {
                Err(e) => Err(e),
                Ok(expression) => match self.expect(Token::ClosingParenthesis) {
                    Err(e) => Err(e),
                    Ok(_) => Ok(Factor::Expression(Box::new(expression))),
                },
            },
            Some(found) => Err(
                Error::UnexpectedToken { expected: Token::OpeningParenthesis, found },
            ),
        }
    }
}

/// Whether two byte vectors hold the same bytes.
fn bytes_eq(a: &Vec<u8>, b: &Vec<u8>) -> (r: bool)
    ensures
        r == (a@ == b@),
{
    if a.len() != b.len() {
        return false;
    }
    let mut i: usize = 0;
    while i < a.len()
        invariant
            i <= a.len(),
            a@.len() == b@.len(),
            forall|j: int| 0 <= j < i ==> a@[j] == b@[j],
        decreases a.len() - i,
    {
        if a[i] != b[i] {
            return false;
        }
        i = i + 1;
    }
    proof {
        assert(a@ =~= b@);
    }
    true
}

/// Whether two tokens are the same token with the same payload.
fn token_eq(a: &Token, b: &Token) -> (r: bool)
    ensures
        r == (a@ == b@),
{
    match (a, b) {
        (Token::Comma, Token::Comma) => true,
        (Token::OpeningParenthesis, Token::OpeningParenthesis) => true,
        (Token::ClosingParenthesis, Token::ClosingParenthesis) => true,
        (Token::Equal, Token::Equal) => true,
        (Token::NotEqual, Token::NotEqual) => true,
        (Token::LessThan, Token::LessThan) => true,
        (Token::LessThanOrEqual, Token::LessThanOrEqual) => true,
        (Token::GreaterThan, Token::GreaterThan) => true,
        (Token::GreaterThanOrEqual, Token::GreaterThanOrEqual) => true,
        (Token::Plus, Token::Plus) => true,
        (Token::Minus, Token::Minus) => true,
        (Token::Multiply, Token::Multiply) => true,
        (Token::Divide, Token::Divide) => true,
        (Token::NumberLiteral(x), Token::NumberLiteral(y)) => x == y,
        (Token::StringLiteral { value: x }, Token::StringLiteral { value: y }) => bytes_eq(x, y),
        (Token::Variable { identifier: x }, Token::Variable { identifier: y }) => x == y,
        (Token::Print, Token::Print) => true,
        (Token::If, Token::If) => true,
        (Token::Then, Token::Then) => true,
        (Token::Goto, Token::Goto) => true,
        (Token::Input, Token::Input) => true,
        (Token::Let, Token::Let) => true,
        (Token::GoSub, Token::GoSub) => true,
        (Token::Return, Token::Return) => true,
        (Token::Clear, Token::Clear) => true,
        (Token::List, Token::List) => true,
        (Token::Run, Token::Run) => true,
        (Token::End, Token::End) => true,
        _ => false,
    }
}

} // verus!
