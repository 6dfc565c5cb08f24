//! Lexical analysis: one raw byte line in, an ordered token sequence out.
//!
//! The rules, stated by [`spec_lex`]: ASCII whitespace is skipped; a run of
//! digits forms a 16-bit number literal by accumulating `value * 10 + digit`
//! with wrapping arithmetic; a run of letters and digits starting with a
//! letter is folded to uppercase and is a variable when one byte long,
//! otherwise it must match one of the twelve keywords; bytes between a pair
//! of double quotes form a string literal; the punctuation and operator
//! characters map to their tokens, with `<=`, `<>`, `>=` and `><` read as
//! two-byte operators; anything else is an error.

use crate::arith::{add16, lemma_wrap16_range, mul16, wadd, wmul};
use crate::token::{token_views, Token, TokenV};
use vstd::prelude::*;

verus! {

/// A lexical error.
#[derive(Debug, PartialEq, Clone, Copy)]
pub enum Error {
    /// A byte that starts no token, like `@` or `$`.
    InvalidCharacter,
    /// A letter run longer than one byte that is not a keyword.
    UnknownIdentifier,
    /// A string literal with no closing quote.
    NonTerminatedStringLiteral,
}

/// ASCII whitespace, as `u8::is_ascii_whitespace` counts it.
pub open spec fn is_space(c: u8) -> bool {
    c == 32 || c == 9 || c == 10 || c == 12 || c == 13
}

/// An ASCII decimal digit.
pub open spec fn is_digit(c: u8) -> bool {
    48 <= c <= 57
}

/// An ASCII letter.
pub open spec fn is_alpha(c: u8) -> bool {
    (65 <= c <= 90) || (97 <= c <= 122)
}

/// An ASCII letter or digit.
pub open spec fn is_alnum(c: u8) -> bool {
    is_alpha(c) || is_digit(c)
}

/// The uppercase fold of one ASCII byte.
pub open spec fn to_upper(c: u8) -> u8 {
    if 97 <= c <= 122 {
        (c - 32) as u8
    } else {
        c
    }
}

/// The uppercase fold of a byte sequence.
pub open spec fn upper_seq(s: Seq<u8>) -> Seq<u8> {
    s.map_values(|c: u8| to_upper(c))
}

/// How many leading bytes of `s` are digits.
pub open spec fn digit_run(s: Seq<u8>) -> int
    decreases s.len(),
{
    if s.len() > 0 && is_digit(s[0]) {
        1 + digit_run(s.drop_first())
    } else {
        0
    }
}

/// How many leading bytes of `s` are letters or digits.
pub open spec fn alnum_run(s: Seq<u8>) -> int
    decreases s.len(),
{
    if s.len() > 0 && is_alnum(s[0]) {
        1 + alnum_run(s.drop_first())
    } else {
        0
    }
}

/// How many leading bytes of `s` are not a double quote.
pub open spec fn nonquote_run(s: Seq<u8>) -> int
    decreases s.len(),
{
    if s.len() > 0 && s[0] != 34 {
        1 + nonquote_run(s.drop_first())
    } else {
        0
    }
}

/// The value of a digit run, folded left to right with wrapping 16-bit
/// arithmetic starting from `acc`.
pub open spec fn digits_value(s: Seq<u8>, acc: i16) -> i16
    decreases s.len(),
{
    if s.len() == 0 {
        acc
    } else {
        digits_value(s.drop_first(), wadd(wmul(acc, 10), (s[0] - 48) as i16))
    }
}

/// The keyword token of an uppercase identifier, if it is one.
pub open spec fn keyword_of(ident: Seq<u8>) -> Option<TokenV> {
    if ident =~= seq![80u8, 82u8, 73u8, 78u8, 84u8] {
        Some(TokenV::Print)
    } else if ident =~= seq![73u8, 70u8] {
        Some(TokenV::If)
    } else if ident =~= seq![84u8, 72u8, 69u8, 78u8] {
        Some(TokenV::Then)
    } else if ident =~= seq![71u8, 79u8, 84u8, 79u8] {
        Some(TokenV::Goto)
    } else if ident =~= seq![73u8, 78u8, 80u8, 85u8, 84u8] {
        Some(TokenV::Input)
    } else if ident =~= seq![76u8, 69u8, 84u8] {
        Some(TokenV::Let)
    } else if ident =~= seq![71u8, 79u8, 83u8, 85u8, 66u8] {
        Some(TokenV::GoSub)
    } else if ident =~= seq![82u8, 69u8, 84u8, 85u8, 82u8, 78u8] {
        Some(TokenV::Return)
    } else if ident =~= seq![67u8, 76u8, 69u8, 65u8, 82u8] {
        Some(TokenV::Clear)
    } else if ident =~= seq![76u8, 73u8, 83u8, 84u8] {
        Some(TokenV::List)
    } else if ident =~= seq![82u8, 85u8, 78u8] {
        Some(TokenV::Run)
    } else if ident =~= seq![69u8, 78u8, 68u8] {
        Some(TokenV::End)
    } else {
        None
    }
}

/// Glue one token onto the front of a lexing result.
pub open spec fn lex_cons(t: TokenV, rest: Result<Seq<TokenV>, Error>) -> Result<
    Seq<TokenV>,
    Error,
> {
    match rest {
        Ok(ts) => Ok(seq![t] + ts),
        Err(e) => Err(e),
    }
}

/// The token sequence of a byte line, or the first lexical error.
pub open spec fn spec_lex(s: Seq<u8>) -> Result<Seq<TokenV>, Error>
    decreases s.len(),
    via spec_lex_decreases
{
    if s.len() == 0 {
        Ok(seq![])
    } else {
        let c = s[0];
        if is_space(c) {
            spec_lex(s.drop_first())
        } else if c == 44 {
            lex_cons(TokenV::Comma, spec_lex(s.drop_first()))
        } else if c == 40 {
            lex_cons(TokenV::OpeningParenthesis, spec_lex(s.drop_first()))
        } else if c == 41 {
            lex_cons(TokenV::ClosingParenthesis, spec_lex(s.drop_first()))
        } else if c == 61 {
            lex_cons(TokenV::Equal, spec_lex(s.drop_first()))
        } else if c == 43 {
            lex_cons(TokenV::Plus, spec_lex(s.drop_first()))
        } else if c == 45 {
            lex_cons(TokenV::Minus, spec_lex(s.drop_first()))
        } else if c == 42 {
            lex_cons(TokenV::Multiply, spec_lex(s.drop_first()))
        } else if c == 47 {
            lex_cons(TokenV::Divide, spec_lex(s.drop_first()))
        } else if c == 60 {
            if s.len() >= 2 && s[1] == 61 {
                lex_cons(TokenV::LessThanOrEqual, spec_lex(s.skip(2)))
            } else if s.len() >= 2 && s[1] == 62 {
                lex_cons(TokenV::NotEqual, spec_lex(s.skip(2)))
            } else {
                lex_cons(TokenV::LessThan, spec_lex(s.drop_first()))
            }
        } else if c == 62 {
            if s.len() >= 2 && s[1] == 61 {
                lex_cons(TokenV::GreaterThanOrEqual, spec_lex(s.skip(2)))
            } else if s.len() >= 2 && s[1] == 60 {
                lex_cons(TokenV::NotEqual, spec_lex(s.skip(2)))
            } else {
                lex_cons(TokenV::GreaterThan, spec_lex(s.drop_first()))
            }
        } else if is_digit(c) {
            let n = digit_run(s);
            lex_cons(TokenV::NumberLiteral(digits_value(s.take(n), 0)), spec_lex(s.skip(n)))
        } else if c == 34 {
            let rest = s.drop_first();
            let k = nonquote_run(rest);
            if k < rest.len() {
                lex_cons(TokenV::StringLiteral(rest.take(k)), spec_lex(rest.skip(k + 1)))
            } else {
                Err(Error::NonTerminatedStringLiteral)
            }
        } else if is_alpha(c) {
            let n = alnum_run(s);
            if n == 1 {
                lex_cons(TokenV::Variable(to_upper(c)), spec_lex(s.skip(n)))
            } else {
                match keyword_of(upper_seq(s.take(n))) {
                    Some(t) => lex_cons(t, spec_lex(s.skip(n))),
                    None => Err(Error::UnknownIdentifier),
                }
            }
        } else {
            Err(Error::InvalidCharacter)
        }
    }
}

#[via_fn]
proof fn spec_lex_decreases(s: Seq<u8>) {
    if s.len() > 0 {
        lemma_digit_run(s);
        lemma_alnum_run(s);
        if s[0] == 34 {
            lemma_nonquote_run(s.drop_first());
        }
    }
}

/// The digit run is a well-delimited prefix.
proof fn lemma_digit_run(s: Seq<u8>)
    ensures
        0 <= digit_run(s) <= s.len(),
        forall|k: int| 0 <= k < digit_run(s) ==> is_digit(#[trigger] s[k]),
        digit_run(s) < s.len() ==> !is_digit(s[digit_run(s)]),
    decreases s.len(),
{
    if s.len() > 0 && is_digit(s[0]) {
        lemma_digit_run(s.drop_first());
        assert forall|k: int| 0 <= k < digit_run(s) implies is_digit(#[trigger] s[k]) by {
            if k > 0 {
                assert(is_digit(s.drop_first()[k - 1]));
            }
        }
    }
}

/// A prefix of digits delimited by a non-digit or the end is the digit run.
pub proof fn lemma_digit_run_is(s: Seq<u8>, m: int)
    requires
        0 <= m <= s.len(),
        forall|k: int| 0 <= k < m ==> is_digit(#[trigger] s[k]),
        m < s.len() ==> !is_digit(s[m]),
    ensures
        digit_run(s) == m,
    decreases s.len(),
{
    if m == 0 {
    } else {
        assert(is_digit(s[0]));
        lemma_digit_run_is(s.drop_first(), m - 1);
    }
}

/// The letter-or-digit run is a well-delimited prefix.
proof fn lemma_alnum_run(s: Seq<u8>)
    ensures
        0 <= alnum_run(s) <= s.len(),
        forall|k: int| 0 <= k < alnum_run(s) ==> is_alnum(#[trigger] s[k]),
        alnum_run(s) < s.len() ==> !is_alnum(s[alnum_run(s)]),
    decreases s.len(),
{
    if s.len() > 0 && is_alnum(s[0]) {
        lemma_alnum_run(s.drop_first());
        assert forall|k: int| 0 <= k < alnum_run(s) implies is_alnum(#[trigger] s[k]) by {
            if k > 0 {
                assert(is_alnum(s.drop_first()[k - 1]));
            }
        }
    }
}

/// A prefix of letters and digits delimited by anything else or the end is
/// the letter-or-digit run.
pub proof fn lemma_alnum_run_is(s: Seq<u8>, m: int)
    requires
        0 <= m <= s.len(),
        forall|k: int| 0 <= k < m ==> is_alnum(#[trigger] s[k]),
        m < s.len() ==> !is_alnum(s[m]),
    ensures
        alnum_run(s) == m,
    decreases s.len(),
{
    if m == 0 {
    } else {
        assert(is_alnum(s[0]));
        lemma_alnum_run_is(s.drop_first(), m - 1);
    }
}

/// The run up to the first double quote is a well-delimited prefix.
proof fn lemma_nonquote_run(s: Seq<u8>)
    ensures
        0 <= nonquote_run(s) <= s.len(),
        forall|k: int| 0 <= k < nonquote_run(s) ==> #[trigger] s[k] != 34,
        nonquote_run(s) < s.len() ==> s[nonquote_run(s)] == 34,
    decreases s.len(),
{
    if s.len() > 0 && s[0] != 34 {
        lemma_nonquote_run(s.drop_first());
        assert forall|k: int| 0 <= k < nonquote_run(s) implies #[trigger] s[k] != 34 by {
            if k > 0 {
                assert(s.drop_first()[k - 1] != 34);
            }
        }
    }
}

/// A prefix free of double quotes delimited by one or by the end is the
/// run up to the first double quote.
pub proof fn lemma_nonquote_run_is(s: Seq<u8>, m: int)
    requires
        0 <= m <= s.len(),
        forall|k: int| 0 <= k < m ==> #[trigger] s[k] != 34,
        m < s.len() ==> s[m] == 34,
    ensures
        nonquote_run(s) == m,
    decreases s.len(),
{
    if m == 0 {
    } else {
        assert(s[0] != 34);
        lemma_nonquote_run_is(s.drop_first(), m - 1);
    }
}

/// Extending a digit run by one digit multiplies by ten and adds it.
pub proof fn lemma_digits_value_push(s: Seq<u8>, acc: i16, d: u8)
    ensures
        digits_value(s.push(d), acc) == wadd(wmul(digits_value(s, acc), 10), (d - 48) as i16),
    decreases s.len(),
{
    if s.len() == 0 {
        reveal_with_fuel(digits_value, 2);
        assert(s.push(d) =~= seq![d]);
        assert(s.push(d).drop_first() =~= Seq::<u8>::empty());
    } else {
        assert(s.push(d).drop_first() =~= s.drop_first().push(d));
        lemma_digits_value_push(s.drop_first(), wadd(wmul(acc, 10), (s[0] - 48) as i16), d);
    }
}

/// A token stream is well formed when every variable token holds an
/// uppercase letter.
pub open spec fn wf_token(t: Token) -> bool {
    match t {
        Token::Variable { identifier } => 65 <= identifier <= 90,
        _ => true,
    }
}

/// Every token of the sequence is well formed.
pub open spec fn wf_tokens(s: Seq<Token>) -> bool {
    forall|i: int| 0 <= i < s.len() ==> wf_token(#[trigger] s[i])
}

/// The lexing of a prefix of `full` to `done` is consistent with lexing
/// all of `full`.
pub open spec fn lex_prefix_ok(full: Seq<u8>, done: Seq<Token>, i: int) -> bool {
    match spec_lex(full.skip(i)) {
        Ok(ts) => spec_lex(full) == Ok::<Seq<TokenV>, Error>(token_views(done) + ts),
        Err(e) => spec_lex(full) == Err::<Seq<TokenV>, Error>(e),
    }
}

proof fn lemma_lex_step(full: Seq<u8>, done: Seq<Token>, t: Token, i: int, j: int)
    requires
        lex_prefix_ok(full, done, i),
        spec_lex(full.skip(i)) == lex_cons(t@, spec_lex(full.skip(j))),
    ensures
        lex_prefix_ok(full, done.push(t), j),
{
    assert(token_views(done.push(t)) =~= token_views(done).push(t@));
    match spec_lex(full.skip(j)) {
        Ok(ts) => {
            assert(token_views(done) + (seq![t@] + ts) =~= token_views(done.push(t)) + ts);
        },
        Err(_) => {},
    }
}

/// The keyword token of an uppercase identifier of length two or more.
fn keyword_token(ident: &Vec<u8>) -> (r: Option<Token>)
    ensures
        match r {
            Some(t) => keyword_of(ident@) == Some(t@),
            None => keyword_of(ident@).is_none(),
        },
{
    let n = ident.len();
    if n == 5 && ident[0] == 80 && ident[1] == 82 && ident[2] == 73 && ident[3] == 78 && ident[4]
        == 84 {
        Some(Token::Print)
    } else if n == 2 && ident[0] == 73 && ident[1] == 70 {
        Some(Token::If)
    } else if n == 4 && ident[0] == 84 && ident[1] == 72 && ident[2] == 69 && ident[3] == 78 {
        Some(Token::Then)
    } else if n == 4 && ident[0] == 71 && ident[1] == 79 && ident[2] == 84 && ident[3] == 79 {
        Some(Token::Goto)
    } else if n == 5 && ident[0] == 73 && ident[1] == 78 && ident[2] == 80 && ident[3] == 85
        && ident[4] == 84 {
        Some(Token::Input)
    } else if n == 3 && ident[0] == 76 && ident[1] == 69 && ident[2] == 84 {
        Some(Token::Let)
    } else if n == 5 && ident[0] == 71 && ident[1] == 79 && ident[2] == 83 && ident[3] == 85
        && ident[4] == 66 {
        Some(Token::GoSub)
    } else if n == 6 && ident[0] == 82 && ident[1] == 69 && ident[2] == 84 && ident[3] == 85
        && ident[4] == 82 && ident[5] == 78 {
        Some(Token::Return)
    } else if n == 5 && ident[0] == 67 && ident[1] == 76 && ident[2] == 69 && ident[3] == 65
        && ident[4] == 82 {
        Some(Token::Clear)
    } else if n == 4 && ident[0] == 76 && ident[1] == 73 && ident[2] == 83 && ident[3] == 84 {
        Some(Token::List)
    } else if n == 3 && ident[0] == 82 && ident[1] == 85 && ident[2] == 78 {
        Some(Token::Run)
    } else if n == 3 && ident[0] == 69 && ident[1] == 78 && ident[2] == 68 {
        Some(Token::End)
    } else {
        None
    }
}

/// The uppercase fold of one byte.
fn upper_byte(c: u8) -> (r: u8)
    ensures
        r == to_upper(c),
{
    if 97 <= c && c <= 122 {
        c - 32
    } else {
        c
    }
}

/// Tokenize one line of source text.
///
/// The result is exactly what [`spec_lex`] says of the bytes: the token
/// sequence of the line, or the first lexical error. Produced variable
/// tokens always hold an uppercase letter.
#[verifier::rlimit(100)]
pub fn lex(code: &[u8]) -> (r: Result<Vec<Token>, Error>)
    ensures
        match r {
            Ok(tokens) => spec_lex(code@) == Ok::<Seq<TokenV>, Error>(token_views(tokens@))
                && wf_tokens(tokens@),
            Err(e) => spec_lex(code@) == Err::<Seq<TokenV>, Error>(e),
        },
{
    let ghost full = code@;
    let mut tokens: Vec<Token> = Vec::new();
    let mut i: usize = 0;
    proof {
        assert(full.skip(0) =~= full);
        if let Ok(ts) = spec_lex(full) {
            assert(token_views(tokens@) + ts =~= ts);
        }
    }
    while i < code.len()
        invariant
            i <= full.len(),
            full == code@,
            lex_prefix_ok(full, tokens@, i as int),
            wf_tokens(tokens@),
        decreases full.len() - i,
    {
        let ghost s = full.skip(i as int);
        proof {
            assert(s[0] == full[i as int]);
            assert(s.drop_first() =~= full.skip(i as int + 1));
        }
        let c = code[i];
        if c == 32 || c == 9 || c == 10 || c == 12 || c == 13 {
            i = i + 1;
            continue ;
        }
        let (token, next): (Token, usize) = if c == 44 {
            (Token::Comma, i + 1)
        } else if c == 40 {
            (Token::OpeningParenthesis, i + 1)
        } else if c == 41 {
            (Token::ClosingParenthesis, i + 1)
        } else if c == 61 {
            (Token::Equal, i + 1)
        } else if c == 43 {
            (Token::Plus, i + 1)
        } else if c == 45 {
            (Token::Minus, i + 1)
        } else if c == 42 {
            (Token::Multiply, i + 1)
        } else if c == 47 {
            (Token::Divide, i + 1)
        } else if c == 60 {
            proof {
                if i + 1 < full.len() {
                    assert(s[1] == full[i as int + 1]);
                    assert(s.skip(2) =~= full.skip(i as int + 2));
                }
            }
            if i + 1 < code.len() && code[i + 1] == 61 {
                (Token::LessThanOrEqual, i + 2)
            } else if i + 1 < code.len() && code[i + 1] == 62 {
                (Token::NotEqual, i + 2)
            } else {
                (Token::LessThan, i + 1)
            }
        } else if c == 62 {
            proof {
                if i + 1 < full.len() {
                    assert(s[1] == full[i as int + 1]);
                    assert(s.skip(2) =~= full.skip(i as int + 2));
                }
            }
            if i + 1 < code.len() && code[i + 1] == 61 {
                (Token::GreaterThanOrEqual, i + 2)
            } else if i + 1 < code.len() && code[i + 1] == 60 {
                (Token::NotEqual, i + 2)
            } else {
                (Token::GreaterThan, i + 1)
            }
        } else if 48 <= c && c <= 57 {
            let mut value: i16 = (c - 48) as i16;
            proof {
                reveal_with_fuel(digits_value, 2);
                assert(full.subrange(i as int, i as int + 1) =~= seq![full[i as int]]);
                assert(full.subrange(i as int, i as int + 1).drop_first() =~= Seq::<u8>::empty());
                lemma_wrap16_range(0);
                lemma_wrap16_range((c - 48) as int);
                assert(value == digits_value(full.subrange(i as int, i as int + 1), 0));
            }
            let mut j = i + 1;
            while j < code.len() && 48 <= code[j] && code[j] <= 57
                invariant
                    i < j <= full.len(),
                    full == code@,
                    forall|k: int| i <= k < j ==> is_digit(#[trigger] full[k]),
                    value == digits_value(full.subrange(i as int, j as int), 0),
                decreases full.len() - j,
            {
                let d = code[j];
                value = add16(mul16(value, 10), (d - 48) as i16);
                proof {
                    assert(full.subrange(i as int, j as int + 1) =~= full.subrange(
                        i as int,
                        j as int,
                    ).push(d));
                    lemma_digits_value_push(full.subrange(i as int, j as int), 0, d);
                }
                j = j + 1;
            }
            proof {
                assert forall|k: int| 0 <= k < j - i implies is_digit(#[trigger] s[k]) by {
                    assert(s[k] == full[i + k]);
                }
                if j < full.len() {
                    assert(s[j - i] == full[j as int]);
                }
                lemma_digit_run_is(s, j - i);
                assert(s.take(j - i) =~= full.subrange(i as int, j as int));
                assert(s.skip(j - i) =~= full.skip(j as int));
            }
            (Token::NumberLiteral(value), j)
        } else if c == 34 {
            let ghost rest = full.skip(i as int + 1);
            let mut value: Vec<u8> = Vec::new();
            let mut j = i + 1;
            while j < code.len() && code[j] != 34
                invariant
                    i + 1 <= j <= full.len(),
                    full == code@,
                    forall|k: int| i + 1 <= k < j ==> #[trigger] full[k] != 34,
                    value@ == full.subrange(i as int + 1, j as int),
                decreases full.len() - j,
            {
                value.push(code[j]);
                proof {
                    assert(value@ =~= full.subrange(i as int + 1, j as int + 1));
                }
                j = j + 1;
            }
            proof {
                assert(rest =~= s.drop_first());
                assert forall|k: int| 0 <= k < j - (i + 1) implies #[trigger] rest[k] != 34 by {
                    assert(rest[k] == full[i + 1 + k]);
                }
                if j < full.len() {
                    assert(rest[j - (i + 1)] == full[j as int]);
                }
                lemma_nonquote_run_is(rest, j - (i + 1));
            }
            if j == code.len() {
                proof {
                    assert(spec_lex(s) == Err::<Seq<TokenV>, Error>(
                        Error::NonTerminatedStringLiteral,
                    ));
                }
                return Err(Error::NonTerminatedStringLiteral);
            }
            proof {
                assert(rest.take(j - (i + 1)) =~= full.subrange(i as int + 1, j as int));
                assert(rest.skip(j - (i + 1) + 1) =~= full.skip(j as int + 1));
            }
            (Token::StringLiteral { value }, j + 1)
        } else if (65 <= c && c <= 90) || (97 <= c && c <= 122) {
            let mut ident: Vec<u8> = Vec::new();
            ident.push(upper_byte(c));
            proof {
                assert(full.subrange(i as int, i as int + 1) =~= seq![full[i as int]]);
                assert(ident@ =~= upper_seq(full.subrange(i as int, i as int + 1)));
            }
            let mut j = i + 1;
            while j < code.len() && ((48 <= code[j] && code[j] <= 57) || (65 <= code[j] && code[j]
                <= 90) || (97 <= code[j] && code[j] <= 122))
                invariant
                    i < j <= full.len(),
                    full == code@,
                    forall|k: int| i <= k < j ==> is_alnum(#[trigger] full[k]),
                    ident@ == upper_seq(full.subrange(i as int, j as int)),
                decreases full.len() - j,
            {
                ident.push(upper_byte(code[j]));
                proof {
                    assert(full.subrange(i as int, j as int + 1) =~= full.subrange(
                        i as int,
                        j as int,
                    ).push(full[j as int]));
                    assert(ident@ =~= upper_seq(full.subrange(i as int, j as int + 1)));
                }
                j = j + 1;
            }
            proof {
                assert forall|k: int| 0 <= k < j - i implies is_alnum(#[trigger] s[k]) by {
                    assert(s[k] == full[i + k]);
                }
                if j < full.len() {
                    assert(s[j - i] == full[j as int]);
                }
                lemma_alnum_run_is(s, j - i);
                assert(s.take(j - i) =~= full.subrange(i as int, j as int));
                assert(s.skip(j - i) =~= full.skip(j as int));
            }
            if ident.len() == 1 {
                let identifier = ident[0];
                proof {
                    assert(upper_seq(full.subrange(i as int, j as int))[0] == to_upper(
                        full[i as int],
                    ));
                }
                (Token::Variable { identifier }, j)
            } else {
                match keyword_token(&ident) {
                    Some(t) => (t, j),
                    None => {
                        proof {
                            assert(spec_lex(s) == Err::<Seq<TokenV>, Error>(
                                Error::UnknownIdentifier,
                            ));
                        }
                        return Err(Error::UnknownIdentifier);
                    },
                }
            }
        } else {
            proof {
                assert(spec_lex(s) == Err::<Seq<TokenV>, Error>(Error::InvalidCharacter));
            }
            return Err(Error::InvalidCharacter);
        };
        proof {
            assert(spec_lex(full.skip(i as int)) == lex_cons(
                token@,
                spec_lex(full.skip(next as int)),
            ));
            lemma_lex_step(full, tokens@, token, i as int, next as int);
            assert(wf_token(token));
        }
        tokens.push(token);
        i = next;
    }
    proof {
        assert(full.skip(i as int) =~= Seq::<u8>::empty());
        assert(token_views(tokens@) + Seq::<TokenV>::empty() =~= token_views(tokens@));
    }
    Ok(tokens)
}

} // verus!
