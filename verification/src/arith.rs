//! 16-bit signed arithmetic with two's-complement wrapping.
//!
//! All interpreter arithmetic wraps on overflow; division truncates toward
//! zero, and dividing the smallest value by minus one wraps back to the
//! smallest value. Division by zero is rejected by the evaluator before
//! these functions run.

use vstd::arithmetic::div_mod::{lemma_mod_add_multiples_vanish, lemma_small_mod};
use vstd::prelude::*;

verus! {

/// The 16-bit two's-complement value of an unbounded integer.
pub open spec fn wrap16(x: int) -> i16 {
    if x % 65536 > 32767 {
        (x % 65536 - 65536) as i16
    } else {
        (x % 65536) as i16
    }
}

/// Wrapping addition.
pub open spec fn wadd(a: i16, b: i16) -> i16 {
    wrap16(a + b)
}

/// Wrapping subtraction.
pub open spec fn wsub(a: i16, b: i16) -> i16 {
    wrap16(a - b)
}

/// Wrapping negation.
pub open spec fn wneg(a: i16) -> i16 {
    wrap16(-a)
}

/// Wrapping multiplication.
pub open spec fn wmul(a: i16, b: i16) -> i16 {
    wrap16(a * b)
}

/// Integer division truncated toward zero.
pub open spec fn trunc_div(a: int, b: int) -> int
    recommends
        b != 0,
{
    if (a < 0) == (b < 0) {
        abs_int(a) / abs_int(b)
    } else {
        -(abs_int(a) / abs_int(b))
    }
}

/// The absolute value of an integer.
pub open spec fn abs_int(a: int) -> int {
    if a < 0 {
        -a
    } else {
        a
    }
}

/// Wrapping division, truncated toward zero.
pub open spec fn wdiv(a: i16, b: i16) -> i16
    recommends
        b != 0,
{
    wrap16(trunc_div(a as int, b as int))
}

/// On arguments one wrap away from the 16-bit range, `wrap16` adds or
/// subtracts a single period.
pub proof fn lemma_wrap16_range(v: int)
    requires
        -65536 <= v < 65536,
    ensures
        wrap16(v) == if v > 32767 {
            (v - 65536) as i16
        } else if v < -32768 {
            (v + 65536) as i16
        } else {
            v as i16
        },
{
    if v >= 0 {
        lemma_small_mod(v as nat, 65536);
    } else {
        lemma_mod_add_multiples_vanish(v, 65536);
        lemma_small_mod((v + 65536) as nat, 65536);
    }
}

/// Wrapping 16-bit addition.
pub fn add16(a: i16, b: i16) -> (r: i16)
    ensures
        r == wadd(a, b),
{
    proof {
        lemma_wrap16_range(a + b);
    }
    a.wrapping_add(b)
}

/// Wrapping 16-bit subtraction.
pub fn sub16(a: i16, b: i16) -> (r: i16)
    ensures
        r == wsub(a, b),
{
    proof {
        lemma_wrap16_range(a - b);
    }
    a.wrapping_sub(b)
}

/// Wrapping 16-bit negation.
pub fn neg16(a: i16) -> (r: i16)
    ensures
        r == wneg(a),
{
    proof {
        lemma_wrap16_range(-a as int);
    }
    0i16.wrapping_sub(a)
}

/// Wrapping 16-bit multiplication.
pub fn mul16(a: i16, b: i16) -> (r: i16)
    ensures
        r == wmul(a, b),
{
    a.wrapping_mul(b)
}

/// 16-bit division, truncated toward zero; the one overflowing case, the
/// smallest value divided by minus one, wraps.
pub fn div16(a: i16, b: i16) -> (r: i16)
    requires
        b != 0,
    ensures
        r == wdiv(a, b),
{
    if a == i16::MIN && b == -1 {
        proof {
            assert(32768int / 1int == 32768) by (nonlinear_arith);
            assert(trunc_div(a as int, b as int) == 32768);
            assert(wrap16(32768) == i16::MIN) by {
                lemma_small_mod(32768, 65536);
            }
        }
        i16::MIN
    } else {
        let ua: u32 = if a >= 0 {
            a as u32
        } else {
            (-(a as i32)) as u32
        };
        let ub: u32 = if b >= 0 {
            b as u32
        } else {
            (-(b as i32)) as u32
        };
        let q: u32 = ua / ub;
        proof {
            assert(ua == abs_int(a as int));
            assert(ub == abs_int(b as int));
            assert(q <= ua) by {
                assert(ua / ub <= ua / 1) by {
                    vstd::arithmetic::div_mod::lemma_div_is_ordered_by_denominator(
                        ua as int,
                        1,
                        ub as int,
                    );
                }
            }
            assert(q == abs_int(a as int) / abs_int(b as int));
        }
        let signed_q: i32 = if (a < 0) != (b < 0) {
            -(q as i32)
        } else {
            q as i32
        };
        proof {
            assert(signed_q == trunc_div(a as int, b as int));
            assert(-32768 <= signed_q <= 32767) by {
                if a == i16::MIN {
                    assert(ua == 32768);
                    if ub >= 2 {
                        assert(ua / ub <= ua / 2) by {
                            vstd::arithmetic::div_mod::lemma_div_is_ordered_by_denominator(
                                ua as int,
                                2,
                                ub as int,
                            );
                        }
                    } else {
                        assert(b == 1);
                    }
                }
            }
            lemma_wrap16_range(signed_q as int);
        }
        signed_q as i16
    }
}

} // verus!
