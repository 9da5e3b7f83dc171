//! IEEE 754 binary64 numbers, read from their bit patterns.
//!
//! A pattern is a sign bit, eleven bits of biased exponent and fifty-two bits
//! of fraction. Every finite number is a whole multiple of 2^-1074, so its
//! value is stated here as that multiple, an `int`.

use vstd::prelude::*;
use vstd::arithmetic::power2::{pow2, lemma_pow2_pos, lemma_pow2_strictly_increases, lemma_pow2_unfold};

verus! {

/// The sign bit of a pattern.
pub const SIGN_BIT: u64 = 0x8000_0000_0000_0000;

/// The pattern of positive infinity; a larger magnitude is not a number.
pub const INFINITY: u64 = 0x7ff0_0000_0000_0000;

/// 2^52: the weight of the exponent field, and the hidden bit of a normal number.
pub const HIDDEN_BIT: u64 = 0x10_0000_0000_0000;

/// The pattern without its sign bit.
pub open spec fn magnitude(bits: u64) -> u64 {
    if bits >= SIGN_BIT {
        (bits - SIGN_BIT) as u64
    } else {
        bits
    }
}

/// The sign bit is set (it may be on a zero, an infinity or a NaN too).
pub open spec fn is_negative(bits: u64) -> bool {
    bits >= SIGN_BIT
}

/// The pattern is not a number.
pub open spec fn is_nan(bits: u64) -> bool {
    magnitude(bits) > INFINITY
}

/// The biased exponent field, 0 to 2047.
pub open spec fn exponent(bits: u64) -> int {
    magnitude(bits) as int / HIDDEN_BIT as int
}

/// The fraction field, below 2^52.
pub open spec fn fraction(bits: u64) -> int {
    magnitude(bits) as int % HIDDEN_BIT as int
}

/// The absolute value of the number, times 2^1074.
///
/// An infinity is read as the number that its pattern would stand for if the
/// largest exponent were an ordinary one. That is more than every finite
/// magnitude, so the order of the numbers is the order of these integers.
pub open spec fn scaled_magnitude(bits: u64) -> int {
    if exponent(bits) == 0 {
        fraction(bits)
    } else {
        (HIDDEN_BIT + fraction(bits)) * pow2((exponent(bits) - 1) as nat)
    }
}

/// The number, times 2^1074. Both zeros give 0.
pub open spec fn scaled_value(bits: u64) -> int {
    if is_negative(bits) {
        -scaled_magnitude(bits)
    } else {
        scaled_magnitude(bits)
    }
}

/// `a <= b` as IEEE 754 has it: false where either is not a number.
pub open spec fn at_most(a: u64, b: u64) -> bool {
    !is_nan(a) && !is_nan(b) && scaled_value(a) <= scaled_value(b)
}

/// The pattern stands for a number `v` with `-limit <= v <= limit`.
pub open spec fn within(bits: u64, limit: int) -> bool {
    &&& !is_nan(bits)
    &&& -limit * pow2(1074) <= scaled_value(bits) <= limit * pow2(1074)
}

/// Among patterns without a sign bit, a larger pattern is a larger number.
pub proof fn lemma_magnitude_order(x: u64, y: u64)
    requires
        x < y < SIGN_BIT,
    ensures
        0 <= scaled_magnitude(x) < scaled_magnitude(y),
{
    let p = HIDDEN_BIT as int;
    let ex = exponent(x);
    let ey = exponent(y);
    let fx = fraction(x);
    let fy = fraction(y);
    assert(x == ex * p + fx && 0 <= fx < p && 0 <= ex);
    assert(y == ey * p + fy && 0 <= fy < p && 0 <= ey);
    if ex > 0 {
        lemma_pow2_pos((ex - 1) as nat);
        assert(0 <= (p + fx) * pow2((ex - 1) as nat)) by (nonlinear_arith)
            requires
                0 <= fx,
                p > 0,
                pow2((ex - 1) as nat) > 0,
        ;
    }
    if ex == ey {
        assert(fx < fy);
        if ex > 0 {
            let w = pow2((ex - 1) as nat) as int;
            assert((p + fx) * w < (p + fy) * w) by (nonlinear_arith)
                requires
                    fx < fy,
                    w > 0,
            ;
        }
    } else {
        assert(ex < ey) by (nonlinear_arith)
            requires
                ex * p + fx < ey * p + fy,
                0 <= fx < p,
                0 <= fy < p,
                ex != ey,
        ;
        // below 2^52 * 2^ex, which the other reaches
        let top = p * pow2(ex as nat);
        lemma_pow2_pos(ex as nat);
        if ex == 0 {
            assert(pow2(0) == 1) by {
                vstd::arithmetic::power2::lemma2_to64();
            }
            assert(scaled_magnitude(x) < top);
        } else {
            let w = pow2((ex - 1) as nat) as int;
            lemma_pow2_unfold(ex as nat);
            assert((p + fx) * w < p * (2 * w)) by (nonlinear_arith)
                requires
                    0 <= fx < p,
                    w > 0,
            ;
            assert(scaled_magnitude(x) < top);
        }
        let wy = pow2((ey - 1) as nat) as int;
        if ex < ey - 1 {
            lemma_pow2_strictly_increases(ex as nat, (ey - 1) as nat);
        }
        assert(pow2(ex as nat) <= wy);
        assert(top <= (p + fy) * wy) by (nonlinear_arith)
            requires
                top == p * pow2(ex as nat),
                pow2(ex as nat) <= wy,
                0 <= fy,
                p > 0,
                wy > 0,
        ;
    }
}

/// The pattern without its sign bit.
pub fn magnitude_of(bits: u64) -> (m: u64)
    ensures
        m == magnitude(bits),
        m < SIGN_BIT,
{
    if bits >= SIGN_BIT {
        bits - SIGN_BIT
    } else {
        bits
    }
}

/// Says whether the pattern is not a number.
pub fn is_not_a_number(bits: u64) -> (r: bool)
    ensures
        r == is_nan(bits),
{
    magnitude_of(bits) > INFINITY
}

/// Compares two patterns as the numbers they stand for, as `<=` does on
/// binary64: a NaN is in no order with anything, and the two zeros are equal.
pub fn le(a: u64, b: u64) -> (r: bool)
    ensures
        r == at_most(a, b),
{
    let ma: u64 = magnitude_of(a);
    let mb: u64 = magnitude_of(b);
    if ma > INFINITY || mb > INFINITY {
        return false;
    }
    proof {
        if ma < mb {
            lemma_magnitude_order(ma, mb);
        }
        if mb < ma {
            lemma_magnitude_order(mb, ma);
        }
        if 0 < ma {
            lemma_magnitude_order(0, ma);
        }
        if 0 < mb {
            lemma_magnitude_order(0, mb);
        }
        assert(scaled_magnitude(a) == scaled_magnitude(ma));
        assert(scaled_magnitude(b) == scaled_magnitude(mb));
        assert(scaled_magnitude(0) == 0);
    }
    if a >= SIGN_BIT {
        if b >= SIGN_BIT {
            mb <= ma
        } else {
            true
        }
    } else {
        if b >= SIGN_BIT {
            ma == 0 && mb == 0
        } else {
            ma <= mb
        }
    }
}

} // verus!
