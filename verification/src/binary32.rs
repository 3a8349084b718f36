//! The order of IEEE-754 binary32 values, decided on their encodings.
//!
//! An encoding is the 32-bit pattern of a single-precision value: one sign
//! bit, eight exponent bits, twenty-three fraction bits. Every number that
//! has an encoding is a whole multiple of 2^-149, and this module speaks of
//! a number by that multiple: [`value`]. It decides the order of two numbers
//! without decoding either, on the patterns alone.

use vstd::arithmetic::power2::{
    lemma2_to64, lemma_pow2_adds, lemma_pow2_pos, lemma_pow2_strictly_increases,
    lemma_pow2_unfold, pow2,
};
use vstd::prelude::*;

verus! {

/// The encoding of negative zero: the sign bit alone.
pub const SIGN: u32 = 0x8000_0000;

/// The encoding of positive infinity. A larger magnitude encodes no number.
pub const INFINITY: u32 = 0x7f80_0000;

/// The encoding of positive zero.
pub const ZERO: u32 = 0;

/// The encoding of one half.
pub const HALF: u32 = 0x3f00_0000;

/// The number of encodings with one exponent and one sign: 2^23.
pub const FRACTIONS: u32 = 0x80_0000;

/// The encoding with its sign bit cleared.
pub open spec fn magnitude(bits: u32) -> int {
    if bits >= SIGN {
        bits - SIGN
    } else {
        bits as int
    }
}

/// Whether the sign bit is set.
pub open spec fn is_negative(bits: u32) -> bool {
    bits >= SIGN
}

/// Whether the encoding stands for no number.
pub open spec fn is_nan(bits: u32) -> bool {
    magnitude(bits) > INFINITY
}

/// Whether the encoding stands for a number other than an infinity.
pub open spec fn is_finite(bits: u32) -> bool {
    magnitude(bits) < INFINITY
}

/// The exponent bits.
pub open spec fn exponent(bits: u32) -> nat {
    (magnitude(bits) / (FRACTIONS as int)) as nat
}

/// The fraction bits.
pub open spec fn fraction(bits: u32) -> nat {
    (magnitude(bits) % (FRACTIONS as int)) as nat
}

/// The absolute value of the encoded number, in units of 2^-149. With
/// exponent bits 0 it is the fraction bits; with exponent bits `e` above 0
/// it is `(2^23 + fraction) * 2^(e - 1)`. An infinity has the absolute value
/// that its exponent bits would give a number, which is above that of every
/// finite number.
pub open spec fn units(bits: u32) -> int {
    if exponent(bits) == 0 {
        fraction(bits) as int
    } else {
        (FRACTIONS + fraction(bits)) * pow2((exponent(bits) - 1) as nat)
    }
}

/// The encoded number, in units of 2^-149. Both zeros have the value 0.
pub open spec fn value(bits: u32) -> int {
    if is_negative(bits) {
        -units(bits)
    } else {
        units(bits)
    }
}

/// The comparison `a < b` of the two encoded values: false when either is no
/// number, and otherwise the order of the numbers.
pub open spec fn less(a: u32, b: u32) -> bool {
    !is_nan(a) && !is_nan(b) && value(a) < value(b)
}

/// An encoding with exponent bits `e` has an absolute value of at least
/// `2^23 * 2^(e - 1)`, and one below `2^23 * 2^e`.
proof fn lemma_units_by_exponent(bits: u32)
    ensures
        exponent(bits) > 0 ==> FRACTIONS * pow2((exponent(bits) - 1) as nat) <= units(bits),
        units(bits) < FRACTIONS * pow2(exponent(bits)),
{
    let e = exponent(bits);
    let f = fraction(bits) as int;
    let k = FRACTIONS as int;
    if e == 0 {
        lemma2_to64();
    } else {
        let p = pow2((e - 1) as nat) as int;
        lemma_pow2_pos((e - 1) as nat);
        lemma_pow2_unfold(e);
        assert(k * p <= (k + f) * p) by (nonlinear_arith)
            requires
                0 <= f,
                0 < p,
        ;
        assert((k + f) * p < k * (2 * p)) by (nonlinear_arith)
            requires
                f < k,
                0 < p,
        ;
    }
}

/// The absolute values are in the order of the magnitudes.
proof fn lemma_units_grow(a: u32, b: u32)
    requires
        magnitude(a) < magnitude(b),
    ensures
        units(a) < units(b),
{
    let k = FRACTIONS as int;
    let (ea, eb) = (exponent(a), exponent(b));
    let (fa, fb) = (fraction(a) as int, fraction(b) as int);
    assert(magnitude(a) == ea * k + fa && magnitude(b) == eb * k + fb);
    if ea == eb {
        if ea > 0 {
            let p = pow2((ea - 1) as nat) as int;
            lemma_pow2_pos((ea - 1) as nat);
            assert((k + fa) * p < (k + fb) * p) by (nonlinear_arith)
                requires
                    fa < fb,
                    0 < p,
            ;
        }
    } else {
        assert(ea < eb) by (nonlinear_arith)
            requires
                ea * k + fa < eb * k + fb,
                0 <= fa < k,
                0 <= fb < k,
                ea != eb,
        ;
        lemma_units_by_exponent(a);
        lemma_units_by_exponent(b);
        if ea < eb - 1 {
            lemma_pow2_strictly_increases(ea, (eb - 1) as nat);
        }
        let (pa, pb) = (pow2(ea) as int, pow2((eb - 1) as nat) as int);
        assert(k * pa <= k * pb) by (nonlinear_arith)
            requires
                pa <= pb,
                0 < k,
        ;
    }
}

/// The place of an encoding in the order of the numbers: its magnitude, and
/// with the sign bit the magnitude below zero.
pub open spec fn rank(bits: u32) -> int {
    if is_negative(bits) {
        -magnitude(bits)
    } else {
        magnitude(bits)
    }
}

/// The order of the numbers can be read off the encodings: two values are in
/// the order of their ranks.
pub proof fn lemma_value_order_is_rank_order(a: u32, b: u32)
    ensures
        value(a) < value(b) <==> rank(a) < rank(b),
        value(a) == value(b) <==> rank(a) == rank(b),
        less(a, b) <==> !is_nan(a) && !is_nan(b) && rank(a) < rank(b),
{
    if magnitude(a) < magnitude(b) {
        lemma_units_grow(a, b);
    }
    if magnitude(b) < magnitude(a) {
        lemma_units_grow(b, a);
    }
    if magnitude(a) > 0 {
        lemma_units_grow(ZERO, a);
    }
    if magnitude(b) > 0 {
        lemma_units_grow(ZERO, b);
    }
}

/// [`HALF`] stands for one half: twice its value is 2^149 units of 2^-149.
pub proof fn lemma_half_is_one_half()
    ensures
        2 * value(HALF) == pow2(149),
{
    lemma2_to64();
    assert(exponent(HALF) == 126 && fraction(HALF) == 0);
    lemma_pow2_adds(23, 125);
    lemma_pow2_unfold(149);
}

/// Clears the sign bit.
pub fn abs(bits: u32) -> (m: u32)
    ensures
        m == magnitude(bits),
{
    if bits >= SIGN {
        bits - SIGN
    } else {
        bits
    }
}

/// Decides [`is_finite`].
pub fn finite(bits: u32) -> (r: bool)
    ensures
        r == is_finite(bits),
{
    abs(bits) < INFINITY
}

/// Decides [`less`]. Encodings without the sign bit are in the order of the
/// numbers that they stand for, and those with the sign bit in the reverse
/// order; the two zeros are one number.
pub fn lt(a: u32, b: u32) -> (r: bool)
    ensures
        r == less(a, b),
{
    proof {
        lemma_value_order_is_rank_order(a, b);
    }
    let ma: u32 = abs(a);
    let mb: u32 = abs(b);
    if ma > INFINITY || mb > INFINITY {
        false
    } else if a >= SIGN {
        if b >= SIGN {
            mb < ma
        } else {
            ma != 0 || mb != 0
        }
    } else {
        b < SIGN && ma < mb
    }
}

} // verus!
