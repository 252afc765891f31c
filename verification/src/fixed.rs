//! Q47.16 fixed-point scalar arithmetic.
//!
//! A scalar is an `i64` whose value stands for `v / 65536`. All operations
//! saturate into the symmetric range `[-i64::MAX, i64::MAX]`, so they are
//! total: no input can make them panic. The spec functions below give each
//! operation its exact mathematical meaning.

use vstd::arithmetic::div_mod::lemma_div_is_ordered;
use vstd::prelude::*;

verus! {

/// A fixed-point scalar: the `i64` value `v` stands for the real `v / 65536`.
pub type Fx = i64;

/// The denominator of the representation: `FX_ONE` stands for 1.
pub const FX_ONE: i64 = 65536;

/// The scalar 4.
pub const FX_FOUR: i64 = 262144;

/// The scalar -1/2.
pub const FX_NEG_HALF: i64 = -32768;

/// The scalar closest to 2*pi.
pub const FX_TWO_PI: i64 = 411775;

/// Largest representable scalar.
pub const FX_MAX: i64 = 0x7fff_ffff_ffff_ffff;

/// Smallest representable scalar; the range is symmetric so negation is total.
pub const FX_MIN: i64 = -0x7fff_ffff_ffff_ffff;

/// Saturate an unbounded integer into the representable range.
pub open spec fn clip(x: int) -> int {
    if x > FX_MAX {
        FX_MAX as int
    } else if x < FX_MIN {
        FX_MIN as int
    } else {
        x
    }
}

/// Magnitude of an integer.
pub open spec fn mag(x: int) -> int {
    if x >= 0 {
        x
    } else {
        -x
    }
}

/// Division truncating toward zero, the semantics of the executable `/`.
pub open spec fn tdiv(a: int, b: int) -> int
    recommends
        b > 0,
{
    if a >= 0 {
        a / b
    } else {
        -((-a) / b)
    }
}

pub open spec fn fx_add_spec(a: int, b: int) -> int {
    clip(a + b)
}

pub open spec fn fx_sub_spec(a: int, b: int) -> int {
    clip(a - b)
}

pub open spec fn fx_neg_spec(a: int) -> int {
    clip(-a)
}

/// Fixed-point product: the double-width product scaled back down,
/// truncated toward zero.
pub open spec fn fx_mul_spec(a: int, b: int) -> int {
    clip(tdiv(a * b, FX_ONE as int))
}

/// Fixed-point quotient: `a` scaled up, divided by `b`, truncated toward zero.
pub open spec fn fx_div_spec(a: int, b: int) -> int
    recommends
        b != 0,
{
    if (a < 0) != (b < 0) {
        clip(-(mag(a) * FX_ONE / mag(b)))
    } else {
        clip(mag(a) * FX_ONE / mag(b))
    }
}

/// Saturating addition.
pub fn fx_add(a: Fx, b: Fx) -> (r: Fx)
    ensures
        r as int == fx_add_spec(a as int, b as int),
{
    let s: i128 = a as i128 + b as i128;
    if s > FX_MAX as i128 {
        FX_MAX
    } else if s < FX_MIN as i128 {
        FX_MIN
    } else {
        s as i64
    }
}

/// Saturating subtraction.
pub fn fx_sub(a: Fx, b: Fx) -> (r: Fx)
    ensures
        r as int == fx_sub_spec(a as int, b as int),
{
    let s: i128 = a as i128 - b as i128;
    if s > FX_MAX as i128 {
        FX_MAX
    } else if s < FX_MIN as i128 {
        FX_MIN
    } else {
        s as i64
    }
}

/// Saturating negation.
pub fn fx_neg(a: Fx) -> (r: Fx)
    ensures
        r as int == fx_neg_spec(a as int),
{
    let s: i128 = -(a as i128);
    if s > FX_MAX as i128 {
        FX_MAX
    } else {
        s as i64
    }
}

/// Magnitude of a scalar, as the unsigned double-width integer.
fn mag_u128(a: i64) -> (r: u128)
    ensures
        r as int == mag(a as int),
{
    if a >= 0 {
        a as u128
    } else {
        (-(a as i128)) as u128
    }
}

/// Rebuild a signed saturated scalar from a sign and a magnitude.
fn from_mag(neg: bool, q: u128) -> (r: i64)
    ensures
        r as int == (if neg {
            clip(-(q as int))
        } else {
            clip(q as int)
        }),
{
    if q > FX_MAX as u128 {
        if neg {
            FX_MIN
        } else {
            FX_MAX
        }
    } else {
        if neg {
            -(q as i64)
        } else {
            q as i64
        }
    }
}

proof fn lemma_mag_mul(a: int, b: int)
    ensures
        mag(a) * mag(b) == mag(a * b),
        (a * b >= 0) == (a == 0 || b == 0 || ((a < 0) == (b < 0))),
{
    assert(mag(a) * mag(b) == mag(a * b) && (a * b >= 0) == (a == 0 || b == 0 || ((a < 0) == (b
        < 0)))) by (nonlinear_arith);
}

/// Absolute value, saturating at the largest scalar.
pub open spec fn fx_abs_spec(a: int) -> int {
    clip(mag(a))
}

/// Executable form of [`fx_abs_spec`].
pub fn fx_abs(a: Fx) -> (r: Fx)
    ensures
        r as int == fx_abs_spec(a as int),
{
    if a >= 0 {
        a
    } else {
        fx_neg(a)
    }
}

/// Saturating fixed-point multiplication.
pub fn fx_mul(a: Fx, b: Fx) -> (r: Fx)
    ensures
        r as int == fx_mul_spec(a as int, b as int),
{
    let neg: bool = (a < 0) != (b < 0);
    let ma: u128 = mag_u128(a);
    let mb: u128 = mag_u128(b);
    proof {
        assert(ma as int * mb as int <= 0x4000_0000_0000_0000_0000_0000_0000_0000) by (nonlinear_arith)
            requires
                0 <= ma as int <= 0x8000_0000_0000_0000,
                0 <= mb as int <= 0x8000_0000_0000_0000;
    }
    let p: u128 = ma * mb;
    let q: u128 = p / 65536;
    proof {
        lemma_mag_mul(a as int, b as int);
        assert(p as int == mag(a as int * b as int));
        if a as int * b as int >= 0 {
            assert(tdiv(a as int * b as int, FX_ONE as int) == q as int);
            assert(!neg || q == 0);
        } else {
            assert(neg);
            assert(tdiv(a as int * b as int, FX_ONE as int) == -(q as int));
        }
    }
    from_mag(neg, q)
}

/// Saturating fixed-point division; the divisor must be nonzero.
pub fn fx_div(a: Fx, b: Fx) -> (r: Fx)
    requires
        b != 0,
    ensures
        r as int == fx_div_spec(a as int, b as int),
{
    let neg: bool = (a < 0) != (b < 0);
    let ma: u128 = mag_u128(a);
    let mb: u128 = mag_u128(b);
    let q: u128 = (ma * 65536) / mb;
    proof {
        if a == 0 {
            assert(q == 0);
        }
    }
    from_mag(neg, q)
}

/// Multiplication by one is exact.
pub proof fn lemma_fx_mul_one(a: int)
    requires
        FX_MIN <= a <= FX_MAX,
    ensures
        fx_mul_spec(a, FX_ONE as int) == a,
        fx_mul_spec(FX_ONE as int, a) == a,
{
    assert(a * FX_ONE == FX_ONE * a) by (nonlinear_arith);
    if a >= 0 {
        assert(a * 65536 / 65536 == a) by (nonlinear_arith);
    } else {
        assert((-a) * 65536 / 65536 == -a) by (nonlinear_arith);
        assert(-(a * 65536) == (-a) * 65536) by (nonlinear_arith);
    }
}

/// Multiplication by zero gives zero.
pub proof fn lemma_fx_mul_zero(a: int)
    ensures
        fx_mul_spec(a, 0) == 0,
        fx_mul_spec(0, a) == 0,
{
    assert(a * 0 == 0) by (nonlinear_arith);
    assert(0 * a == 0) by (nonlinear_arith);
}

/// The product of nonnegative factors is nonnegative.
pub proof fn lemma_fx_mul_nonneg(a: int, b: int)
    requires
        a >= 0,
        b >= 0,
    ensures
        fx_mul_spec(a, b) >= 0,
{
    assert(a * b >= 0) by (nonlinear_arith)
        requires
            a >= 0,
            b >= 0;
    lemma_div_is_ordered(0, a * b, 65536);
}

/// For a fixed nonnegative left factor, the product is monotone in the
/// right factor.
pub proof fn lemma_fx_mul_monotone(m: int, a: int, b: int)
    requires
        m >= 0,
        a <= b,
    ensures
        fx_mul_spec(m, a) <= fx_mul_spec(m, b),
{
    assert(m * a <= m * b) by (nonlinear_arith)
        requires
            m >= 0,
            a <= b;
    lemma_tdiv_monotone(m * a, m * b, FX_ONE as int);
}

/// Truncating division by a positive divisor is monotone.
pub proof fn lemma_tdiv_monotone(a: int, b: int, d: int)
    requires
        a <= b,
        d > 0,
    ensures
        tdiv(a, d) <= tdiv(b, d),
{
    if a >= 0 {
        lemma_div_is_ordered(a, b, d);
    } else if b >= 0 {
        assert((-a) / d >= 0) by (nonlinear_arith)
            requires
                -a >= 0,
                d > 0;
        assert(b / d >= 0) by (nonlinear_arith)
            requires
                b >= 0,
                d > 0;
    } else {
        lemma_div_is_ordered(-b, -a, d);
    }
}


} // verus!
