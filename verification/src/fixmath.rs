//! Elementary fixed-point kernels: a decaying exponential, a square root,
//! and sine/cosine approximations.
//!
//! The exponential is computed as `(1 - x/2^8)^(2^8)` by repeated squaring in
//! a Q32 intermediate format. That form keeps the three facts the physics
//! rests on exact and provable: the value at 0 is exactly 1, the result
//! always lies in `[0, 1]`, and the function never increases.

use crate::fixed::{
    fx_add, fx_add_spec, fx_mul, fx_mul_spec, fx_sub, fx_sub_spec, Fx, FX_ONE,
};
use vstd::arithmetic::div_mod::{lemma_div_is_ordered, lemma_div_pos_is_pos};
use vstd::prelude::*;

verus! {

/// One Q32 squaring step: `y*y / 2^32`.
pub open spec fn q32_sq(y: int) -> int {
    y * y / 0x1_0000_0000
}

/// `k` successive Q32 squarings.
pub open spec fn q32_pow(y: int, k: nat) -> int
    decreases k,
{
    if k == 0 {
        y
    } else {
        q32_sq(q32_pow(y, (k - 1) as nat))
    }
}

/// The decaying exponential on nonnegative scalars:
/// `(1 - x/2^8)^(2^8)` in Q32, scaled back to Q16, and 0 once the base
/// would go negative.
pub open spec fn exp_neg_spec(x: int) -> int {
    if x >= 0x100_0000 {
        0
    } else {
        q32_pow(0x1_0000_0000 - x * 256, 8) / 65536
    }
}

/// A Q32 squaring step keeps `[0, 2^32]` and never increases the value.
proof fn lemma_q32_sq_shrinks(y: int)
    requires
        0 <= y <= 0x1_0000_0000,
    ensures
        0 <= q32_sq(y) <= y,
{
    assert(0 <= y * y <= y * 0x1_0000_0000) by (nonlinear_arith)
        requires
            0 <= y <= 0x1_0000_0000;
    lemma_div_pos_is_pos(y * y, 0x1_0000_0000);
    lemma_div_is_ordered(y * y, y * 0x1_0000_0000, 0x1_0000_0000);
    assert(y * 0x1_0000_0000 / 0x1_0000_0000 == y) by (nonlinear_arith);
}

/// Iterated squaring keeps `[0, y]`.
proof fn lemma_q32_pow_shrinks(y: int, k: nat)
    requires
        0 <= y <= 0x1_0000_0000,
    ensures
        0 <= q32_pow(y, k) <= y,
    decreases k,
{
    if k > 0 {
        lemma_q32_pow_shrinks(y, (k - 1) as nat);
        lemma_q32_sq_shrinks(q32_pow(y, (k - 1) as nat));
    }
}

/// A Q32 squaring step is monotone on `[0, 2^32]`.
proof fn lemma_q32_sq_monotone(y1: int, y2: int)
    requires
        0 <= y1 <= y2 <= 0x1_0000_0000,
    ensures
        q32_sq(y1) <= q32_sq(y2),
{
    assert(y1 * y1 <= y2 * y2) by (nonlinear_arith)
        requires
            0 <= y1 <= y2;
    lemma_div_is_ordered(y1 * y1, y2 * y2, 0x1_0000_0000);
}

/// Iterated squaring is monotone on `[0, 2^32]`.
proof fn lemma_q32_pow_monotone(y1: int, y2: int, k: nat)
    requires
        0 <= y1 <= y2 <= 0x1_0000_0000,
    ensures
        q32_pow(y1, k) <= q32_pow(y2, k),
    decreases k,
{
    if k > 0 {
        lemma_q32_pow_monotone(y1, y2, (k - 1) as nat);
        lemma_q32_pow_shrinks(y1, (k - 1) as nat);
        lemma_q32_pow_shrinks(y2, (k - 1) as nat);
        lemma_q32_sq_monotone(q32_pow(y1, (k - 1) as nat), q32_pow(y2, (k - 1) as nat));
    }
}

/// The exponential of 0 is exactly 1.
pub proof fn lemma_exp_neg_at_zero()
    ensures
        exp_neg_spec(0) == FX_ONE,
{
    assert(q32_sq(0x1_0000_0000) == 0x1_0000_0000) by (nonlinear_arith);
    assert(q32_pow(0x1_0000_0000, 8) == 0x1_0000_0000) by {
        assert(q32_sq(0x1_0000_0000) == 0x1_0000_0000) by (nonlinear_arith);
        reveal_with_fuel(q32_pow, 9);
    }
}

/// The exponential always lies in `[0, 1]`.
pub proof fn lemma_exp_neg_range(x: int)
    requires
        x >= 0,
    ensures
        0 <= exp_neg_spec(x) <= FX_ONE,
{
    if x < 0x100_0000 {
        let y = 0x1_0000_0000 - x * 256;
        assert(0 <= y <= 0x1_0000_0000) by (nonlinear_arith)
            requires
                0 <= x < 0x100_0000,
                y == 0x1_0000_0000 - x * 256;
        lemma_q32_pow_shrinks(y, 8);
        lemma_div_pos_is_pos(q32_pow(y, 8), 65536);
        lemma_div_is_ordered(q32_pow(y, 8), 0x1_0000_0000, 65536);
    }
}

/// The exponential never increases: a larger argument gives a damping
/// factor at most as large.
pub proof fn lemma_exp_neg_antitone(x1: int, x2: int)
    requires
        0 <= x1 <= x2,
    ensures
        exp_neg_spec(x2) <= exp_neg_spec(x1),
{
    lemma_exp_neg_range(x1);
    lemma_exp_neg_range(x2);
    if x2 < 0x100_0000 {
        let y1 = 0x1_0000_0000 - x1 * 256;
        let y2 = 0x1_0000_0000 - x2 * 256;
        assert(0 <= y2 <= y1 <= 0x1_0000_0000) by (nonlinear_arith)
            requires
                0 <= x1 <= x2 < 0x100_0000,
                y1 == 0x1_0000_0000 - x1 * 256,
                y2 == 0x1_0000_0000 - x2 * 256;
        lemma_q32_pow_monotone(y2, y1, 8);
        lemma_div_is_ordered(q32_pow(y2, 8), q32_pow(y1, 8), 65536);
    }
}

/// Any strictly positive argument strictly damps: the exponential of a
/// nonzero scalar lies strictly below 1.
pub proof fn lemma_exp_neg_strict(x: int)
    requires
        x >= 1,
    ensures
        exp_neg_spec(x) < FX_ONE,
{
    if x < 0x100_0000 {
        let y = 0x1_0000_0000 - x * 256;
        assert(0 <= y <= 0x1_0000_0000 - 256) by (nonlinear_arith)
            requires
                1 <= x < 0x100_0000,
                y == 0x1_0000_0000 - x * 256;
        lemma_q32_pow_shrinks(y, 8);
        lemma_div_is_ordered(q32_pow(y, 8), 0x1_0000_0000 - 256, 65536);
    }
}

/// Executable form of [`exp_neg_spec`].
pub fn exp_neg(x: Fx) -> (r: Fx)
    requires
        x >= 0,
    ensures
        r as int == exp_neg_spec(x as int),
{
    if x >= 0x100_0000 {
        return 0;
    }
    let mut y: u64 = 0x1_0000_0000u64 - (x as u64) * 256;
    let mut k: usize = 0;
    proof {
        assert(0 <= y <= 0x1_0000_0000) by (nonlinear_arith)
            requires
                0 <= x < 0x100_0000,
                y == 0x1_0000_0000 - x * 256;
    }
    while k < 8
        invariant
            k <= 8,
            0 <= y <= 0x1_0000_0000,
            y as int == q32_pow(0x1_0000_0000 - x as int * 256, k as nat),
            0 <= 0x1_0000_0000 - x as int * 256 <= 0x1_0000_0000,
        decreases 8 - k,
    {
        proof {
            lemma_q32_sq_shrinks(y as int);
            assert(y as int * y as int <= 0x1_0000_0000 * 0x1_0000_0000) by (nonlinear_arith)
                requires
                    0 <= y as int <= 0x1_0000_0000;
        }
        let sq: u128 = (y as u128) * (y as u128);
        y = (sq / 0x1_0000_0000) as u64;
        k = k + 1;
    }
    (y / 65536) as i64
}

/// The nonnegative integer square root, as picked out by its defining
/// property.
pub open spec fn isqrt_spec(v: int) -> int {
    choose|r: int| 0 <= r && #[trigger] (r * r) <= v < (r + 1) * (r + 1)
}

/// Any two nonnegative integers with the square-root property agree, so the
/// property pins `isqrt_spec` down whenever a witness is at hand.
pub proof fn lemma_isqrt_unique(v: int, r: int)
    requires
        0 <= r,
        r * r <= v < (r + 1) * (r + 1),
    ensures
        isqrt_spec(v) == r,
{
    let picked = isqrt_spec(v);
    assert(0 <= picked && picked * picked <= v < (picked + 1) * (picked + 1)) by {
        assert(exists|q: int| 0 <= q && #[trigger] (q * q) <= v < (q + 1) * (q + 1)) by {
            assert(0 <= r && r * r <= v < (r + 1) * (r + 1));
        }
    }
    assert(picked == r) by (nonlinear_arith)
        requires
            0 <= r,
            0 <= picked,
            r * r <= v < (r + 1) * (r + 1),
            picked * picked <= v < (picked + 1) * (picked + 1);
}

/// Binary-search integer square root.
pub fn isqrt_u128(v: u128) -> (r: u64)
    requires
        v < 0x4_0000_0000_0000_0000_0000_0000,
    ensures
        r as int == isqrt_spec(v as int),
        r as int * r as int <= v as int,
        (r as int + 1) * (r as int + 1) > v as int,
{
    let mut lo: u64 = 0;
    let mut hi: u64 = 0x1_ffff_ffff_ffff;
    // Invariant: lo*lo <= v and v < (hi+1)^2.
    proof {
        assert((0x1_ffff_ffff_ffffu64 as int + 1) * (0x1_ffff_ffff_ffffu64 as int + 1)
            == 0x4_0000_0000_0000_0000_0000_0000) by (nonlinear_arith);
    }
    while lo < hi
        invariant
            lo <= hi <= 0x1_ffff_ffff_ffff,
            lo as int * lo as int <= v as int,
            (hi as int + 1) * (hi as int + 1) > v as int,
        decreases hi - lo,
    {
        let mid: u64 = lo + (hi - lo + 1) / 2;
        proof {
            assert(mid as int * mid as int <= u128::MAX as int) by (nonlinear_arith)
                requires
                    0 <= mid as int <= u64::MAX as int;
        }
        let sq: u128 = (mid as u128) * (mid as u128);
        if sq <= v {
            lo = mid;
        } else {
            hi = mid - 1;
            proof {
                assert((hi as int + 1) * (hi as int + 1) > v as int);
            }
        }
    }
    proof {
        lemma_isqrt_unique(v as int, lo as int);
    }
    lo
}

/// The scalar closest to pi.
pub const FX_PI: i64 = 205887;

/// Reduce an angle into `(-pi, pi]`: the Euclidean remainder modulo 2*pi,
/// shifted down by one turn when it exceeds pi.
pub open spec fn reduce_angle_spec(t: int) -> int {
    let two_pi = 411775;
    let m = if t >= 0 {
        t % two_pi
    } else {
        if (-t) % two_pi == 0 {
            0
        } else {
            two_pi - ((-t) % two_pi)
        }
    };
    if m > FX_PI {
        m - two_pi
    } else {
        m
    }
}

/// Clamp a scalar into `[-1, 1]`.
pub open spec fn clamp_one_spec(a: int) -> int {
    if a > FX_ONE {
        FX_ONE as int
    } else if a < -(FX_ONE as int) {
        -(FX_ONE as int)
    } else {
        a
    }
}

/// Cosine: an even polynomial in the reduced angle, clamped into `[-1, 1]`.
pub open spec fn cos_spec(t: int) -> int {
    let m = reduce_angle_spec(t);
    let x2 = fx_mul_spec(m, m);
    let x4 = fx_mul_spec(x2, x2);
    let x6 = fx_mul_spec(x4, x2);
    let x8 = fx_mul_spec(x4, x4);
    clamp_one_spec(
        fx_add_spec(
            fx_sub_spec(
                fx_add_spec(
                    fx_sub_spec(FX_ONE as int, fx_mul_spec(x2, 32768)),
                    fx_mul_spec(x4, 2731),
                ),
                fx_mul_spec(x6, 91),
            ),
            fx_mul_spec(x8, 2),
        ),
    )
}

/// Sine: an odd polynomial in the reduced angle, clamped into `[-1, 1]`.
pub open spec fn sin_spec(t: int) -> int {
    let m = reduce_angle_spec(t);
    let x2 = fx_mul_spec(m, m);
    let x3 = fx_mul_spec(fx_mul_spec(m, m), m);
    let x5 = fx_mul_spec(x3, x2);
    let x7 = fx_mul_spec(x5, x2);
    clamp_one_spec(
        fx_sub_spec(
            fx_add_spec(fx_sub_spec(m, fx_mul_spec(x3, 10923)), fx_mul_spec(x5, 546)),
            fx_mul_spec(x7, 13),
        ),
    )
}

/// Executable angle reduction into `(-pi, pi]`.
fn reduce_angle(t: Fx) -> (m: Fx)
    ensures
        m as int == reduce_angle_spec(t as int),
        -(FX_PI as int) <= m as int <= FX_PI,
{
    let two_pi: i64 = 411775;
    let m0: i64 = if t >= 0 {
        ((t as u64) % 411775u64) as i64
    } else {
        let neg: u64 = if t == i64::MIN {
            9223372036854775808u64
        } else {
            (-t) as u64
        };
        let rem: u64 = neg % 411775u64;
        if rem == 0 {
            0
        } else {
            411775i64 - (rem as i64)
        }
    };
    proof {
        if t < 0 && t != i64::MIN {
            assert((-(t as int)) % 411775 == ((-t) as u64) as int % 411775);
        }
        if t == i64::MIN {
            assert((-(t as int)) % 411775 == 9223372036854775808u64 as int % 411775);
        }
    }
    if m0 > FX_PI {
        m0 - two_pi
    } else {
        m0
    }
}

/// Executable clamp into `[-1, 1]`.
fn clamp_one(a: Fx) -> (r: Fx)
    ensures
        r as int == clamp_one_spec(a as int),
{
    if a > FX_ONE {
        FX_ONE
    } else if a < -FX_ONE {
        -FX_ONE
    } else {
        a
    }
}

/// Executable form of [`cos_spec`].
pub fn cos_fx(t: Fx) -> (r: Fx)
    ensures
        r as int == cos_spec(t as int),
        -(FX_ONE as int) <= r as int <= FX_ONE as int,
{
    let m = reduce_angle(t);
    let x2 = fx_mul(m, m);
    let x4 = fx_mul(x2, x2);
    let x6 = fx_mul(x4, x2);
    let x8 = fx_mul(x4, x4);
    clamp_one(
        fx_add(
            fx_sub(fx_add(fx_sub(FX_ONE, fx_mul(x2, 32768)), fx_mul(x4, 2731)), fx_mul(x6, 91)),
            fx_mul(x8, 2),
        ),
    )
}

/// Executable form of [`sin_spec`].
pub fn sin_fx(t: Fx) -> (r: Fx)
    ensures
        r as int == sin_spec(t as int),
        -(FX_ONE as int) <= r as int <= FX_ONE as int,
{
    let m = reduce_angle(t);
    let x2 = fx_mul(m, m);
    let x3 = fx_mul(fx_mul(m, m), m);
    let x5 = fx_mul(x3, x2);
    let x7 = fx_mul(x5, x2);
    clamp_one(fx_sub(fx_add(fx_sub(m, fx_mul(x3, 10923)), fx_mul(x5, 546)), fx_mul(x7, 13)))
}

/// The cosine of 0 is exactly 1 and the sine of 0 is exactly 0.
pub proof fn lemma_trig_at_zero()
    ensures
        cos_spec(0) == FX_ONE,
        sin_spec(0) == 0,
{
    crate::fixed::lemma_fx_mul_zero(0);
    assert(reduce_angle_spec(0) == 0);
}

} // verus!
