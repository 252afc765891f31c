//! Complex scalars over the fixed-point representation.

use crate::fixed::{fx_add, fx_add_spec, fx_mul, fx_mul_spec, fx_neg, fx_neg_spec, fx_sub, fx_sub_spec, Fx};
use vstd::prelude::*;

verus! {

/// A complex number as a pair of fixed-point scalars.
#[derive(Clone, Copy, Debug, PartialEq, Eq, Structural)]
pub struct Complex {
    pub re: Fx,
    pub im: Fx,
}

pub open spec fn complex_add_spec(a: Complex, b: Complex) -> Complex {
    Complex {
        re: fx_add_spec(a.re as int, b.re as int) as i64,
        im: fx_add_spec(a.im as int, b.im as int) as i64,
    }
}

pub open spec fn complex_sub_spec(a: Complex, b: Complex) -> Complex {
    Complex {
        re: fx_sub_spec(a.re as int, b.re as int) as i64,
        im: fx_sub_spec(a.im as int, b.im as int) as i64,
    }
}

pub open spec fn complex_mul_spec(a: Complex, b: Complex) -> Complex {
    Complex {
        re: fx_sub_spec(
            fx_mul_spec(a.re as int, b.re as int),
            fx_mul_spec(a.im as int, b.im as int),
        ) as i64,
        im: fx_add_spec(
            fx_mul_spec(a.re as int, b.im as int),
            fx_mul_spec(a.im as int, b.re as int),
        ) as i64,
    }
}

/// Squared magnitude.
pub open spec fn complex_norm_spec(a: Complex) -> int {
    fx_add_spec(fx_mul_spec(a.re as int, a.re as int), fx_mul_spec(a.im as int, a.im as int))
}

impl Complex {
    /// The zero field value.
    pub fn zero() -> (r: Complex)
        ensures
            r.re == 0,
            r.im == 0,
    {
        Complex { re: 0, im: 0 }
    }

    pub fn new(re: Fx, im: Fx) -> (r: Complex)
        ensures
            r.re == re,
            r.im == im,
    {
        Complex { re, im }
    }

    /// Complex conjugate.
    pub fn conj(&self) -> (r: Complex)
        ensures
            r.re == self.re,
            r.im as int == fx_neg_spec(self.im as int),
    {
        Complex { re: self.re, im: fx_neg(self.im) }
    }

    /// Squared magnitude `re*re + im*im`.
    pub fn norm(&self) -> (r: Fx)
        ensures
            r as int == complex_norm_spec(*self),
    {
        fx_add(fx_mul(self.re, self.re), fx_mul(self.im, self.im))
    }

    /// Component-wise sum.
    pub fn add(&self, other: &Complex) -> (r: Complex)
        ensures
            r == complex_add_spec(*self, *other),
    {
        Complex { re: fx_add(self.re, other.re), im: fx_add(self.im, other.im) }
    }

    /// Component-wise difference.
    pub fn sub(&self, other: &Complex) -> (r: Complex)
        ensures
            r == complex_sub_spec(*self, *other),
    {
        Complex { re: fx_sub(self.re, other.re), im: fx_sub(self.im, other.im) }
    }

    /// Complex product.
    pub fn mul(&self, other: &Complex) -> (r: Complex)
        ensures
            r == complex_mul_spec(*self, *other),
    {
        Complex {
            re: fx_sub(fx_mul(self.re, other.re), fx_mul(self.im, other.im)),
            im: fx_add(fx_mul(self.re, other.im), fx_mul(self.im, other.re)),
        }
    }
}

impl Default for Complex {
    /// The zero field value.
    fn default() -> (r: Complex)
        ensures
            r.re == 0,
            r.im == 0,
    {
        Complex::zero()
    }
}

} // verus!
