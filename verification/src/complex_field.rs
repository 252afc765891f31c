//! A dense field of complex values with the per-cell finite-difference
//! time-domain update.

use crate::complex::Complex;
use crate::fixed::{
    fx_add, fx_add_spec, fx_mul, fx_mul_spec, fx_sub, fx_sub_spec, lemma_fx_mul_zero, Fx,
    FX_FOUR, FX_MIN, FX_NEG_HALF,
};
use vstd::arithmetic::div_mod::{
    lemma_div_by_multiple, lemma_fundamental_div_mod, lemma_mod_multiples_basic,
};
use vstd::prelude::*;

verus! {

/// The 4-point Laplacian stencil term `top + bottom + left + right - 4*center`.
pub open spec fn laplacian_spec(t: int, b: int, l: int, r: int, c: int) -> int {
    fx_sub_spec(
        fx_add_spec(fx_add_spec(fx_add_spec(t, b), l), r),
        fx_mul_spec(FX_FOUR as int, c),
    )
}

/// One half of the update rule: `mult * (other + dt * (-1/2 * lap + pot * own))`,
/// where `own` is the component the Laplacian was read from and `other` is the
/// coupled component.
pub open spec fn evolve_half_spec(
    other: int,
    own: int,
    lap: int,
    mult: int,
    dt: int,
    pot: int,
) -> int {
    fx_mul_spec(
        mult,
        fx_add_spec(
            other,
            fx_mul_spec(
                dt,
                fx_add_spec(fx_mul_spec(FX_NEG_HALF as int, lap), fx_mul_spec(pot, own)),
            ),
        ),
    )
}

/// The full per-cell update: the real part is driven by the imaginary
/// component plus the real Laplacian and potential term, and vice versa,
/// both scaled by the absorbing multiplier.
pub open spec fn evolve_spec(
    cx: Complex,
    top: Complex,
    bottom: Complex,
    left: Complex,
    right: Complex,
    mult: int,
    dt: int,
    pot: int,
) -> Complex {
    Complex {
        re: evolve_half_spec(
            cx.im as int,
            cx.re as int,
            laplacian_spec(top.re as int, bottom.re as int, left.re as int, right.re as int, cx.re as int),
            mult,
            dt,
            pot,
        ) as i64,
        im: evolve_half_spec(
            cx.re as int,
            cx.im as int,
            laplacian_spec(top.im as int, bottom.im as int, left.im as int, right.im as int, cx.im as int),
            mult,
            dt,
            pot,
        ) as i64,
    }
}

/// With a zero timestep the update degenerates to a pure swap scaled by
/// the damping multiplier: the new real part is `mult * im`, the new
/// imaginary part is `mult * re`, whatever the neighbors and the
/// potential hold.
pub proof fn lemma_evolve_dt_zero(
    cx: Complex,
    top: Complex,
    bottom: Complex,
    left: Complex,
    right: Complex,
    mult: int,
    pot: int,
)
    requires
        cx.re >= FX_MIN,
        cx.im >= FX_MIN,
    ensures
        evolve_spec(cx, top, bottom, left, right, mult, 0, pot) == (Complex {
            re: fx_mul_spec(mult, cx.im as int) as i64,
            im: fx_mul_spec(mult, cx.re as int) as i64,
        }),
{
    let lap_re = laplacian_spec(
        top.re as int,
        bottom.re as int,
        left.re as int,
        right.re as int,
        cx.re as int,
    );
    let lap_im = laplacian_spec(
        top.im as int,
        bottom.im as int,
        left.im as int,
        right.im as int,
        cx.im as int,
    );
    lemma_fx_mul_zero(fx_add_spec(fx_mul_spec(FX_NEG_HALF as int, lap_re), fx_mul_spec(pot, cx.re as int)));
    lemma_fx_mul_zero(fx_add_spec(fx_mul_spec(FX_NEG_HALF as int, lap_im), fx_mul_spec(pot, cx.im as int)));
}

/// Executable form of [`laplacian_spec`].
pub fn laplacian(t: Fx, b: Fx, l: Fx, r: Fx, c: Fx) -> (res: Fx)
    ensures
        res as int == laplacian_spec(t as int, b as int, l as int, r as int, c as int),
{
    fx_sub(fx_add(fx_add(fx_add(t, b), l), r), fx_mul(FX_FOUR, c))
}

/// Executable form of [`evolve_half_spec`].
pub fn evolve_half(other: Fx, own: Fx, lap: Fx, mult: Fx, dt: Fx, pot: Fx) -> (res: Fx)
    ensures
        res as int == evolve_half_spec(
            other as int,
            own as int,
            lap as int,
            mult as int,
            dt as int,
            pot as int,
        ),
{
    fx_mul(mult, fx_add(other, fx_mul(dt, fx_add(fx_mul(FX_NEG_HALF, lap), fx_mul(pot, own)))))
}

/// A dense row-major field of complex values; the height is derived from the
/// data length.
#[derive(Clone, Debug, PartialEq)]
pub struct ComplexField {
    pub width: usize,
    pub data: Vec<Complex>,
}

impl ComplexField {
    /// Well-formed: rows are nonempty and the data is a whole number of rows.
    pub open spec fn wf(&self) -> bool {
        self.width > 0 && self.data.len() as int % (self.width as int) == 0
    }

    /// The derived height.
    pub open spec fn spec_height(&self) -> int {
        self.data.len() as int / self.width as int
    }

    /// Row-major flat index.
    pub open spec fn idx(&self, x: int, y: int) -> int {
        x + self.width * y
    }

    /// A cell inside the field on both axes.
    pub open spec fn valid(&self, x: int, y: int) -> bool {
        0 <= x < self.width && 0 <= y < self.spec_height()
    }

    /// A valid cell's flat index lies inside the data.
    pub proof fn lemma_idx_in_range(&self, x: int, y: int)
        requires
            self.wf(),
            self.valid(x, y),
        ensures
            0 <= self.idx(x, y) < self.data.len(),
            self.data.len() == self.spec_height() * self.width,
    {
        let w = self.width as int;
        let h = self.spec_height();
        lemma_fundamental_div_mod(self.data.len() as int, w);
        assert(w * y + x < h * w && 0 <= w * y) by (nonlinear_arith)
            requires
                0 <= x < w,
                0 <= y < h,
                0 < w;
        assert(w * h == h * w) by (nonlinear_arith);
    }

    /// Create a new all-zero field of the given width and height.
    pub fn new(width: usize, height: usize) -> (f: ComplexField)
        requires
            width > 0,
            width * height <= usize::MAX,
        ensures
            f.wf(),
            f.width == width,
            f.data@.len() == width * height,
            f.spec_height() == height,
            forall|i: int| 0 <= i < f.data@.len() ==> f.data@[i] == (Complex { re: 0i64, im: 0i64 }),
    {
        proof {
            assert(width * height == height * width) by (nonlinear_arith);
            lemma_mod_multiples_basic(height as int, width as int);
            lemma_div_by_multiple(height as int, width as int);
        }
        let n: usize = width * height;
        let mut data: Vec<Complex> = Vec::new();
        let mut k: usize = 0;
        while k < n
            invariant
                k <= n,
                data@.len() == k,
                forall|i: int| 0 <= i < k ==> data@[i] == (Complex { re: 0i64, im: 0i64 }),
            decreases n - k,
        {
            data.push(Complex { re: 0, im: 0 });
            k = k + 1;
        }
        ComplexField { width, data }
    }

    /// The value at a cell; the caller must stay in bounds.
    pub fn get(&self, x: usize, y: usize) -> (r: &Complex)
        requires
            self.wf(),
            self.valid(x as int, y as int),
        ensures
            *r == self.data@[self.idx(x as int, y as int)],
    {
        proof {
            self.lemma_idx_in_range(x as int, y as int);
        }
        &self.data[x + self.width * y]
    }

    /// Overwrite the value at a cell; the caller must stay in bounds.
    pub fn set(&mut self, x: usize, y: usize, value: Complex)
        requires
            old(self).wf(),
            old(self).valid(x as int, y as int),
        ensures
            final(self).width == old(self).width,
            final(self).data@ == old(self).data@.update(old(self).idx(x as int, y as int), value),
    {
        proof {
            self.lemma_idx_in_range(x as int, y as int);
        }
        let i = x + self.width * y;
        self.data.set(i, value);
    }

    /// Reset every cell to zero.
    pub fn reset(&mut self)
        ensures
            final(self).width == old(self).width,
            final(self).data@.len() == old(self).data@.len(),
            forall|i: int|
                0 <= i < final(self).data@.len() ==> final(self).data@[i] == (Complex {
                    re: 0i64,
                    im: 0i64,
                }),
    {
        let n = self.data.len();
        let mut k: usize = 0;
        while k < n
            invariant
                k <= n,
                self.width == old(self).width,
                self.data@.len() == n,
                forall|i: int| 0 <= i < k ==> self.data@[i] == (Complex { re: 0i64, im: 0i64 }),
            decreases n - k,
        {
            self.data.set(k, Complex { re: 0, im: 0 });
            k = k + 1;
        }
    }

    /// The derived height.
    pub fn height(&self) -> (h: usize)
        requires
            self.wf(),
        ensures
            h == self.spec_height(),
    {
        self.data.len() / self.width
    }

    /// Apply the finite-difference update to one interior cell, reading its
    /// four axis neighbors in place.
    pub fn process(&mut self, x: usize, y: usize, sink_mult: Fx, dt: Fx, potential_cache: Fx)
        requires
            old(self).wf(),
            1 <= x < old(self).width - 1,
            1 <= y < old(self).spec_height() - 1,
        ensures
            final(self).width == old(self).width,
            final(self).data@ == old(self).data@.update(
                old(self).idx(x as int, y as int),
                evolve_spec(
                    old(self).data@[old(self).idx(x as int, y as int)],
                    old(self).data@[old(self).idx(x as int, y as int - 1)],
                    old(self).data@[old(self).idx(x as int, y as int + 1)],
                    old(self).data@[old(self).idx(x as int - 1, y as int)],
                    old(self).data@[old(self).idx(x as int + 1, y as int)],
                    sink_mult as int,
                    dt as int,
                    potential_cache as int,
                ),
            ),
    {
        let cx = *self.get(x, y);
        let top = *self.get(x, y - 1);
        let bottom = *self.get(x, y + 1);
        let left = *self.get(x - 1, y);
        let right = *self.get(x + 1, y);

        let lap_re = laplacian(top.re, bottom.re, left.re, right.re, cx.re);
        let lap_im = laplacian(top.im, bottom.im, left.im, right.im, cx.im);
        let re = evolve_half(cx.im, cx.re, lap_re, sink_mult, dt, potential_cache);
        let im = evolve_half(cx.re, cx.im, lap_im, sink_mult, dt, potential_cache);

        self.set(x, y, Complex::new(re, im));
    }
}

} // verus!
