//! A dense field of fixed-point scalars with a Laplacian stencil reader.

use crate::complex_field::laplacian_spec;
use crate::fixed::{fx_add, fx_mul, fx_sub, Fx, FX_FOUR};
use vstd::arithmetic::div_mod::{
    lemma_div_by_multiple, lemma_fundamental_div_mod, lemma_mod_multiples_basic,
};
use vstd::prelude::*;

verus! {

/// A dense row-major field of fixed-point scalars; the height is derived
/// from the data length.
#[derive(Clone, Debug)]
pub struct FloatField {
    pub width: usize,
    pub data: Vec<Fx>,
}

impl FloatField {
    /// Well-formed: rows are nonempty and the data is a whole number of rows.
    pub open spec fn wf(&self) -> bool {
        self.width > 0 && self.data.len() as int % (self.width as int) == 0
    }

    /// The derived height.
    pub open spec fn spec_height(&self) -> int {
        self.data.len() as int / self.width as int
    }

    /// Row-major flat index.
    pub open spec fn idx(&self, x: int, y: int) -> int {
        x + self.width * y
    }

    /// A cell inside the field on both axes.
    pub open spec fn valid(&self, x: int, y: int) -> bool {
        0 <= x < self.width && 0 <= y < self.spec_height()
    }

    /// A valid cell's flat index lies inside the data.
    pub proof fn lemma_idx_in_range(&self, x: int, y: int)
        requires
            self.wf(),
            self.valid(x, y),
        ensures
            0 <= self.idx(x, y) < self.data.len(),
    {
        let w = self.width as int;
        let h = self.spec_height();
        lemma_fundamental_div_mod(self.data.len() as int, w);
        assert(w * y + x < h * w && 0 <= w * y && w * h == h * w) by (nonlinear_arith)
            requires
                0 <= x < w,
                0 <= y < h,
                0 < w;
    }

    /// Create a new all-zero field of the given width and height.
    pub fn new(width: usize, height: usize) -> (f: FloatField)
        requires
            width > 0,
            width * height <= usize::MAX,
        ensures
            f.wf(),
            f.width == width,
            f.data@.len() == width * height,
            f.spec_height() == height,
            forall|i: int| 0 <= i < f.data@.len() ==> f.data@[i] == 0i64,
    {
        proof {
            assert(width * height == height * width) by (nonlinear_arith);
            lemma_mod_multiples_basic(height as int, width as int);
            lemma_div_by_multiple(height as int, width as int);
        }
        let n: usize = width * height;
        let mut data: Vec<Fx> = Vec::new();
        let mut k: usize = 0;
        while k < n
            invariant
                k <= n,
                data@.len() == k,
                forall|i: int| 0 <= i < k ==> data@[i] == 0i64,
            decreases n - k,
        {
            data.push(0);
            k = k + 1;
        }
        FloatField { data, width }
    }

    /// A copy that holds the other field's contents.
    pub fn set_equal_to(&self, other: FloatField) -> (f: FloatField)
        ensures
            f.width == other.width,
            f.data@ == other.data@,
    {
        let n = other.data.len();
        let mut data: Vec<Fx> = Vec::new();
        let mut k: usize = 0;
        while k < n
            invariant
                k <= n,
                n == other.data@.len(),
                data@.len() == k,
                forall|i: int| 0 <= i < k ==> data@[i] == other.data@[i],
            decreases n - k,
        {
            data.push(other.data[k]);
            k = k + 1;
        }
        proof {
            assert(data@ =~= other.data@);
        }
        FloatField { width: other.width, data }
    }

    /// The value at a cell; the caller must stay in bounds.
    pub fn get(&self, x: usize, y: usize) -> (r: Fx)
        requires
            self.wf(),
            self.valid(x as int, y as int),
        ensures
            r == self.data@[self.idx(x as int, y as int)],
    {
        proof {
            self.lemma_idx_in_range(x as int, y as int);
        }
        self.data[x + self.width * y]
    }

    /// Overwrite the value at a cell; the caller must stay in bounds.
    pub fn set(&mut self, x: usize, y: usize, value: Fx)
        requires
            old(self).wf(),
            old(self).valid(x as int, y as int),
        ensures
            final(self).width == old(self).width,
            final(self).data@ == old(self).data@.update(old(self).idx(x as int, y as int), value),
    {
        proof {
            self.lemma_idx_in_range(x as int, y as int);
        }
        let i = x + self.width * y;
        self.data.set(i, value);
    }

    /// The 4-point Laplacian stencil read at an interior cell.
    pub fn del2(&self, x: usize, y: usize) -> (r: Fx)
        requires
            self.wf(),
            1 <= x < self.width - 1,
            1 <= y < self.spec_height() - 1,
        ensures
            r as int == laplacian_spec(
                self.data@[self.idx(x as int, y as int - 1)] as int,
                self.data@[self.idx(x as int, y as int + 1)] as int,
                self.data@[self.idx(x as int - 1, y as int)] as int,
                self.data@[self.idx(x as int + 1, y as int)] as int,
                self.data@[self.idx(x as int, y as int)] as int,
            ),
    {
        let t = self.get(x, y - 1);
        let b = self.get(x, y + 1);
        let l = self.get(x - 1, y);
        let r = self.get(x + 1, y);
        let c = self.get(x, y);
        fx_sub(fx_add(fx_add(fx_add(t, b), l), r), fx_mul(FX_FOUR, c))
    }
}

} // verus!
