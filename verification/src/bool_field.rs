//! A dense boolean mask over a 2D grid.

use vstd::arithmetic::div_mod::{
    lemma_div_by_multiple, lemma_fundamental_div_mod, lemma_mod_multiples_basic,
};
use vstd::prelude::*;

verus! {

/// A dense row-major field of booleans; the height is derived from the
/// data length.
#[derive(Clone, Debug)]
pub struct BoolField {
    pub width: usize,
    pub data: Vec<bool>,
}

impl BoolField {
    /// Well-formed: rows are nonempty and the data is a whole number of rows.
    pub open spec fn wf(&self) -> bool {
        self.width > 0 && self.data.len() as int % (self.width as int) == 0
    }

    /// The derived height.
    pub open spec fn spec_height(&self) -> int {
        self.data.len() as int / self.width as int
    }

    /// Row-major flat index.
    pub open spec fn idx(&self, x: int, y: int) -> int {
        x + self.width * y
    }

    /// A cell inside the field on both axes.
    pub open spec fn valid(&self, x: int, y: int) -> bool {
        0 <= x < self.width && 0 <= y < self.spec_height()
    }

    /// A valid cell's flat index lies inside the data.
    pub proof fn lemma_idx_in_range(&self, x: int, y: int)
        requires
            self.wf(),
            self.valid(x, y),
        ensures
            0 <= self.idx(x, y) < self.data.len(),
    {
        let w = self.width as int;
        let h = self.spec_height();
        lemma_fundamental_div_mod(self.data.len() as int, w);
        assert(w * y + x < h * w && 0 <= w * y && w * h == h * w) by (nonlinear_arith)
            requires
                0 <= x < w,
                0 <= y < h,
                0 < w;
    }

    /// Create a new all-false field of the given width and height.
    pub fn new(width: usize, height: usize) -> (f: BoolField)
        requires
            width > 0,
            width * height <= usize::MAX,
        ensures
            f.wf(),
            f.width == width,
            f.data@.len() == width * height,
            f.spec_height() == height,
            forall|i: int| 0 <= i < f.data@.len() ==> f.data@[i] == false,
    {
        proof {
            assert(width * height == height * width) by (nonlinear_arith);
            lemma_mod_multiples_basic(height as int, width as int);
            lemma_div_by_multiple(height as int, width as int);
        }
        let n: usize = width * height;
        let mut data: Vec<bool> = Vec::new();
        let mut k: usize = 0;
        while k < n
            invariant
                k <= n,
                data@.len() == k,
                forall|i: int| 0 <= i < k ==> data@[i] == false,
            decreases n - k,
        {
            data.push(false);
            k = k + 1;
        }
        BoolField { data, width }
    }

    /// The value at a cell; the caller must stay in bounds.
    pub fn get(&self, x: usize, y: usize) -> (r: bool)
        requires
            self.wf(),
            self.valid(x as int, y as int),
        ensures
            r == self.data@[self.idx(x as int, y as int)],
    {
        proof {
            self.lemma_idx_in_range(x as int, y as int);
        }
        self.data[x + self.width * y]
    }

    /// Overwrite the value at a cell; the caller must stay in bounds.
    pub fn set(&mut self, x: usize, y: usize, value: bool)
        requires
            old(self).wf(),
            old(self).valid(x as int, y as int),
        ensures
            final(self).width == old(self).width,
            final(self).data@ == old(self).data@.update(old(self).idx(x as int, y as int), value),
    {
        proof {
            self.lemma_idx_in_range(x as int, y as int);
        }
        let i = x + self.width * y;
        self.data.set(i, value);
    }

    /// The derived height.
    pub fn height(&self) -> (h: usize)
        requires
            self.wf(),
        ensures
            h == self.spec_height(),
    {
        self.data.len() / self.width
    }
}

} // verus!
