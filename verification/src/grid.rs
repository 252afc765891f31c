//! A generic dense 2D container, row-major, with bounds-checked access.

use crate::complex::{complex_add_spec, Complex};
use crate::coord::Coord;
use crate::fixed::{fx_add, fx_add_spec, Fx};
use vstd::arithmetic::div_mod::{
    lemma_div_by_multiple, lemma_fundamental_div_mod, lemma_mod_multiples_basic,
};
use vstd::prelude::*;

verus! {

/// A dense row-major 2D container. `width` is the row length; the height is
/// derived from the data length, never stored redundantly.
#[derive(Clone, Debug, PartialEq, Eq, Hash)]
pub struct Grid<T> {
    pub width: usize,
    pub data: Vec<T>,
}

/// The diagnostic carried by a rejected mutation: the offending coordinate
/// and the bounds of the grid it missed.
#[derive(Clone, Copy, Debug, PartialEq, Eq, Structural)]
pub struct InvalidCoordinate {
    pub coord: Coord,
    pub width: usize,
    pub height: usize,
}

impl<T> Grid<T> {
    /// Well-formed: rows are nonempty and the data is a whole number of rows.
    pub open spec fn wf(&self) -> bool {
        self.width > 0 && self.data.len() as int % (self.width as int) == 0
    }

    /// The derived height.
    pub open spec fn spec_height(&self) -> int {
        self.data.len() as int / self.width as int
    }

    /// A coordinate is valid when it lies inside the grid on both axes.
    pub open spec fn valid(&self, c: Coord) -> bool {
        0 <= c.x < self.width && 0 <= c.y < self.spec_height()
    }

    /// Row-major flat index of a coordinate.
    pub open spec fn idx(&self, c: Coord) -> int {
        c.x + c.y * self.width
    }

    /// The value stored at a coordinate.
    pub open spec fn at(&self, c: Coord) -> T {
        self.data@[self.idx(c)]
    }

    /// A valid coordinate's flat index lies inside the data.
    pub proof fn lemma_idx_in_range(&self, c: Coord)
        requires
            self.wf(),
            self.valid(c),
        ensures
            0 <= self.idx(c) < self.data.len(),
            self.data.len() == self.spec_height() * self.width,
    {
        let w = self.width as int;
        let h = self.spec_height();
        lemma_fundamental_div_mod(self.data.len() as int, w);
        assert(self.data.len() == w * h);
        assert(c.y * w + c.x < h * w) by (nonlinear_arith)
            requires
                0 <= c.x < w,
                0 <= c.y < h,
                0 < w;
        assert(0 <= c.y * w) by (nonlinear_arith)
            requires
                0 <= c.y,
                0 < w;
        assert(w * h == h * w) by (nonlinear_arith);
    }

    /// Returns the value at the given coord, or nothing when the coord is
    /// out of range; total, never fails.
    pub fn get(&self, coord: Coord) -> (r: Option<&T>)
        requires
            self.wf(),
        ensures
            self.valid(coord) ==> (match r {
                Some(v) => *v == self.at(coord),
                None => false,
            }),
            !self.valid(coord) ==> r is None,
    {
        if self.is_valid_coord(&coord) {
            proof {
                self.lemma_idx_in_range(coord);
            }
            Some(&self.data[coord.x as usize + coord.y as usize * self.width])
        } else {
            None
        }
    }

    /// Sets the value at the given coord; the caller must stay in bounds.
    pub fn set(&mut self, coord: Coord, value: T)
        requires
            old(self).wf(),
            old(self).valid(coord),
        ensures
            final(self).width == old(self).width,
            final(self).data@ == old(self).data@.update(old(self).idx(coord), value),
    {
        proof {
            self.lemma_idx_in_range(coord);
        }
        let i = coord.x as usize + coord.y as usize * self.width;
        self.data.set(i, value);
    }

    /// Bounds-checked mutation: rejects an out-of-range coordinate with a
    /// diagnostic instead of failing.
    pub fn try_set(&mut self, coord: Coord, value: T) -> (r: Result<(), InvalidCoordinate>)
        requires
            old(self).wf(),
        ensures
            final(self).width == old(self).width,
            old(self).valid(coord) ==> r is Ok && final(self).data@ == old(self).data@.update(
                old(self).idx(coord),
                value,
            ),
            !old(self).valid(coord) ==> *final(self) == *old(self) && r == Err::<
                (),
                InvalidCoordinate,
            >(
                InvalidCoordinate {
                    coord,
                    width: old(self).width,
                    height: old(self).spec_height() as usize,
                },
            ),
    {
        if self.is_valid_coord(&coord) {
            self.set(coord, value);
            Ok(())
        } else {
            Err(InvalidCoordinate { coord, width: self.width, height: self.height() })
        }
    }

    /// Grid height, derived from the data length.
    pub fn height(&self) -> (h: usize)
        requires
            self.wf(),
        ensures
            h == self.spec_height(),
    {
        self.data.len() / self.width
    }

    /// Returns true exactly when the coord indexes a cell of this grid.
    pub fn is_valid_coord(&self, coord: &Coord) -> (r: bool)
        requires
            self.wf(),
        ensures
            r == self.valid(*coord),
    {
        coord.x >= 0 && (coord.x as usize) < self.width && coord.y >= 0 && (coord.y as usize)
            < self.height()
    }

    /// The subset of the four axis neighbors that are in range, in the
    /// order top, bottom, left, right.
    pub open spec fn valid_neighbors_spec(&self, c: Coord) -> Seq<Coord> {
        let t = Coord { x: c.x, y: (c.y - 1) as i32 };
        let b = Coord { x: c.x, y: (c.y + 1) as i32 };
        let l = Coord { x: (c.x - 1) as i32, y: c.y };
        let r = Coord { x: (c.x + 1) as i32, y: c.y };
        (if self.valid(t) {
            seq![t]
        } else {
            Seq::empty()
        }) + (if self.valid(b) {
            seq![b]
        } else {
            Seq::empty()
        }) + (if self.valid(l) {
            seq![l]
        } else {
            Seq::empty()
        }) + (if self.valid(r) {
            seq![r]
        } else {
            Seq::empty()
        })
    }

    /// Get the in-range neighbors of the given coord (0 to 4 of them); no
    /// diagonal adjacency is ever considered.
    pub fn valid_neighbors(&self, coord: Coord) -> (r: Vec<Coord>)
        requires
            self.wf(),
            i32::MIN < coord.x < i32::MAX,
            i32::MIN < coord.y < i32::MAX,
        ensures
            r@ == self.valid_neighbors_spec(coord),
    {
        let candidates: [Coord; 4] = coord.neighbors();
        let mut r: Vec<Coord> = Vec::new();
        if self.is_valid_coord(&candidates[0]) {
            r.push(candidates[0]);
        }
        if self.is_valid_coord(&candidates[1]) {
            r.push(candidates[1]);
        }
        if self.is_valid_coord(&candidates[2]) {
            r.push(candidates[2]);
        }
        if self.is_valid_coord(&candidates[3]) {
            r.push(candidates[3]);
        }
        proof {
            assert(r@ =~= self.valid_neighbors_spec(coord));
        }
        r
    }

    /// Create a grid with every cell holding the given value.
    pub fn new_filled(width: usize, height: usize, value: T) -> (g: Grid<T>) where T: Copy
        requires
            width > 0,
            width * height <= usize::MAX,
        ensures
            g.wf(),
            g.width == width,
            g.data@.len() == width * height,
            g.spec_height() == height,
            forall|i: int| 0 <= i < g.data@.len() ==> g.data@[i] == value,
    {
        proof {
            assert(width * height == height * width) by (nonlinear_arith);
        }
        let n: usize = width * height;
        let mut data: Vec<T> = Vec::new();
        let mut k: usize = 0;
        while k < n
            invariant
                k <= n,
                data@.len() == k,
                forall|i: int| 0 <= i < k ==> data@[i] == value,
            decreases n - k,
        {
            data.push(value);
            k = k + 1;
        }
        proof {
            lemma_mod_multiples_basic(height as int, width as int);
            lemma_div_by_multiple(height as int, width as int);
        }
        Grid { width, data }
    }
}

/// The largest element of a nonempty scalar sequence (0 when empty).
pub open spec fn seq_max(s: Seq<i64>) -> int
    decreases s.len(),
{
    if s.len() == 0 {
        0
    } else if s.len() == 1 {
        s[0] as int
    } else {
        let m = seq_max(s.drop_last());
        if s.last() > m {
            s.last() as int
        } else {
            m
        }
    }
}

/// The maximum of a nonempty sequence is one of its elements and bounds
/// them all.
pub proof fn lemma_seq_max_props(s: Seq<i64>)
    requires
        s.len() > 0,
    ensures
        forall|i: int| 0 <= i < s.len() ==> #[trigger] s[i] <= seq_max(s),
        exists|i: int| 0 <= i < s.len() && #[trigger] s[i] == seq_max(s),
    decreases s.len(),
{
    if s.len() == 1 {
        assert(s[0] == seq_max(s));
    } else {
        lemma_seq_max_props(s.drop_last());
        let m = seq_max(s.drop_last());
        if s.last() > m {
            assert(s[s.len() - 1] == seq_max(s));
        } else {
            let i = choose|i: int| 0 <= i < s.drop_last().len() && #[trigger] s.drop_last()[i] == m;
            assert(s.drop_last()[i] == s[i]);
            assert(s[i] == seq_max(s));
        }
        assert forall|i: int| 0 <= i < s.len() implies #[trigger] s[i] <= seq_max(s) by {
            if i < s.len() - 1 {
                assert(s.drop_last()[i] == s[i]);
            }
        }
    }
}

/// Writing a valid cell and reading it back yields exactly the value
/// written, and leaves the grid's shape unchanged; an out-of-range read
/// yields nothing, and an out-of-range write is rejected (see
/// [`Grid::get`], [`Grid::set`] and [`Grid::try_set`]).
pub proof fn lemma_set_then_get<T>(g1: &Grid<T>, g2: &Grid<T>, c: Coord, v: T)
    requires
        g1.wf(),
        g1.valid(c),
        g2.width == g1.width,
        g2.data@ == g1.data@.update(g1.idx(c), v),
    ensures
        g2.wf(),
        g2.valid(c),
        g2.at(c) == v,
{
    g1.lemma_idx_in_range(c);
}

/// Specific methods for boolean grids.
impl Grid<bool> {
    /// Create a new all-false grid of the given width and height.
    pub fn new(width: usize, height: usize) -> (g: Grid<bool>)
        requires
            width > 0,
            width * height <= usize::MAX,
        ensures
            g.wf(),
            g.width == width,
            g.spec_height() == height,
            g.data@.len() == width * height,
            forall|i: int| 0 <= i < g.data@.len() ==> g.data@[i] == false,
    {
        Grid::new_filled(width, height, false)
    }
}

/// Specific methods for fixed-point scalar grids.
impl Grid<Fx> {
    /// Create a new all-zero grid of the given width and height.
    pub fn new(width: usize, height: usize) -> (g: Grid<Fx>)
        requires
            width > 0,
            width * height <= usize::MAX,
        ensures
            g.wf(),
            g.width == width,
            g.spec_height() == height,
            g.data@.len() == width * height,
            forall|i: int| 0 <= i < g.data@.len() ==> g.data@[i] == 0i64,
    {
        Grid::new_filled(width, height, 0i64)
    }

    /// Add a value onto the cell's current value at the given coord.
    pub fn add(&mut self, coord: Coord, value: Fx)
        requires
            old(self).wf(),
            old(self).valid(coord),
        ensures
            final(self).width == old(self).width,
            final(self).data@ == old(self).data@.update(
                old(self).idx(coord),
                fx_add_spec(old(self).at(coord) as int, value as int) as i64,
            ),
    {
        proof {
            self.lemma_idx_in_range(coord);
        }
        let i = coord.x as usize + coord.y as usize * self.width;
        let orig = self.data[i];
        self.data.set(i, fx_add(orig, value));
    }

    /// The largest value held by any cell.
    pub fn max(&self) -> (r: Fx)
        requires
            self.data@.len() > 0,
        ensures
            r == seq_max(self.data@),
    {
        let mut r: Fx = self.data[0];
        let mut k: usize = 1;
        proof {
            assert(self.data@.subrange(0, 1) =~= seq![self.data@[0]]);
        }
        while k < self.data.len()
            invariant
                1 <= k <= self.data@.len(),
                r == seq_max(self.data@.subrange(0, k as int)),
            decreases self.data@.len() - k,
        {
            proof {
                let pre = self.data@.subrange(0, k as int);
                let cur = self.data@.subrange(0, k as int + 1);
                assert(cur.drop_last() =~= pre);
                assert(cur.last() == self.data@[k as int]);
            }
            if self.data[k] > r {
                r = self.data[k];
            }
            k = k + 1;
        }
        proof {
            assert(self.data@.subrange(0, self.data@.len() as int) =~= self.data@);
        }
        r
    }
}

/// Specific methods for color grids.
impl Grid<crate::color::Color> {
    /// Create a new all-white grid of the given width and height.
    pub fn new(width: usize, height: usize) -> (g: Grid<crate::color::Color>)
        requires
            width > 0,
            width * height <= usize::MAX,
        ensures
            g.wf(),
            g.width == width,
            g.spec_height() == height,
            g.data@.len() == width * height,
            forall|i: int|
                0 <= i < g.data@.len() ==> g.data@[i] == (crate::color::Color {
                    r: 255u8,
                    g: 255u8,
                    b: 255u8,
                }),
    {
        Grid::new_filled(width, height, crate::color::Color { r: 255, g: 255, b: 255 })
    }
}

/// Specific methods for complex grids.
impl Grid<Complex> {
    /// Create a new all-zero grid of the given width and height.
    pub fn new(width: usize, height: usize) -> (g: Grid<Complex>)
        requires
            width > 0,
            width * height <= usize::MAX,
        ensures
            g.wf(),
            g.width == width,
            g.spec_height() == height,
            g.data@.len() == width * height,
            forall|i: int| 0 <= i < g.data@.len() ==> g.data@[i] == (Complex { re: 0i64, im: 0i64 }),
    {
        Grid::new_filled(width, height, Complex { re: 0, im: 0 })
    }

    /// Add a value onto the cell's current value at the given coord.
    pub fn add(&mut self, coord: Coord, value: Complex)
        requires
            old(self).wf(),
            old(self).valid(coord),
        ensures
            final(self).width == old(self).width,
            final(self).data@ == old(self).data@.update(
                old(self).idx(coord),
                complex_add_spec(old(self).at(coord), value),
            ),
    {
        proof {
            self.lemma_idx_in_range(coord);
        }
        let i = coord.x as usize + coord.y as usize * self.width;
        let orig = self.data[i];
        self.data.set(i, orig.add(&value));
    }
}

} // verus!
