//! Integer grid coordinates with 4-neighbor derivation (no diagonals).

use vstd::prelude::*;

verus! {

/// An integer (x, y) pair indexing a grid; (0, 0) is the top-left corner,
/// x grows to the right and y grows downward.
#[derive(Copy, Clone, Debug, PartialEq, Eq, Structural, Hash)]
pub struct Coord {
    pub x: i32,
    pub y: i32,
}

impl Coord {
    pub fn new(x: i32, y: i32) -> (c: Coord)
        ensures
            c.x == x,
            c.y == y,
    {
        Coord { x, y }
    }

    /// Component-wise sum of two coordinates.
    pub fn add(&mut self, other: Coord) -> (c: Coord)
        requires
            i32::MIN <= old(self).x + other.x <= i32::MAX,
            i32::MIN <= old(self).y + other.y <= i32::MAX,
        ensures
            *final(self) == *old(self),
            c.x == old(self).x + other.x,
            c.y == old(self).y + other.y,
    {
        Coord { x: self.x + other.x, y: self.y + other.y }
    }

    /// Row-major flat index for a grid of the given width.
    pub fn index(&self, width: usize) -> (i: i32)
        requires
            width <= i32::MAX,
            i32::MIN <= self.y * width <= i32::MAX,
            i32::MIN <= self.y * width + self.x <= i32::MAX,
        ensures
            i == self.y * width + self.x,
    {
        self.y * (width as i32) + self.x
    }

    /// The cell directly above.
    pub fn top(&self) -> (c: Coord)
        requires
            self.y > i32::MIN,
        ensures
            c.x == self.x,
            c.y == self.y - 1,
    {
        Coord::new(self.x, self.y - 1)
    }

    /// The cell directly below.
    pub fn bottom(&self) -> (c: Coord)
        requires
            self.y < i32::MAX,
        ensures
            c.x == self.x,
            c.y == self.y + 1,
    {
        Coord::new(self.x, self.y + 1)
    }

    /// The cell directly to the left.
    pub fn left(&self) -> (c: Coord)
        requires
            self.x > i32::MIN,
        ensures
            c.x == self.x - 1,
            c.y == self.y,
    {
        Coord::new(self.x - 1, self.y)
    }

    /// The cell directly to the right.
    pub fn right(&self) -> (c: Coord)
        requires
            self.x < i32::MAX,
        ensures
            c.x == self.x + 1,
            c.y == self.y,
    {
        Coord::new(self.x + 1, self.y)
    }

    /// The four axis-aligned neighbors, in the order top, bottom, left, right.
    pub fn neighbors(&self) -> (n: [Coord; 4])
        requires
            i32::MIN < self.x < i32::MAX,
            i32::MIN < self.y < i32::MAX,
        ensures
            n[0] == (Coord { x: self.x, y: (self.y - 1) as i32 }),
            n[1] == (Coord { x: self.x, y: (self.y + 1) as i32 }),
            n[2] == (Coord { x: (self.x - 1) as i32, y: self.y }),
            n[3] == (Coord { x: (self.x + 1) as i32, y: self.y }),
    {
        [self.top(), self.bottom(), self.left(), self.right()]
    }
}

} // verus!
