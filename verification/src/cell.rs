//! A display cell carrying a color.

use crate::color::Color;
use vstd::prelude::*;

verus! {

/// One display cell.
#[derive(Clone, Copy, Debug, PartialEq, Eq, Structural)]
pub struct Cell {
    pub color: Color,
}

impl Cell {
    /// Flip the cell to the complementary color.
    pub fn toggle(&mut self)
        ensures
            final(self).color.r == 255 - old(self).color.r,
            final(self).color.g == 255 - old(self).color.g,
            final(self).color.b == 255 - old(self).color.b,
    {
        self.color = self.color.complementary();
    }

    pub fn new(color: Color) -> (c: Cell)
        ensures
            c.color == color,
    {
        Cell { color }
    }
}

} // verus!
