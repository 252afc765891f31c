//! A coordinate paired with a candidate distance, as carried by the
//! absorbing-boundary work queue.

use crate::coord::Coord;
use vstd::prelude::*;

verus! {

/// A coordinate together with a candidate distance value.
#[derive(Clone, Copy, Debug, PartialEq, Eq, Structural, Hash)]
pub struct Pixel {
    pub coord: Coord,
    pub val: i32,
}

impl Pixel {
    pub fn new(coord: Coord, val: i32) -> (p: Pixel)
        ensures
            p.coord == coord,
            p.val == val,
    {
        Pixel { coord, val }
    }
}

} // verus!
