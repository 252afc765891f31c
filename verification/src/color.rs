//! RGB colors handed to the renderer.

use vstd::prelude::*;

verus! {

/// An 8-bit RGB color.
#[derive(Clone, Copy, Debug, PartialEq, Eq, Structural)]
pub struct Color {
    pub r: u8,
    pub g: u8,
    pub b: u8,
}

impl Color {
    pub fn new(r: u8, g: u8, b: u8) -> (c: Color)
        ensures
            c.r == r,
            c.g == g,
            c.b == b,
    {
        Color { r, g, b }
    }

    pub fn white() -> (c: Color)
        ensures
            c.r == 255,
            c.g == 255,
            c.b == 255,
    {
        Color { r: 255, g: 255, b: 255 }
    }

    /// A color with three independently drawn random channels; nothing is
    /// promised of the values.
    pub fn random() -> Color {
        Color::new(random_u8(), random_u8(), random_u8())
    }

    pub fn is_white(&self) -> (r: bool)
        ensures
            r == (self.r == 255 && self.g == 255 && self.b == 255),
    {
        self.r == 255 && self.g == 255 && self.b == 255
    }

    /// The channel-wise complement.
    pub fn complementary(&self) -> (c: Color)
        ensures
            c.r == 255 - self.r,
            c.g == 255 - self.g,
            c.b == 255 - self.b,
    {
        Color::new(255 - self.r, 255 - self.g, 255 - self.b)
    }
}

/// Relies on rand::random for a uniformly drawn byte; nothing can be
/// promised of the value.
#[verifier::external_body]
fn random_u8() -> u8 {
    rand::random::<u8>()
}

} // verus!
