//! RGB color values.

use vstd::prelude::*;

verus! {

/// An 8-bit-per-channel RGB color.
#[derive(Clone, Copy, Debug, PartialEq, Eq, Structural)]
pub struct Color {
    pub r: u8,
    pub g: u8,
    pub b: u8,
}

impl Color {
    /// The color packed as `0xRRGGBB`.
    pub fn to_u32(&self) -> (v: u32)
        ensures
            v == self.r * 0x1_0000 + self.g * 0x100 + self.b,
    {
        (self.r as u32) * 0x100 * 0x100 + (self.g as u32) * 0x100 + self.b as u32
    }

    pub fn rgb(r: u8, g: u8, b: u8) -> (c: Color)
        ensures
            c == (Color { r, g, b }),
    {
        Color { r, g, b }
    }
}

} // verus!
