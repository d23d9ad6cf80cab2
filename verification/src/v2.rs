//! Discrete lattice coordinates.

use vstd::prelude::*;

verus! {

/// An integer lattice coordinate, used as a grid and storage key.
#[derive(Clone, Copy, Debug, PartialEq, Eq, Hash, Structural)]
pub struct V2i {
    pub x: i32,
    pub y: i32,
}

impl V2i {
    pub fn new(x: i32, y: i32) -> (r: V2i)
        ensures
            r.x == x,
            r.y == y,
    {
        V2i { x, y }
    }

    /// Component-wise sum.
    pub fn plus(&self, offset: V2i) -> (r: V2i)
        requires
            i32::MIN <= self.x + offset.x <= i32::MAX,
            i32::MIN <= self.y + offset.y <= i32::MAX,
        ensures
            r.x == self.x + offset.x,
            r.y == self.y + offset.y,
    {
        V2i { x: self.x + offset.x, y: self.y + offset.y }
    }

    /// Component-wise difference.
    pub fn minus(&self, offset: V2i) -> (r: V2i)
        requires
            i32::MIN <= self.x - offset.x <= i32::MAX,
            i32::MIN <= self.y - offset.y <= i32::MAX,
        ensures
            r.x == self.x - offset.x,
            r.y == self.y - offset.y,
    {
        V2i { x: self.x - offset.x, y: self.y - offset.y }
    }
}

} // verus!
