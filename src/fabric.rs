//! Rectangular claims on a sheet of fabric.
use vstd::prelude::*;

verus! {

/// A claim: its id, the offset of its top left corner, and its size, in inches.
#[derive(Clone, Copy, Debug, PartialEq, Eq, Structural)]
pub struct Claim {
    pub id: u16,
    pub x: u16,
    pub y: u16,
    pub width: u16,
    pub height: u16,
}

impl Claim {
    /// The columns that the claim covers.
    pub fn x_range(self) -> (r: std::ops::Range<u16>)
        requires
            self.x + self.width <= u16::MAX,
        ensures
            r.start == self.x,
            r.end == self.x + self.width,
    {
        self.x..(self.x + self.width)
    }

    /// The rows that the claim covers.
    pub fn y_range(self) -> (r: std::ops::Range<u16>)
        requires
            self.y + self.height <= u16::MAX,
        ensures
            r.start == self.y,
            r.end == self.y + self.height,
    {
        self.y..(self.y + self.height)
    }
}

} // verus!
