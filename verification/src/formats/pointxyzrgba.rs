//! A coloured point on the integer grid.

use vstd::prelude::*;

verus! {

/// A point with a grid position and an RGBA colour.
#[derive(Clone, Copy, Debug, PartialEq, Eq, Structural)]
pub struct PointXyzRgba {
    pub x: i32,
    pub y: i32,
    pub z: i32,
    pub r: u8,
    pub g: u8,
    pub b: u8,
    pub a: u8,
}

impl PointXyzRgba {
    /// A point at `(x, y, z)` with colour `(r, g, b, a)`.
    pub fn new(x: i32, y: i32, z: i32, r: u8, g: u8, b: u8, a: u8) -> (p: Self)
        ensures
            p == (PointXyzRgba { x, y, z, r, g, b, a }),
    {
        PointXyzRgba { x, y, z, r, g, b, a }
    }
}

} // verus!
