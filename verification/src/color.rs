//! Colours of points.

use vstd::prelude::*;

verus! {

/// A colour by its red, green and blue parts.
#[derive(Clone, Copy, Debug, PartialEq, Eq, Structural)]
pub struct PointColor {
    pub red: u8,
    pub green: u8,
    pub blue: u8,
}

impl PointColor {
    /// The square of the distance to `other` in colour space.
    pub open spec fn squared_distance(self, other: PointColor) -> int {
        (self.red - other.red) * (self.red - other.red) + (self.green - other.green) * (self.green
            - other.green) + (self.blue - other.blue) * (self.blue - other.blue)
    }

    /// The colour half-way to `other`, each part rounded down.
    pub open spec fn average(self, other: PointColor) -> PointColor {
        PointColor {
            red: ((self.red + other.red) / 2) as u8,
            green: ((self.green + other.green) / 2) as u8,
            blue: ((self.blue + other.blue) / 2) as u8,
        }
    }

    /// The colour `(red, green, blue)`.
    pub fn new(red: u8, green: u8, blue: u8) -> (c: Self)
        ensures
            c == (PointColor { red, green, blue }),
    {
        PointColor { red, green, blue }
    }

    /// Black.
    pub fn new_default() -> (c: Self)
        ensures
            c == (PointColor { red: 0, green: 0, blue: 0 }),
    {
        PointColor { red: 0, green: 0, blue: 0 }
    }

    /// The colour half-way to `other`, each part rounded down.
    pub fn get_average(&self, other: &PointColor) -> (c: PointColor)
        ensures
            c == self.average(*other),
    {
        PointColor {
            red: ((self.red as u16 + other.red as u16) / 2) as u8,
            green: ((self.green as u16 + other.green as u16) / 2) as u8,
            blue: ((self.blue as u16 + other.blue as u16) / 2) as u8,
        }
    }

    /// The square of the distance to `other` in colour space.
    pub fn get_color_delta(&self, other: &PointColor) -> (d: u32)
        ensures
            d == self.squared_distance(*other),
            d <= 3 * 255 * 255,
    {
        let dr: i32 = self.red as i32 - other.red as i32;
        let dg: i32 = self.green as i32 - other.green as i32;
        let db: i32 = self.blue as i32 - other.blue as i32;
        assert(0 <= dr * dr <= 255 * 255 && 0 <= dg * dg <= 255 * 255 && 0 <= db * db <= 255 * 255) by (nonlinear_arith)
            requires
                -255 <= dr <= 255,
                -255 <= dg <= 255,
                -255 <= db <= 255,
        ;
        (dr * dr + dg * dg + db * db) as u32
    }
}

/// The colours of a cloud, in its order.
#[derive(Debug)]
pub struct Color {
    pub data: Vec<PointColor>,
}

impl Color {
    /// The given colours.
    pub fn new(data: Vec<PointColor>) -> (c: Self)
        ensures
            c.data == data,
    {
        Color { data }
    }

    /// The colours held.
    pub fn get_point_col_vec(&self) -> (data: &Vec<PointColor>)
        ensures
            data == self.data,
    {
        &self.data
    }
}

} // verus!
