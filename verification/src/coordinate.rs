//! Grid positions.

use vstd::prelude::*;

verus! {

/// A position on the grid.
#[derive(Clone, Copy, Debug, PartialEq, Eq, Structural)]
pub struct PointCoordinate {
    pub x: i32,
    pub y: i32,
    pub z: i32,
}

/// The mean of two grid coordinates, rounded down to the grid.
pub open spec fn mean_coord(a: int, b: int) -> int {
    (a + b) / 2
}

/// The square of the distance between two coordinates.
pub open spec fn squared_gap(a: int, b: int) -> int {
    (a - b) * (a - b)
}

/// Computes [`mean_coord`].
pub fn mean_of(a: i32, b: i32) -> (m: i32)
    ensures
        m == mean_coord(a as int, b as int),
{
    let sum: i64 = a as i64 + b as i64;
    if sum >= 0 {
        (sum / 2) as i32
    } else {
        (-((1 - sum) / 2)) as i32
    }
}

/// Computes [`squared_gap`].
pub fn squared_gap_of(a: i32, b: i32) -> (g: u64)
    ensures
        g == squared_gap(a as int, b as int),
        g <= 0xffff_ffff * 0xffff_ffff,
{
    let d: i64 = a as i64 - b as i64;
    let m: u64 = if d >= 0 {
        d as u64
    } else {
        (-d) as u64
    };
    assert(m * m <= 0xffff_ffff * 0xffff_ffff) by (nonlinear_arith)
        requires
            m <= 0xffff_ffff,
    ;
    assert(m * m == (a - b) * (a - b)) by (nonlinear_arith)
        requires
            m == a - b || m == -(a - b),
    ;
    m * m
}

impl PointCoordinate {
    /// The square of the straight-line distance to `other`.
    pub open spec fn squared_distance(self, other: PointCoordinate) -> int {
        squared_gap(self.x as int, other.x as int) + squared_gap(self.y as int, other.y as int)
            + squared_gap(self.z as int, other.z as int)
    }

    /// The position half-way to `other`, each coordinate rounded down.
    pub open spec fn average(self, other: PointCoordinate) -> PointCoordinate {
        PointCoordinate {
            x: mean_coord(self.x as int, other.x as int) as i32,
            y: mean_coord(self.y as int, other.y as int) as i32,
            z: mean_coord(self.z as int, other.z as int) as i32,
        }
    }

    /// The position `(x, y, z)`.
    pub fn new(x: i32, y: i32, z: i32) -> (c: Self)
        ensures
            c == (PointCoordinate { x, y, z }),
    {
        PointCoordinate { x, y, z }
    }

    /// The origin.
    pub fn new_default() -> (c: Self)
        ensures
            c == (PointCoordinate { x: 0, y: 0, z: 0 }),
    {
        PointCoordinate { x: 0, y: 0, z: 0 }
    }

    /// The position half-way to `other`, each coordinate rounded down.
    pub fn get_average(&self, other: &PointCoordinate) -> (c: PointCoordinate)
        ensures
            c == self.average(*other),
    {
        PointCoordinate {
            x: mean_of(self.x, other.x),
            y: mean_of(self.y, other.y),
            z: mean_of(self.z, other.z),
        }
    }

    /// The square of the straight-line distance to `other`.
    pub fn get_coord_delta(&self, other: &PointCoordinate) -> (d: u128)
        ensures
            d == self.squared_distance(*other),
            d <= 3 * (0xffff_ffff * 0xffff_ffff),
    {
        squared_gap_of(self.x, other.x) as u128 + squared_gap_of(self.y, other.y) as u128
            + squared_gap_of(self.z, other.z) as u128
    }
}

/// The positions of a cloud, in its order.
#[derive(Debug)]
pub struct Coordinate {
    pub data: Vec<PointCoordinate>,
}

impl Coordinate {
    /// The given positions.
    pub fn new(data: Vec<PointCoordinate>) -> (c: Self)
        ensures
            c.data == data,
    {
        Coordinate { data }
    }

    /// The positions held.
    pub fn get_point_coor_vec(&self) -> (data: &Vec<PointCoordinate>)
        ensures
            data == self.data,
    {
        &self.data
    }
}

} // verus!
