//! What the library decides about PLY files: the encoding asked for, and
//! which property of a vertex goes where. Reading and writing the files is
//! the caller's part.

use vstd::prelude::*;
use vstd::string::StrSliceExecFns;
use crate::materials::points::Point;

verus! {

/// How the payload of a PLY file is encoded.
#[derive(Clone, Copy, Debug, PartialEq, Eq, Structural)]
pub enum Encoding {
    Ascii,
    BinaryLittleEndian,
}

/// The value of one property of a vertex.
#[derive(Clone, Copy, Debug, PartialEq, Eq, Structural)]
pub enum Property {
    /// A coordinate on the grid.
    Coordinate(i32),
    /// A part of a colour.
    Colour(u8),
}

/// Whether two texts hold the same characters.
pub fn same_text(a: &str, b: &str) -> (same: bool)
    ensures
        same == (a@ == b@),
{
    let n: usize = a.unicode_len();
    if b.unicode_len() != n {
        return false;
    }
    let mut i: usize = 0;
    while i < n
        invariant
            i <= n,
            n == a@.len(),
            n == b@.len(),
            forall|k: int| 0 <= k < i ==> a@[k] == b@[k],
        decreases n - i,
    {
        if a.get_char(i) != b.get_char(i) {
            return false;
        }
        i = i + 1;
    }
    assert(a@ =~= b@);
    true
}

/// The encoding for the form asked for: ASCII where none is asked for or
/// `ascii` is, binary little-endian for `binary`, and none for any other
/// form.
pub fn encoding_of(form: Option<&str>) -> (encoding: Option<Encoding>)
    ensures
        encoding == (match form {
            None => Some(Encoding::Ascii),
            Some(text) => if text@ == "ascii"@ {
                Some(Encoding::Ascii)
            } else if text@ == "binary"@ {
                Some(Encoding::BinaryLittleEndian)
            } else {
                None
            },
        }),
{
    match form {
        None => Some(Encoding::Ascii),
        Some(text) => {
            if same_text(text, "ascii") {
                Some(Encoding::Ascii)
            } else if same_text(text, "binary") {
                Some(Encoding::BinaryLittleEndian)
            } else {
                None
            }
        },
    }
}

/// The point with the property `key` set to `property`, where the point has
/// such a property of that kind: `x`, `y` and `z` are coordinates, `red`,
/// `green` and `blue` parts of the colour.
pub open spec fn with_property(point: Point, key: Seq<char>, property: Property) -> Option<Point> {
    match property {
        Property::Coordinate(v) => if key == "x"@ {
            Some(Point { point_coord: crate::coordinate::PointCoordinate { x: v, ..point.point_coord }, ..point })
        } else if key == "y"@ {
            Some(Point { point_coord: crate::coordinate::PointCoordinate { y: v, ..point.point_coord }, ..point })
        } else if key == "z"@ {
            Some(Point { point_coord: crate::coordinate::PointCoordinate { z: v, ..point.point_coord }, ..point })
        } else {
            None
        },
        Property::Colour(v) => if key == "red"@ {
            Some(Point { point_color: crate::color::PointColor { red: v, ..point.point_color }, ..point })
        } else if key == "green"@ {
            Some(Point { point_color: crate::color::PointColor { green: v, ..point.point_color }, ..point })
        } else if key == "blue"@ {
            Some(Point { point_color: crate::color::PointColor { blue: v, ..point.point_color }, ..point })
        } else {
            None
        },
    }
}

impl Point {
    /// Sets the property `key` of the point to `property` and says whether
    /// the point has such a property; where it has none the point stays as
    /// it is.
    pub fn set_property(&mut self, key: &str, property: Property) -> (known: bool)
        ensures
            known == with_property(*old(self), key@, property) is Some,
            known ==> *final(self) == with_property(*old(self), key@, property)->Some_0,
            !known ==> *final(self) == *old(self),
    {
        match property {
            Property::Coordinate(v) => {
                if same_text(key, "x") {
                    self.point_coord.x = v;
                    true
                } else if same_text(key, "y") {
                    self.point_coord.y = v;
                    true
                } else if same_text(key, "z") {
                    self.point_coord.z = v;
                    true
                } else {
                    false
                }
            },
            Property::Colour(v) => {
                if same_text(key, "red") {
                    self.point_color.red = v;
                    true
                } else if same_text(key, "green") {
                    self.point_color.green = v;
                    true
                } else if same_text(key, "blue") {
                    self.point_color.blue = v;
                    true
                } else {
                    false
                }
            },
        }
    }
}

} // verus!
