//! Ordering points by their distance from the origin.

use std::cmp::Ordering;
use vstd::prelude::*;
use crate::materials::points::{square_of, widen, Point};

verus! {

/// How a squared distance `first` stands to a distance whose square is
/// `second_squared`, both taken from the origin.
pub open spec fn order_by_distance(first: int, second_squared: int) -> Ordering {
    if first < second_squared {
        Ordering::Less
    } else if first > second_squared {
        Ordering::Greater
    } else {
        Ordering::Equal
    }
}

impl Point {
    /// Compares the distance of this point from the origin with the squared
    /// distance of `other` from the origin: less where the distance is the
    /// smaller number, greater where it is the larger, equal otherwise.
    /// The comparison is exact: the distance is below a number exactly when
    /// its square is below the square of that number.
    pub fn partial_cmp(&self, other: &Point) -> (r: Option<Ordering>)
        ensures
            r == Some(
                order_by_distance(
                    self.squared_norm(),
                    other.squared_norm() * other.squared_norm(),
                ),
            ),
    {
        let first: u128 = widen(self.origin_distance_squared());
        let second: u128 = square_of(other.origin_distance_squared());
        if first < second {
            Some(Ordering::Less)
        } else if first > second {
            Some(Ordering::Greater)
        } else {
            Some(Ordering::Equal)
        }
    }
}

} // verus!
