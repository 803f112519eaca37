//! The midpoint of the bounding box of a cloud.

use vstd::prelude::*;
use crate::error::Error;
use crate::formats::pointcloud::PointCloud;
use crate::utils::{bounding_box, get_pc_bound};

verus! {

/// Twice the midpoint of the bounding box of `points`, axis by axis: the sum
/// of the smallest and the largest coordinate.
pub open spec fn doubled_midpoint(points: Seq<crate::formats::pointxyzrgba::PointXyzRgba>) -> [i64; 3] {
    let b = bounding_box(points);
    [(b.min_x + b.max_x) as i64, (b.min_y + b.max_y) as i64, (b.min_z + b.max_z) as i64]
}

/// Twice the midpoint of the bounding box of the cloud: along each axis the
/// arithmetic mean of the smallest and the largest coordinate, doubled so
/// that a midpoint between two grid positions stays exact. A cloud without
/// points has no midpoint.
pub fn generate_midpoint(points: PointCloud) -> (r: Result<[i64; 3], Error>)
    ensures
        points@.points.len() == 0 ==> r is Err && r->Err_0 == Error::EmptyInput,
        points@.points.len() > 0 ==> r is Ok && r->Ok_0 == doubled_midpoint(points@.points),
{
    midpoint_of(&points)
}

/// Twice the midpoint of the bounding box of a cloud that is only lent.
pub fn midpoint_of(points: &PointCloud) -> (r: Result<[i64; 3], Error>)
    ensures
        points@.points.len() == 0 ==> r is Err && r->Err_0 == Error::EmptyInput,
        points@.points.len() > 0 ==> r is Ok && r->Ok_0 == doubled_midpoint(points@.points),
{
    match get_pc_bound(points) {
        Ok(bound) => {
            let m = bound.midpoint();
            assert(m@ =~= doubled_midpoint(points@.points)@);
            Ok(m)
        },
        Err(e) => Err(e),
    }
}

} // verus!
