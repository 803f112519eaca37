//! The bounding box of a cloud, and shuffling.

use rand::seq::SliceRandom;
use vstd::prelude::*;
use crate::error::Error;
use crate::formats::bounds::Bounds;
use crate::formats::pointcloud::PointCloud;
use crate::formats::pointxyzrgba::PointXyzRgba;

verus! {

/// The smallest box that holds `b` and the point `p`.
pub open spec fn extend_box(b: Bounds, p: PointXyzRgba) -> Bounds {
    Bounds {
        min_x: if p.x < b.min_x { p.x } else { b.min_x },
        max_x: if p.x > b.max_x { p.x } else { b.max_x },
        min_y: if p.y < b.min_y { p.y } else { b.min_y },
        max_y: if p.y > b.max_y { p.y } else { b.max_y },
        min_z: if p.z < b.min_z { p.z } else { b.min_z },
        max_z: if p.z > b.max_z { p.z } else { b.max_z },
    }
}

/// The box that holds exactly the point `p`.
pub open spec fn point_box(p: PointXyzRgba) -> Bounds {
    Bounds { min_x: p.x, max_x: p.x, min_y: p.y, max_y: p.y, min_z: p.z, max_z: p.z }
}

/// The smallest box that holds every point of `points`. For no points it is
/// the box at the origin, which no operation of the library returns.
pub open spec fn bounding_box(points: Seq<PointXyzRgba>) -> Bounds
    decreases points.len(),
{
    if points.len() == 0 {
        Bounds { min_x: 0, max_x: 0, min_y: 0, max_y: 0, min_z: 0, max_z: 0 }
    } else if points.len() == 1 {
        point_box(points[0])
    } else {
        extend_box(bounding_box(points.drop_last()), points.last())
    }
}

/// The bounding box holds every point, and each of its six faces passes
/// through one of the points: no smaller box would do.
pub proof fn lemma_bounding_box_is_tight(points: Seq<PointXyzRgba>)
    requires
        points.len() > 0,
    ensures
        bounding_box(points).is_valid(),
        forall|i: int| 0 <= i < points.len() ==> bounding_box(points).contains(#[trigger] points[i]),
        exists|i: int| 0 <= i < points.len() && (#[trigger] points[i]).x == bounding_box(points).min_x,
        exists|i: int| 0 <= i < points.len() && (#[trigger] points[i]).x == bounding_box(points).max_x,
        exists|i: int| 0 <= i < points.len() && (#[trigger] points[i]).y == bounding_box(points).min_y,
        exists|i: int| 0 <= i < points.len() && (#[trigger] points[i]).y == bounding_box(points).max_y,
        exists|i: int| 0 <= i < points.len() && (#[trigger] points[i]).z == bounding_box(points).min_z,
        exists|i: int| 0 <= i < points.len() && (#[trigger] points[i]).z == bounding_box(points).max_z,
    decreases points.len(),
{
    let b = bounding_box(points);
    if points.len() == 1 {
        assert(points[0].x == b.min_x);
    } else {
        let rest = points.drop_last();
        let last = points.len() - 1;
        lemma_bounding_box_is_tight(rest);
        let rb = bounding_box(rest);
        assert forall|i: int| 0 <= i < points.len() implies b.contains(#[trigger] points[i]) by {
            if i < last {
                assert(rb.contains(rest[i]));
            }
        }
        let i0 = choose|i: int| 0 <= i < rest.len() && (#[trigger] rest[i]).x == rb.min_x;
        let w0 = if points[last].x < rb.min_x { last } else { i0 };
        assert(0 <= w0 < points.len() && points[w0].x == b.min_x);
        let i1 = choose|i: int| 0 <= i < rest.len() && (#[trigger] rest[i]).x == rb.max_x;
        let w1 = if points[last].x > rb.max_x { last } else { i1 };
        assert(0 <= w1 < points.len() && points[w1].x == b.max_x);
        let i2 = choose|i: int| 0 <= i < rest.len() && (#[trigger] rest[i]).y == rb.min_y;
        let w2 = if points[last].y < rb.min_y { last } else { i2 };
        assert(0 <= w2 < points.len() && points[w2].y == b.min_y);
        let i3 = choose|i: int| 0 <= i < rest.len() && (#[trigger] rest[i]).y == rb.max_y;
        let w3 = if points[last].y > rb.max_y { last } else { i3 };
        assert(0 <= w3 < points.len() && points[w3].y == b.max_y);
        let i4 = choose|i: int| 0 <= i < rest.len() && (#[trigger] rest[i]).z == rb.min_z;
        let w4 = if points[last].z < rb.min_z { last } else { i4 };
        assert(0 <= w4 < points.len() && points[w4].z == b.min_z);
        let i5 = choose|i: int| 0 <= i < rest.len() && (#[trigger] rest[i]).z == rb.max_z;
        let w5 = if points[last].z > rb.max_z { last } else { i5 };
        assert(0 <= w5 < points.len() && points[w5].z == b.max_z);
    }
}

/// The bounding box of a cloud, by one pass over its points. A cloud without
/// points has none.
pub fn get_pc_bound(pc: &PointCloud) -> (r: Result<Bounds, Error>)
    ensures
        pc@.points.len() == 0 ==> r == Err::<Bounds, Error>(Error::EmptyInput),
        pc@.points.len() > 0 ==> r == Ok::<Bounds, Error>(bounding_box(pc@.points)),
{
    if pc.points.len() == 0 {
        return Err(Error::EmptyInput);
    }
    let first = pc.points[0];
    let mut b = Bounds {
        min_x: first.x,
        max_x: first.x,
        min_y: first.y,
        max_y: first.y,
        min_z: first.z,
        max_z: first.z,
    };
    assert(pc@.points.take(1) =~= seq![first]);
    let mut i: usize = 1;
    while i < pc.points.len()
        invariant
            1 <= i <= pc.points.len(),
            b == bounding_box(pc@.points.take(i as int)),
        decreases pc.points.len() - i,
    {
        let p = pc.points[i];
        proof {
            let next = pc@.points.take(i + 1);
            assert(next.drop_last() =~= pc@.points.take(i as int));
            assert(next.last() == p);
        }
        if p.x < b.min_x {
            b.min_x = p.x;
        }
        if p.x > b.max_x {
            b.max_x = p.x;
        }
        if p.y < b.min_y {
            b.min_y = p.y;
        }
        if p.y > b.max_y {
            b.max_y = p.y;
        }
        if p.z < b.min_z {
            b.min_z = p.z;
        }
        if p.z > b.max_z {
            b.max_z = p.z;
        }
        i = i + 1;
    }
    assert(pc@.points.take(pc.points.len() as int) =~= pc@.points);
    Ok(b)
}

/// Puts the items in a random order, in place.
///
/// Trusted: this calls `rand::seq::SliceRandom::shuffle` with the generator
/// of `rand::thread_rng`. The shuffle only swaps items of the slice, so the
/// vector afterwards holds each item as often as before. Nothing is claimed
/// about the order.
#[verifier::external_body]
pub(crate) fn shuffle<T>(items: &mut Vec<T>)
    ensures
        final(items)@.to_multiset() == old(items)@.to_multiset(),
{
    items.shuffle(&mut rand::thread_rng());
}

/// A copy of a vector of plain values.
pub fn copy_vec<T: Copy>(items: &Vec<T>) -> (copy: Vec<T>)
    ensures
        copy@ == items@,
{
    let mut copy: Vec<T> = Vec::new();
    let mut i: usize = 0;
    while i < items.len()
        invariant
            i <= items.len(),
            copy@ == items@.take(i as int),
        decreases items.len() - i,
    {
        copy.push(items[i]);
        assert(items@.take(i + 1) =~= items@.take(i as int).push(items@[i as int]));
        i = i + 1;
    }
    assert(items@.take(items.len() as int) =~= items@);
    copy
}

} // verus!
