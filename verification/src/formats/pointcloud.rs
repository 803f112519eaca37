//! An ordered cloud of points, optionally split into the segments of a
//! spatial partition.

use vstd::prelude::*;
use crate::formats::pointxyzrgba::PointXyzRgba;
use crate::utils::copy_vec;

verus! {

/// The points of a cloud that fall into one cell of a partition, in the order
/// in which the cloud held them.
#[derive(Debug)]
pub struct PointCloudSegment {
    pub points: Vec<PointXyzRgba>,
}

/// A cloud: its points in order and, where it has been partitioned, one
/// segment per cell.
#[derive(Debug)]
pub struct PointCloud {
    pub number_of_points: usize,
    pub points: Vec<PointXyzRgba>,
    pub segments: Vec<PointCloudSegment>,
}

/// What a cloud holds, as sequences.
pub struct PointCloudView {
    pub number_of_points: nat,
    pub points: Seq<PointXyzRgba>,
    pub segments: Seq<Seq<PointXyzRgba>>,
}

impl View for PointCloudSegment {
    type V = Seq<PointXyzRgba>;

    open spec fn view(&self) -> Seq<PointXyzRgba> {
        self.points@
    }
}

impl View for PointCloud {
    type V = PointCloudView;

    open spec fn view(&self) -> PointCloudView {
        PointCloudView {
            number_of_points: self.number_of_points as nat,
            points: self.points@,
            segments: Seq::new(self.segments@.len(), |i: int| self.segments@[i]@),
        }
    }
}

/// The views of a vector of point vectors.
pub open spec fn point_seqs(buckets: Seq<Vec<PointXyzRgba>>) -> Seq<Seq<PointXyzRgba>> {
    Seq::new(buckets.len(), |i: int| buckets[i]@)
}

/// The views of a vector of clouds.
pub open spec fn cloud_views(clouds: Seq<PointCloud>) -> Seq<PointCloudView> {
    Seq::new(clouds.len(), |i: int| clouds[i]@)
}

/// The point sequences of a vector of clouds.
pub open spec fn cloud_points(clouds: Seq<PointCloud>) -> Seq<Seq<PointXyzRgba>> {
    Seq::new(clouds.len(), |i: int| clouds[i]@.points)
}

/// A vector of `n` empty buckets.
pub fn empty_buckets(n: usize) -> (buckets: Vec<Vec<PointXyzRgba>>)
    ensures
        buckets@.len() == n,
        forall|s: int| 0 <= s < n ==> (#[trigger] buckets@[s])@ == Seq::<PointXyzRgba>::empty(),
{
    let mut buckets: Vec<Vec<PointXyzRgba>> = Vec::new();
    let mut s: usize = 0;
    while s < n
        invariant
            s <= n,
            buckets@.len() == s,
            forall|t: int| 0 <= t < s ==> (#[trigger] buckets@[t])@ == Seq::<PointXyzRgba>::empty(),
        decreases n - s,
    {
        buckets.push(Vec::new());
        s = s + 1;
    }
    buckets
}

impl Clone for PointCloudSegment {
    fn clone(&self) -> (copy: Self)
        ensures
            copy@ == self@,
    {
        PointCloudSegment { points: copy_vec(&self.points) }
    }
}

impl Clone for PointCloud {
    fn clone(&self) -> (copy: Self)
        ensures
            copy@ == self@,
    {
        let mut segments: Vec<PointCloudSegment> = Vec::new();
        let mut i: usize = 0;
        while i < self.segments.len()
            invariant
                i <= self.segments.len(),
                segments@.len() == i,
                forall|j: int| 0 <= j < i ==> (#[trigger] segments@[j])@ == self.segments@[j]@,
            decreases self.segments.len() - i,
        {
            segments.push(self.segments[i].clone());
            i = i + 1;
        }
        let copy = PointCloud {
            number_of_points: self.number_of_points,
            points: copy_vec(&self.points),
            segments,
        };
        assert(copy@.segments =~= self@.segments);
        copy
    }
}

impl PointCloud {
    /// Whether the recorded number of points is the number of points held.
    pub open spec fn is_consistent(&self) -> bool {
        self.number_of_points == self.points@.len()
    }

    /// A cloud without segments that holds `points` and records
    /// `number_of_points` as their number.
    pub fn new(number_of_points: usize, points: Vec<PointXyzRgba>) -> (cloud: Self)
        ensures
            cloud@.number_of_points == number_of_points,
            cloud@.points == points@,
            cloud@.segments == Seq::<Seq<PointXyzRgba>>::empty(),
    {
        let cloud = PointCloud { number_of_points, points, segments: Vec::new() };
        assert(cloud@.segments =~= Seq::<Seq<PointXyzRgba>>::empty());
        cloud
    }

    /// A cloud made of the given segments: its points are the points of the
    /// segments, one segment after the other.
    pub fn new_with_segments(buckets: Vec<Vec<PointXyzRgba>>) -> (cloud: Self)
        ensures
            cloud@.segments == point_seqs(buckets@),
            cloud@.points == point_seqs(buckets@).flatten(),
            cloud.is_consistent(),
    {
        let mut points: Vec<PointXyzRgba> = Vec::new();
        let mut segments: Vec<PointCloudSegment> = Vec::new();
        let mut s: usize = 0;
        while s < buckets.len()
            invariant
                s <= buckets.len(),
                segments@.len() == s,
                forall|j: int| 0 <= j < s ==> (#[trigger] segments@[j])@ == buckets@[j]@,
                points@ == point_seqs(buckets@).take(s as int).flatten(),
            decreases buckets.len() - s,
        {
            let bucket = &buckets[s];
            let ghost before = points@;
            let mut i: usize = 0;
            while i < bucket.len()
                invariant
                    i <= bucket.len(),
                    points@ == before + bucket@.take(i as int),
                decreases bucket.len() - i,
            {
                points.push(bucket[i]);
                assert(bucket@.take(i + 1) =~= bucket@.take(i as int).push(bucket@[i as int]));
                assert(before + bucket@.take(i + 1) =~= (before + bucket@.take(i as int)).push(
                    bucket@[i as int],
                ));
                i = i + 1;
            }
            segments.push(PointCloudSegment { points: copy_vec(bucket) });
            proof {
                assert(bucket@.take(bucket.len() as int) =~= bucket@);
                let all = point_seqs(buckets@);
                assert(all.take(s + 1) =~= all.take(s as int).push(bucket@));
                all.take(s as int).lemma_flatten_push(bucket@);
            }
            s = s + 1;
        }
        assert(point_seqs(buckets@).take(buckets.len() as int) =~= point_seqs(buckets@));
        let cloud = PointCloud { number_of_points: points.len(), points, segments };
        assert(cloud@.segments =~= point_seqs(buckets@));
        cloud
    }

    /// The number of points held.
    pub fn len(&self) -> (n: usize)
        ensures
            n == self@.points.len(),
    {
        self.points.len()
    }

    /// Whether the cloud holds no point.
    pub fn is_empty(&self) -> (empty: bool)
        ensures
            empty == (self@.points.len() == 0),
    {
        self.points.len() == 0
    }
}

} // verus!
