//! Splitting a cloud into the segments of a spatial partition, and building
//! the ladder of resolutions that is streamed segment by segment.

use vstd::prelude::*;
use vstd::seq_lib::{lemma_flatten_concat, lemma_multiset_commutative};
use crate::counts::sum_counts;
use crate::error::Error;
use crate::formats::bounds::{
    axis_cell, cell_count, lemma_axis_cell_in_range, lemma_row_major_in_range, valid_partition, Bounds,
};
use crate::formats::pointcloud::{empty_buckets, PointCloud};
use crate::formats::pointxyzrgba::PointXyzRgba;
use crate::utils::{bounding_box, get_pc_bound, lemma_bounding_box_is_tight};

verus! {

/// The points of `points` whose cell under `bounds` and `partitions` is `s`,
/// in the order in which `points` holds them.
pub open spec fn points_in_cell(
    points: Seq<PointXyzRgba>,
    bounds: Bounds,
    partitions: (usize, usize, usize),
    s: int,
) -> Seq<PointXyzRgba>
    decreases points.len(),
{
    if points.len() == 0 {
        Seq::empty()
    } else {
        let before = points_in_cell(points.drop_last(), bounds, partitions, s);
        if bounds.cell_index(points.last(), partitions) == s {
            before.push(points.last())
        } else {
            before
        }
    }
}

/// The segments of `points` under `bounds`: for each cell in row-major order
/// the points that fall into it.
pub open spec fn cells_under(
    points: Seq<PointXyzRgba>,
    bounds: Bounds,
    partitions: (usize, usize, usize),
) -> Seq<Seq<PointXyzRgba>> {
    Seq::new(cell_count(partitions) as nat, |s: int| points_in_cell(points, bounds, partitions, s))
}

/// The segments of a cloud: its points sorted into the cells of its own
/// bounding box.
pub open spec fn cells_of(points: Seq<PointXyzRgba>, partitions: (usize, usize, usize)) -> Seq<
    Seq<PointXyzRgba>,
> {
    cells_under(points, bounding_box(points), partitions)
}

/// Every point has a cell: under a partition without a zero the cell index of
/// any point is below the number of cells.
pub proof fn lemma_cell_index_in_range(
    bounds: Bounds,
    p: PointXyzRgba,
    partitions: (usize, usize, usize),
)
    requires
        valid_partition(partitions),
    ensures
        0 <= bounds.cell_index(p, partitions) < cell_count(partitions),
{
    lemma_axis_cell_in_range(bounds.min_x as int, bounds.max_x as int, partitions.0 as int, p.x as int);
    lemma_axis_cell_in_range(bounds.min_y as int, bounds.max_y as int, partitions.1 as int, p.y as int);
    lemma_axis_cell_in_range(bounds.min_z as int, bounds.max_z as int, partitions.2 as int, p.z as int);
    lemma_row_major_in_range(
        axis_cell(
            bounds.min_x as int,
            bounds.max_x as int,
            partitions.0 as int,
            p.x as int,
        ),
        axis_cell(
            bounds.min_y as int,
            bounds.max_y as int,
            partitions.1 as int,
            p.y as int,
        ),
        axis_cell(
            bounds.min_z as int,
            bounds.max_z as int,
            partitions.2 as int,
            p.z as int,
        ),
        partitions.0 as int,
        partitions.1 as int,
        partitions.2 as int,
    );
}

/// Appending a value to one of the sequences adds exactly that value to what
/// the concatenation of all of them holds.
pub proof fn lemma_push_into_one<A>(parts: Seq<Seq<A>>, c: int, x: A)
    requires
        0 <= c < parts.len(),
    ensures
        parts.update(c, parts[c].push(x)).flatten().to_multiset() == parts.flatten().to_multiset().insert(
            x,
        ),
        parts.update(c, parts[c].push(x)).flatten().len() == parts.flatten().len() + 1,
{
    broadcast use vstd::multiset::group_multiset_axioms;

    let head = parts.take(c);
    let tail = parts.skip(c + 1);
    let old_mid = seq![parts[c]];
    let new_mid = seq![parts[c].push(x)];
    assert(parts =~= head + old_mid + tail);
    assert(parts.update(c, parts[c].push(x)) =~= head + new_mid + tail);
    lemma_flatten_concat(head + old_mid, tail);
    lemma_flatten_concat(head, old_mid);
    lemma_flatten_concat(head + new_mid, tail);
    lemma_flatten_concat(head, new_mid);
    old_mid.lemma_flatten_one_element();
    new_mid.lemma_flatten_one_element();
    assert(old_mid.flatten() =~= parts[c]);
    assert(new_mid.flatten() =~= parts[c].push(x));
    let a = head.flatten();
    let b = parts[c];
    let t = tail.flatten();
    lemma_multiset_commutative(a + b, t);
    lemma_multiset_commutative(a, b);
    lemma_multiset_commutative(a + b.push(x), t);
    lemma_multiset_commutative(a, b.push(x));
    vstd::seq_lib::to_multiset_build(b, x);
    assert(a.to_multiset().add(b.to_multiset().insert(x)).add(t.to_multiset()) =~= a.to_multiset().add(
        b.to_multiset(),
    ).add(t.to_multiset()).insert(x));
}

/// The concatenation of no points at all, cell by cell, is empty.
pub proof fn lemma_empty_cells_flatten<A>(parts: Seq<Seq<A>>)
    requires
        forall|s: int| 0 <= s < parts.len() ==> (#[trigger] parts[s]).len() == 0,
    ensures
        parts.flatten() == Seq::<A>::empty(),
    decreases parts.len(),
{
    if parts.len() > 0 {
        lemma_empty_cells_flatten(parts.drop_first());
        assert(parts.first().len() == 0);
        assert(parts.flatten() =~= Seq::<A>::empty());
    }
}

/// Segmenting and concatenating again yields a rearrangement of the cloud:
/// the segments together hold each point as often as the cloud does.
pub proof fn lemma_cells_hold_every_point(
    points: Seq<PointXyzRgba>,
    bounds: Bounds,
    partitions: (usize, usize, usize),
)
    requires
        valid_partition(partitions),
    ensures
        cells_under(points, bounds, partitions).flatten().to_multiset() == points.to_multiset(),
        cells_under(points, bounds, partitions).flatten().len() == points.len(),
    decreases points.len(),
{
    broadcast use vstd::multiset::group_multiset_axioms;

    let cells = cells_under(points, bounds, partitions);
    if points.len() == 0 {
        lemma_empty_cells_flatten(cells);
        assert(points =~= Seq::<PointXyzRgba>::empty());
    } else {
        let rest = points.drop_last();
        let p = points.last();
        let c = bounds.cell_index(p, partitions);
        let before = cells_under(rest, bounds, partitions);
        lemma_cells_hold_every_point(rest, bounds, partitions);
        lemma_cell_index_in_range(bounds, p, partitions);
        assert(cells =~= before.update(c, before[c].push(p)));
        lemma_push_into_one(before, c, p);
        assert(points =~= rest.push(p));
        vstd::seq_lib::to_multiset_build(rest, p);
    }
}

/// The segments are disjoint: a point held by segment `s` has cell `s`, so
/// no occurrence of a point is counted in two segments.
pub proof fn lemma_cell_members(
    points: Seq<PointXyzRgba>,
    bounds: Bounds,
    partitions: (usize, usize, usize),
    s: int,
)
    ensures
        points_in_cell(points, bounds, partitions, s).len() <= points.len(),
        forall|j: int|
            0 <= j < points_in_cell(points, bounds, partitions, s).len() ==> bounds.cell_index(
                #[trigger] points_in_cell(points, bounds, partitions, s)[j],
                partitions,
            ) == s,
    decreases points.len(),
{
    if points.len() > 0 {
        lemma_cell_members(points.drop_last(), bounds, partitions, s);
    }
}

/// For any cloud and any partition without a zero, the sizes of the segments
/// add up to the size of the cloud, and the segments together are a
/// rearrangement of the cloud.
pub proof fn lemma_segments_cover_cloud(points: Seq<PointXyzRgba>, partitions: (usize, usize, usize))
    requires
        valid_partition(partitions),
    ensures
        cells_of(points, partitions).len() == cell_count(partitions),
        cells_of(points, partitions).flatten().len() == points.len(),
        cells_of(points, partitions).flatten().to_multiset() == points.to_multiset(),
{
    lemma_cells_hold_every_point(points, bounding_box(points), partitions);
    lemma_row_major_in_range(0, 0, 0, partitions.0 as int, partitions.1 as int, partitions.2 as int);
}

/// Sorts the points of a cloud into the cells of its bounding box, in one
/// pass: segment `s` of the result holds the points whose cell is `s`, in
/// their order in the cloud, and the points of the result are the segments
/// one after the other. A zero in `partitions` is rejected.
pub fn partition(pc: &PointCloud, partitions: (usize, usize, usize)) -> (r: Result<PointCloud, Error>)
    requires
        cell_count(partitions) <= usize::MAX,
    ensures
        !valid_partition(partitions) ==> r is Err && r->Err_0 == Error::InvalidPartition,
        valid_partition(partitions) ==> r is Ok && r->Ok_0@.segments == cells_of(
            pc@.points,
            partitions,
        ) && r->Ok_0@.points == cells_of(pc@.points, partitions).flatten()
            && r->Ok_0.is_consistent(),
{
    if partitions.0 == 0 || partitions.1 == 0 || partitions.2 == 0 {
        return Err(Error::InvalidPartition);
    }
    proof {
        lemma_row_major_in_range(0, 0, 0, partitions.0 as int, partitions.1 as int, partitions.2 as int);
    }
    let total: usize = partitions.0 * partitions.1 * partitions.2;
    let mut buckets = empty_buckets(total);
    let ghost points = pc@.points;
    let ghost bound_spec = bounding_box(points);
    if pc.points.len() > 0 {
        let bound = match get_pc_bound(pc) {
            Ok(b) => b,
            Err(_) => {
                assert(false);
                return Err(Error::EmptyInput);
            },
        };
        proof {
            lemma_bounding_box_is_tight(points);
        }
        let mut i: usize = 0;
        while i < pc.points.len()
            invariant
                valid_partition(partitions),
                total == cell_count(partitions),
                points == pc@.points,
                bound == bounding_box(points),
                forall|j: int| 0 <= j < points.len() ==> bound.contains(#[trigger] points[j]),
                i <= pc.points.len(),
                buckets@.len() == total,
                forall|s: int|
                    0 <= s < total ==> (#[trigger] buckets@[s])@ == points_in_cell(
                        points.take(i as int),
                        bound,
                        partitions,
                        s,
                    ),
            decreases pc.points.len() - i,
        {
            let p = pc.points[i];
            assert(bound.contains(points[i as int]));
            let index = match bound.get_bound_index(&p, partitions) {
                Ok(index) => index,
                Err(_) => {
                    assert(false);
                    return Err(Error::OutOfBounds);
                },
            };
            let ghost before = buckets@;
            buckets[index].push(p);
            proof {
                let next = points.take(i + 1);
                assert(next.drop_last() =~= points.take(i as int));
                assert(next.last() == p);
                assert forall|s: int| 0 <= s < total implies (#[trigger] buckets@[s])@
                    == points_in_cell(next, bound, partitions, s) by {
                    if s != index {
                        assert(buckets@[s] == before[s]);
                    }
                }
            }
            i = i + 1;
        }
        assert(points.take(pc.points.len() as int) =~= points);
    }
    let cloud = PointCloud::new_with_segments(buckets);
    assert(cloud@.segments =~= cells_of(points, partitions));
    Ok(cloud)
}

/// Segment `s` of the ladder built from `clouds`, one cloud per resolution:
/// the points that cloud 0 has in cell `s`, then those of cloud 1, and so on,
/// each cloud cut along its own bounding box.
pub open spec fn segment_ladder(
    clouds: Seq<Seq<PointXyzRgba>>,
    partitions: (usize, usize, usize),
    s: int,
) -> Seq<PointXyzRgba>
    decreases clouds.len(),
{
    if clouds.len() == 0 {
        Seq::empty()
    } else {
        segment_ladder(clouds.drop_last(), partitions, s) + cells_of(clouds.last(), partitions)[s]
    }
}

/// What each resolution contributes to segment `s` of the ladder: entry `r`
/// is the number of points that cloud `r` has in cell `s`.
pub open spec fn ladder_counts(
    clouds: Seq<Seq<PointXyzRgba>>,
    partitions: (usize, usize, usize),
    s: int,
) -> Seq<usize> {
    Seq::new(clouds.len(), |r: int| cells_of(clouds[r], partitions)[s].len() as usize)
}

/// The counts of a segment add up to its length: what the resolutions
/// contribute to segment `s` is all that the segment holds.
pub proof fn lemma_ladder_counts_sum(
    clouds: Seq<Seq<PointXyzRgba>>,
    partitions: (usize, usize, usize),
    s: int,
)
    requires
        valid_partition(partitions),
        0 <= s < cell_count(partitions),
        forall|r: int| 0 <= r < clouds.len() ==> (#[trigger] clouds[r]).len() <= usize::MAX,
    ensures
        sum_counts(ladder_counts(clouds, partitions, s)) == segment_ladder(clouds, partitions, s).len(),
    decreases clouds.len(),
{
    if clouds.len() > 0 {
        let rest = clouds.drop_last();
        lemma_ladder_counts_sum(rest, partitions, s);
        assert(ladder_counts(clouds, partitions, s).drop_last() =~= ladder_counts(rest, partitions, s));
        lemma_cell_members(clouds.last(), bounding_box(clouds.last()), partitions, s);
    }
}

/// A segment can be loaded level by level: its points up to the running
/// total of the counts at resolution `r` are the segment as built from the
/// clouds up to resolution `r` alone.
pub proof fn lemma_ladder_prefix(
    clouds: Seq<Seq<PointXyzRgba>>,
    partitions: (usize, usize, usize),
    s: int,
    r: int,
)
    requires
        valid_partition(partitions),
        0 <= s < cell_count(partitions),
        0 <= r < clouds.len(),
        forall|q: int| 0 <= q < clouds.len() ==> (#[trigger] clouds[q]).len() <= usize::MAX,
    ensures
        crate::counts::prefix_sum(ladder_counts(clouds, partitions, s), r + 1) == segment_ladder(
            clouds.take(r + 1),
            partitions,
            s,
        ).len(),
        segment_ladder(clouds, partitions, s).take(
            crate::counts::prefix_sum(ladder_counts(clouds, partitions, s), r + 1),
        ) == segment_ladder(clouds.take(r + 1), partitions, s),
    decreases clouds.len(),
{
    let counts = ladder_counts(clouds, partitions, s);
    let whole = segment_ladder(clouds, partitions, s);
    if r + 1 == clouds.len() {
        assert(clouds.take(r + 1) =~= clouds);
        assert(counts.take(r + 1) =~= counts);
        lemma_ladder_counts_sum(clouds, partitions, s);
        assert(whole.take(whole.len() as int) =~= whole);
    } else {
        let rest = clouds.drop_last();
        lemma_ladder_prefix(rest, partitions, s, r);
        assert(rest.take(r + 1) =~= clouds.take(r + 1));
        assert(ladder_counts(rest, partitions, s).take(r + 1) =~= counts.take(r + 1));
        let k = crate::counts::prefix_sum(counts, r + 1);
        let before = segment_ladder(rest, partitions, s);
        lemma_ladder_counts_sum(rest, partitions, s);
        crate::counts::lemma_prefix_sum_monotone(ladder_counts(rest, partitions, s), r + 1, r + 1);
        assert(whole.take(k) =~= before.take(k));
    }
}

/// Regroups clouds of several resolutions by segment, so that one segment
/// holds its points of every resolution, the lowest first.
pub struct Partitioner {
    pub point_clouds: Vec<PointCloud>,
    pub partitions: (usize, usize, usize),
}

impl Partitioner {
    /// The point sequences of the clouds, one per resolution.
    pub open spec fn clouds(&self) -> Seq<Seq<PointXyzRgba>> {
        crate::formats::pointcloud::cloud_points(self.point_clouds@)
    }

    /// A partitioner for the given clouds, one per resolution, lowest first.
    pub fn new(point_clouds: Vec<PointCloud>, partitions: (usize, usize, usize)) -> (p: Self)
        ensures
            p.point_clouds == point_clouds,
            p.partitions == partitions,
    {
        Partitioner { point_clouds, partitions }
    }

    /// One cloud per segment and, per segment, what each resolution
    /// contributes to it. Cloud `s` holds the points of segment `s` of every
    /// resolution, resolution 0 first, so that a prefix of it is the segment
    /// at a lower resolution. A zero in the partition triple is rejected.
    pub fn get_additional_points_by_segment(&self) -> (r: Result<
        (Vec<PointCloud>, Vec<Vec<usize>>),
        Error,
    >)
        requires
            cell_count(self.partitions) <= usize::MAX,
        ensures
            !valid_partition(self.partitions) ==> r is Err && r->Err_0 == Error::InvalidPartition,
            valid_partition(self.partitions) ==> r is Ok && ladder_result(
                self.clouds(),
                self.partitions,
                r->Ok_0.0@,
                r->Ok_0.1@,
            ),
    {
        let partitions = self.partitions;
        if partitions.0 == 0 || partitions.1 == 0 || partitions.2 == 0 {
            return Err(Error::InvalidPartition);
        }
        proof {
            lemma_row_major_in_range(0, 0, 0, partitions.0 as int, partitions.1 as int, partitions.2 as int);
        }
        let total: usize = partitions.0 * partitions.1 * partitions.2;
        let ghost clouds = self.clouds();
        let mut points_by_segments = empty_buckets(total);
        let mut point_num_by_resolutions = empty_counts(total);
        let mut r: usize = 0;
        while r < self.point_clouds.len()
            invariant
                valid_partition(partitions),
                partitions == self.partitions,
                total == cell_count(partitions),
                clouds == self.clouds(),
                r <= self.point_clouds.len(),
                points_by_segments@.len() == total,
                point_num_by_resolutions@.len() == total,
                forall|s: int|
                    0 <= s < total ==> (#[trigger] points_by_segments@[s])@ == segment_ladder(
                        clouds.take(r as int),
                        partitions,
                        s,
                    ),
                forall|s: int|
                    0 <= s < total ==> (#[trigger] point_num_by_resolutions@[s])@ == ladder_counts(
                        clouds.take(r as int),
                        partitions,
                        s,
                    ),
            decreases self.point_clouds.len() - r,
        {
            let partitioned = match partition(&self.point_clouds[r], partitions) {
                Ok(pc) => pc,
                Err(e) => {
                    assert(false);
                    return Err(e);
                },
            };
            let ghost cells = cells_of(clouds[r as int], partitions);
            assert(partitioned@.segments == cells);
            proof {
                assert(clouds.take(r + 1).drop_last() =~= clouds.take(r as int));
                assert(clouds.take(r + 1).last() == clouds[r as int]);
            }
            let mut s: usize = 0;
            while s < total
                invariant
                    valid_partition(partitions),
                    total == cell_count(partitions),
                    r < clouds.len(),
                    cells == cells_of(clouds[r as int], partitions),
                    partitioned@.segments == cells,
                    partitioned.segments@.len() == total,
                    s <= total,
                    points_by_segments@.len() == total,
                    point_num_by_resolutions@.len() == total,
                    clouds.take(r + 1).drop_last() == clouds.take(r as int),
                    clouds.take(r + 1).last() == clouds[r as int],
                    forall|t: int|
                        0 <= t < total ==> (#[trigger] points_by_segments@[t])@ == segment_ladder(
                            clouds.take(if t < s { r + 1 } else { r as int }),
                            partitions,
                            t,
                        ),
                    forall|t: int|
                        0 <= t < total ==> (#[trigger] point_num_by_resolutions@[t])@
                            == ladder_counts(
                            clouds.take(if t < s { r + 1 } else { r as int }),
                            partitions,
                            t,
                        ),
                decreases total - s,
            {
                let segment = &partitioned.segments[s];
                assert(segment@ == cells[s as int]) by {
                    assert(partitioned@.segments[s as int] == partitioned.segments@[s as int]@);
                }
                let ghost before_points = points_by_segments@;
                let ghost before_counts = point_num_by_resolutions@;
                let ghost base = points_by_segments@[s as int]@;
                let mut k: usize = 0;
                while k < segment.points.len()
                    invariant
                        s < total,
                        k <= segment.points.len(),
                        points_by_segments@.len() == total,
                        points_by_segments@[s as int]@ == base + segment@.take(k as int),
                        forall|t: int|
                            0 <= t < total && t != s ==> #[trigger] points_by_segments@[t]
                                == before_points[t],
                    decreases segment.points.len() - k,
                {
                    let ghost mid = points_by_segments@;
                    points_by_segments[s].push(segment.points[k]);
                    proof {
                        assert(segment@.take(k + 1) =~= segment@.take(k as int).push(segment@[k as int]));
                        assert(base + segment@.take(k + 1) =~= (base + segment@.take(k as int)).push(
                            segment@[k as int],
                        ));
                        assert forall|t: int| 0 <= t < total && t != s implies #[trigger] points_by_segments@[t]
                            == before_points[t] by {
                            assert(points_by_segments@[t] == mid[t]);
                        }
                    }
                    k = k + 1;
                }
                point_num_by_resolutions[s].push(segment.points.len());
                proof {
                    assert(segment@.take(segment.points.len() as int) =~= segment@);
                    assert(point_num_by_resolutions@[s as int]@ =~= ladder_counts(
                        clouds.take(r + 1),
                        partitions,
                        s as int,
                    )) by {
                        assert(before_counts[s as int]@ == ladder_counts(
                            clouds.take(r as int),
                            partitions,
                            s as int,
                        ));
                    }
                    assert forall|t: int| 0 <= t < total implies (#[trigger] points_by_segments@[t])@
                        == segment_ladder(
                        clouds.take(if t < s + 1 { r + 1 } else { r as int }),
                        partitions,
                        t,
                    ) by {
                        if t != s {
                            assert(points_by_segments@[t] == before_points[t]);
                        }
                    }
                    assert forall|t: int| 0 <= t < total implies (#[trigger] point_num_by_resolutions@[t])@
                        == ladder_counts(
                        clouds.take(if t < s + 1 { r + 1 } else { r as int }),
                        partitions,
                        t,
                    ) by {
                        if t != s {
                            assert(point_num_by_resolutions@[t] == before_counts[t]);
                        }
                    }
                }
                s = s + 1;
            }
            r = r + 1;
        }
        assert(clouds.take(self.point_clouds.len() as int) =~= clouds);
        let mut new_pcs: Vec<PointCloud> = Vec::new();
        let mut s: usize = 0;
        while s < total
            invariant
                s <= total,
                points_by_segments@.len() == total,
                new_pcs@.len() == s,
                forall|t: int|
                    0 <= t < s ==> {
                        &&& (#[trigger] new_pcs@[t])@.points == points_by_segments@[t]@
                        &&& new_pcs@[t]@.segments == Seq::<Seq<PointXyzRgba>>::empty()
                        &&& new_pcs@[t].is_consistent()
                    },
            decreases total - s,
        {
            let points = crate::utils::copy_vec(&points_by_segments[s]);
            new_pcs.push(PointCloud::new(points.len(), points));
            s = s + 1;
        }
        Ok((new_pcs, point_num_by_resolutions))
    }
}

/// Whether `pcs` and `counts` are the ladder of `clouds`: one cloud and one
/// list of counts per cell, cloud `s` holding [`segment_ladder`] for `s`
/// without segments of its own, and list `s` being [`ladder_counts`] for `s`.
pub open spec fn ladder_result(
    clouds: Seq<Seq<PointXyzRgba>>,
    partitions: (usize, usize, usize),
    pcs: Seq<PointCloud>,
    counts: Seq<Vec<usize>>,
) -> bool {
    &&& pcs.len() == cell_count(partitions)
    &&& counts.len() == cell_count(partitions)
    &&& forall|s: int|
        0 <= s < cell_count(partitions) ==> {
            &&& (#[trigger] pcs[s])@.points == segment_ladder(clouds, partitions, s)
            &&& pcs[s]@.segments == Seq::<Seq<PointXyzRgba>>::empty()
            &&& pcs[s].is_consistent()
        }
    &&& forall|s: int|
        0 <= s < cell_count(partitions) ==> (#[trigger] counts[s])@ == ladder_counts(
            clouds,
            partitions,
            s,
        )
}

/// A vector of `n` empty lists of counts.
fn empty_counts(n: usize) -> (lists: Vec<Vec<usize>>)
    ensures
        lists@.len() == n,
        forall|s: int| 0 <= s < n ==> (#[trigger] lists@[s])@ == Seq::<usize>::empty(),
{
    let mut lists: Vec<Vec<usize>> = Vec::new();
    let mut s: usize = 0;
    while s < n
        invariant
            s <= n,
            lists@.len() == s,
            forall|t: int| 0 <= t < s ==> (#[trigger] lists@[t])@ == Seq::<usize>::empty(),
        decreases n - s,
    {
        lists.push(Vec::new());
        s = s + 1;
    }
    lists
}

/// What the ladder is for given layers, the base first: the base is layer 0,
/// and the segments and their counts are the ladder of the other layers.
/// With the base as the only layer there are no segments and no counts.
pub open spec fn ladder_of_layers(
    layers: Seq<PointCloud>,
    partitions: (usize, usize, usize),
    base: PointCloud,
    segments: Seq<PointCloud>,
    counts: Seq<Vec<usize>>,
) -> bool {
    &&& layers.len() >= 1
    &&& base@ == layers[0]@
    &&& if layers.len() == 1 {
        segments.len() == 0 && counts.len() == 0
    } else {
        ladder_result(
            crate::formats::pointcloud::cloud_points(layers).skip(1),
            partitions,
            segments,
            counts,
        )
    }
}

/// Builds the ladder from the layers of a subsampling, the base first.
/// With further layers a zero in `partitions` is rejected; the base alone
/// needs no partition.
pub fn ladder_from_layers(layers: Vec<PointCloud>, partitions: (usize, usize, usize)) -> (r: Result<
    (PointCloud, Vec<PointCloud>, Vec<Vec<usize>>),
    Error,
>)
    requires
        layers@.len() >= 1,
        cell_count(partitions) <= usize::MAX,
    ensures
        layers@.len() >= 2 && !valid_partition(partitions) ==> r is Err && r->Err_0
            == Error::InvalidPartition,
        layers@.len() == 1 || valid_partition(partitions) ==> r is Ok && ladder_of_layers(
            layers@,
            partitions,
            r->Ok_0.0,
            r->Ok_0.1@,
            r->Ok_0.2@,
        ),
{
    let mut layers = layers;
    let ghost all = layers@;
    let base_pc = layers.remove(0);
    if layers.len() == 0 {
        return Ok((base_pc, Vec::new(), Vec::new()));
    }
    assert(crate::formats::pointcloud::cloud_points(layers@)
        =~= crate::formats::pointcloud::cloud_points(all).skip(1));
    match Partitioner::new(layers, partitions).get_additional_points_by_segment() {
        Ok((pc_by_segment, point_num_by_resolution)) => Ok(
            (base_pc, pc_by_segment, point_num_by_resolution),
        ),
        Err(e) => Err(e),
    }
}

/// What [`lodify`] returns for a cloud. A cloud without points, and any
/// cloud with a single proportion, is its own base, without segments and
/// counts. Otherwise the result is the ladder of some outcome of the
/// subsampling of the cloud.
pub open spec fn lodify_outcome(
    cloud: crate::formats::pointcloud::PointCloudView,
    partitions: (usize, usize, usize),
    proportions: Seq<usize>,
    threshold: usize,
    base: PointCloud,
    segments: Seq<PointCloud>,
    counts: Seq<Vec<usize>>,
) -> bool {
    if cloud.points.len() == 0 || proportions.len() == 1 {
        base@ == cloud && segments.len() == 0 && counts.len() == 0
    } else {
        exists|layers: Seq<PointCloud>|
            {
                &&& #[trigger] crate::subsample::subsample_outcome(cloud, proportions, threshold, layers)
                &&& ladder_of_layers(layers, partitions, base, segments, counts)
            }
    }
}

/// Turns a dense cloud into a base cloud and a ladder of additional
/// resolutions, segment by segment.
///
/// The cloud is subsampled into one layer per proportion. Layer 0 is the
/// base. The further layers are each cut into the cells of `partitions` and
/// regrouped, so that segment `s` holds its points of every resolution, the
/// lowest first, and `counts[s][r]` says how many resolution `r` contributes.
///
/// A cloud without points, and a single proportion, give the cloud itself
/// with no segments and no counts. With more proportions a zero in
/// `partitions` is rejected. Which points a layer receives is left to the
/// shuffles: the result is the ladder of some outcome of the subsampling.
pub fn lodify(
    points: &PointCloud,
    partitions: (usize, usize, usize),
    proportions: Vec<usize>,
    points_per_voxel_threshold: usize,
) -> (r: Result<(PointCloud, Vec<PointCloud>, Vec<Vec<usize>>), Error>)
    requires
        proportions@.len() >= 1,
        sum_counts(proportions@) <= usize::MAX,
        cell_count(partitions) <= usize::MAX,
    ensures
        points@.points.len() > 0 && proportions@.len() >= 2 && !valid_partition(partitions) ==> r is Err
            && r->Err_0 == Error::InvalidPartition,
        points@.points.len() == 0 || proportions@.len() == 1 || valid_partition(partitions) ==> r is Ok
            && lodify_outcome(
            points@,
            partitions,
            proportions@,
            points_per_voxel_threshold,
            r->Ok_0.0,
            r->Ok_0.1@,
            r->Ok_0.2@,
        ),
{
    if points.points.len() == 0 {
        return Ok((points.clone(), Vec::new(), Vec::new()));
    }
    let layers = crate::subsample::subsample(points, proportions, points_per_voxel_threshold);
    ladder_from_layers(layers, partitions)
}

/// Joining two rows of sequences place by place and concatenating the
/// joined row holds what the concatenations of the two rows hold together.
pub proof fn lemma_joined_rows<A>(x: Seq<Seq<A>>, y: Seq<Seq<A>>)
    requires
        x.len() == y.len(),
    ensures
        Seq::new(x.len(), |s: int| x[s] + y[s]).flatten().to_multiset() == x.flatten().to_multiset().add(
            y.flatten().to_multiset(),
        ),
    decreases x.len(),
{
    broadcast use vstd::multiset::group_multiset_axioms;

    let joined = Seq::new(x.len(), |s: int| x[s] + y[s]);
    if x.len() == 0 {
        assert(joined.flatten() =~= Seq::<A>::empty());
        assert(x.flatten() =~= Seq::<A>::empty());
        assert(y.flatten() =~= Seq::<A>::empty());
        Seq::<A>::empty().to_multiset_ensures();
        assert(x.flatten().to_multiset().add(y.flatten().to_multiset()) =~= Seq::<A>::empty().to_multiset());
    } else {
        let xs = x.drop_last();
        let ys = y.drop_last();
        let before = Seq::new(xs.len(), |s: int| xs[s] + ys[s]);
        lemma_joined_rows(xs, ys);
        assert(joined =~= before.push(x.last() + y.last()));
        assert(x =~= xs.push(x.last()));
        assert(y =~= ys.push(y.last()));
        before.lemma_flatten_push(x.last() + y.last());
        xs.lemma_flatten_push(x.last());
        ys.lemma_flatten_push(y.last());
        lemma_multiset_commutative(before.flatten(), x.last() + y.last());
        lemma_multiset_commutative(x.last(), y.last());
        lemma_multiset_commutative(xs.flatten(), x.last());
        lemma_multiset_commutative(ys.flatten(), y.last());
        assert(before.flatten().to_multiset().add(
            x.last().to_multiset().add(y.last().to_multiset()),
        ) =~= xs.flatten().to_multiset().add(x.last().to_multiset()).add(
            ys.flatten().to_multiset().add(y.last().to_multiset()),
        ));
    }
}

/// The segments of a ladder together hold what the clouds it was built
/// from hold: regrouping by segment loses no point and invents none.
pub proof fn lemma_ladder_holds_every_point(clouds: Seq<Seq<PointXyzRgba>>, partitions: (usize, usize, usize))
    requires
        valid_partition(partitions),
    ensures
        Seq::new(cell_count(partitions) as nat, |s: int| segment_ladder(clouds, partitions, s)).flatten().to_multiset()
            == clouds.flatten().to_multiset(),
    decreases clouds.len(),
{
    broadcast use vstd::multiset::group_multiset_axioms;

    let n = cell_count(partitions) as nat;
    let ladder = Seq::new(n, |s: int| segment_ladder(clouds, partitions, s));
    lemma_row_major_in_range(0, 0, 0, partitions.0 as int, partitions.1 as int, partitions.2 as int);
    if clouds.len() == 0 {
        lemma_empty_cells_flatten(ladder);
        assert(clouds.flatten() =~= Seq::<PointXyzRgba>::empty());
    } else {
        let rest = clouds.drop_last();
        let before = Seq::new(n, |s: int| segment_ladder(rest, partitions, s));
        let cells = cells_of(clouds.last(), partitions);
        lemma_ladder_holds_every_point(rest, partitions);
        lemma_segments_cover_cloud(clouds.last(), partitions);
        lemma_joined_rows(before, cells);
        assert(ladder =~= Seq::new(before.len(), |s: int| before[s] + cells[s]));
        assert(clouds =~= rest.push(clouds.last()));
        rest.lemma_flatten_push(clouds.last());
        lemma_multiset_commutative(rest.flatten(), clouds.last());
    }
}

/// Building the levels of detail loses no point and invents none: the base
/// and the segments together hold each point as often as the cloud does.
pub proof fn lemma_lodify_keeps_every_point(
    cloud: crate::formats::pointcloud::PointCloudView,
    partitions: (usize, usize, usize),
    proportions: Seq<usize>,
    threshold: usize,
    base: PointCloud,
    segments: Seq<PointCloud>,
    counts: Seq<Vec<usize>>,
)
    requires
        proportions.len() >= 1,
        cloud.points.len() == 0 || proportions.len() == 1 || valid_partition(partitions),
        lodify_outcome(cloud, partitions, proportions, threshold, base, segments, counts),
    ensures
        base@.points.to_multiset().add(
            crate::formats::pointcloud::cloud_points(segments).flatten().to_multiset(),
        ) == cloud.points.to_multiset(),
        base@.points.len() + crate::formats::pointcloud::cloud_points(segments).flatten().len()
            == cloud.points.len(),
{
    broadcast use vstd::multiset::group_multiset_axioms;

    let parts = crate::formats::pointcloud::cloud_points(segments);
    if cloud.points.len() == 0 || proportions.len() == 1 {
        assert(parts.flatten() =~= Seq::<PointXyzRgba>::empty());
        Seq::<PointXyzRgba>::empty().to_multiset_ensures();
        assert(base@.points.to_multiset().add(parts.flatten().to_multiset()) =~= cloud.points.to_multiset());
    } else {
        let layers = choose|layers: Seq<PointCloud>|
            {
                &&& #[trigger] crate::subsample::subsample_outcome(cloud, proportions, threshold, layers)
                &&& ladder_of_layers(layers, partitions, base, segments, counts)
            };
        let all = crate::formats::pointcloud::cloud_points(layers);
        let rest = all.skip(1);
        lemma_ladder_holds_every_point(rest, partitions);
        assert(parts =~= Seq::new(
            cell_count(partitions) as nat,
            |s: int| segment_ladder(rest, partitions, s),
        ));
        assert(all =~= seq![all[0]] + rest);
        lemma_flatten_concat(seq![all[0]], rest);
        seq![all[0]].lemma_flatten_one_element();
        assert(seq![all[0]].flatten() =~= all[0]);
        lemma_multiset_commutative(all[0], rest.flatten());
        assert(all[0] == base@.points);
    }
    vstd::seq_lib::to_multiset_len(base@.points);
    vstd::seq_lib::to_multiset_len(parts.flatten());
    vstd::seq_lib::to_multiset_len(cloud.points);
}

} // verus!
