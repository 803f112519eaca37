//! View-dependent choice of how many points each segment shows.
//!
//! The camera itself is not part of the library. For each segment the caller
//! measures, in one unit of length of its choice, how far apart two
//! neighbouring pixels are at the depth of the segment. The controller
//! compares that with the spacing of the points of an anchor cloud, in the
//! same unit, and picks from the metadata how many additional points the
//! segment needs.

use vstd::prelude::*;
use crate::counts::non_decreasing;
use crate::error::Error;
use crate::formats::bounds::Bounds;
use crate::formats::metadata::{MetaData, MetaDataView};

verus! {

/// The largest anchor spacing the controller takes: with it the cube of the
/// spacing times any count still fits in 128 bits.
pub const MAX_ANCHOR_SPACING: u32 = 0x1f_ffff;

/// The number of points a segment of `current` points should have when its
/// points are `anchor` apart and the screen wants them `desired` apart:
/// `current * (anchor / desired)^3`, rounded down, at most `usize::MAX`.
/// The cube stands for the square by which density grows with the sampling
/// rate, and one factor more of deliberate overshoot against aliasing.
/// A desired spacing of zero asks for everything there is, unless there is
/// nothing to scale.
pub open spec fn desired_points(anchor: int, desired: int, current: int) -> int {
    if desired <= 0 {
        if anchor <= 0 || current <= 0 {
            0
        } else {
            usize::MAX as int
        }
    } else {
        let exact = (current * (anchor * anchor * anchor)) / (desired * desired * desired);
        if exact > usize::MAX {
            usize::MAX as int
        } else {
            exact
        }
    }
}

/// The first entry of `row` that is at least `wanted`, or the last entry
/// where none is. In a non-decreasing row this is the smallest running total
/// that covers `wanted`, capped at what is available.
pub open spec fn first_at_least(row: Seq<usize>, wanted: int) -> int
    decreases row.len(),
{
    if row.len() == 0 {
        0
    } else if row.len() == 1 || row[0] >= wanted {
        row[0] as int
    } else {
        first_at_least(row.skip(1), wanted)
    }
}

/// How many points short a segment is: what it should have beyond what it
/// has, never negative.
pub open spec fn deficit(needed: int, current: int) -> int {
    if needed > current {
        needed - current
    } else {
        0
    }
}

/// What the controller answers for one segment with `base` points, the
/// running totals `row` of its additional points, and pixels `desired`
/// apart: the additional points to show, and the base points with them
/// unless they are excluded.
pub open spec fn segment_demand(
    anchor: int,
    desired: int,
    base: int,
    row: Seq<usize>,
    exclude_base_points: bool,
) -> int {
    let additional = first_at_least(row, deficit(desired_points(anchor, desired, base), base));
    if exclude_base_points {
        additional
    } else {
        base + additional
    }
}

/// Whether frame `index` of the metadata can be served for `segments`
/// segments: it has a base count and a row of running totals for each of
/// them, no row is empty, every row is non-decreasing, and the base and all
/// additional points of a segment together can be counted.
pub open spec fn frame_servable(m: MetaDataView, index: int, segments: int) -> bool {
    &&& 0 <= index < m.frames()
    &&& m.base_point_num[index].len() == segments
    &&& m.additional_point_nums[index].len() == segments
    &&& forall|s: int|
        0 <= s < segments ==> {
            &&& (#[trigger] m.additional_point_nums[index][s]).len() > 0
            &&& non_decreasing(m.additional_point_nums[index][s])
            &&& m.base_point_num[index][s] + m.additional_point_nums[index][s].last() <= usize::MAX
        }
}

/// In a row whose entries before `i` are all below `wanted`, and whose entry
/// at `i` covers `wanted` or is the last, [`first_at_least`] is the entry at
/// `i`.
pub proof fn lemma_first_at_least_is(row: Seq<usize>, wanted: int, i: int)
    requires
        0 <= i < row.len(),
        forall|j: int| 0 <= j < i ==> row[j] < wanted,
        row[i] >= wanted || i == row.len() - 1,
    ensures
        first_at_least(row, wanted) == row[i],
    decreases i,
{
    if i > 0 {
        let rest = row.skip(1);
        assert forall|j: int| 0 <= j < i - 1 implies rest[j] < wanted by {
            assert(rest[j] == row[j + 1]);
        }
        lemma_first_at_least_is(rest, wanted, i - 1);
        assert(row[0] < wanted);
    }
}

/// In a non-decreasing row, [`first_at_least`] is an entry of the row; where
/// some entry covers `wanted` it covers `wanted` and no covering entry is
/// smaller; where none does it is the largest entry.
pub proof fn lemma_first_at_least_is_smallest(row: Seq<usize>, wanted: int)
    requires
        row.len() > 0,
        non_decreasing(row),
    ensures
        exists|i: int| 0 <= i < row.len() && #[trigger] row[i] == first_at_least(row, wanted),
        forall|j: int|
            0 <= j < row.len() && #[trigger] row[j] >= wanted ==> wanted <= first_at_least(row, wanted)
                <= row[j],
        (forall|j: int| 0 <= j < row.len() ==> #[trigger] row[j] < wanted) ==> first_at_least(
            row,
            wanted,
        ) == row.last(),
    decreases row.len(),
{
    if row.len() == 1 || row[0] >= wanted {
        assert(row[0] == first_at_least(row, wanted));
    } else {
        let rest = row.skip(1);
        assert(non_decreasing(rest)) by {
            assert forall|a: int, b: int| 0 <= a <= b < rest.len() implies rest[a] <= rest[b] by {
                assert(rest[a] == row[a + 1] && rest[b] == row[b + 1]);
            }
        }
        lemma_first_at_least_is_smallest(rest, wanted);
        let i = choose|i: int| 0 <= i < rest.len() && #[trigger] rest[i] == first_at_least(rest, wanted);
        assert(row[i + 1] == first_at_least(row, wanted));
        assert forall|j: int| 0 <= j < row.len() && #[trigger] row[j] >= wanted implies wanted
            <= first_at_least(row, wanted) <= row[j] by {
            assert(j > 0);
            assert(rest[j - 1] == row[j]);
        }
        if forall|j: int| 0 <= j < row.len() ==> #[trigger] row[j] < wanted {
            assert forall|j: int| 0 <= j < rest.len() implies #[trigger] rest[j] < wanted by {
                assert(rest[j] == row[j + 1]);
            }
            assert(rest.last() == row.last());
        }
    }
}

/// Asking for more never yields less: in a non-decreasing row the entry that
/// covers a larger amount is not smaller.
pub proof fn lemma_first_at_least_monotone(row: Seq<usize>, less: int, more: int)
    requires
        row.len() > 0,
        non_decreasing(row),
        less <= more,
    ensures
        first_at_least(row, less) <= first_at_least(row, more),
{
    lemma_first_at_least_is_smallest(row, less);
    lemma_first_at_least_is_smallest(row, more);
    let i = choose|i: int| 0 <= i < row.len() && #[trigger] row[i] == first_at_least(row, more);
    let j = choose|j: int| 0 <= j < row.len() && #[trigger] row[j] == first_at_least(row, less);
    if row[i] >= more {
        assert(row[i] >= less);
    } else {
        // nothing covers `more`: the answer is the last entry, the largest
        if forall|k: int| 0 <= k < row.len() ==> #[trigger] row[k] < more {
            assert(row[j] <= row[row.len() - 1]);
        } else {
            let k = choose|k: int| 0 <= k < row.len() && !(#[trigger] row[k] < more);
            assert(row[k] >= more);
        }
    }
}

/// The finer the screen, the more points are wanted: with the pixels closer
/// together the number of points a segment should have does not drop.
pub proof fn lemma_desired_points_monotone(anchor: int, finer: int, coarser: int, current: int)
    requires
        0 <= anchor,
        0 <= current,
        0 <= finer <= coarser,
    ensures
        desired_points(anchor, finer, current) >= desired_points(anchor, coarser, current),
        desired_points(anchor, coarser, current) >= 0,
{
    let x = current * (anchor * anchor * anchor);
    assert(x >= 0) by (nonlinear_arith)
        requires
            0 <= anchor,
            0 <= current,
            x == current * (anchor * anchor * anchor),
    ;
    if coarser > 0 {
        let c3 = coarser * coarser * coarser;
        assert(c3 > 0) by (nonlinear_arith)
            requires
                coarser > 0,
                c3 == coarser * coarser * coarser,
        ;
        assert(x / c3 >= 0) by (nonlinear_arith)
            requires
                x >= 0,
                c3 > 0,
        ;
        if finer > 0 {
            let f3 = finer * finer * finer;
            assert(0 < f3 <= c3) by (nonlinear_arith)
                requires
                    0 < finer <= coarser,
                    f3 == finer * finer * finer,
                    c3 == coarser * coarser * coarser,
            ;
            vstd::arithmetic::div_mod::lemma_div_is_ordered_by_denominator(x, f3, c3);
        } else if anchor <= 0 || current <= 0 {
            assert(x == 0) by (nonlinear_arith)
                requires
                    anchor == 0 || current == 0,
                    x == current * (anchor * anchor * anchor),
            ;
        }
    }
}

/// The finer the screen, the more points are shown: with the pixels closer
/// together the answer of the controller for a segment does not drop.
pub proof fn lemma_segment_demand_monotone(
    anchor: int,
    finer: int,
    coarser: int,
    base: int,
    row: Seq<usize>,
    exclude_base_points: bool,
)
    requires
        0 <= anchor,
        0 <= base,
        0 <= finer <= coarser,
        row.len() > 0,
        non_decreasing(row),
    ensures
        segment_demand(anchor, finer, base, row, exclude_base_points) >= segment_demand(
            anchor,
            coarser,
            base,
            row,
            exclude_base_points,
        ),
{
    lemma_desired_points_monotone(anchor, finer, coarser, base);
    lemma_first_at_least_monotone(
        row,
        deficit(desired_points(anchor, coarser, base), base),
        deficit(desired_points(anchor, finer, base), base),
    );
}

/// The length of an edge that runs from `min` to `max`: nothing where the
/// box is inside out.
pub open spec fn edge(min: i32, max: i32) -> int {
    if max >= min {
        max - min
    } else {
        0
    }
}

/// The longest of the three edges of a box.
pub open spec fn largest_extent_of(bound: Bounds) -> int {
    let ex = edge(bound.min_x, bound.max_x);
    let ey = edge(bound.min_y, bound.max_y);
    let ez = edge(bound.min_z, bound.max_z);
    let exy = if ex >= ey {
        ex
    } else {
        ey
    };
    if exy >= ez {
        exy
    } else {
        ez
    }
}

/// The margin by which the depth of a segment is reduced: half its longest
/// edge, converted to the unit of the distances by the ratio `numerator /
/// denominator`, rounded down. Over a denominator of zero the margin is
/// beyond every distance.
pub open spec fn margin_of(bound: Bounds, numerator: u32, denominator: u32) -> int {
    if denominator == 0 {
        u64::MAX as int
    } else {
        (largest_extent_of(bound) * numerator) / (2 * denominator)
    }
}

/// The smallest of the distances.
pub open spec fn least_of(distances: Seq<u64>) -> int
    decreases distances.len(),
{
    if distances.len() == 0 {
        0
    } else if distances.len() == 1 {
        distances[0] as int
    } else {
        let before = least_of(distances.drop_last());
        if distances.last() < before {
            distances.last() as int
        } else {
            before
        }
    }
}

/// The depth at which a segment is viewed: the distance to the nearest of its
/// corners, less the margin, and zero where the margin reaches the camera.
pub open spec fn depth_of(corner_distances: Seq<u64>, margin: u64) -> int {
    if least_of(corner_distances) > margin {
        least_of(corner_distances) - margin
    } else {
        0
    }
}

/// The smaller of `width / window_width` and `height / window_height`, each
/// rounded down and at most `u32::MAX`, a ratio over zero pixels counting as
/// `u32::MAX`.
pub open spec fn pixel_spacing_of(width: u64, height: u64, window_width: u32, window_height: u32) -> int {
    let across = if window_width == 0 || width / (window_width as u64) > u32::MAX {
        u32::MAX as int
    } else {
        (width / (window_width as u64)) as int
    };
    let down = if window_height == 0 || height / (window_height as u64) > u32::MAX {
        u32::MAX as int
    } else {
        (height / (window_height as u64)) as int
    };
    if across <= down {
        across
    } else {
        down
    }
}

/// The longest of the three edges of a box.
pub fn largest_extent(bound: &Bounds) -> (extent: u32)
    ensures
        extent == largest_extent_of(*bound),
{
    let ex: u32 = edge_of(bound.min_x, bound.max_x);
    let ey: u32 = edge_of(bound.min_y, bound.max_y);
    let ez: u32 = edge_of(bound.min_z, bound.max_z);
    let exy: u32 = if ex >= ey {
        ex
    } else {
        ey
    };
    if exy >= ez {
        exy
    } else {
        ez
    }
}

/// Computes [`edge`].
fn edge_of(min: i32, max: i32) -> (e: u32)
    ensures
        e == edge(min, max),
{
    if max >= min {
        (max as i64 - min as i64) as u32
    } else {
        0
    }
}

/// The margin by which the depth of a segment is reduced.
pub fn segment_margin(bound: &Bounds, numerator: u32, denominator: u32) -> (margin: u64)
    ensures
        margin == margin_of(*bound, numerator, denominator),
{
    if denominator == 0 {
        return u64::MAX;
    }
    let extent: u64 = largest_extent(bound) as u64;
    assert(extent * numerator <= 0xffff_ffff * 0xffff_ffff) by (nonlinear_arith)
        requires
            extent <= 0xffff_ffff,
            numerator <= 0xffff_ffff,
    ;
    extent * (numerator as u64) / (2 * (denominator as u64))
}

/// The depth at which a segment is viewed, from the distances between the
/// camera and its corners.
pub fn closest_depth(corner_distances: &Vec<u64>, margin: u64) -> (depth: u64)
    requires
        corner_distances@.len() > 0,
    ensures
        depth == depth_of(corner_distances@, margin),
{
    let mut nearest: u64 = corner_distances[0];
    let mut i: usize = 1;
    assert(corner_distances@.take(1).len() == 1);
    while i < corner_distances.len()
        invariant
            1 <= i <= corner_distances.len(),
            nearest == least_of(corner_distances@.take(i as int)),
        decreases corner_distances.len() - i,
    {
        proof {
            let next = corner_distances@.take(i + 1);
            assert(next.drop_last() =~= corner_distances@.take(i as int));
            assert(next.last() == corner_distances@[i as int]);
        }
        if corner_distances[i] < nearest {
            nearest = corner_distances[i];
        }
        i = i + 1;
    }
    assert(corner_distances@.take(corner_distances.len() as int) =~= corner_distances@);
    if nearest > margin {
        nearest - margin
    } else {
        0
    }
}

/// How far apart two neighbouring pixels are on a plane of `width` by
/// `height` shown in a window of `window_width` by `window_height` pixels.
/// A window without pixels along an axis does not constrain the spacing
/// along it.
pub fn pixel_spacing(width: u64, height: u64, window_width: u32, window_height: u32) -> (spacing: u32)
    ensures
        spacing == pixel_spacing_of(width, height, window_width, window_height),
{
    let across: u32 = if window_width == 0 || width / (window_width as u64) > u32::MAX as u64 {
        u32::MAX
    } else {
        (width / (window_width as u64)) as u32
    };
    let down: u32 = if window_height == 0 || height / (window_height as u64) > u32::MAX as u64 {
        u32::MAX
    } else {
        (height / (window_height as u64)) as u32
    };
    if across <= down {
        across
    } else {
        down
    }
}

/// Whether the row is non-decreasing.
pub fn is_non_decreasing(row: &Vec<usize>) -> (sorted: bool)
    ensures
        sorted == non_decreasing(row@),
{
    let mut r: usize = 1;
    while r < row.len()
        invariant
            1 <= r || row@.len() == 0,
            r <= row@.len() || row@.len() == 0,
            forall|i: int, j: int| 0 <= i <= j < r && j < row@.len() ==> row@[i] <= row@[j],
        decreases row.len() - r,
    {
        if row[r - 1] > row[r] {
            return false;
        }
        assert forall|i: int, j: int| 0 <= i <= j < r + 1 && j < row@.len() implies row@[i] <= row@[j] by {
            if j == r && i < r {
                assert(row@[i] <= row@[r - 1]);
            }
        }
        r = r + 1;
    }
    true
}

/// Whether frame `index` of the metadata can be served for `segments`
/// segments.
pub fn check_frame_servable(metadata: &MetaData, index: usize, segments: usize) -> (servable: bool)
    ensures
        servable == frame_servable(metadata@, index as int, segments as int),
{
    if index >= metadata.bounds.len() || index >= metadata.base_point_num.len() || index
        >= metadata.additional_point_nums.len() {
        return false;
    }
    let base = &metadata.base_point_num[index];
    let additional = &metadata.additional_point_nums[index];
    let ghost m = metadata@;
    assert(m.base_point_num[index as int] == base@);
    assert(m.additional_point_nums[index as int].len() == additional@.len());
    if base.len() != segments || additional.len() != segments {
        return false;
    }
    let mut s: usize = 0;
    while s < segments
        invariant
            s <= segments,
            m == metadata@,
            0 <= index < m.frames(),
            base@ == m.base_point_num[index as int],
            base@.len() == segments,
            additional@.len() == segments,
            forall|t: int|
                0 <= t < segments ==> (#[trigger] additional@[t])@ == m.additional_point_nums[index as int][t],
            forall|t: int|
                0 <= t < s ==> {
                    &&& (#[trigger] m.additional_point_nums[index as int][t]).len() > 0
                    &&& non_decreasing(m.additional_point_nums[index as int][t])
                    &&& m.base_point_num[index as int][t] + m.additional_point_nums[index as int][t].last()
                        <= usize::MAX
                },
        decreases segments - s,
    {
        let row = &additional[s];
        assert(row@ == m.additional_point_nums[index as int][s as int]);
        if row.len() == 0 || !is_non_decreasing(row) {
            return false;
        }
        if base[s].checked_add(row[row.len() - 1]).is_none() {
            return false;
        }
        s = s + 1;
    }
    true
}

/// The resolution of a spacing: spacings count in 1024ths of a grid unit.
pub const SPACING_UNIT: u64 = 1024;

/// A squared distance as a distance in 1024ths of a grid unit, rounded
/// down.
pub open spec fn fixed_distance(squared: int) -> int {
    crate::numeric::sqrt_floor(squared * (SPACING_UNIT * SPACING_UNIT))
}

/// The sum of the distances of the results from `from` on.
pub open spec fn distance_sum(found: Seq<(u128, usize)>, from: int) -> int
    decreases found.len() - from,
{
    if from < 0 || from >= found.len() {
        0
    } else {
        fixed_distance(found[from].0 as int) + distance_sum(found, from + 1)
    }
}

/// The spacing around one point, from its four nearest points by squared
/// distance, itself first: a third of the sum of the distances to the
/// other three.
pub open spec fn spacing_around(found: Seq<(u128, usize)>) -> int {
    distance_sum(found, 1) / 3
}

/// The positions of the points with their places as payloads: the entries
/// of an index over the points in their order.
pub open spec fn position_entries(points: Seq<crate::formats::pointxyzrgba::PointXyzRgba>) -> Seq<
    ([i32; 3], usize),
> {
    Seq::new(points.len(), |i: int| ([points[i].x, points[i].y, points[i].z], i as usize))
}

/// The sum of the spacings around the first `n` points.
pub open spec fn spacing_sum(points: Seq<crate::formats::pointxyzrgba::PointXyzRgba>, n: int) -> int
    decreases n,
{
    if n <= 0 {
        0
    } else {
        spacing_sum(points, n - 1) + spacing_around(
            crate::materials::spatial::nearest_of(
                position_entries(points),
                [points[n - 1].x, points[n - 1].y, points[n - 1].z],
                4,
                crate::materials::spatial::Metric::SquaredEuclidean,
            ),
        )
    }
}

/// The sum of the distances from `from` on is bounded by their number.
pub proof fn lemma_distance_sum_bounded(found: Seq<(u128, usize)>, from: int)
    requires
        0 <= from <= found.len(),
        forall|i: int| 0 <= i < found.len() ==> (#[trigger] found[i]).0 <= 3 * (0xffff_ffff * 0xffff_ffff),
    ensures
        0 <= distance_sum(found, from) <= (found.len() - from) * 0x1000_0000_0000,
    decreases found.len() - from,
{
    if from < found.len() {
        lemma_distance_sum_bounded(found, from + 1);
        lemma_fixed_distance_bounded(found[from].0 as int);
        assert((found.len() - from) * 0x1000_0000_0000 == (found.len() - (from + 1)) * 0x1000_0000_0000
            + 0x1000_0000_0000) by (nonlinear_arith);
    }
}

/// A distance in 1024ths of a grid unit fits in 44 bits.
pub proof fn lemma_fixed_distance_bounded(squared: int)
    requires
        0 <= squared <= 3 * (0xffff_ffff * 0xffff_ffff),
    ensures
        0 <= fixed_distance(squared) < 0x1000_0000_0000,
{
    let n = squared * (SPACING_UNIT * SPACING_UNIT);
    assert(0 <= n < 0x1000_0000_0000 * 0x1000_0000_0000) by (nonlinear_arith)
        requires
            0 <= squared <= 3 * (0xffff_ffff * 0xffff_ffff),
            n == squared * (1024 * 1024),
    ;
    crate::numeric::lemma_sqrt_floor_below(n, 0x1000_0000_0000);
}

/// Chooses, per frame and segment, how many points to show.
pub struct ResolutionController {
    anchor_spacing: u32,
    metadata: Option<MetaData>,
}

impl ResolutionController {
    /// The spacing of the anchor cloud.
    pub closed spec fn anchor(&self) -> int {
        self.anchor_spacing as int
    }

    /// The metadata the controller reads, if it has any.
    pub closed spec fn metadata(&self) -> Option<MetaDataView> {
        match self.metadata {
            Some(m) => Some(m@),
            None => None,
        }
    }

    #[verifier::type_invariant]
    spec fn spacing_in_range(&self) -> bool {
        self.anchor_spacing <= MAX_ANCHOR_SPACING
    }

    /// A controller for an anchor cloud whose points are `anchor_spacing`
    /// apart on average, with or without metadata.
    pub fn new(anchor_spacing: u32, metadata: Option<MetaData>) -> (controller: Self)
        requires
            anchor_spacing <= MAX_ANCHOR_SPACING,
        ensures
            controller.anchor() == anchor_spacing,
            controller.metadata() == (match metadata {
                Some(m) => Some(m@),
                None => None,
            }),
    {
        ResolutionController { anchor_spacing, metadata }
    }

    /// The metadata the controller reads, if it has any.
    pub fn get_metadata(&self) -> (metadata: Option<&MetaData>)
        ensures
            metadata is Some == self.metadata() is Some,
            metadata is Some ==> Some(metadata->Some_0@) == self.metadata(),
    {
        self.metadata.as_ref()
    }

    /// The spacing of the anchor cloud.
    pub fn get_anchor_spacing(&self) -> (spacing: u32)
        ensures
            spacing == self.anchor(),
            spacing <= MAX_ANCHOR_SPACING,
    {
        proof {
            use_type_invariant(self);
        }
        self.anchor_spacing
    }

    /// The spacing of a cloud, in 1024ths of a grid unit: the mean, over all
    /// points, of the spacing around the point, which is a third of the sum
    /// of the distances to the three points nearest to it, itself not
    /// counted. A cloud without points has no spacing.
    ///
    /// Every point is compared with every other, so this is for anchor
    /// clouds of moderate size.
    pub fn calculate_spacing(points: &Vec<crate::formats::pointxyzrgba::PointXyzRgba>) -> (r: Result<u64, Error>)
        ensures
            points@.len() == 0 ==> r is Err && r->Err_0 == Error::EmptyInput,
            points@.len() > 0 ==> r is Ok && r->Ok_0 == spacing_sum(points@, points@.len() as int) / (
            points@.len() as int),
    {
        if points.len() == 0 {
            return Err(Error::EmptyInput);
        }
        let mut tree = crate::materials::spatial::SpatialIndex::new();
        let mut i: usize = 0;
        while i < points.len()
            invariant
                i <= points.len(),
                tree@ == position_entries(points@).take(i as int),
            decreases points.len() - i,
        {
            let at: [i32; 3] = [points[i].x, points[i].y, points[i].z];
            tree.add(&at, i);
            proof {
                let all = position_entries(points@);
                assert(at@ =~= all[i as int].0@);
                assert(all.take(i + 1) =~= all.take(i as int).push(all[i as int]));
            }
            i = i + 1;
        }
        assert(position_entries(points@).take(points.len() as int) =~= position_entries(points@));
        let mut sum: u128 = 0;
        let mut k: usize = 0;
        while k < points.len()
            invariant
                k <= points.len(),
                tree@ == position_entries(points@),
                sum == spacing_sum(points@, k as int),
                sum <= k * 0x1000_0000_0000,
            decreases points.len() - k,
        {
            let at: [i32; 3] = [points[k].x, points[k].y, points[k].z];
            let found = tree.nearest(&at, 4, crate::materials::spatial::Metric::SquaredEuclidean);
            let ghost here = [points@[k as int].x, points@[k as int].y, points@[k as int].z];
            assert(at@ =~= here@);
            proof {
                crate::materials::spatial::lemma_nearest_of(
                    tree@,
                    at,
                    4,
                    crate::materials::spatial::Metric::SquaredEuclidean,
                );
                assert forall|j: int| 0 <= j < found@.len() implies (#[trigger] found@[j]).0 <= 3 * (
                0xffff_ffff * 0xffff_ffff) by {
                    let e = choose|e: int|
                        0 <= e < tree@.len() && found@[j] == (
                            crate::materials::spatial::distance_of(
                                crate::materials::spatial::Metric::SquaredEuclidean,
                                at,
                                tree@[e].0,
                            ) as u128,
                            tree@[e].1,
                        );
                    crate::materials::spatial::lemma_distance_fits(
                        crate::materials::spatial::Metric::SquaredEuclidean,
                        at,
                        tree@[e].0,
                    );
                }
            }
            let mut around: u128 = 0;
            let mut j: usize = found.len();
            while j > 1
                invariant
                    j <= found@.len(),
                    found@.len() <= 4,
                    j >= 1 || found@.len() == 0,
                    forall|t: int| 0 <= t < found@.len() ==> (#[trigger] found@[t]).0 <= 3 * (0xffff_ffff
                        * 0xffff_ffff),
                    around == distance_sum(found@, j as int),
                decreases j,
            {
                j = j - 1;
                proof {
                    lemma_distance_sum_bounded(found@, j as int);
                    lemma_fixed_distance_bounded(found@[j as int].0 as int);
                    assert(found@[j as int].0 * (SPACING_UNIT * SPACING_UNIT) <= 3 * (0xffff_ffff * 0xffff_ffff)
                        * (1024 * 1024)) by (nonlinear_arith)
                        requires
                            found@[j as int].0 <= 3 * (0xffff_ffff * 0xffff_ffff),
                            SPACING_UNIT == 1024,
                    ;
                }
                let unit: u128 = (SPACING_UNIT as u128) * (SPACING_UNIT as u128);
                around = around + crate::numeric::isqrt(found[j].0 * unit) as u128;
            }
            proof {
                if found@.len() >= 1 {
                    lemma_distance_sum_bounded(found@, 1);
                }
                assert(around == distance_sum(found@, 1));
                assert(around / 3 <= 0x1000_0000_0000);
            }
            sum = sum + around / 3;
            k = k + 1;
        }
        let n: u128 = points.len() as u128;
        assert(sum / n <= 0x1000_0000_0000) by (nonlinear_arith)
            requires
                sum <= n * 0x1000_0000_0000,
                n > 0,
        ;
        Ok((sum / n) as u64)
    }

    /// The smallest running total of `additional_point_nums` that covers
    /// `desired_point_num`, or the last one where none does.
    pub fn binary_search(additional_point_nums: &Vec<usize>, desired_point_num: usize) -> (found: usize)
        requires
            additional_point_nums@.len() > 0,
            non_decreasing(additional_point_nums@),
        ensures
            found == first_at_least(additional_point_nums@, desired_point_num as int),
    {
        let mut left: usize = 0;
        let mut right: usize = additional_point_nums.len() - 1;
        while left < right
            invariant
                left <= right < additional_point_nums@.len(),
                non_decreasing(additional_point_nums@),
                forall|j: int| 0 <= j < left ==> additional_point_nums@[j] < desired_point_num,
                right == additional_point_nums@.len() - 1 || additional_point_nums@[right as int]
                    >= desired_point_num,
            decreases right - left,
        {
            let mid: usize = left + (right - left) / 2;
            if additional_point_nums[mid] < desired_point_num {
                left = mid + 1;
            } else {
                right = mid;
            }
        }
        proof {
            lemma_first_at_least_is(additional_point_nums@, desired_point_num as int, left as int);
        }
        additional_point_nums[left]
    }

    /// The number of points a segment of `current_point_num` points should
    /// have when the screen wants them `desired_spacing` apart.
    pub fn get_desired_num_points_at(&self, desired_spacing: u32, current_point_num: usize) -> (needed: usize)
        ensures
            needed == desired_points(self.anchor(), desired_spacing as int, current_point_num as int),
    {
        proof {
            use_type_invariant(self);
        }
        if desired_spacing == 0 {
            if self.anchor_spacing == 0 || current_point_num == 0 {
                return 0;
            }
            return usize::MAX;
        }
        let a: u128 = self.anchor_spacing as u128;
        let d: u128 = desired_spacing as u128;
        assert(a * a <= 0x1f_ffff * 0x1f_ffff && a * a * a <= 0x1f_ffff * 0x1f_ffff * 0x1f_ffff) by (nonlinear_arith)
            requires
                0 <= a <= 0x1f_ffff,
        ;
        assert(1 <= d * d <= 0xffff_ffff * 0xffff_ffff && 1 <= d * d * d <= 0xffff_ffff * 0xffff_ffff
            * 0xffff_ffff) by (nonlinear_arith)
            requires
                1 <= d <= 0xffff_ffff,
        ;
        let a3: u128 = a * a * a;
        let d3: u128 = d * d * d;
        let c: u128 = current_point_num as u128;
        assert(c * a3 <= 0xffff_ffff_ffff_ffff * (0x1f_ffff * 0x1f_ffff * 0x1f_ffff)) by (nonlinear_arith)
            requires
                0 <= c <= 0xffff_ffff_ffff_ffff,
                0 <= a3 <= 0x1f_ffff * 0x1f_ffff * 0x1f_ffff,
        ;
        let exact: u128 = c * a3 / d3;
        if exact > usize::MAX as u128 {
            usize::MAX
        } else {
            exact as usize
        }
    }

    /// For each segment of frame `index`, the number of points to show when
    /// the screen wants the points of segment `s` to be `desired_spacings[s]`
    /// apart: the smallest running total of additional points that makes up
    /// for what the base lacks, capped at what is available, and the base
    /// with it unless `exclude_base_points`.
    ///
    /// Without metadata, and for a frame the metadata does not describe, the
    /// answer is `MissingMetadata`.
    pub fn get_desired_num_points(&self, index: usize, desired_spacings: &Vec<u32>, exclude_base_points: bool) -> (r:
        Result<Vec<usize>, Error>)
        requires
            self.metadata() matches Some(m) ==> (index < m.frames() ==> frame_servable(
                m,
                index as int,
                desired_spacings@.len() as int,
            )),
        ensures
            self.metadata() is None ==> r is Err && r->Err_0 == Error::MissingMetadata,
            self.metadata() matches Some(m) ==> (index >= m.frames() ==> r is Err && r->Err_0
                == Error::MissingMetadata),
            self.metadata() matches Some(m) ==> (index < m.frames() ==> r is Ok && r->Ok_0@.len()
                == desired_spacings@.len() && forall|s: int|
                0 <= s < desired_spacings@.len() ==> #[trigger] r->Ok_0@[s] == segment_demand(
                    self.anchor(),
                    desired_spacings@[s] as int,
                    m.base_point_num[index as int][s] as int,
                    m.additional_point_nums[index as int][s],
                    exclude_base_points,
                )),
    {
        let metadata = match &self.metadata {
            Some(m) => m,
            None => {
                return Err(Error::MissingMetadata);
            },
        };
        if index >= metadata.bounds.len() || index >= metadata.base_point_num.len() || index
            >= metadata.additional_point_nums.len() {
            return Err(Error::MissingMetadata);
        }
        let ghost m = metadata@;
        let base_point_num = &metadata.base_point_num[index];
        let additional_point_nums = &metadata.additional_point_nums[index];
        let segments: usize = desired_spacings.len();
        let mut desired_num_points: Vec<usize> = Vec::new();
        let mut s: usize = 0;
        while s < segments
            invariant
                s <= segments,
                segments == desired_spacings@.len(),
                m == metadata@,
                self.metadata() == Some(m),
                frame_servable(m, index as int, segments as int),
                base_point_num@ == m.base_point_num[index as int],
                additional_point_nums@.len() == segments,
                forall|t: int|
                    0 <= t < segments ==> (#[trigger] additional_point_nums@[t])@
                        == m.additional_point_nums[index as int][t],
                desired_num_points@.len() == s,
                forall|t: int|
                    0 <= t < s ==> #[trigger] desired_num_points@[t] == segment_demand(
                        self.anchor(),
                        desired_spacings@[t] as int,
                        m.base_point_num[index as int][t] as int,
                        m.additional_point_nums[index as int][t],
                        exclude_base_points,
                    ),
            decreases segments - s,
        {
            let point_num: usize = base_point_num[s];
            let row = &additional_point_nums[s];
            assert(row@ == m.additional_point_nums[index as int][s as int]);
            let desired_num: usize = self.get_desired_num_points_at(desired_spacings[s], point_num);
            let lacking: usize = if desired_num > point_num {
                desired_num - point_num
            } else {
                0
            };
            let additional_point_needed: usize = Self::binary_search(row, lacking);
            proof {
                lemma_first_at_least_is_smallest(row@, lacking as int);
            }
            let shown: usize = if exclude_base_points {
                additional_point_needed
            } else {
                point_num + additional_point_needed
            };
            desired_num_points.push(shown);
            s = s + 1;
        }
        Ok(desired_num_points)
    }
}

} // verus!
