//! Interpolation of a frame towards the next one, from the spatial index to
//! the optional passes.

use vstd::prelude::*;
use crate::formats::metadata::count_rows;
use crate::materials::interpolate::{
    candidates_fit, counts_after, interpolate_with, interpolated, Penalties, ScoreScale,
};
use crate::materials::passes::{crack_marked, flagged_by_first, mapped_count, neighbours_fit, resized, unmapped_colour};
use crate::materials::points::{entries_of, Point, Points};
use crate::materials::spatial::{
    distance_of, lemma_nearest_of, nearest_of, payloads_of, within_of, Metric, SpatialIndex,
};
use crate::utils::copy_vec;

verus! {

/// How many neighbours the unmapped pass looks at around each point.
pub const UNMAPPED_NEIGHBOURS: usize = 3;

/// For each point of `data` the payloads of the entries of `tree` within
/// `radius` of it under the infinity norm.
pub open spec fn radius_candidates(data: Seq<Point>, tree: Seq<([i32; 3], usize)>, radius: int) -> Seq<
    Seq<usize>,
> {
    Seq::new(
        data.len(),
        |i: int| payloads_of(within_of(tree, data[i].position(), radius, Metric::InfinityNorm)),
    )
}

/// For each point of `frame` the payloads of the `k` entries of `tree`
/// nearest to it under the infinity norm.
pub open spec fn nearest_neighbours(frame: Seq<Point>, tree: Seq<([i32; 3], usize)>, k: int) -> Seq<
    Seq<usize>,
> {
    Seq::new(
        frame.len(),
        |i: int| payloads_of(nearest_of(tree, frame[i].position(), k, Metric::InfinityNorm)),
    )
}

/// Whether every payload of the index is below `n`.
pub open spec fn tree_fits(tree: Seq<([i32; 3], usize)>, n: int) -> bool {
    forall|e: int| 0 <= e < tree.len() ==> (#[trigger] tree[e]).1 < n
}

/// Whether the index of every point is a place in the frame.
pub open spec fn indices_in_range(data: Seq<Point>) -> bool {
    forall|i: int| 0 <= i < data.len() ==> (#[trigger] data[i]).index < data.len()
}

/// Whether the index of every point is a place in the frame.
pub fn check_indices_in_range(data: &Vec<Point>) -> (ok: bool)
    ensures
        ok == indices_in_range(data@),
{
    let mut i: usize = 0;
    while i < data.len()
        invariant
            i <= data.len(),
            forall|k: int| 0 <= k < i ==> (#[trigger] data@[k]).index < data@.len(),
        decreases data.len() - i,
    {
        if data[i].index >= data.len() {
            assert(!(data@[i as int].index < data@.len()));
            return false;
        }
        i = i + 1;
    }
    true
}

/// The number of points of `data` within `radius` of point `i` under the
/// infinity norm, the point itself included.
pub open spec fn neighbours_within(data: Seq<Point>, i: int, radius: int) -> int {
    within_of(entries_of(data), data[i].position(), radius, Metric::InfinityNorm).len() as int
}

/// A count as a mapping: the count itself, or the largest mapping where the
/// count is beyond it.
pub open spec fn saturated_mapping(count: usize) -> u16 {
    if count > u16::MAX {
        u16::MAX
    } else {
        count as u16
    }
}

/// The target frame with its mappings set from the counts.
pub open spec fn with_counts(targets: Seq<Point>, counts: Seq<usize>) -> Seq<Point> {
    Seq::new(
        targets.len(),
        |j: int| Point { mapping: saturated_mapping(counts[j]), ..targets[j] },
    )
}

/// The frame with its unmapped neighbourhoods flagged: a neighbour of a
/// point that was never chosen, and none of whose neighbours was, is green.
pub open spec fn unmapped_marked(frame: Seq<Point>, neighbours: Seq<Seq<usize>>) -> Seq<Point> {
    Seq::new(
        frame.len(),
        |j: int|
            if flagged_by_first(frame, neighbours, frame.len() as int, j) {
                Point { point_color: unmapped_colour(), ..frame[j] }
            } else {
                frame[j]
            },
    )
}

/// The frame after crack detection with `radius`.
pub open spec fn crack_resized(data: Seq<Point>, radius: int) -> Seq<Point> {
    Seq::new(data.len(), |i: int| resized(data[i], neighbours_within(data, i, radius)))
}

/// The frame as it is shown for inspection of its cracks.
pub open spec fn all_crack_marked(data: Seq<Point>) -> Seq<Point> {
    Seq::new(data.len(), |i: int| crack_marked(data[i]))
}

/// Every result of a radius query is an entry of the index.
pub proof fn lemma_within_members(
    entries: Seq<([i32; 3], usize)>,
    point: [i32; 3],
    radius: int,
    metric: Metric,
)
    ensures
        within_of(entries, point, radius, metric).len() <= entries.len(),
        forall|i: int|
            0 <= i < within_of(entries, point, radius, metric).len() ==> exists|e: int|
                0 <= e < entries.len() && entries[e].1 == (#[trigger] within_of(
                    entries,
                    point,
                    radius,
                    metric,
                )[i]).1,
    decreases entries.len(),
{
    if entries.len() > 0 {
        let rest = entries.drop_last();
        lemma_within_members(rest, point, radius, metric);
        let found = within_of(entries, point, radius, metric);
        let before = within_of(rest, point, radius, metric);
        assert forall|i: int| 0 <= i < found.len() implies exists|e: int|
            0 <= e < entries.len() && entries[e].1 == (#[trigger] found[i]).1 by {
            if i < before.len() {
                assert(found[i] == before[i]);
                let e = choose|e: int| 0 <= e < rest.len() && rest[e].1 == before[i].1;
                assert(entries[e] == rest[e]);
            } else {
                assert(entries[entries.len() - 1].1 == found[i].1);
            }
        }
    }
}

/// Two sequences that hold the same values equally often hold the same
/// values: each value of one is at some place of the other.
pub proof fn lemma_same_members<A>(a: Seq<A>, b: Seq<A>)
    requires
        a.to_multiset() == b.to_multiset(),
    ensures
        a.len() == b.len(),
        forall|i: int| 0 <= i < a.len() ==> b.contains(#[trigger] a[i]),
{
    broadcast use vstd::seq_lib::group_to_multiset_ensures;

    vstd::seq_lib::to_multiset_len(a);
    vstd::seq_lib::to_multiset_len(b);
    assert forall|i: int| 0 <= i < a.len() implies b.contains(#[trigger] a[i]) by {
        assert(a.contains(a[i]));
        assert(a.to_multiset().count(a[i]) > 0);
    }
}

/// How many entries a radius query finds does not depend on the order of
/// the entries.
pub proof fn lemma_within_count_of_rearranged(
    a: Seq<([i32; 3], usize)>,
    b: Seq<([i32; 3], usize)>,
    point: [i32; 3],
    radius: int,
    metric: Metric,
)
    requires
        a.to_multiset() == b.to_multiset(),
    ensures
        within_of(a, point, radius, metric).len() == within_of(b, point, radius, metric).len(),
{
    lemma_within_count_is_filter(a, point, radius, metric);
    lemma_within_count_is_filter(b, point, radius, metric);
}

/// The number of entries a radius query finds is the number of entries in
/// reach, counted in the multiset of the entries.
pub proof fn lemma_within_count_is_filter(
    entries: Seq<([i32; 3], usize)>,
    point: [i32; 3],
    radius: int,
    metric: Metric,
)
    ensures
        within_of(entries, point, radius, metric).len() == entries.to_multiset().filter(
            |e: ([i32; 3], usize)| distance_of(metric, point, e.0) <= radius,
        ).len(),
    decreases entries.len(),
{
    broadcast use vstd::multiset::group_multiset_axioms;

    let keep = |e: ([i32; 3], usize)| distance_of(metric, point, e.0) <= radius;
    if entries.len() == 0 {
        entries.to_multiset_ensures();
        assert(entries.to_multiset().filter(keep) =~= vstd::multiset::Multiset::empty());
    } else {
        let rest = entries.drop_last();
        let x = entries.last();
        lemma_within_count_is_filter(rest, point, radius, metric);
        assert(entries =~= rest.push(x));
        vstd::seq_lib::to_multiset_build(rest, x);
        let bag = rest.to_multiset();
        if keep(x) {
            assert(bag.insert(x).filter(keep) =~= bag.filter(keep).insert(x));
        } else {
            assert(bag.insert(x).filter(keep) =~= bag.filter(keep));
        }
    }
}

/// For every point of `data` the candidates within `radius` in the index.
/// The work for one point does not depend on that for another, so a caller
/// may as well hand the points out to workers and put their answers together
/// in the order of the points.
pub fn parallel_query_nearests(data_copy: &Vec<Point>, kd_tree: &SpatialIndex, radius: u32) -> (all_nearests:
    Vec<Vec<usize>>)
    ensures
        count_rows(all_nearests@) == radius_candidates(data_copy@, kd_tree@, radius as int),
{
    let mut all_nearests: Vec<Vec<usize>> = Vec::new();
    let mut i: usize = 0;
    while i < data_copy.len()
        invariant
            i <= data_copy.len(),
            all_nearests@.len() == i,
            forall|k: int|
                0 <= k < i ==> (#[trigger] all_nearests@[k])@ == radius_candidates(
                    data_copy@,
                    kd_tree@,
                    radius as int,
                )[k],
        decreases data_copy.len() - i,
    {
        all_nearests.push(data_copy[i].get_nearests(kd_tree, radius));
        i = i + 1;
    }
    assert(count_rows(all_nearests@) =~= radius_candidates(data_copy@, kd_tree@, radius as int));
    all_nearests
}

/// For every point of `frame` the `k` entries of the index nearest to it
/// under the infinity norm, as candidates or as neighbours.
pub fn query_nearest_neighbours(frame: &Vec<Point>, kd_tree: &SpatialIndex, k: usize) -> (lists: Vec<
    Vec<usize>,
>)
    ensures
        count_rows(lists@) == nearest_neighbours(frame@, kd_tree@, k as int),
{
    let mut lists: Vec<Vec<usize>> = Vec::new();
    let mut i: usize = 0;
    while i < frame.len()
        invariant
            i <= frame.len(),
            lists@.len() == i,
            forall|t: int|
                0 <= t < i ==> (#[trigger] lists@[t])@ == nearest_neighbours(frame@, kd_tree@, k as int)[t],
        decreases frame.len() - i,
    {
        let at = frame[i].get_position();
        let found = kd_tree.nearest(&at, k, Metric::InfinityNorm);
        let mut list: Vec<usize> = Vec::new();
        let mut t: usize = 0;
        while t < found.len()
            invariant
                t <= found.len(),
                list@.len() == t,
                forall|j: int| 0 <= j < t ==> list@[j] == found@[j].1,
            decreases found.len() - t,
        {
            list.push(found[t].1);
            t = t + 1;
        }
        assert(list@ =~= payloads_of(found@));
        lists.push(list);
        i = i + 1;
    }
    assert(count_rows(lists@) =~= nearest_neighbours(frame@, kd_tree@, k as int));
    lists
}

/// Whether every payload of the index is below `n`.
pub fn check_tree_fits(kd_tree: &SpatialIndex, n: usize) -> (fits: bool)
    ensures
        fits == tree_fits(kd_tree@, n as int),
{
    let mut e: usize = 0;
    while e < kd_tree.entries.len()
        invariant
            e <= kd_tree.entries.len(),
            forall|t: int| 0 <= t < e ==> (#[trigger] kd_tree@[t]).1 < n,
        decreases kd_tree.entries.len() - e,
    {
        if kd_tree.entries[e].1 >= n {
            assert(!(kd_tree@[e as int].1 < n));
            return false;
        }
        e = e + 1;
    }
    true
}

/// The neighbours that the index finds are places in a frame that the
/// index fits.
pub proof fn lemma_nearest_neighbours_fit(frame: Seq<Point>, tree: Seq<([i32; 3], usize)>, k: int)
    requires
        k >= 0,
        tree_fits(tree, frame.len() as int),
    ensures
        neighbours_fit(frame, nearest_neighbours(frame, tree, k)),
{
    let lists = nearest_neighbours(frame, tree, k);
    assert forall|i: int, t: int| 0 <= i < lists.len() && 0 <= t < lists[i].len() implies #[trigger] lists[i][t]
        < frame.len() by {
        let at = frame[i].position();
        let found = nearest_of(tree, at, k, Metric::InfinityNorm);
        lemma_nearest_of(tree, at, k, Metric::InfinityNorm);
        let e = choose|e: int|
            0 <= e < tree.len() && found[t] == (
                distance_of(Metric::InfinityNorm, at, tree[e].0) as u128,
                tree[e].1,
            );
        assert(tree[e].1 < frame.len());
    }
}

/// The number of points each of `threads` workers takes so that together
/// they take all `len`: `len / threads`, rounded up.
pub fn chunk_size(len: usize, threads: usize) -> (size: usize)
    requires
        threads > 0,
    ensures
        size == (len + threads - 1) / (threads as int),
        size * threads >= len,
{
    assert(len % threads != 0 ==> len / threads < len) by (nonlinear_arith)
        requires
            threads > 0,
            len >= 0,
    ;
    let size: usize = if len % threads == 0 {
        len / threads
    } else {
        len / threads + 1
    };
    assert(size == (len + threads - 1) / (threads as int) && size * threads >= len) by (nonlinear_arith)
        requires
            threads > 0,
            size == (if len % threads == 0 {
                (len / threads) as int
            } else {
                len / threads + 1
            }),
    ;
    size
}

impl Points {
    /// Flags isolated unmapped neighbourhoods of the reference frame, the
    /// neighbours of a point being the three entries of `kd_tree` nearest to
    /// it under the infinity norm. Returns the number of points that were
    /// chosen at least once.
    pub fn mark_unmapped_points(&mut self, kd_tree: &SpatialIndex) -> (mapped_points: usize)
        requires
            tree_fits(kd_tree@, old(self).reference_frame@.len() as int),
        ensures
            final(self).data == old(self).data,
            final(self).delta_pos_vector == old(self).delta_pos_vector,
            final(self).delta_colours == old(self).delta_colours,
            final(self).reference_frame@ == unmapped_marked(
                old(self).reference_frame@,
                nearest_neighbours(old(self).reference_frame@, kd_tree@, UNMAPPED_NEIGHBOURS as int),
            ),
            mapped_points == mapped_count(old(self).reference_frame@),
    {
        let ghost frame = self.reference_frame@;
        let ghost lists = nearest_neighbours(frame, kd_tree@, UNMAPPED_NEIGHBOURS as int);
        let neighbours = query_nearest_neighbours(&self.reference_frame, kd_tree, UNMAPPED_NEIGHBOURS);
        proof {
            lemma_nearest_neighbours_fit(frame, kd_tree@, UNMAPPED_NEIGHBOURS as int);
        }
        let mapped_points = self.mark_unmapped_with(&neighbours);
        assert(self.reference_frame@ =~= unmapped_marked(frame, lists));
        mapped_points
    }

    /// Enlarges the points where the frame is thin: a point that has within
    /// `radius` of it, under the infinity norm and itself included, no more
    /// points than its reference density is marked as near a crack and drawn
    /// at twice the normal size.
    pub fn adjust_point_sizes(&mut self, radius: u32)
        ensures
            final(self).delta_pos_vector == old(self).delta_pos_vector,
            final(self).delta_colours == old(self).delta_colours,
            final(self).reference_frame == old(self).reference_frame,
            final(self).data@ == crack_resized(old(self).data@, radius as int),
    {
        let ghost data = self.data@;
        let interpolated_kd_tree = self.clone().to_kdtree();
        let mut neighbour_counts: Vec<usize> = Vec::new();
        let mut idx: usize = 0;
        while idx < self.data.len()
            invariant
                idx <= self.data.len(),
                *self == *old(self),
                data == self.data@,
                interpolated_kd_tree@.to_multiset() == entries_of(data).to_multiset(),
                neighbour_counts@.len() == idx,
                forall|i: int|
                    0 <= i < idx ==> #[trigger] neighbour_counts@[i] == neighbours_within(
                        data,
                        i,
                        radius as int,
                    ),
            decreases self.data.len() - idx,
        {
            let at = self.data[idx].get_position();
            let found = interpolated_kd_tree.within_unsorted(&at, radius as u128, Metric::InfinityNorm);
            proof {
                lemma_within_count_of_rearranged(
                    interpolated_kd_tree@,
                    entries_of(data),
                    at,
                    radius as int,
                    Metric::InfinityNorm,
                );
            }
            neighbour_counts.push(found.len());
            idx = idx + 1;
        }
        self.adjust_point_sizes_with(&neighbour_counts);
        assert(self.data@ =~= crack_resized(data, radius as int));
    }
}

/// The bounds by which [`Points::closest_with_ratio_average_points_recovery`]
/// normalises distances.
pub open spec fn standard_scale() -> ScoreScale {
    ScoreScale { coordinate_bound: 512, colour_bound: 256, luminance_cap: 100 }
}

/// What every source becomes when matched against its candidates within
/// `radius` in `tree`.
pub open spec fn matched_frame(
    sources: Seq<Point>,
    targets: Seq<Point>,
    tree: Seq<([i32; 3], usize)>,
    penalties: Penalties,
    radius: int,
) -> Seq<Point> {
    Seq::new(
        sources.len(),
        |i: int|
            interpolated(
                sources,
                targets,
                radius_candidates(sources, tree, radius),
                penalties,
                standard_scale(),
                i,
            ),
    )
}

/// The target frame with every target's mapping set to how often it was
/// chosen.
pub open spec fn counted_frame(
    sources: Seq<Point>,
    targets: Seq<Point>,
    tree: Seq<([i32; 3], usize)>,
    penalties: Penalties,
    radius: int,
) -> Seq<Point> {
    with_counts(
        targets,
        counts_after(
            sources,
            targets,
            radius_candidates(sources, tree, radius),
            penalties,
            standard_scale(),
            sources.len(),
        ),
    )
}

/// The changes from the matched frame to the sources, as the recovery
/// records them on request.
pub open spec fn recorded_deltas(sources: Seq<Point>, matched: Seq<Point>) -> (Seq<[i64; 3]>, Seq<[i16; 3]>) {
    (
        Seq::new(
            sources.len(),
            |i: int| crate::materials::points::position_delta(sources[i], matched[i]),
        ),
        Seq::new(sources.len(), |i: int| crate::materials::points::colour_delta(sources[i], matched[i])),
    )
}

/// The three frames of a recovery with index `tree`: the interpolated
/// frame, enlarged near cracks on request; the target frame with its
/// mappings, its unmapped neighbourhoods flagged on request; and, on
/// request, the interpolated frame marked for inspection, else no points.
pub open spec fn recovery_outcome(
    sources: Seq<Point>,
    targets: Seq<Point>,
    tree: Seq<([i32; 3], usize)>,
    penalties: Penalties,
    radius: int,
    show_unmapped_points: bool,
    resize_near_cracks: bool,
    mark_enlarged: bool,
    interpolated_frame: Seq<Point>,
    reference: Seq<Point>,
    marked: Seq<Point>,
) -> bool {
    let matched = matched_frame(sources, targets, tree, penalties, radius);
    let counted = counted_frame(sources, targets, tree, penalties, radius);
    &&& tree.to_multiset() == entries_of(targets).to_multiset()
    &&& interpolated_frame == (if resize_near_cracks {
        crack_resized(matched, radius)
    } else {
        matched
    })
    &&& reference == (if show_unmapped_points {
        unmapped_marked(counted, nearest_neighbours(counted, tree, UNMAPPED_NEIGHBOURS as int))
    } else {
        counted
    })
    &&& marked == (if resize_near_cracks && mark_enlarged {
        all_crack_marked(interpolated_frame)
    } else {
        Seq::<Point>::empty()
    })
}

/// What a recovery with index `tree` returns and records: the three frames
/// of [`recovery_outcome`] for the flags `(show unmapped, resize near cracks,
/// mark enlarged, compute frame delta)`, and, where deltas are computed, the
/// recorded deltas `after` being those `before` followed by
/// [`recorded_deltas`] of the sources and the matched frame.
pub open spec fn recovery_with_index(
    tree: Seq<([i32; 3], usize)>,
    sources: Seq<Point>,
    targets: Seq<Point>,
    penalties: Penalties,
    radius: int,
    flags: (bool, bool, bool, bool),
    frames: (Seq<Point>, Seq<Point>, Seq<Point>),
    before: (Seq<[i64; 3]>, Seq<[i16; 3]>),
    after: (Seq<[i64; 3]>, Seq<[i16; 3]>),
) -> bool {
    let recorded = recorded_deltas(sources, matched_frame(sources, targets, tree, penalties, radius));
    &&& recovery_outcome(
        sources,
        targets,
        tree,
        penalties,
        radius,
        flags.0,
        flags.1,
        flags.2,
        frames.0,
        frames.1,
        frames.2,
    )
    &&& flags.3 ==> after.0 == before.0 + recorded.0 && after.1 == before.1 + recorded.1
    &&& !flags.3 ==> after == before
}

impl Points {
    /// Interpolates this frame towards `next_points`.
    ///
    /// The points of `next_points` are indexed in a random order. For each
    /// point of this frame, in order, the candidates are the indexed points
    /// within `radius` under the infinity norm; the candidate with the
    /// lowest score is chosen and counted, and the point becomes the average
    /// of itself and its match. A point without candidates stays as it is.
    ///
    /// Returns the interpolated frame, the target frame with its mapping
    /// counts, and a frame for inspection. On request the changes from the
    /// interpolated frame to this one are recorded here, unmapped
    /// neighbourhoods of the target frame are flagged, points near cracks of
    /// the interpolated frame are enlarged, and the frame for inspection
    /// shows them in red. The target frame is kept as the reference frame.
    ///
    /// The candidates are found by radius whatever `options_for_nearest` is;
    /// candidates by number are had from [`query_nearest_neighbours`] and
    /// matched by [`interpolate_with`].
    pub fn closest_with_ratio_average_points_recovery(
        &mut self,
        next_points: &Points,
        penalize_coor: u32,
        penalize_col: u32,
        penalize_mapped: u32,
        radius: u32,
        options_for_nearest: usize,
        show_unmapped_points: bool,
        resize_near_cracks: bool,
        mark_enlarged: bool,
        compute_frame_delta: bool,
    ) -> (r: (Points, Points, Points))
        requires
            indices_in_range(old(self).data@),
            indices_in_range(next_points.data@),
        ensures
            final(self).data == old(self).data,
            final(self).reference_frame@ == r.1.data@,
            r.0.data@.len() == old(self).data@.len(),
            exists|tree: Seq<([i32; 3], usize)>| #[trigger]
                recovery_with_index(
                    tree,
                    old(self).data@,
                    next_points.data@,
                    Penalties { coordinate: penalize_coor, colour: penalize_col, mapped: penalize_mapped },
                    radius as int,
                    (show_unmapped_points, resize_near_cracks, mark_enlarged, compute_frame_delta),
                    (r.0.data@, r.1.data@, r.2.data@),
                    (old(self).delta_pos_vector@, old(self).delta_colours@),
                    (final(self).delta_pos_vector@, final(self).delta_colours@),
                ),
    {
        let penalties = Penalties {
            coordinate: penalize_coor,
            colour: penalize_col,
            mapped: penalize_mapped,
        };
        let scale = ScoreScale::standard();
        let ghost sources = self.data@;
        let ghost targets = next_points.data@;
        let kd_tree = next_points.clone().to_kdtree();
        let ghost tree = kd_tree@;
        proof {
            lemma_same_members(tree, entries_of(targets));
            assert(tree_fits(tree, targets.len() as int)) by {
                assert forall|e: int| 0 <= e < tree.len() implies (#[trigger] tree[e]).1
                    < targets.len() by {
                    assert(entries_of(targets).contains(tree[e]));
                    let j = choose|j: int|
                        0 <= j < entries_of(targets).len() && entries_of(targets)[j] == tree[e];
                    assert(targets[j].index < targets.len());
                }
            }
        }
        let all_nearests = parallel_query_nearests(&self.data, &kd_tree, radius);
        let ghost nearests = radius_candidates(sources, tree, radius as int);
        proof {
            assert forall|i: int, j: int|
                0 <= i < nearests.len() && 0 <= j < nearests[i].len() implies #[trigger] nearests[i][j]
                < targets.len() by {
                lemma_within_members(tree, sources[i].position(), radius as int, Metric::InfinityNorm);
                let found = within_of(tree, sources[i].position(), radius as int, Metric::InfinityNorm);
                let e = choose|e: int| 0 <= e < tree.len() && tree[e].1 == found[j].1;
                assert(tree[e].1 < targets.len());
            }
            assert(candidates_fit(sources, targets, nearests));
        }
        let (out, counts) = interpolate_with(&self.data, &next_points.data, &all_nearests, &penalties, &scale);
        let ghost matched = matched_frame(sources, targets, tree, penalties, radius as int);
        assert(out@ =~= matched);
        let mut reference: Vec<Point> = Vec::new();
        let mut j: usize = 0;
        proof {
            crate::materials::interpolate::lemma_counts_after_bounded(
                sources,
                targets,
                nearests,
                penalties,
                scale,
                sources.len(),
            );
        }
        while j < next_points.data.len()
            invariant
                j <= next_points.data.len(),
                targets == next_points.data@,
                counts@.len() == targets.len(),
                reference@.len() == j,
                forall|t: int|
                    0 <= t < j ==> #[trigger] reference@[t] == (Point {
                        mapping: saturated_mapping(counts@[t]),
                        ..targets[t]
                    }),
            decreases next_points.data.len() - j,
        {
            let mut point = next_points.data[j];
            point.mapping = if counts[j] > 0xffff {
                0xffff
            } else {
                counts[j] as u16
            };
            reference.push(point);
            j = j + 1;
        }
        let ghost counted = counted_frame(sources, targets, tree, penalties, radius as int);
        assert(reference@ =~= counted);
        self.reference_frame = reference;
        let mut point_data = Points::of(out);
        if compute_frame_delta {
            let copy = point_data.clone();
            match self.frame_delta(copy) {
                Ok(()) => {},
                Err(_) => {
                    assert(false);
                },
            }
            proof {
                let recorded = recorded_deltas(sources, matched);
                assert(self.delta_pos_vector@ =~= old(self).delta_pos_vector@ + recorded.0);
                assert(self.delta_colours@ =~= old(self).delta_colours@ + recorded.1);
            }
        }
        if show_unmapped_points {
            self.mark_unmapped_points(&kd_tree);
        }
        if resize_near_cracks {
            point_data.adjust_point_sizes(radius);
        }
        let mut marked_interpolated_frame = Points::new();
        if resize_near_cracks && mark_enlarged {
            marked_interpolated_frame = self.mark_points_near_cracks(&point_data);
            assert(marked_interpolated_frame.data@ =~= all_crack_marked(point_data.data@));
        } else {
            assert(marked_interpolated_frame.data@ =~= Seq::<Point>::empty());
        }
        let reference_copy = Points::of(copy_vec(&self.reference_frame));
        proof {
            assert(recovery_outcome(
                sources,
                targets,
                tree,
                penalties,
                radius as int,
                show_unmapped_points,
                resize_near_cracks,
                mark_enlarged,
                point_data.data@,
                reference_copy.data@,
                marked_interpolated_frame.data@,
            ));
            assert(recovery_with_index(
                tree,
                sources,
                targets,
                penalties,
                radius as int,
                (show_unmapped_points, resize_near_cracks, mark_enlarged, compute_frame_delta),
                (point_data.data@, reference_copy.data@, marked_interpolated_frame.data@),
                (old(self).delta_pos_vector@, old(self).delta_colours@),
                (self.delta_pos_vector@, self.delta_colours@),
            ));
        }
        let ghost frames = (point_data.data@, reference_copy.data@, marked_interpolated_frame.data@);
        let result = (point_data, reference_copy, marked_interpolated_frame);
        assert((result.0.data@, result.1.data@, result.2.data@) == frames);
        result
    }
}

} // verus!
