//! Matching the points of one frame against another: scoring candidates,
//! choosing the best, counting how often each target was chosen, and
//! averaging each source point with its match.

use vstd::prelude::*;
use crate::formats::metadata::count_rows;
use crate::materials::points::Point;
use crate::numeric::{isqrt, sqrt_floor};

verus! {

/// The resolution of a score: scores count in 65536ths of a weight.
pub const SCORE_RESOLUTION: u128 = 0x1_0000;

/// The weights of the three parts of a score. They are whole numbers; for
/// the choice of a match only their ratios matter.
#[derive(Clone, Copy, Debug, PartialEq, Eq, Structural)]
pub struct Penalties {
    /// The weight of the distance in space.
    pub coordinate: u32,
    /// The weight of the distance in colour.
    pub colour: u32,
    /// The weight of each time the target was chosen before.
    pub mapped: u32,
}

/// The bounds by which distances are normalised before they are weighted:
/// the distance in space by the diagonal of a cube with edge
/// `coordinate_bound`, the distance in colour by the length of a colour with
/// one part of `luminance_cap` and two of `colour_bound`.
#[derive(Clone, Copy, Debug, PartialEq, Eq, Structural)]
pub struct ScoreScale {
    pub coordinate_bound: u32,
    pub colour_bound: u32,
    pub luminance_cap: u32,
}

/// The square of the normaliser of distances in space, at score resolution:
/// three times the square of the coordinate bound.
pub open spec fn coordinate_norm_squared(scale: ScoreScale) -> int {
    3 * (scale.coordinate_bound * scale.coordinate_bound) * (SCORE_RESOLUTION * SCORE_RESOLUTION)
}

/// The square of the normaliser of distances in colour, at score resolution:
/// the square of the luminance cap and twice the square of the colour bound.
pub open spec fn colour_norm_squared(scale: ScoreScale) -> int {
    (scale.luminance_cap * scale.luminance_cap + 2 * (scale.colour_bound * scale.colour_bound)) * (
    SCORE_RESOLUTION * SCORE_RESOLUTION)
}

/// One weighted, normalised distance of a score: `weight` times the square
/// root of `squared` over the square root of `norm_squared`, in 65536ths,
/// with both roots taken at score resolution and rounded down. A normaliser
/// of zero leaves the distance out.
pub open spec fn weighted_distance(weight: int, squared: int, norm_squared: int) -> int {
    let normaliser = sqrt_floor(norm_squared);
    if normaliser <= 0 {
        0
    } else {
        (weight * SCORE_RESOLUTION * sqrt_floor(squared * (SCORE_RESOLUTION * SCORE_RESOLUTION)))
            / normaliser
    }
}

/// The score of target `b` for source `a` when `b` was chosen `mapping`
/// times before: the weighted distance in space, plus the weighted distance
/// in colour, plus the weight of each earlier choice. Lower is better.
pub open spec fn score(a: Point, b: Point, mapping: int, penalties: Penalties, scale: ScoreScale) -> int {
    weighted_distance(
        penalties.coordinate as int,
        a.point_coord.squared_distance(b.point_coord),
        coordinate_norm_squared(scale),
    ) + weighted_distance(
        penalties.colour as int,
        a.point_color.squared_distance(b.point_color),
        colour_norm_squared(scale),
    ) + penalties.mapped * SCORE_RESOLUTION * mapping
}

/// The scores of the candidates of source `a`, in their order.
pub open spec fn candidate_scores(
    a: Point,
    targets: Seq<Point>,
    candidates: Seq<usize>,
    counts: Seq<usize>,
    penalties: Penalties,
    scale: ScoreScale,
) -> Seq<int> {
    Seq::new(
        candidates.len(),
        |j: int|
            score(a, targets[candidates[j] as int], counts[candidates[j] as int] as int, penalties, scale),
    )
}

/// The place of the first of the lowest scores.
pub open spec fn first_minimum(scores: Seq<int>) -> int
    decreases scores.len(),
{
    if scores.len() <= 1 {
        0
    } else {
        let before = first_minimum(scores.drop_last());
        if scores.last() < scores[before] {
            scores.len() - 1
        } else {
            before
        }
    }
}

/// The target chosen for source `a`: the candidate with the lowest score,
/// and of several with that score the first.
pub open spec fn chosen_target(
    a: Point,
    targets: Seq<Point>,
    candidates: Seq<usize>,
    counts: Seq<usize>,
    penalties: Penalties,
    scale: ScoreScale,
) -> int {
    candidates[first_minimum(candidate_scores(a, targets, candidates, counts, penalties, scale))] as int
}

/// The first minimum is a place in the sequence, no score is lower than the
/// one there, and every score before it is higher.
pub proof fn lemma_first_minimum(scores: Seq<int>)
    requires
        scores.len() > 0,
    ensures
        0 <= first_minimum(scores) < scores.len(),
        forall|j: int| 0 <= j < scores.len() ==> scores[first_minimum(scores)] <= #[trigger] scores[j],
        forall|j: int| 0 <= j < first_minimum(scores) ==> scores[first_minimum(scores)] < #[trigger] scores[j],
    decreases scores.len(),
{
    if scores.len() > 1 {
        let rest = scores.drop_last();
        lemma_first_minimum(rest);
        let before = first_minimum(rest);
        assert(rest[before] == scores[before]);
        assert forall|j: int| 0 <= j < scores.len() implies scores[first_minimum(scores)]
            <= #[trigger] scores[j] by {
            if j < rest.len() {
                assert(rest[j] == scores[j]);
            }
        }
        assert forall|j: int| 0 <= j < first_minimum(scores) implies scores[first_minimum(scores)]
            < #[trigger] scores[j] by {
            assert(rest[j] == scores[j]);
        }
    }
}

/// How often each target has been chosen after the first `n` sources were
/// matched, one after the other, each against the counts left by those
/// before it. All counts start at zero. A source without candidates chooses
/// nothing.
pub open spec fn counts_after(
    sources: Seq<Point>,
    targets: Seq<Point>,
    nearests: Seq<Seq<usize>>,
    penalties: Penalties,
    scale: ScoreScale,
    n: nat,
) -> Seq<usize>
    decreases n,
{
    if n == 0 {
        Seq::new(targets.len(), |j: int| 0usize)
    } else {
        let before = counts_after(sources, targets, nearests, penalties, scale, (n - 1) as nat);
        let candidates = nearests[sources[n - 1].index as int];
        if candidates.len() == 0 {
            before
        } else {
            let chosen = chosen_target(sources[n - 1], targets, candidates, before, penalties, scale);
            before.update(chosen, (before[chosen] + 1) as usize)
        }
    }
}

/// What source `i` becomes: itself where it has no candidates, else the
/// average of itself and the target chosen for it.
pub open spec fn interpolated(
    sources: Seq<Point>,
    targets: Seq<Point>,
    nearests: Seq<Seq<usize>>,
    penalties: Penalties,
    scale: ScoreScale,
    i: int,
) -> Point {
    let candidates = nearests[sources[i].index as int];
    if candidates.len() == 0 {
        sources[i]
    } else {
        sources[i].average(
            targets[chosen_target(
                sources[i],
                targets,
                candidates,
                counts_after(sources, targets, nearests, penalties, scale, i as nat),
                penalties,
                scale,
            )],
        )
    }
}

/// Whether the candidate lists fit the frames: every source finds its list
/// by its index, and every candidate is a place in the target frame.
pub open spec fn candidates_fit(sources: Seq<Point>, targets: Seq<Point>, nearests: Seq<Seq<usize>>) -> bool {
    &&& forall|i: int| 0 <= i < sources.len() ==> (#[trigger] sources[i]).index < nearests.len()
    &&& forall|i: int, j: int|
        0 <= i < nearests.len() && 0 <= j < nearests[i].len() ==> #[trigger] nearests[i][j]
            < targets.len()
}

/// The counts stay one per target, and after `n` sources no target has been
/// chosen more than `n` times.
pub proof fn lemma_counts_after_bounded(
    sources: Seq<Point>,
    targets: Seq<Point>,
    nearests: Seq<Seq<usize>>,
    penalties: Penalties,
    scale: ScoreScale,
    n: nat,
)
    requires
        candidates_fit(sources, targets, nearests),
        n <= sources.len(),
        sources.len() <= usize::MAX,
    ensures
        counts_after(sources, targets, nearests, penalties, scale, n).len() == targets.len(),
        forall|j: int|
            0 <= j < targets.len() ==> #[trigger] counts_after(
                sources,
                targets,
                nearests,
                penalties,
                scale,
                n,
            )[j] <= n,
    decreases n,
{
    if n > 0 {
        lemma_counts_after_bounded(sources, targets, nearests, penalties, scale, (n - 1) as nat);
        let before = counts_after(sources, targets, nearests, penalties, scale, (n - 1) as nat);
        let candidates = nearests[sources[n - 1].index as int];
        if candidates.len() > 0 {
            lemma_chosen_is_candidate(sources[n - 1], targets, candidates, before, penalties, scale);
        }
    }
}

/// The number of the first `n` sources that have candidates.
pub open spec fn sources_with_candidates(sources: Seq<Point>, nearests: Seq<Seq<usize>>, n: nat) -> int
    decreases n,
{
    if n == 0 {
        0
    } else {
        sources_with_candidates(sources, nearests, (n - 1) as nat) + (if nearests[sources[n
            - 1].index as int].len() > 0 {
            1int
        } else {
            0int
        })
    }
}

/// Every source with candidates is counted once: after `n` sources the
/// counts of all targets add up to the number of those sources that had
/// candidates.
pub proof fn lemma_counts_add_up(
    sources: Seq<Point>,
    targets: Seq<Point>,
    nearests: Seq<Seq<usize>>,
    penalties: Penalties,
    scale: ScoreScale,
    n: nat,
)
    requires
        candidates_fit(sources, targets, nearests),
        n <= sources.len(),
        sources.len() <= usize::MAX,
    ensures
        crate::counts::sum_counts(counts_after(sources, targets, nearests, penalties, scale, n))
            == sources_with_candidates(sources, nearests, n),
    decreases n,
{
    if n == 0 {
        lemma_zero_counts_sum(targets.len());
    } else {
        let before = counts_after(sources, targets, nearests, penalties, scale, (n - 1) as nat);
        lemma_counts_add_up(sources, targets, nearests, penalties, scale, (n - 1) as nat);
        lemma_counts_after_bounded(sources, targets, nearests, penalties, scale, (n - 1) as nat);
        let candidates = nearests[sources[n - 1].index as int];
        if candidates.len() > 0 {
            lemma_chosen_is_candidate(sources[n - 1], targets, candidates, before, penalties, scale);
            let chosen = chosen_target(sources[n - 1], targets, candidates, before, penalties, scale);
            crate::counts::lemma_sum_after_update(before, chosen, (before[chosen] + 1) as usize);
        }
    }
}

/// Counts that are all zero add up to zero.
pub proof fn lemma_zero_counts_sum(n: nat)
    ensures
        crate::counts::sum_counts(Seq::new(n, |j: int| 0usize)) == 0,
    decreases n,
{
    if n > 0 {
        lemma_zero_counts_sum((n - 1) as nat);
        assert(Seq::new(n, |j: int| 0usize).drop_last() =~= Seq::new((n - 1) as nat, |j: int| 0usize));
    }
}

/// The chosen target is one of the candidates.
pub proof fn lemma_chosen_is_candidate(
    a: Point,
    targets: Seq<Point>,
    candidates: Seq<usize>,
    counts: Seq<usize>,
    penalties: Penalties,
    scale: ScoreScale,
)
    requires
        candidates.len() > 0,
    ensures
        exists|j: int|
            0 <= j < candidates.len() && #[trigger] candidates[j] == chosen_target(
                a,
                targets,
                candidates,
                counts,
                penalties,
                scale,
            ),
{
    let scores = candidate_scores(a, targets, candidates, counts, penalties, scale);
    lemma_first_minimum(scores);
    assert(candidates[first_minimum(scores)] == chosen_target(
        a,
        targets,
        candidates,
        counts,
        penalties,
        scale,
    ));
}

/// An interpolated point that had candidates refers to a point of the
/// target frame: where every target has its place as its index, the index
/// of the interpolated point is the place of the chosen target.
pub proof fn lemma_interpolated_index_valid(
    sources: Seq<Point>,
    targets: Seq<Point>,
    nearests: Seq<Seq<usize>>,
    penalties: Penalties,
    scale: ScoreScale,
    i: int,
)
    requires
        candidates_fit(sources, targets, nearests),
        crate::materials::points::is_indexed(targets),
        0 <= i < sources.len(),
        nearests[sources[i].index as int].len() > 0,
    ensures
        interpolated(sources, targets, nearests, penalties, scale, i).index < targets.len(),
{
    let candidates = nearests[sources[i].index as int];
    let counts = counts_after(sources, targets, nearests, penalties, scale, i as nat);
    lemma_chosen_is_candidate(sources[i], targets, candidates, counts, penalties, scale);
}

impl ScoreScale {
    /// The usual bounds: coordinates up to 512, colour parts up to 256, and
    /// a luminance of at most 100.
    pub fn standard() -> (scale: Self)
        ensures
            scale == (ScoreScale { coordinate_bound: 512, colour_bound: 256, luminance_cap: 100 }),
    {
        ScoreScale { coordinate_bound: 512, colour_bound: 256, luminance_cap: 100 }
    }
}

/// Computes [`weighted_distance`].
fn weighted_distance_of(weight: u32, squared: u128, norm_squared: u128) -> (term: u128)
    requires
        squared <= 3 * (0xffff_ffff * 0xffff_ffff),
        norm_squared <= 3 * (0xffff_ffff * 0xffff_ffff) * (0x1_0000 * 0x1_0000),
    ensures
        term == weighted_distance(weight as int, squared as int, norm_squared as int),
        term <= 0xffff_ffff * 0x1_0000 * 0xffff_ffff_ffff_ffff,
{
    let normaliser: u128 = isqrt(norm_squared) as u128;
    if normaliser == 0 {
        return 0;
    }
    let unit: u128 = SCORE_RESOLUTION * SCORE_RESOLUTION;
    assert(squared * unit <= 3 * (0xffff_ffff * 0xffff_ffff) * (0x1_0000 * 0x1_0000)) by (nonlinear_arith)
        requires
            squared <= 3 * (0xffff_ffff * 0xffff_ffff),
            unit == 0x1_0000 * 0x1_0000,
    ;
    let root: u128 = isqrt(squared * unit) as u128;
    let w: u128 = weight as u128;
    assert(w * SCORE_RESOLUTION * root <= 0xffff_ffff * 0x1_0000 * 0xffff_ffff_ffff_ffff) by (nonlinear_arith)
        requires
            w <= 0xffff_ffff,
            SCORE_RESOLUTION == 0x1_0000,
            root <= 0xffff_ffff_ffff_ffff,
    ;
    let x: u128 = w * SCORE_RESOLUTION * root;
    assert(x / normaliser <= x) by (nonlinear_arith)
        requires
            normaliser >= 1,
            x >= 0,
    ;
    x / normaliser
}

/// The square of the normaliser of distances in space.
fn coordinate_norm_squared_of(scale: &ScoreScale) -> (n: u128)
    ensures
        n == coordinate_norm_squared(*scale),
        n <= 3 * (0xffff_ffff * 0xffff_ffff) * (0x1_0000 * 0x1_0000),
{
    let b: u128 = scale.coordinate_bound as u128;
    assert(b * b <= 0xffff_ffff * 0xffff_ffff) by (nonlinear_arith)
        requires
            b <= 0xffff_ffff,
    ;
    let unit: u128 = SCORE_RESOLUTION * SCORE_RESOLUTION;
    let bb: u128 = 3 * (b * b);
    assert(bb * unit <= 3 * (0xffff_ffff * 0xffff_ffff) * (0x1_0000 * 0x1_0000)) by (nonlinear_arith)
        requires
            bb <= 3 * (0xffff_ffff * 0xffff_ffff),
            unit == 0x1_0000 * 0x1_0000,
    ;
    bb * unit
}

/// The square of the normaliser of distances in colour.
fn colour_norm_squared_of(scale: &ScoreScale) -> (n: u128)
    ensures
        n == colour_norm_squared(*scale),
        n <= 3 * (0xffff_ffff * 0xffff_ffff) * (0x1_0000 * 0x1_0000),
{
    let c: u128 = scale.colour_bound as u128;
    let l: u128 = scale.luminance_cap as u128;
    assert(c * c <= 0xffff_ffff * 0xffff_ffff && l * l <= 0xffff_ffff * 0xffff_ffff) by (nonlinear_arith)
        requires
            c <= 0xffff_ffff,
            l <= 0xffff_ffff,
    ;
    let unit: u128 = SCORE_RESOLUTION * SCORE_RESOLUTION;
    let sum: u128 = l * l + 2 * (c * c);
    assert(sum * unit <= 3 * (0xffff_ffff * 0xffff_ffff) * (0x1_0000 * 0x1_0000)) by (nonlinear_arith)
        requires
            sum <= 3 * (0xffff_ffff * 0xffff_ffff),
            unit == 0x1_0000 * 0x1_0000,
    ;
    sum * unit
}

impl Point {
    /// The score of `another_point` as a match for this point when it was
    /// chosen `another_point_mapping` times before. Lower is better.
    pub fn get_difference(
        &self,
        another_point: &Point,
        penalties: &Penalties,
        another_point_mapping: usize,
        scale: &ScoreScale,
    ) -> (difference: u128)
        ensures
            difference == score(*self, *another_point, another_point_mapping as int, *penalties, *scale),
    {
        let in_space: u128 = weighted_distance_of(
            penalties.coordinate,
            self.point_coord.get_coord_delta(&another_point.point_coord),
            coordinate_norm_squared_of(scale),
        );
        let in_colour: u128 = weighted_distance_of(
            penalties.colour,
            self.point_color.get_color_delta(&another_point.point_color) as u128,
            colour_norm_squared_of(scale),
        );
        let m: u128 = penalties.mapped as u128;
        let c: u128 = another_point_mapping as u128;
        assert(m * SCORE_RESOLUTION * c <= 0xffff_ffff * 0x1_0000 * 0xffff_ffff_ffff_ffff) by (nonlinear_arith)
            requires
                m <= 0xffff_ffff,
                SCORE_RESOLUTION == 0x1_0000,
                c <= 0xffff_ffff_ffff_ffff,
        ;
        in_space + in_colour + m * SCORE_RESOLUTION * c
    }

    /// Chooses among the candidates the target with the lowest score, the
    /// first of several, and counts the choice.
    pub fn get_closest(
        &self,
        next_points: &Vec<Point>,
        k_nearest_indices: &Vec<usize>,
        penalties: &Penalties,
        counts: &mut Vec<usize>,
        scale: &ScoreScale,
    ) -> (closest: Point)
        requires
            k_nearest_indices@.len() > 0,
            old(counts)@.len() == next_points@.len(),
            forall|j: int|
                0 <= j < k_nearest_indices@.len() ==> #[trigger] k_nearest_indices@[j]
                    < next_points@.len(),
            forall|j: int| 0 <= j < old(counts)@.len() ==> #[trigger] old(counts)@[j] < usize::MAX,
        ensures
            closest == next_points@[chosen_target(
                *self,
                next_points@,
                k_nearest_indices@,
                old(counts)@,
                *penalties,
                *scale,
            )],
            final(counts)@ == old(counts)@.update(
                chosen_target(
                    *self,
                    next_points@,
                    k_nearest_indices@,
                    old(counts)@,
                    *penalties,
                    *scale,
                ),
                (old(counts)@[chosen_target(
                    *self,
                    next_points@,
                    k_nearest_indices@,
                    old(counts)@,
                    *penalties,
                    *scale,
                )] + 1) as usize,
            ),
    {
        let ghost scores = candidate_scores(
            *self,
            next_points@,
            k_nearest_indices@,
            counts@,
            *penalties,
            *scale,
        );
        let first: usize = k_nearest_indices[0];
        let mut min: u128 = self.get_difference(&next_points[first], penalties, counts[first], scale);
        let mut result_at: usize = 0;
        let mut j: usize = 1;
        assert(scores.take(1).drop_last() =~= Seq::<int>::empty());
        while j < k_nearest_indices.len()
            invariant
                1 <= j <= k_nearest_indices@.len(),
                counts@ == old(counts)@,
                counts@.len() == next_points@.len(),
                scores == candidate_scores(
                    *self,
                    next_points@,
                    k_nearest_indices@,
                    counts@,
                    *penalties,
                    *scale,
                ),
                forall|t: int|
                    0 <= t < k_nearest_indices@.len() ==> #[trigger] k_nearest_indices@[t]
                        < next_points@.len(),
                result_at == first_minimum(scores.take(j as int)),
                result_at < j,
                min == scores[result_at as int],
            decreases k_nearest_indices.len() - j,
        {
            let idx: usize = k_nearest_indices[j];
            let cur: u128 = self.get_difference(&next_points[idx], penalties, counts[idx], scale);
            proof {
                let next = scores.take(j + 1);
                assert(next.drop_last() =~= scores.take(j as int));
                assert(next.last() == scores[j as int]);
                assert(next[result_at as int] == scores[result_at as int]);
            }
            if cur < min {
                min = cur;
                result_at = j;
            }
            j = j + 1;
        }
        assert(scores.take(k_nearest_indices.len() as int) =~= scores);
        let result_idx: usize = k_nearest_indices[result_at];
        let result = next_points[result_idx];
        let chosen_before: usize = counts[result_idx];
        counts[result_idx] = chosen_before + 1;
        result
    }

    /// What this point becomes: itself where it has no candidates, else the
    /// average of itself and the best of them, which is counted as chosen.
    pub fn get_average_closest(
        &self,
        next_points: &Vec<Point>,
        k_nearest_indices: &Vec<usize>,
        penalties: &Penalties,
        counts: &mut Vec<usize>,
        scale: &ScoreScale,
    ) -> (averaged: Point)
        requires
            old(counts)@.len() == next_points@.len(),
            forall|j: int|
                0 <= j < k_nearest_indices@.len() ==> #[trigger] k_nearest_indices@[j]
                    < next_points@.len(),
            forall|j: int| 0 <= j < old(counts)@.len() ==> #[trigger] old(counts)@[j] < usize::MAX,
        ensures
            k_nearest_indices@.len() == 0 ==> averaged == *self && final(counts)@ == old(counts)@,
            k_nearest_indices@.len() > 0 ==> averaged == self.average(
                next_points@[chosen_target(
                    *self,
                    next_points@,
                    k_nearest_indices@,
                    old(counts)@,
                    *penalties,
                    *scale,
                )],
            ) && final(counts)@ == old(counts)@.update(
                chosen_target(
                    *self,
                    next_points@,
                    k_nearest_indices@,
                    old(counts)@,
                    *penalties,
                    *scale,
                ),
                (old(counts)@[chosen_target(
                    *self,
                    next_points@,
                    k_nearest_indices@,
                    old(counts)@,
                    *penalties,
                    *scale,
                )] + 1) as usize,
            ),
    {
        if k_nearest_indices.len() == 0 {
            return *self;
        }
        let p = self.get_closest(next_points, k_nearest_indices, penalties, counts, scale);
        self.get_average(&p)
    }
}

/// Matches every source point against its candidates in the target frame,
/// one source after the other, and returns what each source becomes, in the
/// order of the sources, with how often each target was chosen.
pub fn interpolate_with(
    sources: &Vec<Point>,
    targets: &Vec<Point>,
    all_nearests: &Vec<Vec<usize>>,
    penalties: &Penalties,
    scale: &ScoreScale,
) -> (r: (Vec<Point>, Vec<usize>))
    requires
        candidates_fit(sources@, targets@, count_rows(all_nearests@)),
    ensures
        r.0@.len() == sources@.len(),
        forall|i: int|
            0 <= i < sources@.len() ==> #[trigger] r.0@[i] == interpolated(
                sources@,
                targets@,
                count_rows(all_nearests@),
                *penalties,
                *scale,
                i,
            ),
        r.1@ == counts_after(
            sources@,
            targets@,
            count_rows(all_nearests@),
            *penalties,
            *scale,
            sources@.len(),
        ),
{
    let ghost nearests = count_rows(all_nearests@);
    let mut counts: Vec<usize> = Vec::new();
    let mut t: usize = 0;
    while t < targets.len()
        invariant
            t <= targets.len(),
            counts@.len() == t,
            forall|j: int| 0 <= j < t ==> counts@[j] == 0,
        decreases targets.len() - t,
    {
        counts.push(0);
        t = t + 1;
    }
    assert(counts@ =~= counts_after(sources@, targets@, nearests, *penalties, *scale, 0));
    let mut out: Vec<Point> = Vec::new();
    let mut i: usize = 0;
    while i < sources.len()
        invariant
            i <= sources.len(),
            nearests == count_rows(all_nearests@),
            candidates_fit(sources@, targets@, nearests),
            out@.len() == i,
            counts@ == counts_after(sources@, targets@, nearests, *penalties, *scale, i as nat),
            forall|k: int|
                0 <= k < i ==> #[trigger] out@[k] == interpolated(
                    sources@,
                    targets@,
                    nearests,
                    *penalties,
                    *scale,
                    k,
                ),
        decreases sources.len() - i,
    {
        let point = sources[i];
        let candidates = &all_nearests[point.index];
        proof {
            lemma_counts_after_bounded(sources@, targets@, nearests, *penalties, *scale, i as nat);
            assert(candidates@ == nearests[point.index as int]);
            assert forall|j: int| 0 <= j < candidates@.len() implies #[trigger] candidates@[j]
                < targets@.len() by {
                assert(nearests[point.index as int][j] < targets@.len());
            }
        }
        let averaged = point.get_average_closest(targets, candidates, penalties, &mut counts, scale);
        out.push(averaged);
        i = i + 1;
    }
    (out, counts)
}

/// Whether every entry of every list is below `bound`.
pub open spec fn lists_below(lists: Seq<Seq<usize>>, bound: int) -> bool {
    forall|i: int, j: int| 0 <= i < lists.len() && 0 <= j < lists[i].len() ==> #[trigger] lists[i][j] < bound
}

/// Whether every entry of every list is below `bound`.
pub fn check_lists_below(lists: &Vec<Vec<usize>>, bound: usize) -> (below: bool)
    ensures
        below == lists_below(count_rows(lists@), bound as int),
{
    let ghost rows = count_rows(lists@);
    let mut i: usize = 0;
    while i < lists.len()
        invariant
            i <= lists.len(),
            rows == count_rows(lists@),
            forall|a: int, b: int| 0 <= a < i && 0 <= b < rows[a].len() ==> #[trigger] rows[a][b] < bound,
        decreases lists.len() - i,
    {
        let list = &lists[i];
        assert(list@ == rows[i as int]);
        let mut j: usize = 0;
        while j < list.len()
            invariant
                j <= list.len(),
                i < rows.len(),
                rows == count_rows(lists@),
                list@ == rows[i as int],
                forall|b: int| 0 <= b < j ==> #[trigger] rows[i as int][b] < bound,
            decreases list.len() - j,
        {
            if list[j] >= bound {
                assert(!(rows[i as int][j as int] < bound));
                return false;
            }
            j = j + 1;
        }
        i = i + 1;
    }
    true
}

/// Whether the candidate lists fit the frames.
pub fn check_candidates_fit(sources: &Vec<Point>, targets: &Vec<Point>, all_nearests: &Vec<Vec<usize>>) -> (fit:
    bool)
    ensures
        fit == candidates_fit(sources@, targets@, count_rows(all_nearests@)),
{
    let mut i: usize = 0;
    while i < sources.len()
        invariant
            i <= sources.len(),
            forall|k: int| 0 <= k < i ==> (#[trigger] sources@[k]).index < all_nearests@.len(),
        decreases sources.len() - i,
    {
        if sources[i].index >= all_nearests.len() {
            assert(!(sources@[i as int].index < count_rows(all_nearests@).len()));
            return false;
        }
        i = i + 1;
    }
    check_lists_below(all_nearests, targets.len())
}

} // verus!
