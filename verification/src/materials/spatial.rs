//! A spatial index over grid positions, queried by radius.
//!
//! The index keeps its entries in the order in which they were added and
//! answers a query by looking at each of them, so what a query returns is
//! stated entry by entry.

use vstd::prelude::*;

verus! {

/// How the distance between two positions is measured.
#[derive(Clone, Copy, Debug, PartialEq, Eq, Structural)]
pub enum Metric {
    /// The square of the straight-line distance.
    SquaredEuclidean,
    /// The largest difference along one axis.
    InfinityNorm,
}

/// The distance between two coordinates along one axis.
pub open spec fn gap(a: int, b: int) -> int {
    if a >= b {
        a - b
    } else {
        b - a
    }
}

/// The largest difference between `a` and `b` along one axis.
pub open spec fn inf_norm_of(a: [i32; 3], b: [i32; 3]) -> int {
    let dx = gap(a[0] as int, b[0] as int);
    let dy = gap(a[1] as int, b[1] as int);
    let dz = gap(a[2] as int, b[2] as int);
    let dxy = if dx > dy {
        dx
    } else {
        dy
    };
    if dxy > dz {
        dxy
    } else {
        dz
    }
}

/// The square of the straight-line distance between `a` and `b`.
pub open spec fn squared_euclidean_of(a: [i32; 3], b: [i32; 3]) -> int {
    gap(a[0] as int, b[0] as int) * gap(a[0] as int, b[0] as int) + gap(a[1] as int, b[1] as int)
        * gap(a[1] as int, b[1] as int) + gap(a[2] as int, b[2] as int) * gap(
        a[2] as int,
        b[2] as int,
    )
}

/// The distance between `a` and `b` under `metric`.
pub open spec fn distance_of(metric: Metric, a: [i32; 3], b: [i32; 3]) -> int {
    match metric {
        Metric::SquaredEuclidean => squared_euclidean_of(a, b),
        Metric::InfinityNorm => inf_norm_of(a, b),
    }
}

/// Computes [`gap`].
fn gap_between(a: i32, b: i32) -> (d: u32)
    ensures
        d == gap(a as int, b as int),
{
    if a >= b {
        (a as i64 - b as i64) as u32
    } else {
        (b as i64 - a as i64) as u32
    }
}

/// The infinity norm of `a - b`: the largest difference along one axis.
pub fn inf_norm(a: &[i32; 3], b: &[i32; 3]) -> (max: u32)
    ensures
        max == inf_norm_of(*a, *b),
{
    let max: u32;
    let dx: u32 = gap_between(a[0], b[0]);
    let dy: u32 = gap_between(a[1], b[1]);
    let dz: u32 = gap_between(a[2], b[2]);
    if dx > dy {
        max = dx;
    } else {
        max = dy;
    }
    if max > dz {
        max
    } else {
        dz
    }
}

/// The square of the straight-line distance between `a` and `b`.
pub fn squared_euclidean(a: &[i32; 3], b: &[i32; 3]) -> (d: u128)
    ensures
        d == squared_euclidean_of(*a, *b),
{
    let dx: u128 = gap_between(a[0], b[0]) as u128;
    let dy: u128 = gap_between(a[1], b[1]) as u128;
    let dz: u128 = gap_between(a[2], b[2]) as u128;
    assert(dx * dx <= 0xffff_ffff * 0xffff_ffff && dy * dy <= 0xffff_ffff * 0xffff_ffff && dz * dz
        <= 0xffff_ffff * 0xffff_ffff) by (nonlinear_arith)
        requires
            dx <= 0xffff_ffff,
            dy <= 0xffff_ffff,
            dz <= 0xffff_ffff,
    ;
    dx * dx + dy * dy + dz * dz
}

/// The distance between `a` and `b` under `metric`.
pub fn distance(metric: Metric, a: &[i32; 3], b: &[i32; 3]) -> (d: u128)
    ensures
        d == distance_of(metric, *a, *b),
{
    match metric {
        Metric::SquaredEuclidean => squared_euclidean(a, b),
        Metric::InfinityNorm => inf_norm(a, b) as u128,
    }
}

/// The entries of `entries` within `radius` of `point`, the boundary
/// included, each with its distance, in the order of `entries`.
pub open spec fn within_of(
    entries: Seq<([i32; 3], usize)>,
    point: [i32; 3],
    radius: int,
    metric: Metric,
) -> Seq<(u128, usize)>
    decreases entries.len(),
{
    if entries.len() == 0 {
        Seq::empty()
    } else {
        let before = within_of(entries.drop_last(), point, radius, metric);
        let d = distance_of(metric, point, entries.last().0);
        if d <= radius {
            before.push((d as u128, entries.last().1))
        } else {
            before
        }
    }
}

/// The payloads of query results, in their order.
pub open spec fn payloads_of(found: Seq<(u128, usize)>) -> Seq<usize> {
    Seq::new(found.len(), |i: int| found[i].1)
}

/// A query finds exactly the entries in reach: each result is an entry at
/// its true distance, which is within the radius, and every entry within the
/// radius is among the results, as often as it was added.
pub proof fn lemma_within_is_brute_force(
    entries: Seq<([i32; 3], usize)>,
    point: [i32; 3],
    radius: int,
    metric: Metric,
)
    ensures
        within_of(entries, point, radius, metric).to_multiset() == entries.filter(
            |e: ([i32; 3], usize)| distance_of(metric, point, e.0) <= radius,
        ).map_values(|e: ([i32; 3], usize)| (distance_of(metric, point, e.0) as u128, e.1)).to_multiset(),
        within_of(entries, point, radius, metric) == entries.filter(
            |e: ([i32; 3], usize)| distance_of(metric, point, e.0) <= radius,
        ).map_values(|e: ([i32; 3], usize)| (distance_of(metric, point, e.0) as u128, e.1)),
    decreases entries.len(),
{
    let keep = |e: ([i32; 3], usize)| distance_of(metric, point, e.0) <= radius;
    let tag = |e: ([i32; 3], usize)| (distance_of(metric, point, e.0) as u128, e.1);
    reveal(Seq::filter);
    if entries.len() > 0 {
        let rest = entries.drop_last();
        lemma_within_is_brute_force(rest, point, radius, metric);
        if keep(entries.last()) {
            assert(entries.filter(keep) == rest.filter(keep).push(entries.last()));
            assert(rest.filter(keep).push(entries.last()).map_values(tag) =~= rest.filter(
                keep,
            ).map_values(tag).push(tag(entries.last())));
        }
    } else {
        assert(entries.filter(keep).map_values(tag) =~= Seq::<(u128, usize)>::empty());
    }
}

/// Where a result at distance `d` goes into results sorted by distance:
/// behind every result that is not farther, so that of two entries at the
/// same distance the one added first stays first.
pub open spec fn insertion_place(sorted: Seq<(u128, usize)>, d: int) -> int
    decreases sorted.len(),
{
    if sorted.len() == 0 {
        0
    } else if sorted.last().0 <= d {
        sorted.len() as int
    } else {
        insertion_place(sorted.drop_last(), d)
    }
}

/// The `num` entries nearest to `point`, each with its distance, nearest
/// first; of entries at the same distance those added first come first and
/// are kept first.
pub open spec fn nearest_of(
    entries: Seq<([i32; 3], usize)>,
    point: [i32; 3],
    num: int,
    metric: Metric,
) -> Seq<(u128, usize)>
    decreases entries.len(),
{
    if entries.len() == 0 {
        Seq::empty()
    } else {
        let before = nearest_of(entries.drop_last(), point, num, metric);
        let d = distance_of(metric, point, entries.last().0);
        let place = insertion_place(before, d);
        if place >= num {
            before
        } else {
            let grown = before.insert(place, (d as u128, entries.last().1));
            if grown.len() > num {
                grown.drop_last()
            } else {
                grown
            }
        }
    }
}

/// Whether results are in ascending order of distance.
pub open spec fn ascending(found: Seq<(u128, usize)>) -> bool {
    forall|i: int, j: int| 0 <= i <= j < found.len() ==> found[i].0 <= found[j].0
}

/// Whether every payload among the results is the payload of an entry.
pub open spec fn payloads_from(found: Seq<(u128, usize)>, entries: Seq<([i32; 3], usize)>) -> bool {
    forall|i: int|
        0 <= i < found.len() ==> exists|e: int|
            0 <= e < entries.len() && entries[e].1 == (#[trigger] found[i]).1
}

/// In ascending results the place for distance `d` has only results that
/// are not farther before it and only farther ones from it on.
pub proof fn lemma_insertion_place(sorted: Seq<(u128, usize)>, d: int)
    requires
        ascending(sorted),
    ensures
        0 <= insertion_place(sorted, d) <= sorted.len(),
        forall|i: int| 0 <= i < insertion_place(sorted, d) ==> (#[trigger] sorted[i]).0 <= d,
        forall|i: int| insertion_place(sorted, d) <= i < sorted.len() ==> (#[trigger] sorted[i]).0 > d,
    decreases sorted.len(),
{
    if sorted.len() > 0 && sorted.last().0 > d {
        let rest = sorted.drop_last();
        assert(ascending(rest)) by {
            assert forall|i: int, j: int| 0 <= i <= j < rest.len() implies rest[i].0 <= rest[j].0 by {
                assert(rest[i] == sorted[i] && rest[j] == sorted[j]);
            }
        }
        lemma_insertion_place(rest, d);
        assert forall|i: int| 0 <= i < insertion_place(sorted, d) implies (#[trigger] sorted[i]).0
            <= d by {
            assert(rest[i] == sorted[i]);
        }
        assert forall|i: int| insertion_place(sorted, d) <= i < sorted.len() implies (#[trigger] sorted[i]).0
            > d by {
            if i < rest.len() {
                assert(rest[i] == sorted[i]);
            }
        }
    }
}

/// The nearest entries are as many as asked for, or all there are; they are
/// in ascending order of distance; each is an entry at its true distance
/// from the point; and where some entry is left out, it is at least as far
/// as the farthest result.
pub proof fn lemma_nearest_of(entries: Seq<([i32; 3], usize)>, point: [i32; 3], num: int, metric: Metric)
    requires
        num >= 0,
    ensures
        nearest_of(entries, point, num, metric).len() == (if entries.len() <= num {
            entries.len() as int
        } else {
            num
        }),
        ascending(nearest_of(entries, point, num, metric)),
        forall|i: int|
            0 <= i < nearest_of(entries, point, num, metric).len() ==> exists|e: int|
                0 <= e < entries.len() && #[trigger] nearest_of(entries, point, num, metric)[i] == (
                    distance_of(metric, point, entries[e].0) as u128,
                    entries[e].1,
                ),
        forall|e: int|
            0 <= e < entries.len() && entries.len() > num && num > 0 ==> distance_of(
                metric,
                point,
                (#[trigger] entries[e]).0,
            ) >= nearest_of(entries, point, num, metric).last().0 || exists|i: int|
                0 <= i < num && #[trigger] nearest_of(entries, point, num, metric)[i] == (
                    distance_of(metric, point, entries[e].0) as u128,
                    entries[e].1,
                ),
    decreases entries.len(),
{
    let found = nearest_of(entries, point, num, metric);
    if entries.len() > 0 {
        let rest = entries.drop_last();
        let before = nearest_of(rest, point, num, metric);
        lemma_nearest_of(rest, point, num, metric);
        let d = distance_of(metric, point, entries.last().0);
        lemma_distance_fits(metric, point, entries.last().0);
        let place = insertion_place(before, d);
        lemma_insertion_place(before, d);
        let item = (d as u128, entries.last().1);
        let last = entries.len() - 1;
        if place >= num {
            assert(found == before);
            assert forall|i: int| 0 <= i < found.len() implies exists|e: int|
                0 <= e < entries.len() && #[trigger] found[i] == (
                    distance_of(metric, point, entries[e].0) as u128,
                    entries[e].1,
                ) by {
                let e = choose|e: int|
                    0 <= e < rest.len() && before[i] == (
                        distance_of(metric, point, rest[e].0) as u128,
                        rest[e].1,
                    );
                assert(rest[e] == entries[e]);
            }
            assert forall|e: int| 0 <= e < entries.len() && entries.len() > num && num > 0 implies distance_of(
                metric,
                point,
                (#[trigger] entries[e]).0,
            ) >= found.last().0 || exists|i: int|
                0 <= i < num && #[trigger] found[i] == (
                    distance_of(metric, point, entries[e].0) as u128,
                    entries[e].1,
                ) by {
                assert(before.len() == num);
                if e == last {
                    assert(before[num - 1].0 <= d);
                } else {
                    assert(rest[e] == entries[e]);
                    if rest.len() > num {
                    } else {
                        lemma_nearest_holds_all(rest, point, num, metric, e);
                    }
                }
            }
        } else {
            let grown = before.insert(place, item);
            assert(ascending(grown)) by {
                assert forall|i: int, j: int| 0 <= i <= j < grown.len() implies grown[i].0
                    <= grown[j].0 by {
                    if i < place && j < place {
                        assert(grown[i] == before[i] && grown[j] == before[j]);
                    } else if i < place && j == place {
                        assert(grown[i] == before[i]);
                    } else if i < place {
                        assert(grown[i] == before[i] && grown[j] == before[j - 1]);
                    } else if i == place && j > place {
                        assert(grown[j] == before[j - 1]);
                    } else if i > place {
                        assert(grown[i] == before[i - 1] && grown[j] == before[j - 1]);
                    }
                }
            }
            assert(ascending(found)) by {
                assert forall|i: int, j: int| 0 <= i <= j < found.len() implies found[i].0
                    <= found[j].0 by {
                    assert(found[i] == grown[i] && found[j] == grown[j]);
                }
            }
            assert forall|i: int| 0 <= i < found.len() implies exists|e: int|
                0 <= e < entries.len() && #[trigger] found[i] == (
                    distance_of(metric, point, entries[e].0) as u128,
                    entries[e].1,
                ) by {
                assert(found[i] == grown[i]);
                if i == place {
                    assert(found[i] == (
                        distance_of(metric, point, entries[last].0) as u128,
                        entries[last].1,
                    ));
                } else {
                    let k = if i < place {
                        i
                    } else {
                        i - 1
                    };
                    assert(grown[i] == before[k]);
                    let e = choose|e: int|
                        0 <= e < rest.len() && before[k] == (
                            distance_of(metric, point, rest[e].0) as u128,
                            rest[e].1,
                        );
                    assert(rest[e] == entries[e]);
                }
            }
            assert forall|e: int| 0 <= e < entries.len() && entries.len() > num && num > 0 implies distance_of(
                metric,
                point,
                (#[trigger] entries[e]).0,
            ) >= found.last().0 || exists|i: int|
                0 <= i < num && #[trigger] found[i] == (
                    distance_of(metric, point, entries[e].0) as u128,
                    entries[e].1,
                ) by {
                assert(found.len() == num);
                assert(before.len() == num);
                assert(found == grown.drop_last());
                if e == last {
                    assert(found[place] == grown[place]);
                } else {
                    assert(rest[e] == entries[e]);
                    let de = distance_of(metric, point, entries[e].0);
                    let kept_before = exists|i: int|
                        0 <= i < num && #[trigger] before[i] == (de as u128, entries[e].1);
                    if rest.len() <= num {
                        lemma_nearest_holds_all(rest, point, num, metric, e);
                    }
                    if kept_before {
                        let i = choose|i: int|
                            0 <= i < num && #[trigger] before[i] == (de as u128, entries[e].1);
                        if i < place {
                            assert(found[i] == grown[i]);
                        } else if i + 1 < num {
                            assert(found[i + 1] == grown[i + 1]);
                            assert(grown[i + 1] == before[i]);
                        } else {
                            // pushed out: it was the farthest, and what is now the
                            // farthest was before it or is the new entry
                            assert(found[num - 1] == grown[num - 1]);
                            if num - 1 == place {
                            } else {
                                assert(grown[num - 1] == before[num - 2]);
                            }
                            lemma_distance_fits(metric, point, entries[e].0);
                        }
                    } else {
                        assert(de >= before.last().0);
                        assert(found[num - 1] == grown[num - 1]);
                        if num - 1 == place {
                        } else {
                            assert(grown[num - 1] == before[num - 2]);
                        }
                    }
                }
            }
        }
    }
}

/// Where no more entries were added than were asked for, every entry is
/// among the results.
pub proof fn lemma_nearest_holds_all(
    entries: Seq<([i32; 3], usize)>,
    point: [i32; 3],
    num: int,
    metric: Metric,
    e: int,
)
    requires
        0 <= e < entries.len() <= num,
    ensures
        exists|i: int|
            0 <= i < entries.len() && #[trigger] nearest_of(entries, point, num, metric)[i] == (
                distance_of(metric, point, entries[e].0) as u128,
                entries[e].1,
            ),
        nearest_of(entries, point, num, metric).len() == entries.len(),
    decreases entries.len(),
{
    let found = nearest_of(entries, point, num, metric);
    let rest = entries.drop_last();
    let before = nearest_of(rest, point, num, metric);
    let d = distance_of(metric, point, entries.last().0);
    lemma_nearest_of(rest, point, num, metric);
    lemma_insertion_place(before, d);
    let place = insertion_place(before, d);
    let grown = before.insert(place, (d as u128, entries.last().1));
    assert(found == grown);
    if e == entries.len() - 1 {
        assert(found[place] == (d as u128, entries.last().1));
    } else {
        lemma_nearest_holds_all(rest, point, num, metric, e);
        assert(rest[e] == entries[e]);
        let i = choose|i: int|
            0 <= i < rest.len() && #[trigger] before[i] == (
                distance_of(metric, point, rest[e].0) as u128,
                rest[e].1,
            );
        if i < place {
            assert(found[i] == before[i]);
        } else {
            assert(found[i + 1] == before[i]);
        }
    }
}

/// Distances fit in 128 bits.
pub proof fn lemma_distance_fits(metric: Metric, a: [i32; 3], b: [i32; 3])
    ensures
        0 <= distance_of(metric, a, b) <= 3 * (0xffff_ffff * 0xffff_ffff),
{
    let dx = gap(a[0] as int, b[0] as int);
    let dy = gap(a[1] as int, b[1] as int);
    let dz = gap(a[2] as int, b[2] as int);
    assert(0 <= dx * dx <= 0xffff_ffff * 0xffff_ffff && 0 <= dy * dy <= 0xffff_ffff * 0xffff_ffff && 0
        <= dz * dz <= 0xffff_ffff * 0xffff_ffff) by (nonlinear_arith)
        requires
            0 <= dx <= 0xffff_ffff,
            0 <= dy <= 0xffff_ffff,
            0 <= dz <= 0xffff_ffff,
    ;
}

/// Positions with a payload each, kept in the order in which they were added.
#[derive(Debug)]
pub struct SpatialIndex {
    pub entries: Vec<([i32; 3], usize)>,
}

impl View for SpatialIndex {
    type V = Seq<([i32; 3], usize)>;

    open spec fn view(&self) -> Seq<([i32; 3], usize)> {
        self.entries@
    }
}

impl SpatialIndex {
    /// An index without entries.
    pub fn new() -> (index: Self)
        ensures
            index@.len() == 0,
    {
        SpatialIndex { entries: Vec::new() }
    }

    /// Adds `point` with the payload `data`.
    pub fn add(&mut self, point: &[i32; 3], data: usize)
        ensures
            final(self)@ == old(self)@.push((*point, data)),
    {
        self.entries.push((*point, data));
    }

    /// The number of entries.
    pub fn size(&self) -> (n: usize)
        ensures
            n == self@.len(),
    {
        self.entries.len()
    }

    /// All entries within `radius` of `point` under `metric`, the boundary
    /// included, each with its distance, in the order in which they were
    /// added.
    pub fn within_unsorted(&self, point: &[i32; 3], radius: u128, metric: Metric) -> (found: Vec<(u128, usize)>)
        ensures
            found@ == within_of(self@, *point, radius as int, metric),
    {
        let mut found: Vec<(u128, usize)> = Vec::new();
        let mut i: usize = 0;
        while i < self.entries.len()
            invariant
                i <= self.entries.len(),
                found@ == within_of(self@.take(i as int), *point, radius as int, metric),
            decreases self.entries.len() - i,
        {
            let entry = &self.entries[i];
            let d: u128 = distance(metric, point, &entry.0);
            proof {
                let next = self@.take(i + 1);
                assert(next.drop_last() =~= self@.take(i as int));
                assert(next.last() == self@[i as int]);
            }
            if d <= radius {
                found.push((d, entry.1));
            }
            i = i + 1;
        }
        assert(self@.take(self.entries.len() as int) =~= self@);
        found
    }

    /// The `num` entries nearest to `point` under `metric`, each with its
    /// distance, nearest first. Of entries at the same distance those added
    /// first come first.
    pub fn nearest(&self, point: &[i32; 3], num: usize, metric: Metric) -> (found: Vec<(u128, usize)>)
        ensures
            found@ == nearest_of(self@, *point, num as int, metric),
    {
        let mut found: Vec<(u128, usize)> = Vec::new();
        let mut i: usize = 0;
        while i < self.entries.len()
            invariant
                i <= self.entries.len(),
                found@ == nearest_of(self@.take(i as int), *point, num as int, metric),
            decreases self.entries.len() - i,
        {
            let entry = &self.entries[i];
            let d: u128 = distance(metric, point, &entry.0);
            proof {
                let next = self@.take(i + 1);
                assert(next.drop_last() =~= self@.take(i as int));
                assert(next.last() == self@[i as int]);
                lemma_nearest_of(self@.take(i as int), *point, num as int, metric);
            }
            let mut place: usize = found.len();
            assert(found@.take(found@.len() as int) =~= found@);
            while place > 0 && found[place - 1].0 > d
                invariant
                    place <= found@.len(),
                    insertion_place(found@, d as int) == insertion_place(found@.take(place as int), d as int),
                decreases place,
            {
                proof {
                    let upto = found@.take(place as int);
                    assert(upto.drop_last() =~= found@.take(place - 1));
                    assert(upto.last() == found@[place - 1]);
                }
                place = place - 1;
            }
            proof {
                let upto = found@.take(place as int);
                if place > 0 {
                    assert(upto.last() == found@[place - 1]);
                }
                assert(found@.take(found@.len() as int) =~= found@);
            }
            if place < num {
                found.insert(place, (d, entry.1));
                if found.len() > num {
                    found.pop();
                }
            }
            i = i + 1;
        }
        assert(self@.take(self.entries.len() as int) =~= self@);
        found
    }
}

} // verus!
