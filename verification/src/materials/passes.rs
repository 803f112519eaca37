//! What may follow the matching of two frames: flagging targets that no
//! source chose, and enlarging points where the interpolated frame is thin.

use vstd::prelude::*;
use crate::color::PointColor;
use crate::formats::metadata::count_rows;
use crate::materials::points::{Point, Points, POINT_SIZE_NEAR_CRACK, POINT_SIZE_ONE};

verus! {

/// The colour that flags targets in a neighbourhood that no source chose.
pub open spec fn unmapped_colour() -> PointColor {
    PointColor { red: 0, green: 255, blue: 0 }
}

/// The colour that flags points near a crack.
pub open spec fn crack_colour() -> PointColor {
    PointColor { red: 255, green: 0, blue: 0 }
}

/// Whether none of the listed points of the frame was ever chosen.
pub open spec fn all_unmapped(frame: Seq<Point>, listed: Seq<usize>) -> bool {
    forall|k: int| 0 <= k < listed.len() ==> frame[#[trigger] listed[k] as int].mapping == 0
}

/// Whether point `i` of the frame is the centre of an unmapped
/// neighbourhood: it was never chosen, and neither was any of its
/// neighbours.
pub open spec fn is_unmapped_centre(frame: Seq<Point>, neighbours: Seq<Seq<usize>>, i: int) -> bool {
    frame[i].mapping == 0 && all_unmapped(frame, neighbours[i])
}

/// Whether point `j` is flagged on account of one of the first `n` points:
/// it is a neighbour of one of them that is the centre of an unmapped
/// neighbourhood.
pub open spec fn flagged_by_first(frame: Seq<Point>, neighbours: Seq<Seq<usize>>, n: int, j: int) -> bool {
    exists|i: int, k: int|
        0 <= i < n && 0 <= k < neighbours[i].len() && is_unmapped_centre(frame, neighbours, i)
            && #[trigger] neighbours[i][k] == j
}

/// The number of points of the frame that were chosen at least once.
pub open spec fn mapped_count(frame: Seq<Point>) -> int
    decreases frame.len(),
{
    if frame.len() == 0 {
        0
    } else {
        mapped_count(frame.drop_last()) + if frame.last().mapping != 0 {
            1int
        } else {
            0int
        }
    }
}

/// The number of mapped points is at most the number of points.
pub proof fn lemma_mapped_count_bounded(frame: Seq<Point>)
    ensures
        0 <= mapped_count(frame) <= frame.len(),
    decreases frame.len(),
{
    if frame.len() > 0 {
        lemma_mapped_count_bounded(frame.drop_last());
    }
}

/// Whether the neighbour lists fit the frame: one list per point, and every
/// neighbour a place in the frame.
pub open spec fn neighbours_fit(frame: Seq<Point>, neighbours: Seq<Seq<usize>>) -> bool {
    &&& neighbours.len() == frame.len()
    &&& forall|i: int, k: int|
        0 <= i < neighbours.len() && 0 <= k < neighbours[i].len() ==> #[trigger] neighbours[i][k]
            < frame.len()
}

/// Whether the neighbour lists fit the frame.
pub fn check_neighbours_fit(frame: &Vec<Point>, neighbours: &Vec<Vec<usize>>) -> (fit: bool)
    ensures
        fit == neighbours_fit(frame@, count_rows(neighbours@)),
{
    neighbours.len() == frame.len() && crate::materials::interpolate::check_lists_below(
        neighbours,
        frame.len(),
    )
}

impl Points {
    /// Flags isolated unmapped neighbourhoods of the reference frame: where
    /// a point was never chosen and none of its neighbours was either, all
    /// these neighbours are coloured green. Nothing else changes. Returns
    /// the number of points that were chosen at least once.
    pub fn mark_unmapped_with(&mut self, neighbours: &Vec<Vec<usize>>) -> (mapped_points: usize)
        requires
            neighbours_fit(old(self).reference_frame@, count_rows(neighbours@)),
        ensures
            final(self).data == old(self).data,
            final(self).delta_pos_vector == old(self).delta_pos_vector,
            final(self).delta_colours == old(self).delta_colours,
            final(self).reference_frame@.len() == old(self).reference_frame@.len(),
            forall|j: int|
                0 <= j < old(self).reference_frame@.len() ==> #[trigger] final(self).reference_frame@[j]
                    == (if flagged_by_first(
                    old(self).reference_frame@,
                    count_rows(neighbours@),
                    old(self).reference_frame@.len() as int,
                    j,
                ) {
                    Point { point_color: unmapped_colour(), ..old(self).reference_frame@[j] }
                } else {
                    old(self).reference_frame@[j]
                }),
            mapped_points == mapped_count(old(self).reference_frame@),
    {
        let ghost frame = self.reference_frame@;
        let ghost lists = count_rows(neighbours@);
        let n: usize = self.reference_frame.len();
        let mut mapped_points: usize = 0;
        let mut i: usize = 0;
        assert(frame.take(0) =~= Seq::<Point>::empty());
        while i < n
            invariant
                i <= n,
                n == frame.len(),
                lists == count_rows(neighbours@),
                neighbours_fit(frame, lists),
                self.data == old(self).data,
                self.delta_pos_vector == old(self).delta_pos_vector,
                self.delta_colours == old(self).delta_colours,
                self.reference_frame@.len() == n,
                mapped_points == mapped_count(frame.take(i as int)),
                forall|j: int|
                    0 <= j < n ==> #[trigger] self.reference_frame@[j] == (if flagged_by_first(
                        frame,
                        lists,
                        i as int,
                        j,
                    ) {
                        Point { point_color: unmapped_colour(), ..frame[j] }
                    } else {
                        frame[j]
                    }),
            decreases n - i,
        {
            proof {
                assert(frame.take(i + 1).drop_last() =~= frame.take(i as int));
                assert(frame.take(i + 1).last() == frame[i as int]);
                lemma_mapped_count_bounded(frame.take(i + 1));
            }
            let list = &neighbours[i];
            assert(list@ == lists[i as int]);
            if self.reference_frame[i].mapping == 0 {
                let mut all: bool = true;
                let mut k: usize = 0;
                while k < list.len()
                    invariant
                        k <= list.len(),
                        list@ == lists[i as int],
                        i < n,
                        n == frame.len(),
                        neighbours_fit(frame, lists),
                        self.reference_frame@.len() == n,
                        forall|j: int|
                            0 <= j < n ==> (#[trigger] self.reference_frame@[j]).mapping
                                == frame[j].mapping,
                        all == all_unmapped(frame, list@.take(k as int)),
                    decreases list.len() - k,
                {
                    let idx: usize = list[k];
                    assert(lists[i as int][k as int] < frame.len());
                    proof {
                        let next = list@.take(k + 1);
                        let before = list@.take(k as int);
                        if all_unmapped(frame, before) && frame[idx as int].mapping == 0 {
                            assert forall|t: int| 0 <= t < next.len() implies frame[#[trigger] next[t] as int].mapping
                                == 0 by {
                                if t < k {
                                    assert(before[t] == next[t]);
                                }
                            }
                        } else if !all_unmapped(frame, before) {
                            let t = choose|t: int|
                                0 <= t < before.len() && frame[#[trigger] before[t] as int].mapping != 0;
                            assert(next[t] == before[t]);
                        } else {
                            assert(next[k as int] == idx);
                        }
                    }
                    if self.reference_frame[idx].mapping != 0 {
                        all = false;
                    }
                    k = k + 1;
                }
                assert(list@.take(list.len() as int) =~= list@);
                let ghost reached = self.reference_frame@;
                if all {
                    let mut k: usize = 0;
                    while k < list.len()
                        invariant
                            k <= list.len(),
                            list@ == lists[i as int],
                            i < n,
                            n == frame.len(),
                            neighbours_fit(frame, lists),
                            self.data == old(self).data,
                            self.delta_pos_vector == old(self).delta_pos_vector,
                            self.delta_colours == old(self).delta_colours,
                            self.reference_frame@.len() == n,
                            reached.len() == n,
                            forall|j: int|
                                0 <= j < n ==> #[trigger] self.reference_frame@[j] == (if exists|t: int|
                                    0 <= t < k && #[trigger] list@[t] == j {
                                    Point { point_color: unmapped_colour(), ..frame[j] }
                                } else {
                                    reached[j]
                                }),
                            forall|j: int|
                                0 <= j < n ==> #[trigger] reached[j] == (if flagged_by_first(
                                    frame,
                                    lists,
                                    i as int,
                                    j,
                                ) {
                                    Point { point_color: unmapped_colour(), ..frame[j] }
                                } else {
                                    frame[j]
                                }),
                        decreases list.len() - k,
                    {
                        let idx: usize = list[k];
                        assert(lists[i as int][k as int] < frame.len());
                        let ghost before = self.reference_frame@;
                        let mut point = self.reference_frame[idx];
                        point.point_color = PointColor::new(0, 255, 0);
                        self.reference_frame[idx] = point;
                        proof {
                            assert forall|j: int| 0 <= j < n implies #[trigger] self.reference_frame@[j]
                                == (if exists|t: int| 0 <= t < k + 1 && #[trigger] list@[t] == j {
                                Point { point_color: unmapped_colour(), ..frame[j] }
                            } else {
                                reached[j]
                            }) by {
                                if j == idx {
                                    assert(list@[k as int] == j);
                                    assert(before[j] == Point { point_color: unmapped_colour(), ..frame[j] }
                                        || before[j] == reached[j]);
                                    assert(reached[j] == Point { point_color: unmapped_colour(), ..frame[j] }
                                        || reached[j] == frame[j]);
                                } else {
                                    assert(self.reference_frame@[j] == before[j]);
                                    if exists|t: int| 0 <= t < k + 1 && #[trigger] list@[t] == j {
                                        let t = choose|t: int| 0 <= t < k + 1 && #[trigger] list@[t] == j;
                                        assert(t < k);
                                    }
                                }
                            }
                        }
                        k = k + 1;
                    }
                }
                proof {
                    assert forall|j: int| 0 <= j < n implies #[trigger] self.reference_frame@[j] == (if flagged_by_first(
                        frame,
                        lists,
                        i + 1,
                        j,
                    ) {
                        Point { point_color: unmapped_colour(), ..frame[j] }
                    } else {
                        frame[j]
                    }) by {
                        let newly = all && exists|t: int| 0 <= t < list@.len() && #[trigger] list@[t] == j;
                        if newly {
                            let t = choose|t: int| 0 <= t < list@.len() && #[trigger] list@[t] == j;
                            assert(is_unmapped_centre(frame, lists, i as int));
                            assert(lists[i as int][t] == j);
                            assert(flagged_by_first(frame, lists, i + 1, j));
                        } else if flagged_by_first(frame, lists, i as int, j) {
                            let (a, b) = choose|a: int, b: int|
                                0 <= a < i && 0 <= b < lists[a].len() && is_unmapped_centre(frame, lists, a)
                                    && #[trigger] lists[a][b] == j;
                            assert(0 <= a < i + 1 && lists[a][b] == j);
                            assert(flagged_by_first(frame, lists, i + 1, j));
                        } else if flagged_by_first(frame, lists, i + 1, j) {
                            let (a, b) = choose|a: int, b: int|
                                0 <= a < i + 1 && 0 <= b < lists[a].len() && is_unmapped_centre(
                                    frame,
                                    lists,
                                    a,
                                ) && #[trigger] lists[a][b] == j;
                            if a < i {
                                assert(flagged_by_first(frame, lists, i as int, j));
                            } else {
                                assert(all);
                                assert(list@[b] == j);
                                assert(false);
                            }
                        }
                    }
                }
            } else {
                mapped_points = mapped_points + 1;
                proof {
                    assert forall|j: int| 0 <= j < n implies flagged_by_first(frame, lists, i + 1, j)
                        == flagged_by_first(frame, lists, i as int, j) by {
                        if flagged_by_first(frame, lists, i + 1, j) {
                            let (a, b) = choose|a: int, b: int|
                                0 <= a < i + 1 && 0 <= b < lists[a].len() && is_unmapped_centre(
                                    frame,
                                    lists,
                                    a,
                                ) && #[trigger] lists[a][b] == j;
                            assert(a < i);
                        }
                        if flagged_by_first(frame, lists, i as int, j) {
                            let (a, b) = choose|a: int, b: int|
                                0 <= a < i && 0 <= b < lists[a].len() && is_unmapped_centre(frame, lists, a)
                                    && #[trigger] lists[a][b] == j;
                            assert(0 <= a < i + 1 && lists[a][b] == j);
                        }
                    }
                }
            }
            i = i + 1;
        }
        assert(frame.take(n as int) =~= frame);
        mapped_points
    }

    /// Enlarges the points where the frame is thin: a point with no more
    /// neighbours than its reference density is marked as near a crack and
    /// drawn at twice the normal size. `neighbour_counts[i]` is the number of
    /// points within the crack radius of point `i`.
    pub fn adjust_point_sizes_with(&mut self, neighbour_counts: &Vec<usize>)
        requires
            neighbour_counts@.len() == old(self).data@.len(),
        ensures
            final(self).delta_pos_vector == old(self).delta_pos_vector,
            final(self).delta_colours == old(self).delta_colours,
            final(self).reference_frame == old(self).reference_frame,
            final(self).data@.len() == old(self).data@.len(),
            forall|i: int|
                0 <= i < old(self).data@.len() ==> #[trigger] final(self).data@[i] == resized(
                    old(self).data@[i],
                    neighbour_counts@[i] as int,
                ),
    {
        let n: usize = self.data.len();
        let mut idx: usize = 0;
        while idx < n
            invariant
                idx <= n,
                n == old(self).data@.len(),
                neighbour_counts@.len() == n,
                self.delta_pos_vector == old(self).delta_pos_vector,
                self.delta_colours == old(self).delta_colours,
                self.reference_frame == old(self).reference_frame,
                self.data@.len() == n,
                forall|i: int|
                    0 <= i < idx ==> #[trigger] self.data@[i] == resized(
                        old(self).data@[i],
                        neighbour_counts@[i] as int,
                    ),
                forall|i: int| idx <= i < n ==> #[trigger] self.data@[i] == old(self).data@[i],
            decreases n - idx,
        {
            let mut point = self.data[idx];
            if neighbour_counts[idx] <= point.point_density as usize {
                point.near_crack = true;
                point.point_size = POINT_SIZE_NEAR_CRACK;
                self.data[idx] = point;
            }
            idx = idx + 1;
        }
    }

    /// A copy of `point_data` for inspection: every point at normal size,
    /// and the points near a crack coloured red.
    pub fn mark_points_near_cracks(&mut self, point_data: &Points) -> (marked: Points)
        ensures
            *final(self) == *old(self),
            marked.delta_pos_vector@ == point_data.delta_pos_vector@,
            marked.delta_colours@ == point_data.delta_colours@,
            marked.reference_frame@ == point_data.reference_frame@,
            marked.data@.len() == point_data.data@.len(),
            forall|i: int|
                0 <= i < point_data.data@.len() ==> #[trigger] marked.data@[i] == crack_marked(
                    point_data.data@[i],
                ),
    {
        let mut marked_interpolated_frame = point_data.clone();
        let n: usize = point_data.data.len();
        let mut idx: usize = 0;
        while idx < n
            invariant
                idx <= n,
                n == point_data.data@.len(),
                marked_interpolated_frame.delta_pos_vector@ == point_data.delta_pos_vector@,
                marked_interpolated_frame.delta_colours@ == point_data.delta_colours@,
                marked_interpolated_frame.reference_frame@ == point_data.reference_frame@,
                marked_interpolated_frame.data@.len() == n,
                forall|i: int|
                    0 <= i < idx ==> #[trigger] marked_interpolated_frame.data@[i] == crack_marked(
                        point_data.data@[i],
                    ),
                forall|i: int|
                    idx <= i < n ==> #[trigger] marked_interpolated_frame.data@[i]
                        == point_data.data@[i],
            decreases n - idx,
        {
            let mut point = marked_interpolated_frame.data[idx];
            point.point_size = POINT_SIZE_ONE;
            if point.near_crack {
                point.point_color = PointColor::new(255, 0, 0);
            }
            marked_interpolated_frame.data[idx] = point;
            idx = idx + 1;
        }
        marked_interpolated_frame
    }
}

/// A point after crack detection with `neighbour_count` neighbours in
/// reach: marked and enlarged where it has no more neighbours than its
/// reference density, else as it was.
pub open spec fn resized(point: Point, neighbour_count: int) -> Point {
    if neighbour_count <= point.point_density {
        Point { near_crack: true, point_size: POINT_SIZE_NEAR_CRACK, ..point }
    } else {
        point
    }
}

/// A point as it is shown for inspection: at normal size, and red where it
/// is near a crack.
pub open spec fn crack_marked(point: Point) -> Point {
    if point.near_crack {
        Point { point_size: POINT_SIZE_ONE, point_color: crack_colour(), ..point }
    } else {
        Point { point_size: POINT_SIZE_ONE, ..point }
    }
}

} // verus!
