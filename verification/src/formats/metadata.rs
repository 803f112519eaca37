//! The description of a ladder that playback reads: per frame the bounds,
//! the base counts per segment, and the additional counts per segment and
//! resolution, as running totals.

use vstd::prelude::*;
use crate::counts::{lemma_prefix_sum_monotone, lemma_prefix_sum_step, non_decreasing, prefix_sum, sum_counts};
use crate::formats::bounds::Bounds;

verus! {

/// Per frame: its bounds, the number of base points in each segment, and for
/// each segment the number of additional points up to each resolution.
#[derive(Debug)]
pub struct MetaData {
    pub bounds: Vec<Bounds>,
    pub base_point_num: Vec<Vec<usize>>,
    pub additional_point_nums: Vec<Vec<Vec<usize>>>,
    pub num_of_additional_file: usize,
    pub partitions: (usize, usize, usize),
}

/// What a [`MetaData`] holds, as sequences.
pub struct MetaDataView {
    pub bounds: Seq<Bounds>,
    pub base_point_num: Seq<Seq<usize>>,
    pub additional_point_nums: Seq<Seq<Seq<usize>>>,
    pub num_of_additional_file: usize,
    pub partitions: (usize, usize, usize),
}

/// The views of a vector of lists of counts.
pub open spec fn count_rows(rows: Seq<Vec<usize>>) -> Seq<Seq<usize>> {
    Seq::new(rows.len(), |s: int| rows[s]@)
}

/// The views of a vector of tables of counts.
pub open spec fn count_tables(tables: Seq<Vec<Vec<usize>>>) -> Seq<Seq<Seq<usize>>> {
    Seq::new(tables.len(), |i: int| count_rows(tables[i]@))
}

/// The running totals of every row of a table of counts: entry `r` of row
/// `s` is the sum of the counts of row `s` up to and including the one at `r`.
pub open spec fn running_total_rows(table: Seq<Seq<usize>>) -> Seq<Seq<usize>> {
    Seq::new(
        table.len(),
        |s: int| Seq::new(table[s].len(), |r: int| prefix_sum(table[s], r + 1) as usize),
    )
}

/// Whether every row of the table is non-decreasing.
pub open spec fn rows_non_decreasing(table: Seq<Seq<usize>>) -> bool {
    forall|s: int| 0 <= s < table.len() ==> non_decreasing(#[trigger] table[s])
}

impl View for MetaData {
    type V = MetaDataView;

    open spec fn view(&self) -> MetaDataView {
        MetaDataView {
            bounds: self.bounds@,
            base_point_num: count_rows(self.base_point_num@),
            additional_point_nums: count_tables(self.additional_point_nums@),
            num_of_additional_file: self.num_of_additional_file,
            partitions: self.partitions,
        }
    }
}

impl MetaDataView {
    /// The number of frames described: the length of the shortest of the
    /// three per-frame lists.
    pub open spec fn frames(self) -> int {
        let a = self.bounds.len();
        let b = self.base_point_num.len();
        let c = self.additional_point_nums.len();
        if a <= b && a <= c {
            a as int
        } else if b <= c {
            b as int
        } else {
            c as int
        }
    }

    /// Whether the additional counts of every frame and segment are running
    /// totals: non-decreasing from one resolution to the next.
    pub open spec fn is_cumulative(self) -> bool {
        forall|i: int|
            0 <= i < self.additional_point_nums.len() ==> rows_non_decreasing(
                #[trigger] self.additional_point_nums[i],
            )
    }
}

/// Running totals never decrease: the sum up to a later resolution is at
/// least the sum up to an earlier one.
pub proof fn lemma_running_totals_non_decreasing(counts: Seq<usize>, r1: int, r2: int)
    requires
        0 <= r1 <= r2 < counts.len(),
    ensures
        prefix_sum(counts, r1 + 1) <= prefix_sum(counts, r2 + 1),
{
    lemma_prefix_sum_monotone(counts, r1 + 1, r2 + 1);
}

/// The running totals of one list of counts.
pub fn cumulative_counts(counts: &Vec<usize>) -> (totals: Vec<usize>)
    requires
        sum_counts(counts@) <= usize::MAX,
    ensures
        totals@.len() == counts@.len(),
        forall|r: int| 0 <= r < counts@.len() ==> #[trigger] totals@[r] == prefix_sum(counts@, r + 1),
        non_decreasing(totals@),
{
    let mut totals: Vec<usize> = Vec::new();
    let mut running: usize = 0;
    let mut r: usize = 0;
    assert(counts@.take(0) =~= Seq::<usize>::empty());
    while r < counts.len()
        invariant
            r <= counts.len(),
            sum_counts(counts@) <= usize::MAX,
            running == prefix_sum(counts@, r as int),
            totals@.len() == r,
            forall|q: int| 0 <= q < r ==> #[trigger] totals@[q] == prefix_sum(counts@, q + 1),
        decreases counts.len() - r,
    {
        proof {
            lemma_prefix_sum_step(counts@, r as int);
            lemma_prefix_sum_monotone(counts@, r + 1, r + 1);
        }
        running = running + counts[r];
        totals.push(running);
        r = r + 1;
    }
    proof {
        assert forall|i: int, j: int| 0 <= i <= j < totals@.len() implies totals@[i] <= totals@[j] by {
            lemma_running_totals_non_decreasing(counts@, i, j);
        }
    }
    totals
}

/// The running totals of every segment: from what each resolution
/// contributes to a segment to what is available up to each resolution.
pub fn cumulative_point_nums(point_num_by_resolution: &Vec<Vec<usize>>) -> (totals: Vec<Vec<usize>>)
    requires
        forall|s: int|
            0 <= s < point_num_by_resolution@.len() ==> sum_counts(
                (#[trigger] point_num_by_resolution@[s])@,
            ) <= usize::MAX,
    ensures
        count_rows(totals@) == running_total_rows(count_rows(point_num_by_resolution@)),
        rows_non_decreasing(count_rows(totals@)),
{
    let mut totals: Vec<Vec<usize>> = Vec::new();
    let mut s: usize = 0;
    while s < point_num_by_resolution.len()
        invariant
            s <= point_num_by_resolution.len(),
            forall|t: int|
                0 <= t < point_num_by_resolution@.len() ==> sum_counts(
                    (#[trigger] point_num_by_resolution@[t])@,
                ) <= usize::MAX,
            totals@.len() == s,
            forall|t: int|
                0 <= t < s ==> (#[trigger] totals@[t])@.len() == point_num_by_resolution@[t]@.len(),
            forall|t: int, r: int|
                0 <= t < s && 0 <= r < totals@[t]@.len() ==> #[trigger] totals@[t]@[r] == prefix_sum(
                    point_num_by_resolution@[t]@,
                    r + 1,
                ),
            forall|t: int| 0 <= t < s ==> non_decreasing((#[trigger] totals@[t])@),
        decreases point_num_by_resolution.len() - s,
    {
        totals.push(cumulative_counts(&point_num_by_resolution[s]));
        s = s + 1;
    }
    proof {
        let rows = count_rows(totals@);
        let expected = running_total_rows(count_rows(point_num_by_resolution@));
        assert forall|t: int| 0 <= t < rows.len() implies non_decreasing(#[trigger] rows[t]) by {
            assert(rows[t] == totals@[t]@);
        }
        assert(rows.len() == expected.len());
        assert forall|t: int| 0 <= t < rows.len() implies #[trigger] rows[t] =~= expected[t] by {
            assert(rows[t] == totals@[t]@);
            assert forall|r: int| 0 <= r < rows[t].len() implies rows[t][r] == expected[t][r] by {
                assert(totals@[t]@[r] == prefix_sum(point_num_by_resolution@[t]@, r + 1));
            }
        }
        assert(rows =~= expected);
    }
    totals
}

impl MetaData {
    /// Metadata with the given contents.
    pub fn new(
        bounds: Vec<Bounds>,
        base_point_nums: Vec<Vec<usize>>,
        additional_point_nums: Vec<Vec<Vec<usize>>>,
        num_of_additional_file: usize,
        partitions: (usize, usize, usize),
    ) -> (m: Self)
        ensures
            m@.bounds == bounds@,
            m@.base_point_num == count_rows(base_point_nums@),
            m@.additional_point_nums == count_tables(additional_point_nums@),
            m@.num_of_additional_file == num_of_additional_file,
            m@.partitions == partitions,
    {
        Self {
            bounds,
            base_point_num: base_point_nums,
            additional_point_nums,
            num_of_additional_file,
            partitions,
        }
    }

    /// Metadata that describes no frame.
    pub fn default() -> (m: Self)
        ensures
            m@.bounds.len() == 0,
            m@.base_point_num.len() == 0,
            m@.additional_point_nums.len() == 0,
            m@.num_of_additional_file == 0,
            m@.partitions == (0usize, 0usize, 0usize),
            m@.is_cumulative(),
    {
        Self {
            bounds: Vec::new(),
            base_point_num: Vec::new(),
            additional_point_nums: Vec::new(),
            num_of_additional_file: 0,
            partitions: (0, 0, 0),
        }
    }

    /// Appends the description of one more frame. Where the counts of the
    /// frames so far and those of the new frame are running totals, so are
    /// all afterwards.
    pub fn next(&mut self, bound: Bounds, base_point_num: Vec<usize>, additional_point_num: Vec<Vec<usize>>)
        ensures
            final(self)@.bounds == old(self)@.bounds.push(bound),
            final(self)@.base_point_num == old(self)@.base_point_num.push(base_point_num@),
            final(self)@.additional_point_nums == old(self)@.additional_point_nums.push(
                count_rows(additional_point_num@),
            ),
            final(self)@.num_of_additional_file == old(self)@.num_of_additional_file,
            final(self)@.partitions == old(self)@.partitions,
            old(self)@.is_cumulative() && rows_non_decreasing(count_rows(additional_point_num@))
                ==> final(self)@.is_cumulative(),
    {
        let ghost before = self@;
        self.bounds.push(bound);
        self.base_point_num.push(base_point_num);
        self.additional_point_nums.push(additional_point_num);
        proof {
            assert(self@.base_point_num =~= before.base_point_num.push(base_point_num@));
            assert(self@.additional_point_nums =~= before.additional_point_nums.push(
                count_rows(additional_point_num@),
            ));
            if before.is_cumulative() && rows_non_decreasing(count_rows(additional_point_num@)) {
                assert forall|i: int| 0 <= i < self@.additional_point_nums.len() implies rows_non_decreasing(
                    #[trigger] self@.additional_point_nums[i],
                ) by {
                    if i < before.additional_point_nums.len() {
                        assert(self@.additional_point_nums[i] == before.additional_point_nums[i]);
                    }
                }
            }
        }
    }

    /// Records a frame of a ladder: its bounds, the base points per segment,
    /// and, from what each resolution contributes to each segment, the
    /// running totals per segment.
    pub fn record(&mut self, bound: Bounds, base_point_num: Vec<usize>, point_num_by_resolution: &Vec<Vec<usize>>)
        requires
            forall|s: int|
                0 <= s < point_num_by_resolution@.len() ==> sum_counts(
                    (#[trigger] point_num_by_resolution@[s])@,
                ) <= usize::MAX,
        ensures
            final(self)@.bounds == old(self)@.bounds.push(bound),
            final(self)@.base_point_num == old(self)@.base_point_num.push(base_point_num@),
            final(self)@.additional_point_nums == old(self)@.additional_point_nums.push(
                running_total_rows(count_rows(point_num_by_resolution@)),
            ),
            final(self)@.num_of_additional_file == old(self)@.num_of_additional_file,
            final(self)@.partitions == old(self)@.partitions,
            old(self)@.is_cumulative() ==> final(self)@.is_cumulative(),
    {
        let totals = cumulative_point_nums(point_num_by_resolution);
        self.next(bound, base_point_num, totals);
    }
}

} // verus!
