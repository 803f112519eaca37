//! Sums of point counts: totals, running totals and what holds of them.

use vstd::prelude::*;

verus! {

/// The sum of a sequence of counts.
pub open spec fn sum_counts(counts: Seq<usize>) -> int
    decreases counts.len(),
{
    if counts.len() == 0 {
        0
    } else {
        sum_counts(counts.drop_last()) + counts.last()
    }
}

/// The sum of the first `n` counts.
pub open spec fn prefix_sum(counts: Seq<usize>, n: int) -> int {
    sum_counts(counts.take(n))
}

/// The running totals of a sequence of counts: entry `r` is the sum of the
/// counts up to and including the one at `r`.
pub open spec fn running_totals(counts: Seq<usize>) -> Seq<int> {
    Seq::new(counts.len(), |r: int| prefix_sum(counts, r + 1))
}

/// Whether no entry of the sequence is smaller than an earlier one.
pub open spec fn non_decreasing(values: Seq<usize>) -> bool {
    forall|i: int, j: int| 0 <= i <= j < values.len() ==> values[i] <= values[j]
}

/// Taking one more count adds that count to the sum.
pub proof fn lemma_prefix_sum_step(counts: Seq<usize>, n: int)
    requires
        0 <= n < counts.len(),
    ensures
        prefix_sum(counts, n + 1) == prefix_sum(counts, n) + counts[n],
        prefix_sum(counts, 0) == 0,
{
    assert(counts.take(n + 1).drop_last() =~= counts.take(n));
    assert(counts.take(0) =~= Seq::<usize>::empty());
}

/// Sums of longer prefixes are not smaller, and none exceeds the whole sum.
pub proof fn lemma_prefix_sum_monotone(counts: Seq<usize>, i: int, j: int)
    requires
        0 <= i <= j <= counts.len(),
    ensures
        0 <= prefix_sum(counts, i) <= prefix_sum(counts, j) <= sum_counts(counts),
        prefix_sum(counts, counts.len() as int) == sum_counts(counts),
    decreases counts.len() - i,
{
    assert(counts.take(counts.len() as int) =~= counts);
    lemma_sum_nonnegative(counts.take(i));
    if i < j {
        lemma_prefix_sum_step(counts, i);
        lemma_prefix_sum_monotone(counts, i + 1, j);
    } else if j < counts.len() {
        lemma_prefix_sum_step(counts, j);
        lemma_prefix_sum_monotone(counts, j + 1, j + 1);
    }
}

/// A sum of counts is never negative.
pub proof fn lemma_sum_nonnegative(counts: Seq<usize>)
    ensures
        sum_counts(counts) >= 0,
    decreases counts.len(),
{
    if counts.len() > 0 {
        lemma_sum_nonnegative(counts.drop_last());
    }
}

/// Replacing one count changes the sum by the difference.
pub proof fn lemma_sum_after_update(counts: Seq<usize>, at: int, value: usize)
    requires
        0 <= at < counts.len(),
    ensures
        sum_counts(counts.update(at, value)) == sum_counts(counts) - counts[at] + value,
    decreases counts.len(),
{
    let changed = counts.update(at, value);
    if at == counts.len() - 1 {
        assert(changed.drop_last() =~= counts.drop_last());
    } else {
        assert(changed.drop_last() =~= counts.drop_last().update(at, value));
        lemma_sum_after_update(counts.drop_last(), at, value);
    }
}

/// The sum of the counts, where it fits the machine word.
pub fn total_of(counts: &Vec<usize>) -> (total: usize)
    requires
        sum_counts(counts@) <= usize::MAX,
    ensures
        total == sum_counts(counts@),
{
    let mut total: usize = 0;
    let mut i: usize = 0;
    assert(counts@.take(0) =~= Seq::<usize>::empty());
    while i < counts.len()
        invariant
            i <= counts.len(),
            total == prefix_sum(counts@, i as int),
            sum_counts(counts@) <= usize::MAX,
        decreases counts.len() - i,
    {
        proof {
            lemma_prefix_sum_step(counts@, i as int);
            lemma_prefix_sum_monotone(counts@, i + 1, i + 1);
        }
        total = total + counts[i];
        i = i + 1;
    }
    proof {
        lemma_prefix_sum_monotone(counts@, 0, 0);
    }
    total
}

/// Whether the counts can be summed in a machine word.
pub fn sum_fits(counts: &Vec<usize>) -> (fits: bool)
    ensures
        fits == (sum_counts(counts@) <= usize::MAX),
{
    let mut total: usize = 0;
    let mut i: usize = 0;
    assert(counts@.take(0) =~= Seq::<usize>::empty());
    while i < counts.len()
        invariant
            i <= counts.len(),
            total == prefix_sum(counts@, i as int),
        decreases counts.len() - i,
    {
        proof {
            lemma_prefix_sum_step(counts@, i as int);
            lemma_prefix_sum_monotone(counts@, i + 1, i + 1);
        }
        match total.checked_add(counts[i]) {
            Some(sum) => {
                total = sum;
            },
            None => {
                return false;
            },
        }
        i = i + 1;
    }
    proof {
        lemma_prefix_sum_monotone(counts@, 0, 0);
    }
    true
}

} // verus!
