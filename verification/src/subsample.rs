//! Random subsampling of a cloud into layers of given proportions, voxel by
//! voxel, so that every layer is spread over the whole cloud.

use vstd::prelude::*;
use crate::counts::{lemma_prefix_sum_monotone, lemma_prefix_sum_step, prefix_sum, sum_counts, total_of};
use crate::formats::pointcloud::{cloud_points, empty_buckets, point_seqs, PointCloud};
use crate::formats::pointxyzrgba::PointXyzRgba;
use crate::lodify::{cells_of, lemma_push_into_one, lemma_segments_cover_cloud, partition};
use crate::utils::{copy_vec, shuffle};

verus! {

/// Whether a grid of `n` voxels along each axis is fine enough for `count`
/// points: the voxels hold at most `threshold` points on average (a threshold
/// of zero is read as one), or a finer grid would have more voxels than the
/// machine can number.
pub open spec fn fine_enough(n: int, count: int, threshold: int) -> bool {
    n * n * n * (if threshold < 1 { 1 } else { threshold }) >= count || (n + 1) * (n + 1) * (n + 1)
        > usize::MAX
}

/// The first grid from `n` on that is fine enough.
pub open spec fn grid_factor_from(n: int, count: int, threshold: int) -> int
    decreases usize::MAX - n,
{
    if n >= usize::MAX || fine_enough(n, count, threshold) {
        n
    } else {
        grid_factor_from(n + 1, count, threshold)
    }
}

/// The number of voxels along each axis for `count` points: the coarsest
/// grid that is fine enough.
pub open spec fn grid_factor(count: int, threshold: int) -> int {
    grid_factor_from(1, count, threshold)
}

/// Of `m` shuffled points, how many go to the layers before layer `i`:
/// the share of `m` that the proportions before `i` have in the sum of all
/// proportions, rounded down. The last layer ends at `m`, so every point is
/// dealt. Where all proportions are zero, layer 0 takes every point.
pub open spec fn share_boundary(m: int, proportions: Seq<usize>, i: int) -> int {
    if i <= 0 {
        0
    } else if i >= proportions.len() || sum_counts(proportions) == 0 {
        m
    } else {
        (m * prefix_sum(proportions, i)) / sum_counts(proportions)
    }
}

/// How many of the `m` points of a voxel layer `i` receives.
pub open spec fn share(m: int, proportions: Seq<usize>, i: int) -> int {
    share_boundary(m, proportions, i + 1) - share_boundary(m, proportions, i)
}

/// How many points layer `i` receives from all of `cells` together.
pub open spec fn layer_size(cells: Seq<Seq<PointXyzRgba>>, proportions: Seq<usize>, i: int) -> int
    decreases cells.len(),
{
    if cells.len() == 0 {
        0
    } else {
        layer_size(cells.drop_last(), proportions, i) + share(
            cells.last().len() as int,
            proportions,
            i,
        )
    }
}

/// What layer `i` receives from voxels whose points are in the order in
/// which they are dealt: of each voxel, one after the other, the run between
/// boundary `i` and boundary `i + 1`.
pub open spec fn layer_of(shuffled: Seq<Seq<PointXyzRgba>>, proportions: Seq<usize>, i: int) -> Seq<
    PointXyzRgba,
>
    decreases shuffled.len(),
{
    if shuffled.len() == 0 {
        Seq::empty()
    } else {
        layer_of(shuffled.drop_last(), proportions, i) + shuffled.last().subrange(
            share_boundary(shuffled.last().len() as int, proportions, i),
            share_boundary(shuffled.last().len() as int, proportions, i + 1),
        )
    }
}

/// Whether `shuffled` holds the voxels of `cells`, each in some order of
/// its own.
pub open spec fn shuffled_cells(cells: Seq<Seq<PointXyzRgba>>, shuffled: Seq<Seq<PointXyzRgba>>) -> bool {
    &&& shuffled.len() == cells.len()
    &&& forall|c: int|
        0 <= c < cells.len() ==> (#[trigger] shuffled[c]).to_multiset() == cells[c].to_multiset()
}

/// Whether the layers are what dealing the voxels in the orders of
/// `shuffled` gives.
pub open spec fn dealt_from(
    cells: Seq<Seq<PointXyzRgba>>,
    shuffled: Seq<Seq<PointXyzRgba>>,
    proportions: Seq<usize>,
    layers: Seq<PointCloud>,
) -> bool {
    &&& shuffled_cells(cells, shuffled)
    &&& forall|i: int|
        0 <= i < proportions.len() ==> (#[trigger] layers[i])@.points == layer_of(shuffled, proportions, i)
}

/// Whether the layers are what dealing the voxels gives, each voxel in some
/// order of its own.
pub open spec fn dealt(cells: Seq<Seq<PointXyzRgba>>, proportions: Seq<usize>, layers: Seq<PointCloud>) -> bool {
    exists|shuffled: Seq<Seq<PointXyzRgba>>| #[trigger] dealt_from(cells, shuffled, proportions, layers)
}

/// The boundaries between layers are ordered and lie within the voxel, so the
/// layers receive disjoint runs that together are the whole voxel.
pub proof fn lemma_share_boundaries(m: int, proportions: Seq<usize>, i: int, j: int)
    requires
        0 <= m,
        0 <= i <= j <= proportions.len(),
    ensures
        0 <= share_boundary(m, proportions, i) <= share_boundary(m, proportions, j) <= m,
        share_boundary(m, proportions, 0) == 0,
        proportions.len() > 0 ==> share_boundary(m, proportions, proportions.len() as int) == m,
{
    let total = sum_counts(proportions);
    lemma_prefix_sum_monotone(proportions, i, j);
    let ci = prefix_sum(proportions, i);
    let cj = prefix_sum(proportions, j);
    if total > 0 {
        assert(0 <= m * ci <= m * cj <= m * total) by (nonlinear_arith)
            requires
                0 <= m,
                0 <= ci <= cj <= total,
        ;
        let x = m * ci;
        let y = m * cj;
        assert(0 <= x / total <= y / total <= m) by (nonlinear_arith)
            requires
                0 <= x <= y <= m * total,
                total > 0,
        ;
    }
}

/// Computes [`grid_factor`].
pub fn grid_factor_of(count: usize, threshold: usize) -> (n: usize)
    ensures
        n == grid_factor(count as int, threshold as int),
        n >= 1,
        n * n * n <= usize::MAX,
{
    let t: u128 = if threshold < 1 {
        1
    } else {
        threshold as u128
    };
    let mut n: usize = 1;
    loop
        invariant
            1 <= n,
            n * n * n <= usize::MAX,
            t == (if threshold < 1 { 1 } else { threshold as int }),
            grid_factor(count as int, threshold as int) == grid_factor_from(
                n as int,
                count as int,
                threshold as int,
            ),
        decreases usize::MAX - n,
    {
        assert(n <= 0x40_0000 && n <= n * n * n) by (nonlinear_arith)
            requires
                n * n * n <= 0xffff_ffff_ffff_ffff,
                n >= 1,
        ;
        assert(n * n <= 0x40_0000 * 0x40_0000 && (n + 1) * (n + 1) <= 0x40_0001 * 0x40_0001 && (n + 1)
            * (n + 1) * (n + 1) <= 0x40_0001 * 0x40_0001 * 0x40_0001) by (nonlinear_arith)
            requires
                1 <= n <= 0x40_0000,
        ;
        let cube: u128 = (n as u128) * (n as u128) * (n as u128);
        let next: u128 = (n as u128 + 1) * (n as u128 + 1) * (n as u128 + 1);
        assert(cube * t <= 0xffff_ffff_ffff_ffff * 0xffff_ffff_ffff_ffff) by (nonlinear_arith)
            requires
                cube <= 0xffff_ffff_ffff_ffff,
                t <= 0xffff_ffff_ffff_ffff,
        ;
        if cube * t >= count as u128 || next > usize::MAX as u128 {
            return n;
        }
        n = n + 1;
    }
}

/// Deals the points of one shuffled voxel to the layers: layer `i` receives
/// the run of `cell` between boundary `i` and boundary `i + 1`, appended to
/// what it holds.
pub fn deal_cell(cell: &Vec<PointXyzRgba>, proportions: &Vec<usize>, layers: &mut Vec<Vec<PointXyzRgba>>)
    requires
        old(layers)@.len() == proportions@.len(),
        sum_counts(proportions@) <= usize::MAX,
    ensures
        final(layers)@.len() == proportions@.len(),
        forall|i: int|
            0 <= i < proportions@.len() ==> (#[trigger] final(layers)@[i])@ == old(layers)@[i]@
                + cell@.subrange(
                share_boundary(cell@.len() as int, proportions@, i),
                share_boundary(cell@.len() as int, proportions@, i + 1),
            ),
        proportions@.len() > 0 ==> point_seqs(final(layers)@).flatten().to_multiset() == point_seqs(
            old(layers)@,
        ).flatten().to_multiset().add(cell@.to_multiset()),
{
    broadcast use vstd::multiset::group_multiset_axioms;

    let m: usize = cell.len();
    let count: usize = proportions.len();
    let total: usize = total_of(proportions);
    let ghost props = proportions@;
    let ghost start_layers = layers@;
    let ghost start_bag = point_seqs(layers@).flatten().to_multiset();
    let mut start: usize = 0;
    let mut prefix: usize = 0;
    let mut i: usize = 0;
    proof {
        assert(props.take(0) =~= Seq::<usize>::empty());
        assert(cell@.take(0) =~= Seq::<PointXyzRgba>::empty());
        cell@.take(0).to_multiset_ensures();
        assert(start_bag.add(cell@.take(0).to_multiset()) =~= start_bag);
    }
    while i < count
        invariant
            props == proportions@,
            count == props.len(),
            m == cell@.len(),
            total == sum_counts(props),
            i <= count,
            start == share_boundary(m as int, props, i as int),
            start <= m,
            prefix == prefix_sum(props, i as int),
            layers@.len() == count,
            start_layers.len() == count,
            forall|t: int|
                0 <= t < i ==> (#[trigger] layers@[t])@ == start_layers[t]@ + cell@.subrange(
                    share_boundary(m as int, props, t),
                    share_boundary(m as int, props, t + 1),
                ),
            forall|t: int| i <= t < count ==> #[trigger] layers@[t] == start_layers[t],
            point_seqs(layers@).flatten().to_multiset() == start_bag.add(
                cell@.take(start as int).to_multiset(),
            ),
        decreases count - i,
    {
        proof {
            lemma_prefix_sum_step(props, i as int);
            lemma_prefix_sum_monotone(props, i + 1, i + 1);
            lemma_share_boundaries(m as int, props, i as int, i + 1);
        }
        prefix = prefix + proportions[i];
        let end: usize = if i + 1 >= count || total == 0 {
            m
        } else {
            assert(m * prefix <= 0xffff_ffff_ffff_ffff * 0xffff_ffff_ffff_ffff) by (nonlinear_arith)
                requires
                    m <= 0xffff_ffff_ffff_ffff,
                    prefix <= 0xffff_ffff_ffff_ffff,
            ;
            ((m as u128 * prefix as u128) / (total as u128)) as usize
        };
        assert(end == share_boundary(m as int, props, i + 1));
        let ghost row = layers@[i as int]@;
        let ghost frozen = layers@;
        let mut k: usize = start;
        while k < end
            invariant
                i < count,
                layers@.len() == count,
                start <= k <= end <= m,
                m == cell@.len(),
                frozen.len() == count,
                row == frozen[i as int]@,
                layers@[i as int]@ == row + cell@.subrange(start as int, k as int),
                forall|t: int| 0 <= t < count && t != i ==> #[trigger] layers@[t] == frozen[t],
                point_seqs(layers@).flatten().to_multiset() == start_bag.add(
                    cell@.take(k as int).to_multiset(),
                ),
            decreases end - k,
        {
            let ghost before = layers@;
            let p = cell[k];
            layers[i].push(p);
            proof {
                assert(cell@.subrange(start as int, k + 1) =~= cell@.subrange(start as int, k as int).push(p));
                assert(row + cell@.subrange(start as int, k + 1) =~= (row + cell@.subrange(
                    start as int,
                    k as int,
                )).push(p));
                assert forall|t: int| 0 <= t < count && t != i implies #[trigger] layers@[t]
                    == frozen[t] by {
                    assert(layers@[t] == before[t]);
                }
                let views = point_seqs(before);
                assert(point_seqs(layers@) =~= views.update(i as int, views[i as int].push(p)));
                lemma_push_into_one(views, i as int, p);
                assert(cell@.take(k + 1) =~= cell@.take(k as int).push(p));
                vstd::seq_lib::to_multiset_build(cell@.take(k as int), p);
                assert(start_bag.add(cell@.take(k as int).to_multiset()).insert(p) =~= start_bag.add(
                    cell@.take(k as int).to_multiset().insert(p),
                ));
            }
            k = k + 1;
        }
        proof {
            assert forall|t: int| 0 <= t < i + 1 implies (#[trigger] layers@[t])@ == start_layers[t]@
                + cell@.subrange(
                share_boundary(m as int, props, t),
                share_boundary(m as int, props, t + 1),
            ) by {
                if t < i {
                    assert(layers@[t] == frozen[t]);
                }
            }
            assert forall|t: int| i + 1 <= t < count implies #[trigger] layers@[t] == start_layers[t] by {
                assert(layers@[t] == frozen[t]);
            }
        }
        start = end;
        i = i + 1;
    }
    proof {
        if count > 0 {
            lemma_share_boundaries(m as int, props, 0, count as int);
            assert(cell@.take(m as int) =~= cell@);
        }
    }
}

/// What [`subsample`] returns for a cloud, whatever the shuffles were.
///
/// A cloud without points, and any cloud with a single proportion, comes
/// back as the only layer. Without proportions there are no layers.
/// Otherwise there is one layer per proportion. The cloud is cut into the
/// voxels of the grid, each voxel is put in some order, and layer `i` holds
/// of each voxel, one after the other, the run that [`layer_of`] gives it.
/// So layer `i` has as many points as the voxels give it by [`share`], and
/// the layers together hold each point of the cloud as often as the cloud
/// does. No layer has segments.
pub open spec fn subsample_outcome(
    cloud: crate::formats::pointcloud::PointCloudView,
    proportions: Seq<usize>,
    threshold: usize,
    layers: Seq<PointCloud>,
) -> bool {
    if cloud.points.len() == 0 || proportions.len() == 1 {
        layers.len() == 1 && layers[0]@ == cloud
    } else if proportions.len() == 0 {
        layers.len() == 0
    } else {
        let n = grid_factor(cloud.points.len() as int, threshold as int) as usize;
        let cells = cells_of(cloud.points, (n, n, n));
        &&& layers.len() == proportions.len()
        &&& forall|i: int|
            0 <= i < proportions.len() ==> {
                &&& (#[trigger] layers[i])@.points.len() == layer_size(cells, proportions, i)
                &&& layers[i]@.segments == Seq::<Seq<PointXyzRgba>>::empty()
                &&& layers[i].is_consistent()
            }
        &&& cloud_points(layers).flatten().to_multiset() == cloud.points.to_multiset()
        &&& dealt(cells, proportions, layers)
    }
}

/// Splits a cloud into one layer per proportion. The cloud is cut into the
/// voxels of the grid given by [`grid_factor`]; the points of each voxel are
/// shuffled and dealt to the layers by [`deal_cell`]. Layer 0 is the base.
pub fn subsample(points: &PointCloud, proportions: Vec<usize>, points_per_voxel_threshold: usize) -> (layers:
    Vec<PointCloud>)
    requires
        sum_counts(proportions@) <= usize::MAX,
    ensures
        subsample_outcome(points@, proportions@, points_per_voxel_threshold, layers@),
{
    broadcast use vstd::multiset::group_multiset_axioms;

    let mut result: Vec<PointCloud> = Vec::new();
    if points.points.len() == 0 || proportions.len() == 1 {
        result.push(points.clone());
        return result;
    }
    if proportions.len() == 0 {
        return result;
    }
    let count: usize = proportions.len();
    let n: usize = grid_factor_of(points.points.len(), points_per_voxel_threshold);
    let partitioned = match partition(points, (n, n, n)) {
        Ok(pc) => pc,
        Err(_) => {
            assert(false);
            return result;
        },
    };
    let ghost props = proportions@;
    let ghost cells = cells_of(points@.points, (n, n, n));
    proof {
        lemma_segments_cover_cloud(points@.points, (n, n, n));
    }
    let total: usize = partitioned.segments.len();
    let mut layers = empty_buckets(count);
    proof {
        crate::lodify::lemma_empty_cells_flatten(point_seqs(layers@));
        assert(cells.take(0) =~= Seq::<Seq<PointXyzRgba>>::empty());
    }
    let ghost mut shuffled: Seq<Seq<PointXyzRgba>> = Seq::empty();
    let mut s: usize = 0;
    while s < total
        invariant
            props == proportions@,
            count == props.len(),
            count >= 2,
            shuffled.len() == s,
            forall|c: int| 0 <= c < s ==> (#[trigger] shuffled[c]).to_multiset() == cells[c].to_multiset(),
            forall|i: int| 0 <= i < count ==> (#[trigger] layers@[i])@ == layer_of(shuffled, props, i),
            sum_counts(props) <= usize::MAX,
            partitioned@.segments == cells,
            total == cells.len(),
            total == partitioned.segments@.len(),
            s <= total,
            layers@.len() == count,
            forall|i: int|
                0 <= i < count ==> (#[trigger] layers@[i])@.len() == layer_size(
                    cells.take(s as int),
                    props,
                    i,
                ),
            point_seqs(layers@).flatten().to_multiset() == cells.take(s as int).flatten().to_multiset(),
        decreases total - s,
    {
        let mut cell = copy_vec(&partitioned.segments[s].points);
        assert(cell@ == cells[s as int]) by {
            assert(partitioned@.segments[s as int] == partitioned.segments@[s as int]@);
        }
        shuffle(&mut cell);
        assert(cell@.to_multiset() == cells[s as int].to_multiset());
        let ghost before = layers@;
        deal_cell(&cell, &proportions, &mut layers);
        proof {
            let m = cell@.len() as int;
            vstd::seq_lib::to_multiset_len(cell@);
            vstd::seq_lib::to_multiset_len(cells[s as int]);
            let next = cells.take(s + 1);
            assert(next.drop_last() =~= cells.take(s as int));
            assert(next.last() == cells[s as int]);
            assert forall|i: int| 0 <= i < count implies (#[trigger] layers@[i])@.len() == layer_size(
                next,
                props,
                i,
            ) by {
                lemma_share_boundaries(m, props, i, i + 1);
                assert(before[i]@.len() == layer_size(cells.take(s as int), props, i));
            }
            assert(next =~= cells.take(s as int).push(cells[s as int]));
            cells.take(s as int).lemma_flatten_push(cells[s as int]);
            vstd::seq_lib::lemma_multiset_commutative(
                cells.take(s as int).flatten(),
                cells[s as int],
            );
            assert(next.flatten() == cells.take(s as int).flatten() + cells[s as int]);
            assert(point_seqs(layers@).flatten().to_multiset() == point_seqs(
                before,
            ).flatten().to_multiset().add(cell@.to_multiset()));
            let longer = shuffled.push(cell@);
            assert(longer.drop_last() =~= shuffled);
            assert forall|i: int| 0 <= i < count implies (#[trigger] layers@[i])@ == layer_of(
                longer,
                props,
                i,
            ) by {
                assert(before[i]@ == layer_of(shuffled, props, i));
            }
            shuffled = longer;
        }
        s = s + 1;
    }
    assert(cells.take(total as int) =~= cells);
    let mut i: usize = 0;
    while i < count
        invariant
            i <= count,
            layers@.len() == count,
            result@.len() == i,
            forall|t: int|
                0 <= t < i ==> {
                    &&& (#[trigger] result@[t])@.points == layers@[t]@
                    &&& result@[t]@.segments == Seq::<Seq<PointXyzRgba>>::empty()
                    &&& result@[t].is_consistent()
                },
        decreases count - i,
    {
        let layer = copy_vec(&layers[i]);
        result.push(PointCloud::new(layer.len(), layer));
        i = i + 1;
    }
    assert(cloud_points(result@) =~= point_seqs(layers@));
    assert(dealt_from(cells, shuffled, props, result@));
    assert(dealt(cells, props, result@));
    result
}

/// Subsampling loses and invents nothing: with at least one proportion, the
/// layers together have as many points as the cloud.
pub proof fn lemma_subsample_keeps_count(
    cloud: crate::formats::pointcloud::PointCloudView,
    proportions: Seq<usize>,
    threshold: usize,
    layers: Seq<PointCloud>,
)
    requires
        proportions.len() > 0,
        subsample_outcome(cloud, proportions, threshold, layers),
    ensures
        cloud_points(layers).flatten().len() == cloud.points.len(),
        cloud_points(layers).flatten().to_multiset() == cloud.points.to_multiset(),
{
    if cloud.points.len() == 0 || proportions.len() == 1 {
        let only = cloud_points(layers);
        assert(only.len() == 1);
        only.lemma_flatten_one_element();
        assert(only.flatten() =~= cloud.points);
    } else {
        vstd::seq_lib::to_multiset_len(cloud_points(layers).flatten());
        vstd::seq_lib::to_multiset_len(cloud.points);
    }
}

} // verus!
