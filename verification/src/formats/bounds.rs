//! Axis-aligned boxes on the grid, their subdivision into cells, and the cell
//! that holds a point.

use vstd::prelude::*;
use crate::error::Error;
use crate::formats::pointxyzrgba::PointXyzRgba;

verus! {

/// An axis-aligned box, faces included.
#[derive(Clone, Copy, Debug, PartialEq, Eq, Structural)]
pub struct Bounds {
    pub min_x: i32,
    pub max_x: i32,
    pub min_y: i32,
    pub max_y: i32,
    pub min_z: i32,
    pub max_z: i32,
}

/// Whether every component of a partition triple is positive.
pub open spec fn valid_partition(partitions: (usize, usize, usize)) -> bool {
    partitions.0 > 0 && partitions.1 > 0 && partitions.2 > 0
}

/// The number of cells of a partition triple.
pub open spec fn cell_count(partitions: (usize, usize, usize)) -> int {
    partitions.0 * partitions.1 * partitions.2
}

/// The cell, along one axis cut into `n` equal steps from `min` to `max`, that
/// holds coordinate `p`: the whole steps that fit between `min` and `p`,
/// at most `n - 1`, so that the face at `max` belongs to the last cell.
/// An axis without extent has all its points in cell 0.
pub open spec fn axis_cell(min: int, max: int, n: int, p: int) -> int {
    if max <= min || n <= 0 || p <= min {
        0
    } else {
        let c = ((p - min) * n) / (max - min);
        if c >= n {
            n - 1
        } else {
            c
        }
    }
}

/// The `i`-th of the `n + 1` cuts that divide the axis from `min` to `max`
/// into `n` steps, rounded down to the grid. Cut 0 is `min`, cut `n` is `max`.
pub open spec fn axis_cut(min: int, max: int, n: int, i: int) -> int {
    if max <= min || n <= 0 {
        if i >= n {
            max
        } else {
            min
        }
    } else {
        min + (i * (max - min)) / n
    }
}

/// A scaled step never leaves the axis: `i * e / n` lies between 0 and `e`.
pub proof fn lemma_cut_in_range(e: int, n: int, i: int)
    requires
        e >= 0,
        n > 0,
        0 <= i <= n,
    ensures
        0 <= i * e <= n * e,
        0 <= (i * e) / n <= e,
        i == n ==> (i * e) / n == e,
        i == 0 ==> (i * e) / n == 0,
{
    assert(0 <= i * e <= n * e) by (nonlinear_arith)
        requires
            e >= 0,
            0 <= i <= n,
    ;
    let x = i * e;
    assert(0 <= x / n <= e) by (nonlinear_arith)
        requires
            0 <= x <= n * e,
            n > 0,
    ;
    assert(i == n ==> (i * e) / n == e) by (nonlinear_arith)
        requires
            n > 0,
    ;
    assert(i == 0 ==> (i * e) / n == 0) by (nonlinear_arith)
        requires
            n > 0,
    ;
}

/// Cuts are ordered: a later cut is never before an earlier one.
pub proof fn lemma_cuts_ordered(min: int, max: int, n: int, i: int, j: int)
    requires
        min <= max,
        0 <= i <= j <= n,
    ensures
        min <= axis_cut(min, max, n, i) <= axis_cut(min, max, n, j) <= max,
{
    if max > min && n > 0 {
        let e = max - min;
        lemma_cut_in_range(e, n, i);
        lemma_cut_in_range(e, n, j);
        assert(i * e <= j * e) by (nonlinear_arith)
            requires
                e >= 0,
                i <= j,
        ;
        let x = i * e;
        let y = j * e;
        assert(x / n <= y / n) by (nonlinear_arith)
            requires
                x <= y,
                n > 0,
        ;
    }
}

/// The cell of a coordinate inside the axis is one of the `n` cells.
pub proof fn lemma_axis_cell_in_range(min: int, max: int, n: int, p: int)
    requires
        n > 0,
    ensures
        0 <= axis_cell(min, max, n, p) < n,
{
    if !(max <= min || p <= min) {
        let d = p - min;
        let e = max - min;
        assert(d * n >= 0) by (nonlinear_arith)
            requires
                d >= 0,
                n >= 0,
        ;
        let x = d * n;
        assert(x / e >= 0) by (nonlinear_arith)
            requires
                x >= 0,
                e > 0,
        ;
    }
}

/// A coordinate on the upper face of an axis with extent falls in the last
/// cell, not past it.
pub proof fn lemma_axis_cell_upper_face(min: int, max: int, n: int)
    requires
        n > 0,
        min < max,
    ensures
        axis_cell(min, max, n, max) == n - 1,
{
    let e = max - min;
    assert((e * n) / e == n) by (nonlinear_arith)
        requires
            e > 0,
    ;
}

/// A coordinate lies between the two cuts that delimit its cell.
pub proof fn lemma_axis_cell_holds_point(min: int, max: int, n: int, p: int)
    requires
        n > 0,
        min <= p <= max,
    ensures
        axis_cut(min, max, n, axis_cell(min, max, n, p)) <= p,
        p <= axis_cut(min, max, n, axis_cell(min, max, n, p) + 1),
{
    let c = axis_cell(min, max, n, p);
    lemma_axis_cell_in_range(min, max, n, p);
    if max <= min {
    } else if p <= min {
        lemma_cuts_ordered(min, max, n, 0, 1);
        lemma_cut_in_range(max - min, n, 0);
    } else {
        let d = p - min;
        let e = max - min;
        let q = (d * n) / e;
        assert(q * e <= d * n < (q + 1) * e) by (nonlinear_arith)
            requires
                q == (d * n) / e,
                e > 0,
        ;
        if q >= n {
            // the last cell: its upper cut is the face itself
            lemma_cut_in_range(e, n, n);
            assert(c == n - 1);
            assert(c * e <= d * n) by (nonlinear_arith)
                requires
                    c < q,
                    q * e <= d * n,
                    e > 0,
                    c >= 0,
            ;
        } else {
            assert(c == q);
        }
        let lo = c * e;
        assert(lo / n <= d) by (nonlinear_arith)
            requires
                lo <= d * n,
                n > 0,
        ;
        if q < n {
            let hi = (c + 1) * e;
            assert(hi / n >= d) by (nonlinear_arith)
                requires
                    d * n < hi,
                    n > 0,
            ;
        }
    }
}

/// Row-major numbering stays inside the grid: with each axis cell below its
/// count, the linear index is below the number of cells.
pub proof fn lemma_row_major_in_range(ix: int, iy: int, iz: int, nx: int, ny: int, nz: int)
    requires
        0 <= ix < nx,
        0 <= iy < ny,
        0 <= iz < nz,
    ensures
        0 <= ix * ny <= nx * ny,
        0 <= ix * ny * nz <= nx * ny * nz,
        0 <= iy * nz <= ny * nz,
        0 <= ix * ny * nz + iy * nz + iz < nx * ny * nz,
        ny * nz <= nx * ny * nz,
        nx * ny <= nx * ny * nz,
{
    assert(0 <= ix * ny <= nx * ny - ny) by (nonlinear_arith)
        requires
            0 <= ix < nx,
            0 < ny,
    ;
    let a = ix * ny + iy;
    let b = nx * ny;
    assert(0 <= a < b);
    assert(a * nz + nz <= b * nz && a * nz >= 0) by (nonlinear_arith)
        requires
            0 <= a < b,
            0 < nz,
    ;
    assert(a * nz == ix * ny * nz + iy * nz) by (nonlinear_arith)
        requires
            a == ix * ny + iy,
    ;
    assert(0 <= iy * nz) by (nonlinear_arith)
        requires
            0 <= iy,
            0 < nz,
    ;
    assert(iy * nz <= ny * nz) by (nonlinear_arith)
        requires
            0 <= iy < ny,
            0 < nz,
    ;
    assert(0 <= ix * ny * nz) by (nonlinear_arith)
        requires
            0 <= ix,
            0 < ny,
            0 < nz,
    ;
    assert(ny * nz <= nx * ny * nz && nx * ny <= nx * ny * nz) by (nonlinear_arith)
        requires
            0 < nx,
            0 < ny,
            0 < nz,
    ;
}

/// Row-major numbering can be undone: the three axis cells are recovered from
/// the linear index by division and remainder.
pub proof fn lemma_row_major_unique(ix: int, iy: int, iz: int, nx: int, ny: int, nz: int)
    requires
        0 <= ix < nx,
        0 <= iy < ny,
        0 <= iz < nz,
    ensures
        (ix * ny * nz + iy * nz + iz) / (ny * nz) == ix,
        ((ix * ny * nz + iy * nz + iz) / nz) % ny == iy,
        (ix * ny * nz + iy * nz + iz) % nz == iz,
{
    let s = ix * ny * nz + iy * nz + iz;
    let a = ix * ny + iy;
    assert(s == a * nz + iz) by (nonlinear_arith)
        requires
            s == ix * ny * nz + iy * nz + iz,
            a == ix * ny + iy,
    ;
    vstd::arithmetic::div_mod::lemma_fundamental_div_mod_converse(s, nz, a, iz);
    vstd::arithmetic::div_mod::lemma_fundamental_div_mod_converse(a, ny, ix, iy);
    let m = ny * nz;
    let rem = iy * nz + iz;
    assert(0 <= rem < m) by (nonlinear_arith)
        requires
            rem == iy * nz + iz,
            m == ny * nz,
            0 <= iy < ny,
            0 <= iz < nz,
    ;
    assert(s == ix * m + rem) by (nonlinear_arith)
        requires
            s == ix * ny * nz + iy * nz + iz,
            m == ny * nz,
            rem == iy * nz + iz,
    ;
    vstd::arithmetic::div_mod::lemma_fundamental_div_mod_converse(s, m, ix, rem);
}

/// Computes [`axis_cell`] for a coordinate that lies on the axis.
fn axis_cell_of(min: i32, max: i32, n: usize, p: i32) -> (c: usize)
    requires
        n > 0,
        min <= p <= max,
    ensures
        c == axis_cell(min as int, max as int, n as int, p as int),
        c < n,
{
    proof {
        lemma_axis_cell_in_range(min as int, max as int, n as int, p as int);
    }
    if max <= min || p <= min {
        return 0;
    }
    let d: u128 = (p as i64 - min as i64) as u128;
    let e: u128 = (max as i64 - min as i64) as u128;
    let n_wide: u128 = n as u128;
    assert(d * n_wide <= 0xffff_ffff * 0xffff_ffff_ffff_ffff) by (nonlinear_arith)
        requires
            d <= 0xffff_ffff,
            n_wide <= 0xffff_ffff_ffff_ffff,
    ;
    let c: u128 = d * n_wide / e;
    if c >= n_wide {
        n - 1
    } else {
        c as usize
    }
}

/// Computes [`axis_cut`] for one of the cuts `0..=n`.
fn axis_cut_of(min: i32, max: i32, n: usize, i: usize) -> (cut: i32)
    requires
        n > 0,
        i <= n,
    ensures
        cut == axis_cut(min as int, max as int, n as int, i as int),
{
    if max <= min {
        if i >= n {
            return max;
        } else {
            return min;
        }
    }
    let e: u128 = (max as i64 - min as i64) as u128;
    proof {
        lemma_cut_in_range(e as int, n as int, i as int);
        assert(n * e <= 0xffff_ffff_ffff_ffff * 0xffff_ffff) by (nonlinear_arith)
            requires
                e <= 0xffff_ffff,
                n <= 0xffff_ffff_ffff_ffff,
        ;
    }
    let step: u128 = (i as u128) * e / (n as u128);
    (min as i64 + step as i64) as i32
}

impl Bounds {
    /// Whether the box is not inside out on any axis.
    pub open spec fn is_valid(self) -> bool {
        self.min_x <= self.max_x && self.min_y <= self.max_y && self.min_z <= self.max_z
    }

    /// Whether the point lies inside the box or on one of its faces.
    pub open spec fn contains(self, p: PointXyzRgba) -> bool {
        &&& self.min_x <= p.x <= self.max_x
        &&& self.min_y <= p.y <= self.max_y
        &&& self.min_z <= p.z <= self.max_z
    }

    /// The row-major index of the cell that holds `p`:
    /// `ix * Ny * Nz + iy * Nz + iz`, each axis cell given by [`axis_cell`].
    pub open spec fn cell_index(self, p: PointXyzRgba, partitions: (usize, usize, usize)) -> int {
        axis_cell(self.min_x as int, self.max_x as int, partitions.0 as int, p.x as int)
            * partitions.1 * partitions.2 + axis_cell(
            self.min_y as int,
            self.max_y as int,
            partitions.1 as int,
            p.y as int,
        ) * partitions.2 + axis_cell(
            self.min_z as int,
            self.max_z as int,
            partitions.2 as int,
            p.z as int,
        )
    }

    /// The box of cell `s` in row-major order: on each axis it runs from the
    /// cut before the axis cell to the cut after it.
    pub open spec fn sub_bound(self, partitions: (usize, usize, usize), s: int) -> Bounds {
        let ix = s / (partitions.1 * partitions.2);
        let iy = (s / (partitions.2 as int)) % (partitions.1 as int);
        let iz = s % (partitions.2 as int);
        Bounds {
            min_x: axis_cut(self.min_x as int, self.max_x as int, partitions.0 as int, ix) as i32,
            max_x: axis_cut(self.min_x as int, self.max_x as int, partitions.0 as int, ix + 1) as i32,
            min_y: axis_cut(self.min_y as int, self.max_y as int, partitions.1 as int, iy) as i32,
            max_y: axis_cut(self.min_y as int, self.max_y as int, partitions.1 as int, iy + 1) as i32,
            min_z: axis_cut(self.min_z as int, self.max_z as int, partitions.2 as int, iz) as i32,
            max_z: axis_cut(self.min_z as int, self.max_z as int, partitions.2 as int, iz + 1) as i32,
        }
    }

    /// The eight corners, `x` varying slowest and `z` fastest.
    pub open spec fn vertexes(self) -> Seq<[i32; 3]> {
        seq![
            [self.min_x, self.min_y, self.min_z],
            [self.min_x, self.min_y, self.max_z],
            [self.min_x, self.max_y, self.min_z],
            [self.min_x, self.max_y, self.max_z],
            [self.max_x, self.min_y, self.min_z],
            [self.max_x, self.min_y, self.max_z],
            [self.max_x, self.max_y, self.min_z],
            [self.max_x, self.max_y, self.max_z],
        ]
    }

    /// A box from its six faces.
    pub fn new(min_x: i32, max_x: i32, min_y: i32, max_y: i32, min_z: i32, max_z: i32) -> (b: Self)
        ensures
            b == (Bounds { min_x, max_x, min_y, max_y, min_z, max_z }),
    {
        Bounds { min_x, max_x, min_y, max_y, min_z, max_z }
    }

    /// Whether the point lies inside the box or on one of its faces.
    pub fn contains_point(&self, point: &PointXyzRgba) -> (inside: bool)
        ensures
            inside == self.contains(*point),
    {
        self.min_x <= point.x && point.x <= self.max_x && self.min_y <= point.y && point.y
            <= self.max_y && self.min_z <= point.z && point.z <= self.max_z
    }

    /// The eight corners of the box.
    pub fn get_vertexes(&self) -> (corners: Vec<[i32; 3]>)
        ensures
            corners@ == self.vertexes(),
    {
        let mut corners: Vec<[i32; 3]> = Vec::new();
        corners.push([self.min_x, self.min_y, self.min_z]);
        corners.push([self.min_x, self.min_y, self.max_z]);
        corners.push([self.min_x, self.max_y, self.min_z]);
        corners.push([self.min_x, self.max_y, self.max_z]);
        corners.push([self.max_x, self.min_y, self.min_z]);
        corners.push([self.max_x, self.min_y, self.max_z]);
        corners.push([self.max_x, self.max_y, self.min_z]);
        corners.push([self.max_x, self.max_y, self.max_z]);
        assert(corners@ =~= self.vertexes());
        corners
    }

    /// The linear index of the cell that holds `point` when the box is cut
    /// into `partitions` cells. A point on an upper face belongs to the last
    /// cell of that axis. A zero in `partitions` is rejected first, then a
    /// point outside the box.
    pub fn get_bound_index(&self, point: &PointXyzRgba, partitions: (usize, usize, usize)) -> (r:
        Result<usize, Error>)
        requires
            cell_count(partitions) <= usize::MAX,
        ensures
            !valid_partition(partitions) ==> r == Err::<usize, Error>(Error::InvalidPartition),
            valid_partition(partitions) && !self.contains(*point) ==> r == Err::<usize, Error>(
                Error::OutOfBounds,
            ),
            valid_partition(partitions) && self.contains(*point) ==> r == Ok::<usize, Error>(
                self.cell_index(*point, partitions) as usize,
            ) && 0 <= self.cell_index(*point, partitions) < cell_count(partitions),
    {
        if partitions.0 == 0 || partitions.1 == 0 || partitions.2 == 0 {
            return Err(Error::InvalidPartition);
        }
        if !self.contains_point(point) {
            return Err(Error::OutOfBounds);
        }
        let ix: usize = axis_cell_of(self.min_x, self.max_x, partitions.0, point.x);
        let iy: usize = axis_cell_of(self.min_y, self.max_y, partitions.1, point.y);
        let iz: usize = axis_cell_of(self.min_z, self.max_z, partitions.2, point.z);
        proof {
            lemma_row_major_in_range(
                ix as int,
                iy as int,
                iz as int,
                partitions.0 as int,
                partitions.1 as int,
                partitions.2 as int,
            );
        }
        Ok(ix * partitions.1 * partitions.2 + iy * partitions.2 + iz)
    }

    /// The boxes of all cells in row-major order. A zero in `partitions` is
    /// rejected.
    pub fn partition(&self, partitions: (usize, usize, usize)) -> (r: Result<Vec<Bounds>, Error>)
        requires
            cell_count(partitions) <= usize::MAX,
        ensures
            !valid_partition(partitions) ==> r == Err::<Vec<Bounds>, Error>(
                Error::InvalidPartition,
            ),
            valid_partition(partitions) ==> r is Ok && r->Ok_0@.len() == cell_count(partitions)
                && forall|s: int|
                0 <= s < cell_count(partitions) ==> #[trigger] r->Ok_0@[s] == self.sub_bound(
                    partitions,
                    s,
                ),
    {
        if partitions.0 == 0 || partitions.1 == 0 || partitions.2 == 0 {
            return Err(Error::InvalidPartition);
        }
        proof {
            lemma_row_major_in_range(
                0,
                0,
                0,
                partitions.0 as int,
                partitions.1 as int,
                partitions.2 as int,
            );
        }
        let plane: usize = partitions.1 * partitions.2;
        let total: usize = partitions.0 * partitions.1 * partitions.2;
        proof {
            assert(total == partitions.0 * plane && plane > 0) by (nonlinear_arith)
                requires
                    total == partitions.0 * partitions.1 * partitions.2,
                    plane == partitions.1 * partitions.2,
                    partitions.1 > 0,
                    partitions.2 > 0,
            ;
        }
        let mut cells: Vec<Bounds> = Vec::new();
        let mut s: usize = 0;
        while s < total
            invariant
                valid_partition(partitions),
                plane == partitions.1 * partitions.2,
                plane > 0,
                total == partitions.0 * plane,
                total == cell_count(partitions),
                s <= total,
                cells@.len() == s,
                forall|t: int| 0 <= t < s ==> #[trigger] cells@[t] == self.sub_bound(partitions, t),
            decreases total - s,
        {
            let ix: usize = s / plane;
            let iy: usize = (s / partitions.2) % partitions.1;
            let iz: usize = s % partitions.2;
            proof {
                let sx = s as int;
                let pl = plane as int;
                let nx = partitions.0 as int;
                assert(sx / pl < nx) by (nonlinear_arith)
                    requires
                        0 <= sx < nx * pl,
                        pl > 0,
                {
                    assert(sx / pl < nx || sx / pl >= nx);
                    if sx / pl >= nx {
                        assert((sx / pl) * pl >= nx * pl);
                        assert((sx / pl) * pl <= sx);
                    }
                }
            }
            let cell = Bounds {
                min_x: axis_cut_of(self.min_x, self.max_x, partitions.0, ix),
                max_x: axis_cut_of(self.min_x, self.max_x, partitions.0, ix + 1),
                min_y: axis_cut_of(self.min_y, self.max_y, partitions.1, iy),
                max_y: axis_cut_of(self.min_y, self.max_y, partitions.1, iy + 1),
                min_z: axis_cut_of(self.min_z, self.max_z, partitions.2, iz),
                max_z: axis_cut_of(self.min_z, self.max_z, partitions.2, iz + 1),
            };
            cells.push(cell);
            s = s + 1;
        }
        Ok(cells)
    }

    /// Twice the centre of the box, component by component: the sum of the
    /// lower and the upper face. Doubling keeps a centre that falls between
    /// two grid positions exact.
    pub fn midpoint(&self) -> (m: [i64; 3])
        ensures
            m[0] == self.min_x + self.max_x,
            m[1] == self.min_y + self.max_y,
            m[2] == self.min_z + self.max_z,
    {
        [
            self.min_x as i64 + self.max_x as i64,
            self.min_y as i64 + self.max_y as i64,
            self.min_z as i64 + self.max_z as i64,
        ]
    }

    /// Twice the half-extent of the box, that is its extent along each axis:
    /// the upper face minus the lower one. This is the distance from the
    /// centre to a face, doubled; it is not the centre.
    pub fn half_extent(&self) -> (e: [i64; 3])
        ensures
            e[0] == self.max_x - self.min_x,
            e[1] == self.max_y - self.min_y,
            e[2] == self.max_z - self.min_z,
    {
        [
            self.max_x as i64 - self.min_x as i64,
            self.max_y as i64 - self.min_y as i64,
            self.max_z as i64 - self.min_z as i64,
        ]
    }
}

/// A point of the box lies in the box of its cell: the cell index and the
/// boxes of the cells belong together.
pub proof fn lemma_cell_holds_point(bounds: Bounds, p: PointXyzRgba, partitions: (usize, usize, usize))
    requires
        valid_partition(partitions),
        bounds.contains(p),
    ensures
        0 <= bounds.cell_index(p, partitions) < cell_count(partitions),
        bounds.sub_bound(partitions, bounds.cell_index(p, partitions)).contains(p),
{
    let nx = partitions.0 as int;
    let ny = partitions.1 as int;
    let nz = partitions.2 as int;
    let ax = axis_cell(bounds.min_x as int, bounds.max_x as int, nx, p.x as int);
    let ay = axis_cell(bounds.min_y as int, bounds.max_y as int, ny, p.y as int);
    let az = axis_cell(bounds.min_z as int, bounds.max_z as int, nz, p.z as int);
    lemma_axis_cell_in_range(bounds.min_x as int, bounds.max_x as int, nx, p.x as int);
    lemma_axis_cell_in_range(bounds.min_y as int, bounds.max_y as int, ny, p.y as int);
    lemma_axis_cell_in_range(bounds.min_z as int, bounds.max_z as int, nz, p.z as int);
    lemma_row_major_in_range(ax, ay, az, nx, ny, nz);
    lemma_row_major_unique(ax, ay, az, nx, ny, nz);
    lemma_axis_cell_holds_point(bounds.min_x as int, bounds.max_x as int, nx, p.x as int);
    lemma_axis_cell_holds_point(bounds.min_y as int, bounds.max_y as int, ny, p.y as int);
    lemma_axis_cell_holds_point(bounds.min_z as int, bounds.max_z as int, nz, p.z as int);
    lemma_cuts_ordered(bounds.min_x as int, bounds.max_x as int, nx, ax, ax + 1);
    lemma_cuts_ordered(bounds.min_y as int, bounds.max_y as int, ny, ay, ay + 1);
    lemma_cuts_ordered(bounds.min_z as int, bounds.max_z as int, nz, az, az + 1);
}

/// Whether the cells of the partition can be numbered in a machine word.
pub fn cells_fit(partitions: (usize, usize, usize)) -> (fits: bool)
    ensures
        fits == (cell_count(partitions) <= usize::MAX),
{
    if partitions.0 == 0 || partitions.1 == 0 || partitions.2 == 0 {
        assert(cell_count(partitions) == 0) by (nonlinear_arith)
            requires
                partitions.0 == 0 || partitions.1 == 0 || partitions.2 == 0,
                cell_count(partitions) == partitions.0 * partitions.1 * partitions.2,
        ;
        return true;
    }
    match partitions.0.checked_mul(partitions.1) {
        Some(plane) => match plane.checked_mul(partitions.2) {
            Some(_) => true,
            None => false,
        },
        None => {
            assert(partitions.0 * partitions.1 * partitions.2 >= partitions.0 * partitions.1) by (nonlinear_arith)
                requires
                    partitions.0 >= 1,
                    partitions.1 >= 1,
                    partitions.2 >= 1,
            ;
            false
        },
    }
}

} // verus!
