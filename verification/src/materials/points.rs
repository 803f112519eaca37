//! Points with the attributes of interpolation, and frames of them.

use vstd::prelude::*;
use vstd::std_specs::cmp::PartialEqSpecImpl;
use crate::color::{Color, PointColor};
use crate::coordinate::{Coordinate, PointCoordinate};
use crate::error::Error;
use crate::materials::spatial::{within_of, Metric, SpatialIndex};
use crate::utils::{copy_vec, shuffle};

verus! {

/// The size of a point that is drawn as it is: sizes count in 65536ths.
pub const POINT_SIZE_ONE: u32 = 0x1_0000;

/// The size to which a point near a crack is enlarged: twice the normal size.
pub const POINT_SIZE_NEAR_CRACK: u32 = 0x2_0000;

/// A point of a frame.
///
/// `mapping` counts how often the point was chosen as a match, `index` is
/// its place in its frame, `point_density` is the number of neighbours it is
/// expected to have within the radius used for crack detection, and
/// `point_size` is its drawn size in 65536ths.
#[derive(Clone, Copy, Debug)]
pub struct Point {
    pub point_coord: PointCoordinate,
    pub point_color: PointColor,
    pub mapping: u16,
    pub index: usize,
    pub point_density: u32,
    pub point_size: u32,
    pub near_crack: bool,
}

impl PartialEq for Point {
    /// Two points are equal where they have the same position and colour,
    /// whatever their other attributes.
    fn eq(&self, other: &Self) -> (r: bool) {
        self.point_coord == other.point_coord && self.point_color == other.point_color
    }
}

impl PartialEqSpecImpl for Point {
    open spec fn obeys_eq_spec() -> bool {
        true
    }

    open spec fn eq_spec(&self, other: &Self) -> bool {
        self.point_coord == other.point_coord && self.point_color == other.point_color
    }
}

/// A 64-bit number as a 128-bit number.
pub fn widen(a: u64) -> (wide: u128)
    ensures
        wide == a,
{
    a as u128
}

/// The square of a 64-bit number.
pub fn square_of(b: u64) -> (square: u128)
    ensures
        square == b * b,
{
    assert(b * b <= 0xffff_ffff_ffff_ffff * 0xffff_ffff_ffff_ffff) by (nonlinear_arith)
        requires
            b <= 0xffff_ffff_ffff_ffff,
    ;
    (b as u128) * (b as u128)
}

/// The mean of two sizes, rounded down.
pub open spec fn mean_size(a: u32, b: u32) -> u32 {
    ((a + b) / 2) as u32
}

impl Point {
    /// The position as an array.
    pub open spec fn position(self) -> [i32; 3] {
        [self.point_coord.x, self.point_coord.y, self.point_coord.z]
    }

    /// What this point and its match `other` are averaged to: the mean
    /// position, colour and size, no mapping count, the index and density of
    /// the match, and no crack.
    pub open spec fn average(self, other: Point) -> Point {
        Point {
            point_coord: self.point_coord.average(other.point_coord),
            point_color: self.point_color.average(other.point_color),
            mapping: 0,
            index: other.index,
            point_density: other.point_density,
            point_size: mean_size(self.point_size, other.point_size),
            near_crack: false,
        }
    }

    /// The square of the distance from the origin.
    pub open spec fn squared_norm(self) -> int {
        self.point_coord.x * self.point_coord.x + self.point_coord.y * self.point_coord.y
            + self.point_coord.z * self.point_coord.z
    }

    /// The square of the distance from the origin.
    pub fn origin_distance_squared(&self) -> (d: u64)
        ensures
            d == self.squared_norm(),
    {
        let x: i64 = self.point_coord.x as i64;
        let y: i64 = self.point_coord.y as i64;
        let z: i64 = self.point_coord.z as i64;
        assert(0 <= x * x <= 0x8000_0000 * 0x8000_0000 && 0 <= y * y <= 0x8000_0000 * 0x8000_0000 && 0
            <= z * z <= 0x8000_0000 * 0x8000_0000) by (nonlinear_arith)
            requires
                -0x8000_0000 <= x <= 0x8000_0000,
                -0x8000_0000 <= y <= 0x8000_0000,
                -0x8000_0000 <= z <= 0x8000_0000,
        ;
        (x * x) as u64 + (y * y) as u64 + (z * z) as u64
    }

    /// A point with the given attributes.
    pub fn new(
        point_coord: PointCoordinate,
        point_color: PointColor,
        mapping: u16,
        index: usize,
        point_density: u32,
        point_size: u32,
        near_crack: bool,
    ) -> (p: Self)
        ensures
            p == (Point {
                point_coord,
                point_color,
                mapping,
                index,
                point_density,
                point_size,
                near_crack,
            }),
    {
        Point { point_coord, point_color, mapping, index, point_density, point_size, near_crack }
    }

    /// A black point at the origin, of normal size, never chosen.
    pub fn new_default() -> (p: Self)
        ensures
            p == (Point {
                point_coord: PointCoordinate { x: 0, y: 0, z: 0 },
                point_color: PointColor { red: 0, green: 0, blue: 0 },
                mapping: 0,
                index: 0,
                point_density: 0,
                point_size: POINT_SIZE_ONE,
                near_crack: false,
            }),
    {
        Point {
            point_coord: PointCoordinate::new_default(),
            point_color: PointColor::new_default(),
            mapping: 0,
            index: 0,
            point_density: 0,
            point_size: POINT_SIZE_ONE,
            near_crack: false,
        }
    }

    /// The position.
    pub fn get_coord(&self) -> (c: &PointCoordinate)
        ensures
            *c == self.point_coord,
    {
        &self.point_coord
    }

    /// The colour.
    pub fn get_color(&self) -> (c: &PointColor)
        ensures
            *c == self.point_color,
    {
        &self.point_color
    }

    /// Sets the place in the frame.
    pub fn set_index(&mut self, idx: usize)
        ensures
            *final(self) == (Point { index: idx, ..*old(self) }),
    {
        self.index = idx;
    }

    /// The place in the frame.
    pub fn get_index(&mut self) -> (idx: usize)
        ensures
            idx == old(self).index,
            *final(self) == *old(self),
    {
        self.index
    }

    /// The position as an array.
    pub fn get_position(&self) -> (at: [i32; 3])
        ensures
            at == self.position(),
    {
        let at: [i32; 3] = [self.point_coord.x, self.point_coord.y, self.point_coord.z];
        assert(at@ =~= self.position()@);
        at
    }

    /// The payloads of the entries of `kd_tree` within `radius` of this
    /// point under the infinity norm, in the order of the index.
    pub fn get_nearests(&self, kd_tree: &SpatialIndex, radius: u32) -> (nearests: Vec<usize>)
        ensures
            nearests@ == crate::materials::spatial::payloads_of(
                within_of(kd_tree@, self.position(), radius as int, Metric::InfinityNorm),
            ),
    {
        let at = self.get_position();
        let found = kd_tree.within_unsorted(&at, radius as u128, Metric::InfinityNorm);
        let mut nearests: Vec<usize> = Vec::new();
        let mut i: usize = 0;
        while i < found.len()
            invariant
                i <= found.len(),
                nearests@.len() == i,
                forall|j: int| 0 <= j < i ==> nearests@[j] == found@[j].1,
            decreases found.len() - i,
        {
            nearests.push(found[i].1);
            i = i + 1;
        }
        assert(nearests@ =~= crate::materials::spatial::payloads_of(found@));
        nearests
    }

    /// The point half-way to its match `another_point`.
    pub fn get_average(&self, another_point: &Point) -> (p: Point)
        ensures
            p == self.average(*another_point),
    {
        Point::new(
            self.point_coord.get_average(&another_point.point_coord),
            self.point_color.get_average(&another_point.point_color),
            0,
            another_point.index,
            another_point.point_density,
            ((self.point_size as u64 + another_point.point_size as u64) / 2) as u32,
            false,
        )
    }
}

/// A frame of points, with what interpolation records beside them: the
/// changes of position and colour from another frame, and the frame that
/// the points were matched against.
#[derive(Debug)]
pub struct Points {
    pub data: Vec<Point>,
    pub delta_pos_vector: Vec<[i64; 3]>,
    pub delta_colours: Vec<[i16; 3]>,
    pub reference_frame: Vec<Point>,
}

/// The index entries of a frame: each point's position with its index.
pub open spec fn entries_of(data: Seq<Point>) -> Seq<([i32; 3], usize)> {
    Seq::new(data.len(), |i: int| (data[i].position(), data[i].index))
}

/// How far `next` has moved from `prev`, axis by axis.
pub open spec fn position_delta(next: Point, prev: Point) -> [i64; 3] {
    [
        (next.point_coord.x - prev.point_coord.x) as i64,
        (next.point_coord.y - prev.point_coord.y) as i64,
        (next.point_coord.z - prev.point_coord.z) as i64,
    ]
}

/// How far the colour of `next` is from that of `prev`, part by part.
pub open spec fn colour_delta(next: Point, prev: Point) -> [i16; 3] {
    [
        (next.point_color.red - prev.point_color.red) as i16,
        (next.point_color.green - prev.point_color.green) as i16,
        (next.point_color.blue - prev.point_color.blue) as i16,
    ]
}

/// Whether each point of the frame has its place as its index.
pub open spec fn is_indexed(data: Seq<Point>) -> bool {
    forall|i: int| 0 <= i < data.len() ==> (#[trigger] data[i]).index == i
}

impl Default for Points {
    /// A frame without points.
    fn default() -> (points: Self)
        ensures
            points.data@.len() == 0,
            points.delta_pos_vector@.len() == 0,
            points.delta_colours@.len() == 0,
            points.reference_frame@.len() == 0,
    {
        Points::new()
    }
}

impl Clone for Points {
    fn clone(&self) -> (copy: Self)
        ensures
            copy.data@ == self.data@,
            copy.delta_pos_vector@ == self.delta_pos_vector@,
            copy.delta_colours@ == self.delta_colours@,
            copy.reference_frame@ == self.reference_frame@,
    {
        Points {
            data: copy_vec(&self.data),
            delta_pos_vector: copy_vec(&self.delta_pos_vector),
            delta_colours: copy_vec(&self.delta_colours),
            reference_frame: copy_vec(&self.reference_frame),
        }
    }
}

impl Points {
    /// A frame without points.
    pub fn new() -> (points: Self)
        ensures
            points.data@.len() == 0,
            points.delta_pos_vector@.len() == 0,
            points.delta_colours@.len() == 0,
            points.reference_frame@.len() == 0,
    {
        Points {
            data: Vec::new(),
            delta_pos_vector: Vec::new(),
            delta_colours: Vec::new(),
            reference_frame: Vec::new(),
        }
    }

    /// Appends a point.
    pub fn add(&mut self, elem: Point)
        ensures
            final(self).data@ == old(self).data@.push(elem),
            final(self).delta_pos_vector == old(self).delta_pos_vector,
            final(self).delta_colours == old(self).delta_colours,
            final(self).reference_frame == old(self).reference_frame,
    {
        self.data.push(elem);
    }

    /// A frame of the given points, with nothing recorded beside them.
    pub fn of(data: Vec<Point>) -> (points: Self)
        ensures
            points.data == data,
            points.delta_pos_vector@.len() == 0,
            points.delta_colours@.len() == 0,
            points.reference_frame@.len() == 0,
    {
        Points {
            data,
            delta_pos_vector: Vec::new(),
            delta_colours: Vec::new(),
            reference_frame: Vec::new(),
        }
    }

    /// The number of points.
    pub fn len(&self) -> (n: usize)
        ensures
            n == self.data@.len(),
    {
        self.data.len()
    }

    /// Whether the frame has no points.
    pub fn is_empty(&self) -> (empty: bool)
        ensures
            empty == (self.data@.len() == 0),
    {
        self.data.len() == 0
    }

    /// The points, given away.
    pub fn get_data(self) -> (data: Vec<Point>)
        ensures
            data == self.data,
    {
        self.data
    }

    /// A copy of the points.
    pub fn get_clone_data(&self) -> (data: Vec<Point>)
        ensures
            data@ == self.data@,
    {
        copy_vec(&self.data)
    }

    /// The colours of the points, in their order.
    pub fn get_colors(self) -> (colors: Color)
        ensures
            colors.data@ == Seq::new(self.data@.len(), |i: int| self.data@[i].point_color),
    {
        let (_, colors) = self.get_coords_cols();
        colors
    }

    /// The positions of the points, in their order.
    pub fn get_coords(self) -> (coords: Coordinate)
        ensures
            coords.data@ == Seq::new(self.data@.len(), |i: int| self.data@[i].point_coord),
    {
        let (coords, _) = self.get_coords_cols();
        coords
    }

    /// The positions and the colours of the points, in their order.
    pub fn get_coords_cols(self) -> (both: (Coordinate, Color))
        ensures
            both.0.data@ == Seq::new(self.data@.len(), |i: int| self.data@[i].point_coord),
            both.1.data@ == Seq::new(self.data@.len(), |i: int| self.data@[i].point_color),
    {
        let mut coords: Vec<PointCoordinate> = Vec::new();
        let mut colors: Vec<PointColor> = Vec::new();
        let mut i: usize = 0;
        while i < self.data.len()
            invariant
                i <= self.data.len(),
                coords@.len() == i,
                colors@.len() == i,
                forall|j: int| 0 <= j < i ==> coords@[j] == self.data@[j].point_coord,
                forall|j: int| 0 <= j < i ==> colors@[j] == self.data@[j].point_color,
            decreases self.data.len() - i,
        {
            coords.push(self.data[i].point_coord);
            colors.push(self.data[i].point_color);
            i = i + 1;
        }
        assert(coords@ =~= Seq::new(self.data@.len(), |i: int| self.data@[i].point_coord));
        assert(colors@ =~= Seq::new(self.data@.len(), |i: int| self.data@[i].point_color));
        (Coordinate::new(coords), Color::new(colors))
    }

    /// The spatial index of the frame: one entry per point, its position with
    /// its index. The entries are added in a random order, so that an index
    /// which is built as a tree does not degenerate on sorted frames.
    pub fn to_kdtree(self) -> (kd_tree: SpatialIndex)
        ensures
            kd_tree@.to_multiset() == entries_of(self.data@).to_multiset(),
            kd_tree@.len() == self.data@.len(),
    {
        let mut entries: Vec<([i32; 3], usize)> = Vec::new();
        let mut i: usize = 0;
        while i < self.data.len()
            invariant
                i <= self.data.len(),
                entries@.len() == i,
                forall|j: int|
                    0 <= j < i ==> entries@[j] == (self.data@[j].position(), self.data@[j].index),
            decreases self.data.len() - i,
        {
            entries.push((self.data[i].get_position(), self.data[i].index));
            i = i + 1;
        }
        assert(entries@ =~= entries_of(self.data@));
        shuffle(&mut entries);
        let mut kd_tree = SpatialIndex::new();
        let mut k: usize = 0;
        while k < entries.len()
            invariant
                k <= entries.len(),
                kd_tree@ == entries@.take(k as int),
            decreases entries.len() - k,
        {
            let at = entries[k].0;
            kd_tree.add(&at, entries[k].1);
            assert(entries@.take(k + 1) =~= entries@.take(k as int).push(entries@[k as int]));
            k = k + 1;
        }
        proof {
            assert(entries@.take(entries.len() as int) =~= entries@);
            vstd::seq_lib::to_multiset_len(kd_tree@);
            vstd::seq_lib::to_multiset_len(entries_of(self.data@));
        }
        kd_tree
    }

    /// Records how each point of this frame differs from the point at the
    /// same place in `prev`: the differences of position and of colour are
    /// appended to what is recorded already. Frames of different sizes are
    /// rejected and nothing is recorded.
    pub fn frame_delta(&mut self, prev: Points) -> (r: Result<(), Error>)
        ensures
            final(self).data == old(self).data,
            final(self).reference_frame == old(self).reference_frame,
            prev.data@.len() != old(self).data@.len() ==> r == Err::<(), Error>(Error::ShapeMismatch)
                && final(self).delta_pos_vector == old(self).delta_pos_vector && final(self).delta_colours == old(self).delta_colours,
            prev.data@.len() == old(self).data@.len() ==> r == Ok::<(), Error>(()) && final(self).delta_pos_vector@ == old(self).delta_pos_vector@ + Seq::new(
                prev.data@.len(),
                |i: int| position_delta(old(self).data@[i], prev.data@[i]),
            ) && final(self).delta_colours@ == old(self).delta_colours@ + Seq::new(
                prev.data@.len(),
                |i: int| colour_delta(old(self).data@[i], prev.data@[i]),
            ),
    {
        if prev.data.len() != self.data.len() {
            return Err(Error::ShapeMismatch);
        }
        let ghost pos_before = self.delta_pos_vector@;
        let ghost col_before = self.delta_colours@;
        let ghost data = self.data@;
        let n: usize = prev.data.len();
        let mut pos: usize = 0;
        while pos < n
            invariant
                pos <= n,
                n == prev.data@.len(),
                n == self.data@.len(),
                self.data == old(self).data,
                self.reference_frame == old(self).reference_frame,
                data == self.data@,
                self.delta_pos_vector@ == pos_before + Seq::new(
                    pos as nat,
                    |i: int| position_delta(data[i], prev.data@[i]),
                ),
                self.delta_colours@ == col_before + Seq::new(
                    pos as nat,
                    |i: int| colour_delta(data[i], prev.data@[i]),
                ),
            decreases n - pos,
        {
            let next = self.data[pos];
            let before = prev.data[pos];
            let moved: [i64; 3] = [
                next.point_coord.x as i64 - before.point_coord.x as i64,
                next.point_coord.y as i64 - before.point_coord.y as i64,
                next.point_coord.z as i64 - before.point_coord.z as i64,
            ];
            let recoloured: [i16; 3] = [
                next.point_color.red as i16 - before.point_color.red as i16,
                next.point_color.green as i16 - before.point_color.green as i16,
                next.point_color.blue as i16 - before.point_color.blue as i16,
            ];
            assert(moved@ =~= position_delta(next, before)@);
            assert(recoloured@ =~= colour_delta(next, before)@);
            self.delta_pos_vector.push(moved);
            self.delta_colours.push(recoloured);
            assert(self.delta_pos_vector@ =~= pos_before + Seq::new(
                (pos + 1) as nat,
                |i: int| position_delta(data[i], prev.data@[i]),
            ));
            assert(self.delta_colours@ =~= col_before + Seq::new(
                (pos + 1) as nat,
                |i: int| colour_delta(data[i], prev.data@[i]),
            ));
            pos = pos + 1;
        }
        Ok(())
    }

    /// A copy of the recorded changes of position.
    pub fn get_delta_pos_vector(&self) -> (deltas: Vec<[i64; 3]>)
        ensures
            deltas@ == self.delta_pos_vector@,
    {
        copy_vec(&self.delta_pos_vector)
    }

    /// A copy of the recorded changes of colour.
    pub fn get_delta_colours(&self) -> (deltas: Vec<[i16; 3]>)
        ensures
            deltas@ == self.delta_colours@,
    {
        copy_vec(&self.delta_colours)
    }
}

} // verus!
