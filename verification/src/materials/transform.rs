//! Filtering a frame and transforming its points.

use vstd::prelude::*;
use crate::materials::points::{Point, Points};

verus! {

/// Whether `out` is what filtering and transforming makes of `point`: what
/// `change` makes of it where it passes `filter`, what `change_remain` makes
/// of it where it does not.
pub open spec fn transformed<F, G, H>(filter: &F, change: &G, change_remain: &H, point: Point, out: Point) -> bool where
    F: Fn(&Point) -> bool,
    G: Fn(&Point) -> Point,
    H: Fn(&Point) -> Point,
 {
    (call_ensures(filter, (&point,), true) && call_ensures(change, (&point,), out)) || (call_ensures(
        filter,
        (&point,),
        false,
    ) && call_ensures(change_remain, (&point,), out))
}

impl Points {
    /// Filters and transforms: a frame in which every point that passes
    /// `filter` is replaced by what `change` makes of it and every other
    /// point by what `change_remain` makes of it, in the order of this
    /// frame. Nothing is recorded beside the points.
    pub fn fat<F, G, H>(&self, filter: &F, change: &G, change_remain: &H) -> (res: Points) where
        F: Fn(&Point) -> bool,
        G: Fn(&Point) -> Point,
        H: Fn(&Point) -> Point,

        requires
            forall|i: int| 0 <= i < self.data@.len() ==> call_requires(filter, (&#[trigger] self.data@[i],)),
            forall|i: int| 0 <= i < self.data@.len() ==> call_requires(change, (&#[trigger] self.data@[i],)),
            forall|i: int|
                0 <= i < self.data@.len() ==> call_requires(change_remain, (&#[trigger] self.data@[i],)),
        ensures
            res.data@.len() == self.data@.len(),
            res.delta_pos_vector@.len() == 0,
            res.delta_colours@.len() == 0,
            res.reference_frame@.len() == 0,
            forall|i: int|
                0 <= i < self.data@.len() ==> transformed(
                    filter,
                    change,
                    change_remain,
                    self.data@[i],
                    #[trigger] res.data@[i],
                ),
    {
        let mut res = Points::new();
        let mut i: usize = 0;
        while i < self.data.len()
            invariant
                i <= self.data.len(),
                forall|k: int|
                    0 <= k < self.data@.len() ==> call_requires(filter, (&#[trigger] self.data@[k],)),
                forall|k: int|
                    0 <= k < self.data@.len() ==> call_requires(change, (&#[trigger] self.data@[k],)),
                forall|k: int|
                    0 <= k < self.data@.len() ==> call_requires(
                        change_remain,
                        (&#[trigger] self.data@[k],),
                    ),
                res.data@.len() == i,
                res.delta_pos_vector@.len() == 0,
                res.delta_colours@.len() == 0,
                res.reference_frame@.len() == 0,
                forall|k: int|
                    0 <= k < i ==> transformed(
                        filter,
                        change,
                        change_remain,
                        self.data@[k],
                        #[trigger] res.data@[k],
                    ),
            decreases self.data.len() - i,
        {
            let point = &self.data[i];
            let ghost before = res.data@;
            if filter(point) {
                res.add(change(point));
            } else {
                res.add(change_remain(point));
            }
            assert forall|k: int| 0 <= k < i + 1 implies transformed(
                filter,
                change,
                change_remain,
                self.data@[k],
                #[trigger] res.data@[k],
            ) by {
                if k < i {
                    assert(res.data@[k] == before[k]);
                }
            }
            i = i + 1;
        }
        res
    }
}

} // verus!
