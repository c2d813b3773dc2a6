//! Axis-aligned bounding boxes: two corners, and the box round two boxes.
//!
//! The coordinates are double-precision numbers held as bit patterns (see
//! the module `scalar`); a corner is three of them, for x, y and z.

use vstd::prelude::*;
use crate::scalar::{is_nan, le, less_or_equal, less_than, lt, INFINITY, NEG_INFINITY, ZERO};
use crate::util::{lemma_min_max_bound, max, max_of, min, min_of};

verus! {

/// A box given by its least and its greatest corner.
#[derive(Debug, Clone, Copy)]
pub struct AABB {
    minimum: [u64; 3],
    maximum: [u64; 3],
}

/// What the arithmetic of a ray gives for one axis of a box: the reciprocal of
/// the ray's direction along the axis, and the ray parameters at which the
/// ray crosses the plane through the least corner and the plane through the
/// greatest corner. Where the direction is zero the reciprocal and the
/// parameters are infinite.
#[derive(Debug, Clone, Copy)]
pub struct Slab {
    pub inv_d: u64,
    pub t0: u64,
    pub t1: u64,
}

/// A stretch of the ray: the parameters at which it begins and ends.
pub type Window = (u64, u64);

impl Slab {
    /// The parameter at which the ray enters the slab: the crossing of the
    /// nearer plane, which is the plane through the greatest corner where
    /// the ray runs against the axis.
    pub open spec fn entry(&self) -> u64 {
        if lt(self.inv_d, ZERO) {
            self.t1
        } else {
            self.t0
        }
    }

    /// The parameter at which the ray leaves the slab.
    pub open spec fn exit(&self) -> u64 {
        if lt(self.inv_d, ZERO) {
            self.t0
        } else {
            self.t1
        }
    }

    /// The three values are numbers.
    pub open spec fn is_numeric(&self) -> bool {
        !is_nan(self.inv_d) && !is_nan(self.t0) && !is_nan(self.t1)
    }

    /// The part of the window that lies inside the slab: it begins at the
    /// later of the two beginnings and ends at the earlier of the two ends.
    pub open spec fn narrow(&self, w: Window) -> Window {
        (max_of(self.entry(), w.0), min_of(self.exit(), w.1))
    }

    /// The part of the window from `t_min` to `t_max` that lies inside the
    /// slab.
    pub fn narrowed(&self, t_min: u64, t_max: u64) -> (w: Window)
        ensures
            w == self.narrow((t_min, t_max)),
    {
        if less_than(self.inv_d, ZERO) {
            (max(self.t1, t_min), min(self.t0, t_max))
        } else {
            (max(self.t0, t_min), min(self.t1, t_max))
        }
    }
}

/// The window holds no stretch of the ray: it does not end after it begins.
pub open spec fn is_empty(w: Window) -> bool {
    le(w.1, w.0)
}

/// Whether the ray passes through all three slabs inside the window: the
/// window is narrowed by the slab of each axis in turn, and none of the three
/// windows that come of it is empty.
pub open spec fn passes(slabs: Seq<Slab>, w: Window) -> bool {
    let w0 = slabs[0].narrow(w);
    let w1 = slabs[1].narrow(w0);
    let w2 = slabs[2].narrow(w1);
    !is_empty(w0) && !is_empty(w1) && !is_empty(w2)
}

impl AABB {
    /// The least corner.
    pub closed spec fn low(&self) -> Seq<u64> {
        self.minimum@
    }

    /// The greatest corner.
    pub closed spec fn high(&self) -> Seq<u64> {
        self.maximum@
    }

    /// Along `axis`, both corners are numbers.
    pub open spec fn numeric_along(&self, axis: int) -> bool {
        !is_nan(self.low()[axis]) && !is_nan(self.high()[axis])
    }

    /// Every coordinate of both corners is a number.
    pub open spec fn is_numeric(&self) -> bool {
        self.numeric_along(0) && self.numeric_along(1) && self.numeric_along(2)
    }

    /// Along `axis`, the least corner is not above the greatest one.
    pub open spec fn valid_along(&self, axis: int) -> bool {
        le(self.low()[axis], self.high()[axis])
    }

    /// The box is not inside out: along every axis the least corner is not
    /// above the greatest one. A box without thickness is valid.
    pub open spec fn is_valid(&self) -> bool {
        self.valid_along(0) && self.valid_along(1) && self.valid_along(2)
    }

    /// Along `axis`, the box reaches at least as far as `inner` on both
    /// sides.
    pub open spec fn encloses_along(&self, inner: AABB, axis: int) -> bool {
        le(self.low()[axis], inner.low()[axis]) && le(inner.high()[axis], self.high()[axis])
    }

    /// The box contains `inner`: along every axis its least corner is not
    /// above that of `inner`, and its greatest corner not below.
    pub open spec fn encloses(&self, inner: AABB) -> bool {
        self.encloses_along(inner, 0) && self.encloses_along(inner, 1) && self.encloses_along(
            inner,
            2,
        )
    }

    /// Along `axis`, the box has the smaller of the least coordinates of `a`
    /// and `b` and the larger of their greatest coordinates.
    pub open spec fn surrounds_along(&self, a: AABB, b: AABB, axis: int) -> bool {
        self.low()[axis] == min_of(a.low()[axis], b.low()[axis]) && self.high()[axis] == max_of(
            a.high()[axis],
            b.high()[axis],
        )
    }

    /// The box is the one round `a` and `b`, axis by axis.
    pub open spec fn surrounds(&self, a: AABB, b: AABB) -> bool {
        self.surrounds_along(a, b, 0) && self.surrounds_along(a, b, 1) && self.surrounds_along(
            a,
            b,
            2,
        )
    }

    /// The box round `a` and `b`.
    pub closed spec fn surrounding(a: AABB, b: AABB) -> AABB {
        AABB {
            minimum: [
                min_of(a.minimum[0], b.minimum[0]),
                min_of(a.minimum[1], b.minimum[1]),
                min_of(a.minimum[2], b.minimum[2]),
            ],
            maximum: [
                max_of(a.maximum[0], b.maximum[0]),
                max_of(a.maximum[1], b.maximum[1]),
                max_of(a.maximum[2], b.maximum[2]),
            ],
        }
    }

    /// Along `axis`, the point lies between the two corners.
    pub open spec fn holds_along(&self, point: [u64; 3], axis: int) -> bool {
        le(self.low()[axis], point[axis]) && le(point[axis], self.high()[axis])
    }

    /// The point lies in the box.
    pub open spec fn holds(&self, point: [u64; 3]) -> bool {
        self.holds_along(point, 0) && self.holds_along(point, 1) && self.holds_along(point, 2)
    }

    /// The box that begins the search for the extrema of a set of points: it
    /// reaches from plus infinity down to minus infinity, so that every
    /// point widens it.
    pub closed spec fn nothing() -> AABB {
        AABB {
            minimum: [INFINITY, INFINITY, INFINITY],
            maximum: [NEG_INFINITY, NEG_INFINITY, NEG_INFINITY],
        }
    }

    /// The box widened to reach the point: along every axis the smaller of
    /// its least coordinate and the point's, and the larger of its greatest
    /// coordinate and the point's.
    pub closed spec fn widened(self, point: [u64; 3]) -> AABB {
        AABB {
            minimum: [
                min_of(self.minimum[0], point[0]),
                min_of(self.minimum[1], point[1]),
                min_of(self.minimum[2], point[2]),
            ],
            maximum: [
                max_of(self.maximum[0], point[0]),
                max_of(self.maximum[1], point[1]),
                max_of(self.maximum[2], point[2]),
            ],
        }
    }

    /// The extrema of the points: the box that begins as `nothing` and is
    /// widened by each point in turn.
    pub open spec fn extrema(points: Seq<[u64; 3]>) -> AABB
        decreases points.len(),
    {
        if points.len() == 0 {
            AABB::nothing()
        } else {
            AABB::extrema(points.drop_last()).widened(points.last())
        }
    }

    /// The box with the two corners. Nothing is asked of them.
    pub fn new(a: [u64; 3], b: [u64; 3]) -> (made: AABB)
        ensures
            made.low() == a@,
            made.high() == b@,
    {
        AABB { minimum: a, maximum: b }
    }

    /// The least corner.
    pub fn min(&self) -> (corner: [u64; 3])
        ensures
            corner@ == self.low(),
    {
        self.minimum
    }

    /// The greatest corner.
    pub fn max(&self) -> (corner: [u64; 3])
        ensures
            corner@ == self.high(),
    {
        self.maximum
    }

    /// The slab test of a ray against a box, on what the arithmetic gives for
    /// each axis. The window from `t_min` to `t_max` is narrowed axis by
    /// axis: to the stretch between the crossings of the two planes, taken
    /// the other way round where the reciprocal of the direction is
    /// negative. The ray misses as soon as a window is empty, and hits where
    /// none of the three is.
    pub fn hit(slabs: &[Slab; 3], t_min: u64, t_max: u64) -> (hit: bool)
        ensures
            hit == passes(slabs@, (t_min, t_max)),
    {
        let w0 = slabs[0].narrowed(t_min, t_max);
        if less_or_equal(w0.1, w0.0) {
            return false;
        }
        let w1 = slabs[1].narrowed(w0.0, w0.1);
        if less_or_equal(w1.1, w1.0) {
            return false;
        }
        let w2 = slabs[2].narrowed(w1.0, w1.1);
        !less_or_equal(w2.1, w2.0)
    }

    /// The smallest box that holds all the points: along every axis the
    /// least and the greatest of their coordinates.
    pub fn around_points(points: &Vec<[u64; 3]>) -> (around: AABB)
        ensures
            around == AABB::extrema(points@),
    {
        let mut least: [u64; 3] = [INFINITY, INFINITY, INFINITY];
        let mut most: [u64; 3] = [NEG_INFINITY, NEG_INFINITY, NEG_INFINITY];
        let mut i: usize = 0;
        while i < points.len()
            invariant
                0 <= i <= points@.len(),
                (AABB { minimum: least, maximum: most }) == AABB::extrema(points@.take(i as int)),
            decreases points@.len() - i,
        {
            let tester = points[i];
            let ghost before = AABB { minimum: least, maximum: most };
            least = [min(least[0], tester[0]), min(least[1], tester[1]), min(least[2], tester[2])];
            most = [max(most[0], tester[0]), max(most[1], tester[1]), max(most[2], tester[2])];
            proof {
                let upto = points@.take(i as int + 1);
                assert(upto.drop_last() =~= points@.take(i as int));
                assert(upto.last() == tester);
                let after = before.widened(tester);
                assert(least@ =~= after.minimum@);
                assert(most@ =~= after.maximum@);
                assert(least == after.minimum);
                assert(most == after.maximum);
            }
            i = i + 1;
        }
        proof {
            assert(points@.take(i as int) =~= points@);
        }
        AABB { minimum: least, maximum: most }
    }

    /// The box round two boxes: along every axis the smaller of the two least
    /// coordinates and the larger of the two greatest.
    pub fn surrounding_box(box0: &AABB, box1: &AABB) -> (around: AABB)
        ensures
            around == AABB::surrounding(*box0, *box1),
            around.surrounds(*box0, *box1),
    {
        let small: [u64; 3] = [
            min(box0.minimum[0], box1.minimum[0]),
            min(box0.minimum[1], box1.minimum[1]),
            min(box0.minimum[2], box1.minimum[2]),
        ];
        let big: [u64; 3] = [
            max(box0.maximum[0], box1.maximum[0]),
            max(box0.maximum[1], box1.maximum[1]),
            max(box0.maximum[2], box1.maximum[2]),
        ];
        let around = AABB { minimum: small, maximum: big };
        proof {
            let spec_around = AABB::surrounding(*box0, *box1);
            assert(around.minimum@ =~= spec_around.minimum@);
            assert(around.maximum@ =~= spec_around.maximum@);
            assert(around.minimum == spec_around.minimum);
            assert(around.maximum == spec_around.maximum);
        }
        around
    }
}

/// The last of the three windows of the slab test: what is left of the window
/// after the slabs of all three axes.
pub open spec fn common_stretch(slabs: Seq<Slab>, w: Window) -> Window {
    slabs[2].narrow(slabs[1].narrow(slabs[0].narrow(w)))
}

/// The three slabs and the window are made of numbers.
pub open spec fn all_numbers(slabs: Seq<Slab>, w: Window) -> bool {
    &&& slabs[0].is_numeric()
    &&& slabs[1].is_numeric()
    &&& slabs[2].is_numeric()
    &&& !is_nan(w.0)
    &&& !is_nan(w.1)
}

/// Narrowing a window by a slab gives a window inside both: it begins no
/// earlier and ends no later than the window, and it begins no earlier than
/// the ray enters the slab and ends no later than the ray leaves it.
pub proof fn lemma_narrow_stays_inside(slab: Slab, w: Window)
    requires
        slab.is_numeric(),
        !is_nan(w.0),
        !is_nan(w.1),
    ensures
        !is_nan(slab.narrow(w).0),
        !is_nan(slab.narrow(w).1),
        le(w.0, slab.narrow(w).0),
        le(slab.narrow(w).1, w.1),
        le(slab.entry(), slab.narrow(w).0),
        le(slab.narrow(w).1, slab.exit()),
{
    lemma_min_max_bound(slab.entry(), w.0);
    lemma_min_max_bound(slab.exit(), w.1);
}

/// Where the slab test reports a hit, a stretch of the ray lies inside the
/// window and inside the slab of every axis: it begins before it ends, no
/// earlier than the window and no earlier than the ray enters any slab, and
/// it ends no later than the window and no later than the ray leaves any
/// slab.
pub proof fn lemma_hit_has_common_stretch(slabs: Seq<Slab>, w: Window)
    requires
        all_numbers(slabs, w),
        passes(slabs, w),
    ensures
        ({
            let c = common_stretch(slabs, w);
            &&& lt(c.0, c.1)
            &&& le(w.0, c.0) && le(c.1, w.1)
            &&& le(slabs[0].entry(), c.0) && le(c.1, slabs[0].exit())
            &&& le(slabs[1].entry(), c.0) && le(c.1, slabs[1].exit())
            &&& le(slabs[2].entry(), c.0) && le(c.1, slabs[2].exit())
        }),
{
    let w0 = slabs[0].narrow(w);
    let w1 = slabs[1].narrow(w0);
    lemma_narrow_stays_inside(slabs[0], w);
    lemma_narrow_stays_inside(slabs[1], w0);
    lemma_narrow_stays_inside(slabs[2], w1);
}

/// The slab test reports a miss whenever the stretch that is left is empty:
/// where the window is empty to begin with, and where along some axis the
/// ray does not leave the slab after it enters it. The second is so for a box
/// without thickness, and for a box that is inside out along an axis: such a
/// box is never hit.
pub proof fn lemma_empty_stretch_misses(slabs: Seq<Slab>, w: Window)
    requires
        all_numbers(slabs, w),
        is_empty(w) || le(slabs[0].exit(), slabs[0].entry()) || le(
            slabs[1].exit(),
            slabs[1].entry(),
        ) || le(slabs[2].exit(), slabs[2].entry()),
    ensures
        !passes(slabs, w),
{
    let w0 = slabs[0].narrow(w);
    let w1 = slabs[1].narrow(w0);
    lemma_narrow_stays_inside(slabs[0], w);
    lemma_narrow_stays_inside(slabs[1], w0);
    lemma_narrow_stays_inside(slabs[2], w1);
}

/// The ray is inside `outer` whenever it is inside `inner`: it enters `outer`
/// no later and leaves it no earlier.
pub open spec fn slab_covers(outer: Slab, inner: Slab) -> bool {
    le(outer.entry(), inner.entry()) && le(inner.exit(), outer.exit())
}

/// A ray that hits a box hits every box that it crosses at least as early
/// and leaves at least as late along each axis. This is what lets a search
/// skip all that lies in a box that the ray misses.
pub proof fn lemma_wider_slabs_are_hit_too(outer: Seq<Slab>, inner: Seq<Slab>, w: Window)
    requires
        all_numbers(outer, w),
        all_numbers(inner, w),
        slab_covers(outer[0], inner[0]),
        slab_covers(outer[1], inner[1]),
        slab_covers(outer[2], inner[2]),
        passes(inner, w),
    ensures
        passes(outer, w),
{
    let i0 = inner[0].narrow(w);
    let i1 = inner[1].narrow(i0);
    let o0 = outer[0].narrow(w);
    let o1 = outer[1].narrow(o0);
    lemma_narrow_stays_inside(inner[0], w);
    lemma_narrow_stays_inside(inner[1], i0);
    lemma_narrow_stays_inside(inner[2], i1);
    lemma_narrow_stays_inside(outer[0], w);
    lemma_narrow_stays_inside(outer[1], o0);
    lemma_narrow_stays_inside(outer[2], o1);
}

/// The corners of the box that begins the search for extrema are infinite,
/// and widening a box takes the smaller and the larger coordinate along each
/// axis.
pub proof fn lemma_extrema_corners(b: AABB, point: [u64; 3])
    ensures
        AABB::nothing().low() =~= seq![INFINITY, INFINITY, INFINITY],
        AABB::nothing().high() =~= seq![NEG_INFINITY, NEG_INFINITY, NEG_INFINITY],
        forall|axis: int|
            0 <= axis < 3 ==> #[trigger] b.widened(point).low()[axis] == min_of(
                b.low()[axis],
                point[axis],
            ),
        forall|axis: int|
            0 <= axis < 3 ==> #[trigger] b.widened(point).high()[axis] == max_of(
                b.high()[axis],
                point[axis],
            ),
{
}

/// The point is made of numbers.
pub open spec fn is_point(point: [u64; 3]) -> bool {
    !is_nan(point[0]) && !is_nan(point[1]) && !is_nan(point[2])
}

/// A box widened by a point holds the point and all points that it held. A
/// box that reaches no further than the widened one along any axis is inside
/// it.
pub proof fn lemma_widened_holds(b: AABB, point: [u64; 3], other: [u64; 3])
    requires
        b.is_numeric(),
        is_point(point),
    ensures
        b.widened(point).is_numeric(),
        b.widened(point).holds(point),
        b.holds(other) ==> b.widened(point).holds(other),
{
    lemma_min_max_bound(b.low()[0], point[0]);
    lemma_min_max_bound(b.low()[1], point[1]);
    lemma_min_max_bound(b.low()[2], point[2]);
    lemma_min_max_bound(b.high()[0], point[0]);
    lemma_min_max_bound(b.high()[1], point[1]);
    lemma_min_max_bound(b.high()[2], point[2]);
}

/// The extrema of a set of points that are numbers hold each of the points.
pub proof fn lemma_extrema_hold_each(points: Seq<[u64; 3]>)
    requires
        forall|k: int| 0 <= k < points.len() ==> is_point(#[trigger] points[k]),
    ensures
        AABB::extrema(points).is_numeric(),
        forall|k: int| 0 <= k < points.len() ==> AABB::extrema(points).holds(#[trigger] points[k]),
    decreases points.len(),
{
    if points.len() > 0 {
        let front = points.drop_last();
        assert forall|k: int| 0 <= k < front.len() implies is_point(#[trigger] front[k]) by {
            assert(front[k] == points[k]);
        }
        lemma_extrema_hold_each(front);
        assert(is_point(points.last()));
        assert forall|k: int| 0 <= k < points.len() implies AABB::extrema(points).holds(
            #[trigger] points[k],
        ) by {
            if k < front.len() {
                assert(front[k] == points[k]);
            }
            lemma_widened_holds(AABB::extrema(front), points.last(), points[k]);
        }
        lemma_widened_holds(AABB::extrema(front), points.last(), points.last());
    }
}

/// The corners of the box round `a` and `b` are the smaller and the larger
/// coordinates of the two, axis by axis.
pub proof fn lemma_surrounding_corners(a: AABB, b: AABB)
    ensures
        AABB::surrounding(a, b).surrounds(a, b),
{
}

/// The box round two boxes contains both, and it is valid where they are.
/// This holds of boxes whose coordinates are numbers.
pub proof fn lemma_surrounding_box_contains_both(around: AABB, a: AABB, b: AABB)
    requires
        around.surrounds(a, b),
        a.is_numeric(),
        b.is_numeric(),
    ensures
        around.is_numeric(),
        around.encloses(a),
        around.encloses(b),
        a.is_valid() && b.is_valid() ==> around.is_valid(),
{
    lemma_min_max_bound(a.low()[0], b.low()[0]);
    lemma_min_max_bound(a.low()[1], b.low()[1]);
    lemma_min_max_bound(a.low()[2], b.low()[2]);
    lemma_min_max_bound(a.high()[0], b.high()[0]);
    lemma_min_max_bound(a.high()[1], b.high()[1]);
    lemma_min_max_bound(a.high()[2], b.high()[2]);
}

/// A box contains what a box inside it contains.
pub proof fn lemma_encloses_passes_on(outer: AABB, middle: AABB, inner: AABB)
    requires
        outer.encloses(middle),
        middle.encloses(inner),
    ensures
        outer.encloses(inner),
{
}

/// A box whose coordinates are numbers contains itself.
pub proof fn lemma_encloses_itself(b: AABB)
    requires
        b.is_numeric(),
    ensures
        b.encloses(b),
{
}

} // verus!
