//! Spheres: which root of the quadratic is the hit.
//!
//! A ray meets a sphere where a quadratic in the ray parameter vanishes. The
//! caller does the arithmetic and hands over the discriminant and the two
//! roots as bit patterns (see the module `scalar`); which of them counts is
//! decided here, for spheres at rest and for moving ones alike.

use vstd::prelude::*;
use crate::hittable::{answers_nearest, Answers};
use crate::scalar::{is_nan, is_within, le, lemma_within_numbers, less_than, lt, within, ZERO};

verus! {

/// The root that counts as the hit. There is none where the discriminant is
/// negative. Otherwise it is the smaller root where that one is not outside
/// the window from `t_min` to `t_max`, else the larger root where that one is
/// not outside it, else none.
pub open spec fn root_in_window(
    discriminant: u64,
    smaller: u64,
    larger: u64,
    t_min: u64,
    t_max: u64,
) -> Option<u64> {
    if lt(discriminant, ZERO) {
        None
    } else if is_within(smaller, t_min, t_max) {
        Some(smaller)
    } else if is_within(larger, t_min, t_max) {
        Some(larger)
    } else {
        None
    }
}

/// The ray parameter of a hit lies in the window of the query: a root that is
/// chosen is one of the two, and where it and the ends of the window are
/// numbers it lies between them.
pub proof fn lemma_root_lies_in_window(
    discriminant: u64,
    smaller: u64,
    larger: u64,
    t_min: u64,
    t_max: u64,
)
    requires
        root_in_window(discriminant, smaller, larger, t_min, t_max).is_some(),
    ensures
        ({
            let t = root_in_window(discriminant, smaller, larger, t_min, t_max).unwrap();
            &&& t == smaller || t == larger
            &&& !lt(discriminant, ZERO)
            &&& !is_nan(t) && !is_nan(t_min) && !is_nan(t_max) ==> le(t_min, t) && le(t, t_max)
        }),
{
    let t = root_in_window(discriminant, smaller, larger, t_min, t_max).unwrap();
    if !is_nan(t) && !is_nan(t_min) && !is_nan(t_max) {
        lemma_within_numbers(t, t_min, t_max);
    }
}

/// What the arithmetic gives for one sphere and a fixed ray: the discriminant
/// of the quadratic and its two roots.
#[derive(Debug, Clone, Copy)]
pub struct Quadratic {
    pub discriminant: u64,
    pub smaller: u64,
    pub larger: u64,
}

impl Quadratic {
    /// The two roots are numbers, and the smaller is not above the larger.
    pub open spec fn is_ordered(&self) -> bool {
        !is_nan(self.smaller) && !is_nan(self.larger) && le(self.smaller, self.larger)
    }
}

/// The answers of a scene of spheres to the queries of a search: the sphere at
/// a place answers with the root that counts in the window.
pub open spec fn sphere_answers(spheres: Seq<Quadratic>) -> Answers {
    |id: usize, lo: u64, hi: u64|
        if id < spheres.len() {
            root_in_window(
                spheres[id as int].discriminant,
                spheres[id as int].smaller,
                spheres[id as int].larger,
                lo,
                hi,
            )
        } else {
            None
        }
}

/// Spheres answer with their nearest crossing in the window, as the searches
/// for the nearest hit expect of every surface. This holds where the roots of
/// every sphere are numbers in ascending order and the window begins at a
/// number.
pub proof fn lemma_spheres_answer_nearest(spheres: Seq<Quadratic>, t_min: u64)
    requires
        !is_nan(t_min),
        forall|i: int| 0 <= i < spheres.len() ==> (#[trigger] spheres[i]).is_ordered(),
    ensures
        answers_nearest(sphere_answers(spheres), t_min),
{
    let nearest = sphere_answers(spheres);
    assert forall|id: usize, hi: u64|
        !is_nan(hi) && (#[trigger] nearest(id, t_min, hi)).is_some() implies {
        &&& !is_nan(nearest(id, t_min, hi).unwrap())
        &&& le(t_min, nearest(id, t_min, hi).unwrap())
        &&& le(nearest(id, t_min, hi).unwrap(), hi)
    } by {
        assert(spheres[id as int].is_ordered());
    }
    assert forall|id: usize, hi: u64, earlier: u64|
        (#[trigger] nearest(id, t_min, hi)).is_some() && le(earlier, hi) implies #[trigger] nearest(
        id,
        t_min,
        earlier,
    ) == if le(nearest(id, t_min, hi).unwrap(), earlier) {
        nearest(id, t_min, hi)
    } else {
        None
    } by {
        assert(spheres[id as int].is_ordered());
    }
    assert forall|id: usize, hi: u64, earlier: u64|
        (#[trigger] nearest(id, t_min, hi)).is_none() && le(earlier, hi) implies (
    #[trigger] nearest(id, t_min, earlier)).is_none() by {
        if id < spheres.len() {
            assert(spheres[id as int].is_ordered());
        }
    }
}

/// Picks the root of the quadratic that is the hit, if there is one: the
/// nearest root that lies in the window from `t_min` to `t_max`.
pub fn nearest_root(discriminant: u64, smaller: u64, larger: u64, t_min: u64, t_max: u64) -> (root:
    Option<u64>)
    ensures
        root == root_in_window(discriminant, smaller, larger, t_min, t_max),
{
    if less_than(discriminant, ZERO) {
        return None;
    }
    if within(smaller, t_min, t_max) {
        return Some(smaller);
    }
    if within(larger, t_min, t_max) {
        return Some(larger);
    }
    None
}

} // verus!
