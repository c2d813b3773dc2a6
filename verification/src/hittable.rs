//! What is common to all searches for the nearest hit of a ray, and what
//! every hit records of the side on which the surface was struck.
//!
//! Ray parameters and directions are numbers held as bit patterns (see the
//! module `scalar`). A search reports a hit as the place of the surface in
//! the caller's list together with the ray parameter of the hit.

use vstd::prelude::*;
use crate::scalar::{is_nan, le, less_than, lt, negate, negated, ZERO};

verus! {

/// The end of the window in which the search goes on after `found`: the ray
/// parameter of the hit, if there was one, else the end that the window had.
pub open spec fn up_to(found: Option<(usize, u64)>, t_max: u64) -> u64 {
    match found {
        Some((_, t)) => t,
        None => t_max,
    }
}

/// The end of the window in which the search goes on after `found`.
pub fn until(found: Option<(usize, u64)>, t_max: u64) -> (end: u64)
    ensures
        end == up_to(found, t_max),
{
    match found {
        Some((_, t)) => t,
        None => t_max,
    }
}

/// What a search reports for a surface from the answer of the caller: the
/// surface together with the ray parameter of the hit.
pub open spec fn report(id: usize, answer: Option<u64>) -> Option<(usize, u64)> {
    match answer {
        Some(t) => Some((id, t)),
        None => None,
    }
}

/// Every value is a result that a search may have; this names the results of
/// the two sides of a branch.
pub open spec fn is_result(found: Option<(usize, u64)>) -> bool {
    true
}

/// The later of two results where it has a hit, else the earlier.
pub open spec fn later_or(later: Option<(usize, u64)>, earlier: Option<(usize, u64)>) -> Option<
    (usize, u64),
> {
    if later.is_some() {
        later
    } else {
        earlier
    }
}

/// What the surfaces answer to a query about a fixed ray: for the surface at
/// a place and a window given by its two ends, the ray parameter of the hit
/// in that window, if there is one.
pub type Answers = spec_fn(usize, u64, u64) -> Option<u64>;

/// The caller's `leaf_hit` answers as `nearest` says, and in no other way.
pub open spec fn answers_by<L: Fn(usize, u64, u64) -> Option<u64>>(
    leaf_hit: &L,
    nearest: Answers,
) -> bool {
    forall|id: usize, lo: u64, hi: u64, answer: Option<u64>| #[trigger]
        leaf_hit.ensures((id, lo, hi), answer) ==> answer == nearest(id, lo, hi)
}

/// In windows that begin at `t_min` and end at a number, every surface
/// answers with its nearest crossing in the window. That is: an answer is a
/// number inside the window; in a window that ends earlier, but not before
/// the answer, the answer is the same; in a window that ends before the
/// answer there is no hit; and where there is no hit in a window there is
/// none in a window that ends earlier.
pub open spec fn answers_nearest(nearest: Answers, t_min: u64) -> bool {
    &&& forall|id: usize, hi: u64|
        !is_nan(hi) && (#[trigger] nearest(id, t_min, hi)).is_some() ==> {
        &&& !is_nan(nearest(id, t_min, hi).unwrap())
        &&& le(t_min, nearest(id, t_min, hi).unwrap())
        &&& le(nearest(id, t_min, hi).unwrap(), hi)
    }
    &&& forall|id: usize, hi: u64, earlier: u64|
        (#[trigger] nearest(id, t_min, hi)).is_some() && le(earlier, hi) ==> #[trigger] nearest(
            id,
            t_min,
            earlier,
        ) == if le(nearest(id, t_min, hi).unwrap(), earlier) {
            nearest(id, t_min, hi)
        } else {
            None
        }
    &&& forall|id: usize, hi: u64, earlier: u64|
        (#[trigger] nearest(id, t_min, hi)).is_none() && le(earlier, hi) ==> (#[trigger] nearest(
            id,
            t_min,
            earlier,
        )).is_none()
}

/// Whether the ray strikes the surface from outside: the product of its
/// direction with the outward normal is negative. A product that is zero or
/// not a number counts as a strike from inside.
pub open spec fn is_front_face(against: u64) -> bool {
    lt(against, ZERO)
}

/// The direction turned round: each of its numbers negated.
pub open spec fn reversed(direction: Seq<u64>) -> Seq<u64> {
    seq![negated(direction[0]), negated(direction[1]), negated(direction[2])]
}

/// The normal that a hit records: the outward normal where the ray strikes
/// from outside, and the outward normal turned round where it does not, so
/// that the recorded normal stands against the ray.
pub open spec fn facing_normal(against: u64, outward_normal: Seq<u64>) -> Seq<u64> {
    if is_front_face(against) {
        outward_normal
    } else {
        reversed(outward_normal)
    }
}

/// Tells the side of the surface and the normal to record, from the product
/// `against` of the ray's direction with the outward normal.
pub fn face_normal(against: u64, outward_normal: [u64; 3]) -> (face: (bool, [u64; 3]))
    ensures
        face.0 == is_front_face(against),
        face.1@ == facing_normal(against, outward_normal@),
{
    if less_than(against, ZERO) {
        (true, outward_normal)
    } else {
        let normal: [u64; 3] = [
            negate(outward_normal[0]),
            negate(outward_normal[1]),
            negate(outward_normal[2]),
        ];
        assert(normal@ =~= reversed(outward_normal@));
        (false, normal)
    }
}

} // verus!
