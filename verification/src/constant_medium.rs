//! Media of constant density: the stretch of a ray inside the boundary, and
//! whether the ray is scattered on it.
//!
//! Ray parameters and lengths are numbers held as bit patterns (see the
//! module `scalar`). The caller does the arithmetic; the steps of the search
//! and what each of them decides are laid down here.

use vstd::prelude::*;
use crate::scalar::{
    is_nan, le, lemma_le_orders_numbers, less_or_equal, less_than, lt, INFINITY, NEG_INFINITY, ZERO,
};

verus! {

/// The stretch from `enter` to `leave`, cut down to the window from `t_min`
/// to `t_max`: it begins no earlier than the window and ends no later. There
/// is none where it would not end after it begins. A stretch that begins
/// before the origin of the ray begins at the origin instead.
pub open spec fn clipped(enter: u64, leave: u64, t_min: u64, t_max: u64) -> Option<(u64, u64)> {
    let begin = if lt(enter, t_min) {
        t_min
    } else {
        enter
    };
    let end = if lt(t_max, leave) {
        t_max
    } else {
        leave
    };
    if le(end, begin) {
        None
    } else if lt(begin, ZERO) {
        Some((ZERO, end))
    } else {
        Some((begin, end))
    }
}

/// What is left of a stretch lies in the window and in the stretch: among
/// numbers, it ends after the later of the two beginnings, and no later than
/// the window and the stretch end. It begins at the later of the two
/// beginnings, or at the origin of the ray where that one is later still.
pub proof fn lemma_clipped_lies_inside(enter: u64, leave: u64, t_min: u64, t_max: u64)
    requires
        !is_nan(enter),
        !is_nan(leave),
        !is_nan(t_min),
        !is_nan(t_max),
        clipped(enter, leave, t_min, t_max).is_some(),
    ensures
        ({
            let (begin, end) = clipped(enter, leave, t_min, t_max).unwrap();
            &&& !is_nan(begin) && !is_nan(end)
            &&& le(t_min, begin) && le(enter, begin)
            &&& le(end, t_max) && le(end, leave)
            &&& lt(t_min, end) && lt(enter, end)
            &&& begin == t_min || begin == enter || begin == ZERO
            &&& le(ZERO, begin)
        }),
{
    lemma_le_orders_numbers(enter, t_min, ZERO);
    lemma_le_orders_numbers(leave, t_max, ZERO);
}

/// Cuts the stretch from `enter` to `leave` down to the window from `t_min`
/// to `t_max`, and lets it begin no earlier than the origin of the ray.
/// Returns the new beginning and end, or `None` where nothing is left.
pub fn clip(enter: u64, leave: u64, t_min: u64, t_max: u64) -> (stretch: Option<(u64, u64)>)
    ensures
        stretch == clipped(enter, leave, t_min, t_max),
{
    let mut begin = enter;
    let mut end = leave;
    if less_than(begin, t_min) {
        begin = t_min;
    }
    if less_than(t_max, end) {
        end = t_max;
    }
    if less_or_equal(end, begin) {
        return None;
    }
    if less_than(begin, ZERO) {
        begin = ZERO;
    }
    Some((begin, end))
}

/// What the arithmetic gives for a stretch of the ray inside the medium: the
/// length of the free path that was drawn, the length of the stretch, and the
/// ray parameter at which the free path ends.
#[derive(Debug, Clone, Copy)]
pub struct FreePath {
    pub hit_distance: u64,
    pub distance_inside_boundary: u64,
    pub t: u64,
}

/// Any four values may be what the steps of the search come to: the two hits
/// on the boundary, the beginning of the search for the second, and the free
/// path. This names them.
pub open spec fn is_passage(
    enter: Option<u64>,
    after: u64,
    leave: Option<u64>,
    path: FreePath,
) -> bool {
    true
}

/// `found` is a result of the search for a scattering of the ray in the
/// medium, in the window from `t_min` to `t_max`, with the answers that the
/// caller's functions can give. The ray is not scattered where it does not
/// hit the boundary anywhere, where it does not hit it again after that,
/// where nothing is left of the stretch between the two hits inside the
/// window, and where the free path is longer than the stretch. Otherwise it
/// is scattered where the free path ends.
pub open spec fn scatters<FB, FN, FP>(
    boundary_hit: &FB,
    next_after: &FN,
    free_path: &FP,
    t_min: u64,
    t_max: u64,
    found: Option<u64>,
) -> bool where
    FB: Fn(u64, u64) -> Option<u64>,
    FN: Fn(u64) -> u64,
    FP: Fn(u64, u64) -> FreePath,
 {
    exists|enter: Option<u64>, after: u64, leave: Option<u64>, path: FreePath|
        {
            &&& #[trigger] is_passage(enter, after, leave, path)
            &&& boundary_hit.ensures((NEG_INFINITY, INFINITY), enter)
            &&& enter.is_none() ==> found.is_none()
            &&& enter.is_some() ==> {
                &&& next_after.ensures((enter.unwrap(),), after)
                &&& boundary_hit.ensures((after, INFINITY), leave)
                &&& leave.is_none() ==> found.is_none()
                &&& leave.is_some() ==> match clipped(
                    enter.unwrap(),
                    leave.unwrap(),
                    t_min,
                    t_max,
                ) {
                    None => found.is_none(),
                    Some((begin, end)) => {
                        &&& free_path.ensures((begin, end), path)
                        &&& found == if lt(path.distance_inside_boundary, path.hit_distance) {
                            None
                        } else {
                            Some(path.t)
                        }
                    },
                }
            }
        }
}

/// Searches for the point at which a ray is scattered in a medium, in the
/// window from `t_min` to `t_max`. The arithmetic is the caller's:
/// `boundary_hit` gives the ray parameter at which the ray hits the boundary
/// inside a window, `next_after` gives the ray parameter just after a hit,
/// from which the search for the next hit begins, and `free_path` draws the
/// free path for a stretch of the ray.
///
/// The ray enters the boundary at its first hit anywhere on its line and
/// leaves it at the next hit after that. The stretch between the two is cut
/// down to the window. The ray is scattered where the free path ends, unless
/// the free path is longer than the stretch.
pub fn hit<FB, FN, FP>(
    boundary_hit: &FB,
    next_after: &FN,
    free_path: &FP,
    t_min: u64,
    t_max: u64,
) -> (found: Option<u64>) where
    FB: Fn(u64, u64) -> Option<u64>,
    FN: Fn(u64) -> u64,
    FP: Fn(u64, u64) -> FreePath,

    requires
        forall|lo: u64, hi: u64| boundary_hit.requires((lo, hi)),
        forall|t: u64| next_after.requires((t,)),
        forall|begin: u64, end: u64| free_path.requires((begin, end)),
    ensures
        scatters(boundary_hit, next_after, free_path, t_min, t_max, found),
{
    let ghost nothing = FreePath { hit_distance: ZERO, distance_inside_boundary: ZERO, t: ZERO };
    let enter = boundary_hit(NEG_INFINITY, INFINITY);
    let rec1 = match enter {
        Some(t) => t,
        None => {
            assert(is_passage(enter, ZERO, None, nothing));
            return None;
        },
    };
    let after = next_after(rec1);
    let leave = boundary_hit(after, INFINITY);
    let rec2 = match leave {
        Some(t) => t,
        None => {
            assert(is_passage(enter, after, leave, nothing));
            return None;
        },
    };
    let (begin, end) = match clip(rec1, rec2, t_min, t_max) {
        Some(stretch) => stretch,
        None => {
            assert(is_passage(enter, after, leave, nothing));
            return None;
        },
    };
    let path = free_path(begin, end);
    assert(is_passage(enter, after, leave, path));
    if less_than(path.distance_inside_boundary, path.hit_distance) {
        None
    } else {
        Some(path.t)
    }
}

} // verus!
