//! Rectangles in a plane of constant x, y or z: whether a ray that crosses
//! the plane hits the rectangle.
//!
//! The caller works out where the ray crosses the plane and hands over the
//! ray parameter and the two coordinates of the crossing inside the plane,
//! as bit patterns (see the module `scalar`). The same rule serves all three
//! orientations.

use vstd::prelude::*;
use crate::scalar::{is_nan, is_within, le, lemma_within_numbers, within};

verus! {

/// Where a ray crosses the plane of a rectangle: the ray parameter, and the
/// two coordinates of the crossing inside the plane.
#[derive(Debug, Clone, Copy)]
pub struct Crossing {
    pub t: u64,
    pub a: u64,
    pub b: u64,
}

/// The reach of a rectangle inside its plane: from `a0` to `a1` along the
/// first axis of the plane and from `b0` to `b1` along the second.
#[derive(Debug, Clone, Copy)]
pub struct Extent {
    pub a0: u64,
    pub a1: u64,
    pub b0: u64,
    pub b1: u64,
}

/// The crossing is a hit: its ray parameter is not outside the window from
/// `t_min` to `t_max`, and its two coordinates are not outside the reach of
/// the rectangle.
pub open spec fn is_hit(crossing: Crossing, extent: Extent, t_min: u64, t_max: u64) -> bool {
    &&& is_within(crossing.t, t_min, t_max)
    &&& is_within(crossing.a, extent.a0, extent.a1)
    &&& is_within(crossing.b, extent.b0, extent.b1)
}

/// The ray parameter of a hit lies in the window of the query, and the hit
/// lies on the rectangle, ends and edges included. This is so wherever the
/// values are numbers.
pub proof fn lemma_hit_lies_in_window(crossing: Crossing, extent: Extent, t_min: u64, t_max: u64)
    requires
        is_hit(crossing, extent, t_min, t_max),
    ensures
        !is_nan(crossing.t) && !is_nan(t_min) && !is_nan(t_max) ==> le(t_min, crossing.t) && le(
            crossing.t,
            t_max,
        ),
        !is_nan(crossing.a) && !is_nan(extent.a0) && !is_nan(extent.a1) ==> le(
            extent.a0,
            crossing.a,
        ) && le(crossing.a, extent.a1),
        !is_nan(crossing.b) && !is_nan(extent.b0) && !is_nan(extent.b1) ==> le(
            extent.b0,
            crossing.b,
        ) && le(crossing.b, extent.b1),
{
    if !is_nan(crossing.t) && !is_nan(t_min) && !is_nan(t_max) {
        lemma_within_numbers(crossing.t, t_min, t_max);
    }
    if !is_nan(crossing.a) && !is_nan(extent.a0) && !is_nan(extent.a1) {
        lemma_within_numbers(crossing.a, extent.a0, extent.a1);
    }
    if !is_nan(crossing.b) && !is_nan(extent.b0) && !is_nan(extent.b1) {
        lemma_within_numbers(crossing.b, extent.b0, extent.b1);
    }
}

/// Whether a ray that crosses the plane of a rectangle hits the rectangle
/// inside the window from `t_min` to `t_max`.
pub fn hit(crossing: Crossing, extent: Extent, t_min: u64, t_max: u64) -> (hit: bool)
    ensures
        hit == is_hit(crossing, extent, t_min, t_max),
{
    if !within(crossing.t, t_min, t_max) {
        return false;
    }
    within(crossing.a, extent.a0, extent.a1) && within(crossing.b, extent.b0, extent.b1)
}

} // verus!
