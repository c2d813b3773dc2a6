//! The rules by which materials scatter a ray: what each material decides
//! once the arithmetic is done.
//!
//! Numbers are held as bit patterns (see the module `scalar`), and a
//! direction is three of them.

use vstd::prelude::*;
use crate::scalar::{less_than, lt, SIGN, ZERO};

verus! {

/// The bit pattern of one.
pub const ONE: u64 = 0x3ff0_0000_0000_0000;

/// The bit pattern of the bound below which a coordinate counts as zero: a
/// hundred-millionth.
pub const NEAR_ZERO: u64 = 0x3e45_798e_e230_8c3a;

/// The number without its sign.
pub open spec fn absolute(x: u64) -> u64 {
    if x >= SIGN {
        (x - SIGN) as u64
    } else {
        x
    }
}

/// The direction is close to zero along every axis.
pub open spec fn is_near_zero(direction: Seq<u64>) -> bool {
    &&& lt(absolute(direction[0]), NEAR_ZERO)
    &&& lt(absolute(direction[1]), NEAR_ZERO)
    &&& lt(absolute(direction[2]), NEAR_ZERO)
}

/// Whether a direction is close to zero along every axis.
pub fn near_zero(direction: [u64; 3]) -> (near: bool)
    ensures
        near == is_near_zero(direction@),
{
    size_below(direction[0]) && size_below(direction[1]) && size_below(direction[2])
}

/// Whether the size of a number is below the bound for zero.
fn size_below(x: u64) -> (below: bool)
    ensures
        below == lt(absolute(x), NEAR_ZERO),
{
    let size: u64 = if x >= SIGN {
        x - SIGN
    } else {
        x
    };
    less_than(size, NEAR_ZERO)
}

/// The direction in which a diffuse surface scatters: the one that was
/// drawn, or the normal where the draw is close to zero.
pub fn diffuse_direction(drawn: [u64; 3], normal: [u64; 3]) -> (direction: [u64; 3])
    ensures
        direction == if is_near_zero(drawn@) {
            normal
        } else {
            drawn
        },
{
    if near_zero(drawn) {
        normal
    } else {
        drawn
    }
}

/// A metal scatters a ray where the scattered direction still points away
/// from the surface: its product with the normal is positive. Otherwise the
/// ray is absorbed.
pub fn metal_scatters(away: u64) -> (scatters: bool)
    ensures
        scatters == lt(ZERO, away),
{
    less_than(ZERO, away)
}

/// The ratio of the refractive indices on the way of the ray: the inverse of
/// the index where the ray enters the surface from outside, the index where
/// it leaves.
pub fn refraction_ratio(front_face: bool, index: u64, inverse: u64) -> (ratio: u64)
    ensures
        ratio == if front_face {
            inverse
        } else {
            index
        },
{
    if front_face {
        inverse
    } else {
        index
    }
}

/// Whether a glass reflects for the given values: the ray cannot be
/// refracted, because the ratio of the indices times the sine of the angle is
/// above one, or the draw is below the reflectance.
pub open spec fn must_reflect(bend: u64, reflectance: u64, draw: u64) -> bool {
    lt(ONE, bend) || lt(draw, reflectance)
}

/// Whether a glass reflects the ray rather than refracts it. `bend` is the
/// ratio of the indices times the sine of the angle of the ray. Where it is
/// above one the ray is reflected whatever the chance; else `chance` gives
/// the reflectance and a random draw, and the ray is reflected where the draw
/// is below the reflectance.
pub fn dielectric_reflects<FC>(bend: u64, chance: &FC) -> (reflects: bool) where
    FC: Fn() -> (u64, u64),

    requires
        chance.requires(()),
    ensures
        lt(ONE, bend) ==> reflects,
        !lt(ONE, bend) ==> exists|reflectance: u64, draw: u64| #[trigger]
            chance.ensures((), (reflectance, draw)) && reflects == lt(draw, reflectance),
{
    if less_than(ONE, bend) {
        true
    } else {
        let (reflectance, draw) = chance();
        less_than(draw, reflectance)
    }
}

} // verus!
