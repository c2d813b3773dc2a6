//! Double-precision numbers as their bit patterns, and how they compare.
//!
//! A number is a `u64` laid out as IEEE 754 binary64: the highest bit is the
//! sign, the other 63 bits are the magnitude (exponent and fraction). The
//! library never computes with such a number; it only compares two of them
//! and picks one.

use vstd::prelude::*;

verus! {

/// The sign bit.
pub const SIGN: u64 = 0x8000_0000_0000_0000;

/// The bit pattern of positive infinity. A larger magnitude is not a number.
pub const INFINITY: u64 = 0x7ff0_0000_0000_0000;

/// The bit pattern of negative infinity.
pub const NEG_INFINITY: u64 = 0xfff0_0000_0000_0000;

/// The bit pattern of plus zero.
pub const ZERO: u64 = 0;

/// Whether the sign bit is set.
pub open spec fn is_negative(x: u64) -> bool {
    x >= SIGN
}

/// The pattern without its sign bit.
pub open spec fn magnitude(x: u64) -> int {
    if x >= SIGN {
        x - SIGN
    } else {
        x as int
    }
}

/// Whether the pattern is not a number.
pub open spec fn is_nan(x: u64) -> bool {
    magnitude(x) > INFINITY
}

/// An integer that orders as the numbers compare: the magnitude, negated
/// where the sign is set. The two zeros have the same key.
pub open spec fn value_key(x: u64) -> int {
    if is_negative(x) {
        -magnitude(x)
    } else {
        magnitude(x)
    }
}

/// An integer that orders all patterns as the total order of IEEE 754 does:
/// negative patterns below positive ones, minus zero below plus zero, and the
/// patterns that are not numbers at both ends.
pub open spec fn total_key(x: u64) -> int {
    if is_negative(x) {
        -1 - magnitude(x)
    } else {
        magnitude(x)
    }
}

/// The pattern with the other sign: the number negated.
pub open spec fn negated(x: u64) -> u64 {
    if x >= SIGN {
        (x - SIGN) as u64
    } else {
        (x + SIGN) as u64
    }
}

/// `a < b` as numbers. It is false where one of them is not a number.
pub open spec fn lt(a: u64, b: u64) -> bool {
    !is_nan(a) && !is_nan(b) && value_key(a) < value_key(b)
}

/// `a <= b` as numbers. It is false where one of them is not a number.
pub open spec fn le(a: u64, b: u64) -> bool {
    !is_nan(a) && !is_nan(b) && value_key(a) <= value_key(b)
}

/// `x` is not outside the interval from `low` to `high`: neither below `low`
/// nor above `high`. What is not a number is outside of nothing.
pub open spec fn is_within(x: u64, low: u64, high: u64) -> bool {
    !lt(x, low) && !lt(high, x)
}

/// Among numbers, `<=` holds of a number and itself, carries over from one
/// pair to the next, and holds one way or the other.
pub proof fn lemma_le_orders_numbers(a: u64, b: u64, c: u64)
    requires
        !is_nan(a),
        !is_nan(b),
        !is_nan(c),
    ensures
        le(a, a),
        le(a, b) && le(b, c) ==> le(a, c),
        le(a, b) || le(b, a),
        lt(a, b) <==> !le(b, a),
{
}

/// The total order follows the comparison of numbers wherever that one
/// decides: a smaller number has a smaller key.
pub proof fn lemma_total_key_follows_lt(a: u64, b: u64)
    requires
        lt(a, b),
    ensures
        total_key(a) < total_key(b),
{
}

/// Negating a number turns its key round and leaves its magnitude, and
/// negating twice gives the number back.
pub proof fn lemma_negated(x: u64)
    ensures
        magnitude(negated(x)) == magnitude(x),
        is_negative(negated(x)) == !is_negative(x),
        is_nan(negated(x)) == is_nan(x),
        value_key(negated(x)) == -value_key(x),
        negated(negated(x)) == x,
{
}

/// The number negated.
pub fn negate(x: u64) -> (other: u64)
    ensures
        other == negated(x),
{
    if x >= SIGN {
        x - SIGN
    } else {
        x + SIGN
    }
}

/// The key of a pattern in the total order.
pub fn order_key(x: u64) -> (key: i64)
    ensures
        key == total_key(x),
{
    if x >= SIGN {
        let m: u64 = x - SIGN;
        -1 - (m as i64)
    } else {
        x as i64
    }
}

/// The key by which a number compares, or `None` where the pattern is not a
/// number.
pub fn key_of(x: u64) -> (key: Option<i64>)
    ensures
        key.is_none() <==> is_nan(x),
        key.is_some() ==> key.unwrap() == value_key(x),
{
    let m: u64 = if x >= SIGN {
        x - SIGN
    } else {
        x
    };
    if m > INFINITY {
        None
    } else if x >= SIGN {
        Some(-(m as i64))
    } else {
        Some(m as i64)
    }
}

/// Whether `a < b` as numbers.
pub fn less_than(a: u64, b: u64) -> (less: bool)
    ensures
        less == lt(a, b),
{
    match (key_of(a), key_of(b)) {
        (Some(ka), Some(kb)) => ka < kb,
        _ => false,
    }
}

/// Whether `a <= b` as numbers.
pub fn less_or_equal(a: u64, b: u64) -> (at_most: bool)
    ensures
        at_most == le(a, b),
{
    match (key_of(a), key_of(b)) {
        (Some(ka), Some(kb)) => ka <= kb,
        _ => false,
    }
}

/// Among numbers, to be within an interval is to lie between its ends.
pub proof fn lemma_within_numbers(x: u64, low: u64, high: u64)
    requires
        !is_nan(x),
        !is_nan(low),
        !is_nan(high),
    ensures
        is_within(x, low, high) <==> le(low, x) && le(x, high),
{
}

/// Whether `x` is not outside the interval from `low` to `high`.
pub fn within(x: u64, low: u64, high: u64) -> (inside: bool)
    ensures
        inside == is_within(x, low, high),
{
    !(less_than(x, low) || less_than(high, x))
}

} // verus!
