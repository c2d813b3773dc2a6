//! Helpers shared by the renderer: random integers, the split of a sample
//! budget among workers, and the smaller and larger of two numbers.

use vstd::prelude::*;
use crate::scalar::{is_nan, le, less_than, lt};

verus! {

/// The quotient of `n` by a positive `m`, rounded toward zero.
pub open spec fn quotient(n: int, m: int) -> int
    recommends
        m > 0,
{
    if n >= 0 {
        n / m
    } else {
        -((-n) / m)
    }
}

/// What is left of `n` once `m` times `quotient(n, m)` is taken away. It has
/// the sign of `n`.
pub open spec fn remainder(n: int, m: int) -> int
    recommends
        m > 0,
{
    n - m * quotient(n, m)
}

/// The share of worker `i` (counted from zero) when `n` is dealt out to `m`
/// workers: everyone gets the quotient, and the first `remainder(n, m)`
/// workers get one more.
pub open spec fn part(n: int, m: int, i: int) -> int
    recommends
        m > 0,
{
    quotient(n, m) + if i + 1 <= remainder(n, m) {
        1int
    } else {
        0int
    }
}

/// The shares of all `m` workers, in order. There are none when `m` is not
/// positive.
pub open spec fn parts(n: int, m: int) -> Seq<int> {
    Seq::new(
        if m > 0 {
            m as nat
        } else {
            0nat
        },
        |i: int| part(n, m, i),
    )
}

/// The sum of a sequence of integers.
pub open spec fn sum(s: Seq<int>) -> int
    decreases s.len(),
{
    if s.len() == 0 {
        0
    } else {
        sum(s.drop_last()) + s.last()
    }
}

/// The shares as mathematical integers.
pub open spec fn as_ints(v: Seq<i32>) -> Seq<int> {
    Seq::new(v.len(), |i: int| v[i] as int)
}

/// The first `k` shares of `parts(n, m)` add up to `k` quotients plus one for
/// each of them that is among the first `remainder(n, m)`.
proof fn lemma_prefix_sum(n: int, m: int, k: int)
    requires
        n >= 0,
        m > 0,
        0 <= k <= m,
    ensures
        sum(parts(n, m).take(k)) == k * (n / m) + if k <= n % m {
            k
        } else {
            n % m
        },
    decreases k,
{
    let q = n / m;
    let r = n % m;
    assert(m * q + r == n && 0 <= r < m) by {
        vstd::arithmetic::div_mod::lemma_fundamental_div_mod(n, m);
        vstd::arithmetic::div_mod::lemma_mod_bound(n, m);
    }
    assert(remainder(n, m) == r);
    if k > 0 {
        lemma_prefix_sum(n, m, k - 1);
        let s = parts(n, m).take(k);
        assert(s.drop_last() =~= parts(n, m).take(k - 1));
        assert(s.last() == part(n, m, k - 1));
        assert(sum(s) == sum(s.drop_last()) + s.last());
        assert(k * q == (k - 1) * q + q) by (nonlinear_arith);
    } else {
        assert(parts(n, m).take(0).len() == 0);
        assert(k * q == 0) by (nonlinear_arith)
            requires
                k == 0,
        ;
    }
}

/// Dealing a nonnegative `n` to a positive number `m` of workers loses
/// nothing and favours no one: there are `m` shares, none is negative, they
/// add up to `n`, each is the floor of `n / m` or one more, and the larger
/// shares come first.
pub proof fn lemma_parts_are_fair(n: int, m: int)
    requires
        n >= 0,
        m > 0,
    ensures
        parts(n, m).len() == m,
        sum(parts(n, m)) == n,
        forall|i: int| 0 <= i < m ==> 0 <= #[trigger] parts(n, m)[i],
        forall|i: int| 0 <= i < m ==> n / m <= #[trigger] parts(n, m)[i] <= n / m + 1,
        forall|i: int| 0 <= i < m ==> -m < m * #[trigger] parts(n, m)[i] - n < m,
        forall|i: int| 0 <= i < m ==> (#[trigger] parts(n, m)[i] == n / m + 1 <==> i < n % m),
        forall|i: int, j: int| 0 <= i <= j < m ==> parts(n, m)[i] >= parts(n, m)[j],
{
    let q = n / m;
    let r = n % m;
    assert(m * q + r == n && 0 <= r < m) by {
        vstd::arithmetic::div_mod::lemma_fundamental_div_mod(n, m);
        vstd::arithmetic::div_mod::lemma_mod_bound(n, m);
    }
    assert(q >= 0) by {
        vstd::arithmetic::div_mod::lemma_div_pos_is_pos(n, m);
    }
    assert(remainder(n, m) == r);
    lemma_prefix_sum(n, m, m);
    assert(parts(n, m).take(m) =~= parts(n, m));
    assert forall|i: int| 0 <= i < m implies -m < m * #[trigger] parts(n, m)[i] - n < m by {
        let p = parts(n, m)[i];
        if i + 1 <= r {
            assert(p == q + 1);
            assert(m * p == m * q + m) by (nonlinear_arith)
                requires
                    p == q + 1,
            ;
        } else {
            assert(p == q);
        }
    }
}

/// Splits `n` samples among `m` workers. Every worker gets the quotient of
/// `n` by `m`, rounded toward zero, and the first workers get one more until
/// the remainder is used up. With no worker to give to (`m <= 0`) the result
/// is empty.
///
/// For a nonnegative `n` and a positive `m` the shares are nonnegative, add up
/// to `n` and differ by at most one: see [`lemma_parts_are_fair`].
pub fn divide_into_parts(n: i32, m: i32) -> (shares: Vec<i32>)
    ensures
        as_ints(shares@) == parts(n as int, m as int),
        shares@.len() == parts(n as int, m as int).len(),
        forall|i: int|
            0 <= i < shares@.len() ==> #[trigger] shares@[i] == part(n as int, m as int, i),
        n >= 0 && m > 0 ==> sum(as_ints(shares@)) == n,
{
    let mut shares: Vec<i32> = Vec::new();
    if m > 0 {
        let q: i32 = n / m;
        let r: i32 = n % m;
        assert(q == quotient(n as int, m as int));
        assert(r == remainder(n as int, m as int)) by {
            let a: int = if n >= 0 {
                n as int
            } else {
                -(n as int)
            };
            vstd::arithmetic::div_mod::lemma_fundamental_div_mod(a, m as int);
            assert(m * (-(a / (m as int))) == -(m * (a / (m as int)))) by (nonlinear_arith);
        }
        assert(m >= 2 ==> q < i32::MAX) by (nonlinear_arith)
            requires
                m > 0,
                q == quotient(n as int, m as int),
                n <= i32::MAX,
        ;
        assert(m == 1 ==> r == 0);
        let mut i: i32 = 0;
        while i < m
            invariant
                0 <= i <= m,
                shares@.len() == i,
                q == quotient(n as int, m as int),
                r == remainder(n as int, m as int),
                r >= 1 ==> q < i32::MAX,
                forall|k: int| 0 <= k < i ==> shares@[k] as int == part(n as int, m as int, k),
            decreases m - i,
        {
            let share: i32 = if i + 1 <= r {
                q + 1
            } else {
                q
            };
            shares.push(share);
            i = i + 1;
        }
    }
    proof {
        assert(as_ints(shares@) =~= parts(n as int, m as int));
        if n >= 0 && m > 0 {
            lemma_parts_are_fair(n as int, m as int);
        }
    }
    shares
}

/// The smaller of two numbers: `a` where `a < b`, else `b`. Where one of them
/// is not a number it is `b`.
pub open spec fn min_of(a: u64, b: u64) -> u64 {
    if lt(a, b) {
        a
    } else {
        b
    }
}

/// The larger of two numbers: `a` where `a > b`, else `b`. Where one of them
/// is not a number it is `b`.
pub open spec fn max_of(a: u64, b: u64) -> u64 {
    if lt(b, a) {
        a
    } else {
        b
    }
}

/// Of two numbers, the smaller is one of them and not above either, and the
/// larger is one of them and not below either.
pub proof fn lemma_min_max_bound(a: u64, b: u64)
    requires
        !is_nan(a),
        !is_nan(b),
    ensures
        min_of(a, b) == a || min_of(a, b) == b,
        max_of(a, b) == a || max_of(a, b) == b,
        le(min_of(a, b), a),
        le(min_of(a, b), b),
        le(a, max_of(a, b)),
        le(b, max_of(a, b)),
{
}

/// The smaller of two numbers, each given as its bit pattern.
pub fn min(a: u64, b: u64) -> (smaller: u64)
    ensures
        smaller == min_of(a, b),
{
    if less_than(a, b) {
        a
    } else {
        b
    }
}

/// The larger of two numbers, each given as its bit pattern.
pub fn max(a: u64, b: u64) -> (larger: u64)
    ensures
        larger == max_of(a, b),
{
    if less_than(b, a) {
        a
    } else {
        b
    }
}

/// Draws an integer between `min` and `max`, both included.
///
/// The draw is made by `rand::Rng::gen_range` on the generator of the current
/// thread, as `rand::thread_rng` gives it, over the inclusive range from
/// `min` to `max`. Verus does not look into that call: it is taken on trust
/// that the value lies in the range. An empty range, on which the call
/// panics, is left out.
#[verifier::external_body]
pub fn random_int(min: i32, max: i32) -> (drawn: i32)
    requires
        min <= max,
    ensures
        min <= drawn <= max,
{
    rand::Rng::gen_range(&mut rand::thread_rng(), min..=max)
}

} // verus!
