//! A plain list of surfaces: its bounding box, from the boxes of its members,
//! and the search for the nearest hit, member by member.

use vstd::prelude::*;
use crate::aabb::{
    lemma_encloses_itself, lemma_encloses_passes_on, lemma_surrounding_box_contains_both,
    lemma_surrounding_corners, AABB,
};
use crate::hittable::{answers_by, answers_nearest, is_result, later_or, report, up_to, Answers};
use crate::scalar::{is_nan, le, lemma_le_orders_numbers};

verus! {

/// Every member has a box.
pub open spec fn all_present(boxes: Seq<Option<AABB>>) -> bool {
    forall|i: int| 0 <= i < boxes.len() ==> (#[trigger] boxes[i]).is_some()
}

/// Every member that has a box has one made of numbers.
pub open spec fn all_numeric(boxes: Seq<Option<AABB>>) -> bool {
    forall|i: int| 0 <= i < boxes.len() ==> (#[trigger] boxes[i]).unwrap().is_numeric()
}

/// The box round all members of a list that is not empty: the box of the
/// first member, widened by each further member in turn.
pub open spec fn union_of(boxes: Seq<Option<AABB>>) -> AABB
    decreases boxes.len(),
{
    if boxes.len() <= 1 {
        boxes[0].unwrap()
    } else {
        AABB::surrounding(union_of(boxes.drop_last()), boxes.last().unwrap())
    }
}

/// The box round a list of boxes made of numbers is made of numbers and
/// contains each of them.
pub proof fn lemma_union_contains_each(boxes: Seq<Option<AABB>>)
    requires
        boxes.len() > 0,
        all_present(boxes),
        all_numeric(boxes),
    ensures
        union_of(boxes).is_numeric(),
        forall|i: int|
            0 <= i < boxes.len() ==> union_of(boxes).encloses((#[trigger] boxes[i]).unwrap()),
    decreases boxes.len(),
{
    if boxes.len() <= 1 {
        assert(boxes[0].unwrap().is_numeric());
        lemma_encloses_itself(boxes[0].unwrap());
    } else {
        let front = boxes.drop_last();
        let last = boxes.last().unwrap();
        assert forall|i: int| 0 <= i < front.len() implies (#[trigger] front[i]).is_some()
            && front[i].unwrap().is_numeric() by {
            assert(front[i] == boxes[i]);
        }
        lemma_union_contains_each(front);
        assert(last.is_numeric());
        lemma_surrounding_corners(union_of(front), last);
        lemma_surrounding_box_contains_both(union_of(boxes), union_of(front), last);
        assert forall|i: int| 0 <= i < boxes.len() implies union_of(boxes).encloses(
            (#[trigger] boxes[i]).unwrap(),
        ) by {
            if i < front.len() {
                assert(front[i] == boxes[i]);
                lemma_encloses_passes_on(union_of(boxes), union_of(front), front[i].unwrap());
            }
        }
    }
}

/// The bounding box of a list of surfaces, given the box of each member, or
/// `None` for a member that has none. The list has a box where it is not
/// empty and every member has one: the box round them all.
pub fn bounding_box(boxes: &Vec<Option<AABB>>) -> (around: Option<AABB>)
    ensures
        around.is_some() <==> boxes@.len() > 0 && all_present(boxes@),
        around.is_some() ==> around.unwrap() == union_of(boxes@),
{
    if boxes.len() == 0 {
        return None;
    }
    let mut output_box: Option<AABB> = None;
    let mut i: usize = 0;
    while i < boxes.len()
        invariant
            0 <= i <= boxes@.len(),
            all_present(boxes@.take(i as int)),
            i == 0 ==> output_box.is_none(),
            i > 0 ==> output_box == Some(union_of(boxes@.take(i as int))),
        decreases boxes@.len() - i,
    {
        let ghost upto = boxes@.take(i as int + 1);
        match boxes[i] {
            Some(temp_box) => {
                output_box = Some(
                    match output_box {
                        Some(b) => AABB::surrounding_box(&b, &temp_box),
                        None => temp_box,
                    },
                );
                proof {
                    assert(upto.drop_last() =~= boxes@.take(i as int));
                    assert(upto.last() == boxes@[i as int]);
                    assert forall|k: int| 0 <= k < upto.len() implies (
                    #[trigger] upto[k]).is_some() by {
                        if k < i {
                            assert(boxes@.take(i as int)[k] == upto[k]);
                        }
                    }
                }
            },
            None => {
                return None;
            },
        }
        i = i + 1;
    }
    proof {
        assert(boxes@.take(i as int) =~= boxes@);
    }
    output_box
}

/// The result of going through the surfaces in the given order, where the
/// surfaces answer as `nearest` says: each surface is asked for a hit in the
/// window from `t_min` up to the nearest hit so far, or up to `t_max` while
/// there is none, and a hit takes the place of the one before.
pub open spec fn scan(order: Seq<usize>, nearest: Answers, t_min: u64, t_max: u64) -> Option<
    (usize, u64),
>
    decreases order.len(),
{
    if order.len() == 0 {
        None
    } else {
        let before = scan(order.drop_last(), nearest, t_min, t_max);
        later_or(
            report(order.last(), nearest(order.last(), t_min, up_to(before, t_max))),
            before,
        )
    }
}

/// The places `0 .. count` in ascending order.
pub open spec fn in_turn(count: nat) -> Seq<usize> {
    Seq::new(count, |i: int| i as usize)
}

/// `found` is a result of going through the first `count` surfaces in turn,
/// with the answers that `leaf_hit` can give: each surface is asked for a hit
/// in the window from `t_min` up to the nearest hit so far, or up to `t_max`
/// while there is none, and a hit takes the place of the one before.
pub open spec fn scanned<L: Fn(usize, u64, u64) -> Option<u64>>(
    count: nat,
    leaf_hit: &L,
    t_min: u64,
    t_max: u64,
    found: Option<(usize, u64)>,
) -> bool
    decreases count,
{
    if count == 0 {
        found.is_none()
    } else {
        exists|before: Option<(usize, u64)>|
            {
                &&& #[trigger] is_result(before)
                &&& scanned((count - 1) as nat, leaf_hit, t_min, t_max, before)
                &&& exists|answer: Option<u64>|
                    {
                        &&& #[trigger] leaf_hit.ensures(
                            ((count - 1) as usize, t_min, up_to(before, t_max)),
                            answer,
                        )
                        &&& found == later_or(report((count - 1) as usize, answer), before)
                    }
            }
    }
}

/// Searches a list of `count` surfaces for the nearest hit of a ray in the
/// window from `t_min` to `t_max`. The arithmetic is the caller's:
/// `leaf_hit` gives the ray parameter at which the ray hits the surface at a
/// place inside a window, if it does.
///
/// The surfaces are asked in turn, each in the window up to the nearest hit
/// so far. The result is the last surface that answered with a hit, and the
/// ray parameter of that hit.
pub fn hit<L>(count: usize, leaf_hit: &L, t_min: u64, t_max: u64) -> (found: Option<(usize, u64)>)
    where L: Fn(usize, u64, u64) -> Option<u64>
    requires
        forall|id: usize, lo: u64, hi: u64| leaf_hit.requires((id, lo, hi)),
    ensures
        scanned(count as nat, leaf_hit, t_min, t_max, found),
{
    let mut hit_record: Option<(usize, u64)> = None;
    let mut closest_so_far: u64 = t_max;
    let mut i: usize = 0;
    while i < count
        invariant
            0 <= i <= count,
            scanned(i as nat, leaf_hit, t_min, t_max, hit_record),
            closest_so_far == up_to(hit_record, t_max),
            forall|id: usize, lo: u64, hi: u64| leaf_hit.requires((id, lo, hi)),
        decreases count - i,
    {
        let ghost before = hit_record;
        let answer = leaf_hit(i, t_min, closest_so_far);
        match answer {
            Some(t) => {
                closest_so_far = t;
                hit_record = Some((i, t));
            },
            None => {},
        }
        proof {
            assert(is_result(before));
            assert(leaf_hit.ensures((i, t_min, up_to(before, t_max)), answer));
            assert(hit_record == later_or(report(i, answer), before));
        }
        i = i + 1;
    }
    hit_record
}

/// No surface of the order is hit in the window from `t_min` to `t_max`.
pub open spec fn none_hit(order: Seq<usize>, nearest: Answers, t_min: u64, t_max: u64) -> bool {
    forall|k: int| 0 <= k < order.len() ==> nearest(#[trigger] order[k], t_min, t_max).is_none()
}

/// The surface `id` is hit at `t` in the window from `t_min` to `t_max`, and
/// no surface of the order is hit before `t` in that window.
pub open spec fn is_nearest_hit(
    order: Seq<usize>,
    nearest: Answers,
    t_min: u64,
    t_max: u64,
    id: usize,
    t: u64,
) -> bool {
    &&& order.contains(id)
    &&& nearest(id, t_min, t_max) == Some(t)
    &&& forall|k: int|
        0 <= k < order.len() && nearest(#[trigger] order[k], t_min, t_max).is_some() ==> le(
            t,
            nearest(order[k], t_min, t_max).unwrap(),
        )
}

/// Going through the surfaces finds the nearest hit, in whatever order they
/// come: there is no result exactly where no surface is hit in the window,
/// and a result is a surface that is hit in the window at a ray parameter
/// that is not after the hit of any other. This holds where every surface
/// answers with its nearest crossing in the window, and the window ends at a
/// number.
pub proof fn lemma_scan_finds_nearest(order: Seq<usize>, nearest: Answers, t_min: u64, t_max: u64)
    requires
        answers_nearest(nearest, t_min),
        !is_nan(t_max),
    ensures
        scan(order, nearest, t_min, t_max).is_none() <==> none_hit(order, nearest, t_min, t_max),
        scan(order, nearest, t_min, t_max).is_some() ==> is_nearest_hit(
            order,
            nearest,
            t_min,
            t_max,
            scan(order, nearest, t_min, t_max).unwrap().0,
            scan(order, nearest, t_min, t_max).unwrap().1,
        ),
    decreases order.len(),
{
    if order.len() > 0 {
        let front = order.drop_last();
        let x = order.last();
        let before = scan(front, nearest, t_min, t_max);
        lemma_scan_finds_nearest(front, nearest, t_min, t_max);
        let end = up_to(before, t_max);
        let answer = nearest(x, t_min, end);
        let found = scan(order, nearest, t_min, t_max);
        assert(found == later_or(report(x, answer), before));
        assert forall|k: int| 0 <= k < front.len() implies front[k] == order[k] by {}
        let whole = nearest(x, t_min, t_max);
        match before {
            None => {
                assert(end == t_max);
                if answer.is_some() {
                    let t = answer.unwrap();
                    assert(order[order.len() - 1] == x);
                    assert forall|k: int|
                        0 <= k < order.len() && nearest(
                            #[trigger] order[k],
                            t_min,
                            t_max,
                        ).is_some() implies le(t, nearest(order[k], t_min, t_max).unwrap()) by {
                        if k < front.len() {
                            assert(nearest(front[k], t_min, t_max).is_none());
                        } else {
                            lemma_le_orders_numbers(t, t, t);
                        }
                    }
                } else {
                    assert forall|k: int| 0 <= k < order.len() implies nearest(
                        #[trigger] order[k],
                        t_min,
                        t_max,
                    ).is_none() by {
                        if k < front.len() {
                            assert(nearest(front[k], t_min, t_max).is_none());
                        }
                    }
                }
            },
            Some((i, t)) => {
                assert(end == t);
                assert(is_nearest_hit(front, nearest, t_min, t_max, i, t));
                let at = choose|at: int| 0 <= at < front.len() && front[at] == i;
                assert(order[at] == i);
                assert(nearest(i, t_min, t_max).is_some());
                assert(!is_nan(t) && le(t, t_max));
                if answer.is_some() {
                    let t2 = answer.unwrap();
                    assert(nearest(x, t_min, t).is_some());
                    assert(!is_nan(t2) && le(t2, t));
                    if whole.is_none() {
                        assert(nearest(x, t_min, t).is_none());
                    }
                    assert(whole.is_some());
                    assert(whole == answer);
                    assert(order[order.len() - 1] == x);
                    assert forall|k: int|
                        0 <= k < order.len() && nearest(
                            #[trigger] order[k],
                            t_min,
                            t_max,
                        ).is_some() implies le(t2, nearest(order[k], t_min, t_max).unwrap()) by {
                        let other = nearest(order[k], t_min, t_max).unwrap();
                        if k < front.len() {
                            assert(nearest(front[k], t_min, t_max).is_some());
                            assert(le(t, other));
                            lemma_le_orders_numbers(t2, t, other);
                        } else {
                            lemma_le_orders_numbers(t2, t2, t2);
                        }
                    }
                } else {
                    assert(found == before);
                    assert forall|k: int|
                        0 <= k < order.len() && nearest(
                            #[trigger] order[k],
                            t_min,
                            t_max,
                        ).is_some() implies le(t, nearest(order[k], t_min, t_max).unwrap()) by {
                        let other = nearest(order[k], t_min, t_max).unwrap();
                        if k < front.len() {
                            assert(nearest(front[k], t_min, t_max).is_some());
                        } else {
                            assert(order[k] == x);
                            assert(whole.is_some());
                            assert(!is_nan(other));
                            if le(other, t) {
                                assert(nearest(x, t_min, t) == whole);
                            }
                            lemma_le_orders_numbers(t, other, other);
                        }
                    }
                }
            },
        }
    }
}

/// Where no surface is hit in the window, going through them finds nothing.
pub proof fn lemma_scan_of_misses(order: Seq<usize>, nearest: Answers, t_min: u64, t_max: u64)
    requires
        none_hit(order, nearest, t_min, t_max),
    ensures
        scan(order, nearest, t_min, t_max).is_none(),
    decreases order.len(),
{
    if order.len() > 0 {
        let front = order.drop_last();
        assert forall|k: int| 0 <= k < front.len() implies nearest(
            #[trigger] front[k],
            t_min,
            t_max,
        ).is_none() by {
            assert(front[k] == order[k]);
        }
        lemma_scan_of_misses(front, nearest, t_min, t_max);
        assert(nearest(order[order.len() - 1], t_min, t_max).is_none());
    }
}

/// Going through one list and then another is going through the first, and
/// then through the second in the window up to what the first has found.
pub proof fn lemma_scan_in_two_parts(
    first: Seq<usize>,
    second: Seq<usize>,
    nearest: Answers,
    t_min: u64,
    t_max: u64,
)
    ensures
        scan(first + second, nearest, t_min, t_max) == later_or(
            scan(second, nearest, t_min, up_to(scan(first, nearest, t_min, t_max), t_max)),
            scan(first, nearest, t_min, t_max),
        ),
    decreases second.len(),
{
    if second.len() == 0 {
        assert(first + second =~= first);
    } else {
        let front = second.drop_last();
        assert((first + second).drop_last() =~= first + front);
        assert((first + second).last() == second.last());
        lemma_scan_in_two_parts(first, front, nearest, t_min, t_max);
    }
}

/// Where the surfaces answer as `nearest` says, going through them in turn
/// gives what `scan` says.
pub proof fn lemma_scanned_is_scan<L: Fn(usize, u64, u64) -> Option<u64>>(
    count: nat,
    leaf_hit: &L,
    nearest: Answers,
    t_min: u64,
    t_max: u64,
    found: Option<(usize, u64)>,
)
    requires
        count <= usize::MAX,
        answers_by(leaf_hit, nearest),
        scanned(count, leaf_hit, t_min, t_max, found),
    ensures
        found == scan(in_turn(count), nearest, t_min, t_max),
    decreases count,
{
    if count > 0 {
        let before = choose|before: Option<(usize, u64)>|
            {
                &&& #[trigger] is_result(before)
                &&& scanned((count - 1) as nat, leaf_hit, t_min, t_max, before)
                &&& exists|answer: Option<u64>|
                    {
                        &&& #[trigger] leaf_hit.ensures(
                            ((count - 1) as usize, t_min, up_to(before, t_max)),
                            answer,
                        )
                        &&& found == later_or(report((count - 1) as usize, answer), before)
                    }
            };
        lemma_scanned_is_scan((count - 1) as nat, leaf_hit, nearest, t_min, t_max, before);
        assert(in_turn(count).drop_last() =~= in_turn((count - 1) as nat));
        assert(in_turn(count).last() == (count - 1) as usize);
    }
}

} // verus!
