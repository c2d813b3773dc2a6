//! The bounding-volume hierarchy: a binary tree over the surfaces of a scene,
//! each node with the box round everything below it.
//!
//! A surface is known here by its place in the caller's list and by its
//! bounding boxes; the surface itself stays with the caller. The coordinates
//! of the boxes are double-precision numbers held as bit patterns (see the
//! module `scalar`).

use vstd::prelude::*;
use crate::aabb::{
    lemma_encloses_passes_on, lemma_surrounding_box_contains_both, lemma_surrounding_corners, AABB,
};
use crate::hittable::{
    answers_by, answers_nearest, is_result, later_or, report, until, up_to, Answers,
};
use crate::hittable_list::{
    in_turn, is_nearest_hit, lemma_scan_finds_nearest, lemma_scan_in_two_parts,
    lemma_scan_of_misses, lemma_scanned_is_scan, none_hit, scan, scanned,
};
use crate::scalar::{is_nan, le, lemma_le_orders_numbers, order_key, total_key, value_key};
use crate::util::random_int;

verus! {

/// Why a hierarchy could not be built.
#[derive(Debug, Clone, Copy, PartialEq, Eq, Structural)]
pub enum BvhError {
    /// There is no surface to build over.
    Empty,
    /// Some surface has no bounding box.
    MissingBox,
}

/// What the builder is told of a surface.
#[derive(Debug, Clone, Copy)]
pub struct Bounds {
    /// The bounding box of the surface at time zero, or `None` where it has
    /// none. The surfaces are sorted by the least corner of this box.
    pub anchor: Option<AABB>,
    /// The bounding box of the surface over the time interval of the
    /// hierarchy, or `None` where it has none. It becomes the box of the
    /// leaf.
    pub extent: Option<AABB>,
}

/// A surface as the sort sees it.
#[derive(Debug, Clone, Copy)]
pub struct Entry {
    /// The place of the surface in the caller's list.
    pub id: usize,
    /// The keys of the least corner of its anchor along x, y and z, in the
    /// total order of numbers.
    pub keys: [i64; 3],
}

/// What a node of the hierarchy holds.
#[derive(Debug)]
pub enum BVHNode {
    /// Two hierarchies side by side.
    Branch { left: Box<BVH>, right: Box<BVH> },
    /// One surface, by its place in the caller's list.
    Leaf(usize),
}

/// A hierarchy: a node and the box round all that is below it.
#[derive(Debug)]
pub struct BVH {
    pub tree: BVHNode,
    pub bbox: AABB,
}

/// The key by which the surface at place `id` is sorted along `axis`.
pub open spec fn sort_key(objects: Seq<Bounds>, id: int, axis: int) -> int {
    total_key(objects[id].anchor.unwrap().low()[axis])
}

/// The extent of the surface at place `id`.
pub open spec fn extent_of(objects: Seq<Bounds>, id: usize) -> AABB {
    objects[id as int].extent.unwrap()
}

/// Some surface has no box where the builder needs one: no extent, or, in a
/// list of two or more, no anchor to sort by.
pub open spec fn lacks_box(objects: Seq<Bounds>) -> bool {
    exists|i: int|
        0 <= i < objects.len() && ((#[trigger] objects[i]).extent.is_none() || (objects.len() >= 2
            && objects[i].anchor.is_none()))
}

/// The entries are in ascending order of their key along `axis`.
pub open spec fn sorted_along(s: Seq<Entry>, axis: int) -> bool {
    forall|i: int, j: int| 0 <= i <= j < s.len() ==> s[i].keys[axis] <= s[j].keys[axis]
}

/// No two entries stand for the same surface.
pub open spec fn ids_distinct(s: Seq<Entry>) -> bool {
    forall|i: int, j: int| 0 <= i < s.len() && 0 <= j < s.len() && i != j ==> s[i].id != s[j].id
}

/// Some entry stands for the surface at place `id`.
pub open spec fn has_id(s: Seq<Entry>, id: usize) -> bool {
    exists|i: int| 0 <= i < s.len() && #[trigger] s[i].id == id
}

/// The entry stands for a surface of the list and carries its sort keys.
pub open spec fn carries_keys(e: Entry, objects: Seq<Bounds>) -> bool {
    &&& e.id < objects.len()
    &&& e.keys[0] == sort_key(objects, e.id as int, 0)
    &&& e.keys[1] == sort_key(objects, e.id as int, 1)
    &&& e.keys[2] == sort_key(objects, e.id as int, 2)
}

/// Each entry carries the sort keys of its surface.
pub open spec fn agrees(s: Seq<Entry>, objects: Seq<Bounds>) -> bool {
    forall|i: int| 0 <= i < s.len() ==> carries_keys(#[trigger] s[i], objects)
}

/// Along `axis`, no surface of `lower` has a larger sort key than a surface
/// of `upper`.
pub open spec fn parted(
    lower: Seq<usize>,
    upper: Seq<usize>,
    objects: Seq<Bounds>,
    axis: int,
) -> bool {
    forall|a: int, b: int|
        0 <= a < lower.len() && 0 <= b < upper.len() ==> sort_key(
            objects,
            #[trigger] lower[a] as int,
            axis,
        ) <= sort_key(objects, #[trigger] upper[b] as int, axis)
}

impl BVH {
    /// `found` is a result of the search of the tree in the window from
    /// `t_min` to `t_max`, with the answers that `box_hit` and `leaf_hit`
    /// can give. Where the box of the tree is missed there is no hit. A leaf
    /// reports the answer for its surface. A branch searches its left side in
    /// the window, then its right side in the window up to the hit on the
    /// left, and reports the hit on the right where there is one, else that
    /// on the left.
    pub open spec fn searches<B, L>(
        &self,
        box_hit: &B,
        leaf_hit: &L,
        t_min: u64,
        t_max: u64,
        found: Option<(usize, u64)>,
    ) -> bool where B: Fn(AABB, u64, u64) -> bool, L: Fn(usize, u64, u64) -> Option<u64>
        decreases self,
    {
        ||| box_hit.ensures((self.bbox, t_min, t_max), false) && found.is_none()
        ||| box_hit.ensures((self.bbox, t_min, t_max), true) && match self.tree {
            BVHNode::Leaf(id) => exists|answer: Option<u64>|
                #[trigger] leaf_hit.ensures((id, t_min, t_max), answer) && found == report(
                    id,
                    answer,
                ),
            BVHNode::Branch { left, right } => exists|on_left: Option<(usize, u64)>|
                {
                    &&& #[trigger] is_result(on_left)
                    &&& left.searches(box_hit, leaf_hit, t_min, t_max, on_left)
                    &&& exists|on_right: Option<(usize, u64)>|
                        {
                            &&& #[trigger] is_result(on_right)
                            &&& right.searches(
                                box_hit,
                                leaf_hit,
                                t_min,
                                up_to(on_left, t_max),
                                on_right,
                            )
                            &&& found == later_or(on_right, on_left)
                        }
                },
        }
    }

    /// The box test never hides a hit: wherever `box_hit` can say that the ray
    /// misses the box of a node in a window that begins at `t_min`, no
    /// surface below that node is hit in that window. This is asked of the
    /// tree and of every tree below it.
    pub open spec fn prunes_soundly<B: Fn(AABB, u64, u64) -> bool>(
        &self,
        box_hit: &B,
        nearest: Answers,
        t_min: u64,
    ) -> bool
        decreases self,
    {
        &&& forall|hi: u64| #[trigger]
            box_hit.ensures((self.bbox, t_min, hi), false) ==> none_hit(
                self.leaves(),
                nearest,
                t_min,
                hi,
            )
        &&& match self.tree {
            BVHNode::Leaf(_) => true,
            BVHNode::Branch { left, right } => left.prunes_soundly(box_hit, nearest, t_min)
                && right.prunes_soundly(box_hit, nearest, t_min),
        }
    }

    /// The surfaces of the tree, from left to right.
    pub open spec fn leaves(&self) -> Seq<usize>
        decreases self,
    {
        match self.tree {
            BVHNode::Leaf(id) => seq![id],
            BVHNode::Branch { left, right } => left.leaves() + right.leaves(),
        }
    }

    /// The tree holds each of the places `0 .. n` in exactly one leaf.
    pub open spec fn holds_each_once(&self, n: nat) -> bool {
        &&& self.leaves().len() == n
        &&& self.leaves().no_duplicates()
        &&& forall|id: usize| 0 <= id < n <==> self.leaves().contains(id)
    }

    /// Every branch splits its surfaces at the median of some axis: the right
    /// side takes the lower half, rounded down, the left side the rest, and
    /// along that axis no sort key on the right is larger than one on the
    /// left.
    pub open spec fn well_split(&self, objects: Seq<Bounds>) -> bool
        decreases self,
    {
        match self.tree {
            BVHNode::Leaf(_) => true,
            BVHNode::Branch { left, right } => {
                &&& left.well_split(objects)
                &&& right.well_split(objects)
                &&& right.leaves().len() == (left.leaves().len() + right.leaves().len()) / 2
                &&& exists|axis: int|
                    0 <= axis < 3 && #[trigger] parted(right.leaves(), left.leaves(), objects, axis)
            },
        }
    }

    /// The box of a leaf is the extent of its surface, and the box of a
    /// branch is the box round the boxes of its two sides.
    pub open spec fn boxes_fit(&self, objects: Seq<Bounds>) -> bool
        decreases self,
    {
        match self.tree {
            BVHNode::Leaf(id) => id < objects.len() && objects[id as int].extent == Some(self.bbox),
            BVHNode::Branch { left, right } => {
                &&& left.boxes_fit(objects)
                &&& right.boxes_fit(objects)
                &&& self.bbox == AABB::surrounding(left.bbox, right.bbox)
            },
        }
    }

    /// The extent of every surface of the tree is made of numbers.
    pub open spec fn leaves_numeric(&self, objects: Seq<Bounds>) -> bool {
        forall|k: int|
            0 <= k < self.leaves().len() ==> extent_of(
                objects,
                #[trigger] self.leaves()[k],
            ).is_numeric()
    }

    /// The box of the tree contains the extent of every surface of the tree.
    pub open spec fn box_contains_leaves(&self, objects: Seq<Bounds>) -> bool {
        forall|k: int|
            0 <= k < self.leaves().len() ==> self.bbox.encloses(
                extent_of(objects, #[trigger] self.leaves()[k]),
            )
    }
}

/// The box of a hierarchy contains the extent of every surface below it.
/// This holds of a tree whose boxes fit, over extents that are made of
/// numbers, whatever the shape of the tree.
pub proof fn lemma_box_contains_leaves(tree: BVH, objects: Seq<Bounds>)
    requires
        tree.boxes_fit(objects),
        tree.leaves_numeric(objects),
    ensures
        tree.bbox.is_numeric(),
        tree.box_contains_leaves(objects),
    decreases tree,
{
    match tree.tree {
        BVHNode::Leaf(id) => {
            assert(tree.leaves()[0] == id);
            assert(tree.bbox.is_numeric());
        },
        BVHNode::Branch { left, right } => {
            let ll = left.leaves();
            let rl = right.leaves();
            let all = tree.leaves();
            assert(all == ll + rl);
            assert forall|k: int| 0 <= k < ll.len() implies extent_of(
                objects,
                #[trigger] ll[k],
            ).is_numeric() by {
                assert(all[k] == ll[k]);
            }
            assert forall|k: int| 0 <= k < rl.len() implies extent_of(
                objects,
                #[trigger] rl[k],
            ).is_numeric() by {
                assert(all[ll.len() + k] == rl[k]);
            }
            lemma_box_contains_leaves(*left, objects);
            lemma_box_contains_leaves(*right, objects);
            lemma_surrounding_corners(left.bbox, right.bbox);
            lemma_surrounding_box_contains_both(tree.bbox, left.bbox, right.bbox);
            assert forall|k: int| 0 <= k < all.len() implies tree.bbox.encloses(
                extent_of(objects, #[trigger] all[k]),
            ) by {
                if k < ll.len() {
                    assert(all[k] == ll[k]);
                    lemma_encloses_passes_on(tree.bbox, left.bbox, extent_of(objects, ll[k]));
                } else {
                    assert(all[k] == rl[k - ll.len()]);
                    lemma_encloses_passes_on(
                        tree.bbox,
                        right.bbox,
                        extent_of(objects, rl[k - ll.len()]),
                    );
                }
            }
        },
    }
}

/// The search of a hierarchy finds what going through its surfaces from left
/// to right finds: skipping the nodes whose box the ray misses changes
/// nothing. This holds where the surfaces answer as `nearest` says and the
/// box test never hides a hit.
pub proof fn lemma_search_is_scan_of_leaves<B, L>(
    tree: BVH,
    box_hit: &B,
    leaf_hit: &L,
    nearest: Answers,
    t_min: u64,
    t_max: u64,
    found: Option<(usize, u64)>,
) where B: Fn(AABB, u64, u64) -> bool, L: Fn(usize, u64, u64) -> Option<u64>
    requires
        answers_by(leaf_hit, nearest),
        tree.prunes_soundly(box_hit, nearest, t_min),
        tree.searches(box_hit, leaf_hit, t_min, t_max, found),
    ensures
        found == scan(tree.leaves(), nearest, t_min, t_max),
    decreases tree,
{
    if box_hit.ensures((tree.bbox, t_min, t_max), false) && found.is_none() {
        lemma_scan_of_misses(tree.leaves(), nearest, t_min, t_max);
    } else {
        match tree.tree {
            BVHNode::Leaf(id) => {
                let answer = choose|answer: Option<u64>| #[trigger]
                    leaf_hit.ensures((id, t_min, t_max), answer) && found == report(id, answer);
                assert(answer == nearest(id, t_min, t_max));
                assert(tree.leaves().drop_last() =~= Seq::<usize>::empty());
                assert(tree.leaves().last() == id);
                assert(scan(Seq::<usize>::empty(), nearest, t_min, t_max).is_none());
            },
            BVHNode::Branch { left, right } => {
                let on_left = choose|on_left: Option<(usize, u64)>|
                    {
                        &&& #[trigger] is_result(on_left)
                        &&& left.searches(box_hit, leaf_hit, t_min, t_max, on_left)
                        &&& exists|on_right: Option<(usize, u64)>|
                            {
                                &&& #[trigger] is_result(on_right)
                                &&& right.searches(
                                    box_hit,
                                    leaf_hit,
                                    t_min,
                                    up_to(on_left, t_max),
                                    on_right,
                                )
                                &&& found == later_or(on_right, on_left)
                            }
                    };
                let on_right = choose|on_right: Option<(usize, u64)>|
                    {
                        &&& #[trigger] is_result(on_right)
                        &&& right.searches(
                            box_hit,
                            leaf_hit,
                            t_min,
                            up_to(on_left, t_max),
                            on_right,
                        )
                        &&& found == later_or(on_right, on_left)
                    };
                lemma_search_is_scan_of_leaves(
                    *left,
                    box_hit,
                    leaf_hit,
                    nearest,
                    t_min,
                    t_max,
                    on_left,
                );
                lemma_search_is_scan_of_leaves(
                    *right,
                    box_hit,
                    leaf_hit,
                    nearest,
                    t_min,
                    up_to(on_left, t_max),
                    on_right,
                );
                lemma_scan_in_two_parts(left.leaves(), right.leaves(), nearest, t_min, t_max);
            },
        }
    }
}

/// The search of a hierarchy over `n` surfaces and the search through the
/// plain list of the same surfaces find the same: both find nothing, or both
/// find a surface that is hit in the window, at ray parameters that are equal
/// as numbers, and no surface is hit before that. Which axes were drawn when
/// the hierarchy was built makes no difference.
///
/// This holds where the surfaces answer as `nearest` says, every surface
/// answers with its nearest crossing in the window, the box test never hides
/// a hit, and the window ends at a number. Where two surfaces are hit at the
/// same ray parameter the two searches may report different ones of them.
pub proof fn lemma_hierarchy_matches_list<B, L>(
    tree: BVH,
    n: nat,
    box_hit: &B,
    leaf_hit: &L,
    nearest: Answers,
    t_min: u64,
    t_max: u64,
    by_tree: Option<(usize, u64)>,
    by_list: Option<(usize, u64)>,
) where B: Fn(AABB, u64, u64) -> bool, L: Fn(usize, u64, u64) -> Option<u64>
    requires
        n <= usize::MAX,
        tree.holds_each_once(n),
        answers_by(leaf_hit, nearest),
        answers_nearest(nearest, t_min),
        tree.prunes_soundly(box_hit, nearest, t_min),
        !is_nan(t_max),
        tree.searches(box_hit, leaf_hit, t_min, t_max, by_tree),
        scanned(n, leaf_hit, t_min, t_max, by_list),
    ensures
        by_tree.is_some() <==> by_list.is_some(),
        by_tree.is_some() ==> {
            &&& value_key(by_tree.unwrap().1) == value_key(by_list.unwrap().1)
            &&& is_nearest_hit(
                in_turn(n),
                nearest,
                t_min,
                t_max,
                by_tree.unwrap().0,
                by_tree.unwrap().1,
            )
            &&& is_nearest_hit(
                in_turn(n),
                nearest,
                t_min,
                t_max,
                by_list.unwrap().0,
                by_list.unwrap().1,
            )
        },
{
    let leaves = tree.leaves();
    let list = in_turn(n);
    lemma_search_is_scan_of_leaves(tree, box_hit, leaf_hit, nearest, t_min, t_max, by_tree);
    lemma_scanned_is_scan(n, leaf_hit, nearest, t_min, t_max, by_list);
    lemma_scan_finds_nearest(leaves, nearest, t_min, t_max);
    lemma_scan_finds_nearest(list, nearest, t_min, t_max);
    assert forall|k: int| 0 <= k < list.len() implies leaves.contains(#[trigger] list[k]) by {}
    assert forall|k: int| 0 <= k < leaves.len() implies list.contains(#[trigger] leaves[k]) by {
        assert(leaves.contains(leaves[k]));
        assert(list[leaves[k] as int] == leaves[k]);
    }
    if none_hit(leaves, nearest, t_min, t_max) {
        assert forall|k: int| 0 <= k < list.len() implies nearest(
            #[trigger] list[k],
            t_min,
            t_max,
        ).is_none() by {
            assert(leaves.contains(list[k]));
            let at = choose|at: int| 0 <= at < leaves.len() && leaves[at] == list[k];
            assert(nearest(leaves[at], t_min, t_max).is_none());
        }
    }
    if none_hit(list, nearest, t_min, t_max) {
        assert forall|k: int| 0 <= k < leaves.len() implies nearest(
            #[trigger] leaves[k],
            t_min,
            t_max,
        ).is_none() by {
            assert(list.contains(leaves[k]));
            let at = choose|at: int| 0 <= at < list.len() && list[at] == leaves[k];
            assert(nearest(list[at], t_min, t_max).is_none());
        }
    }
    if by_tree.is_some() {
        let (i, t) = by_tree.unwrap();
        let (j, u) = by_list.unwrap();
        assert(is_nearest_hit(leaves, nearest, t_min, t_max, i, t));
        assert(is_nearest_hit(list, nearest, t_min, t_max, j, u));
        let at_i = choose|at: int| 0 <= at < leaves.len() && leaves[at] == i;
        let at_j = choose|at: int| 0 <= at < list.len() && list[at] == j;
        assert(list.contains(leaves[at_i]));
        assert(leaves.contains(list[at_j]));
        let in_list = choose|at: int| 0 <= at < list.len() && list[at] == i;
        let in_leaves = choose|at: int| 0 <= at < leaves.len() && leaves[at] == j;
        assert(nearest(list[in_list], t_min, t_max).is_some());
        assert(nearest(leaves[in_leaves], t_min, t_max).is_some());
        assert(le(u, t));
        assert(le(t, u));
        assert forall|k: int|
            0 <= k < list.len() && nearest(#[trigger] list[k], t_min, t_max).is_some() implies le(
            t,
            nearest(list[k], t_min, t_max).unwrap(),
        ) by {
            let other = nearest(list[k], t_min, t_max).unwrap();
            assert(le(u, other));
            lemma_le_orders_numbers(t, u, other);
        }
    }
}

/// Sorts the entries by their key along `axis`, smallest first.
///
/// The work is done by `sort_unstable_by_key` of the standard library's
/// slices, with the key of the axis as the sort key. Taken on trust: the
/// result holds the entries that were there, each as often as before, in
/// ascending order of that key. Nothing is said of the order of entries with
/// equal keys.
#[verifier::external_body]
fn sort_along(items: &mut Vec<Entry>, axis: usize)
    requires
        axis < 3,
    ensures
        final(items)@.to_multiset() == old(items)@.to_multiset(),
        sorted_along(final(items)@, axis as int),
{
    items.sort_unstable_by_key(|e| e.keys[axis]);
}

/// Two lists that hold the same entries agree on their length, on what they
/// contain, and on whether their surfaces are distinct.
proof fn lemma_rearranged(a: Seq<Entry>, b: Seq<Entry>)
    requires
        a.to_multiset() == b.to_multiset(),
    ensures
        a.len() == b.len(),
        forall|e: Entry| a.contains(e) <==> b.contains(e),
        forall|id: usize| has_id(a, id) <==> has_id(b, id),
        ids_distinct(a) ==> ids_distinct(b),
        forall|objects: Seq<Bounds>| agrees(a, objects) ==> agrees(b, objects),
{
    a.to_multiset_ensures();
    b.to_multiset_ensures();
    assert forall|e: Entry| a.contains(e) <==> b.contains(e) by {
        assert(a.contains(e) <==> a.to_multiset().count(e) > 0);
        assert(b.contains(e) <==> b.to_multiset().count(e) > 0);
    }
    assert forall|id: usize| has_id(a, id) <==> has_id(b, id) by {
        if has_id(a, id) {
            let i = choose|i: int| 0 <= i < a.len() && #[trigger] a[i].id == id;
            assert(a.contains(a[i]));
            let j = choose|j: int| 0 <= j < b.len() && b[j] == a[i];
            assert(b[j].id == id);
        }
        if has_id(b, id) {
            let i = choose|i: int| 0 <= i < b.len() && #[trigger] b[i].id == id;
            assert(b.contains(b[i]));
            let j = choose|j: int| 0 <= j < a.len() && a[j] == b[i];
            assert(a[j].id == id);
        }
    }
    assert forall|objects: Seq<Bounds>| agrees(a, objects) implies agrees(b, objects) by {
        assert forall|i: int| 0 <= i < b.len() implies carries_keys(#[trigger] b[i], objects) by {
            assert(b.contains(b[i]));
            let j = choose|j: int| 0 <= j < a.len() && a[j] == b[i];
            assert(carries_keys(a[j], objects));
        }
    }
    if ids_distinct(a) {
        assert(a.no_duplicates());
        a.lemma_multiset_has_no_duplicates();
        b.lemma_multiset_has_no_duplicates_conv();
        assert forall|i: int, j: int| 0 <= i < b.len() && 0 <= j < b.len() && i != j implies b[i].id
            != b[j].id by {
            assert(b.contains(b[i]));
            assert(b.contains(b[j]));
            let p = choose|p: int| 0 <= p < a.len() && a[p] == b[i];
            let q = choose|q: int| 0 <= q < a.len() && a[q] == b[j];
            assert(b[i] != b[j]);
            assert(p != q);
        }
    }
}

/// What holds of a list holds of its two parts: distinct surfaces, the sort
/// keys, and each surface in one part or the other.
proof fn lemma_parts(lower: Seq<Entry>, upper: Seq<Entry>, objects: Seq<Bounds>)
    ensures
        ids_distinct(lower + upper) ==> ids_distinct(lower) && ids_distinct(upper),
        ids_distinct(lower + upper) ==> forall|i: int, j: int|
            0 <= i < lower.len() && 0 <= j < upper.len() ==> lower[i].id != upper[j].id,
        agrees(lower + upper, objects) ==> agrees(lower, objects) && agrees(upper, objects),
        forall|id: usize| has_id(lower + upper, id) <==> has_id(lower, id) || has_id(upper, id),
{
    let all = lower + upper;
    let n = lower.len() as int;
    assert forall|i: int| 0 <= i < lower.len() implies #[trigger] lower[i] == all[i] by {}
    assert forall|i: int| 0 <= i < upper.len() implies #[trigger] upper[i] == all[n + i] by {}
    if ids_distinct(all) {
        assert forall|i: int, j: int|
            0 <= i < lower.len() && 0 <= j < lower.len() && i != j implies lower[i].id
            != lower[j].id by {
            assert(all[i].id != all[j].id);
        }
        assert forall|i: int, j: int|
            0 <= i < upper.len() && 0 <= j < upper.len() && i != j implies upper[i].id
            != upper[j].id by {
            assert(all[n + i].id != all[n + j].id);
        }
        assert forall|i: int, j: int|
            0 <= i < lower.len() && 0 <= j < upper.len() implies lower[i].id != upper[j].id by {
            assert(all[i].id != all[n + j].id);
        }
    }
    if agrees(all, objects) {
        assert forall|i: int| 0 <= i < lower.len() implies carries_keys(
            #[trigger] lower[i],
            objects,
        ) by {
            assert(carries_keys(all[i], objects));
        }
        assert forall|i: int| 0 <= i < upper.len() implies carries_keys(
            #[trigger] upper[i],
            objects,
        ) by {
            assert(carries_keys(all[n + i], objects));
        }
    }
    assert forall|id: usize| has_id(all, id) <==> has_id(lower, id) || has_id(upper, id) by {
        if has_id(all, id) {
            let i = choose|i: int| 0 <= i < all.len() && #[trigger] all[i].id == id;
            if i < n {
                assert(lower[i].id == id);
            } else {
                assert(upper[i - n].id == id);
            }
        }
        if has_id(lower, id) {
            let i = choose|i: int| 0 <= i < lower.len() && #[trigger] lower[i].id == id;
            assert(all[i].id == id);
        }
        if has_id(upper, id) {
            let i = choose|i: int| 0 <= i < upper.len() && #[trigger] upper[i].id == id;
            assert(all[n + i].id == id);
        }
    }
}

/// Sorts the entries along `axis` and cuts the list in the middle. The second
/// list gets the lower half, rounded down; the first list gets the rest. Read
/// one after the other, lower half first, they are the entries that came in,
/// in ascending order of their key along `axis`.
pub fn split_at_median(items: Vec<Entry>, axis: usize) -> (halves: (Vec<Entry>, Vec<Entry>))
    requires
        axis < 3,
    ensures
        halves.1@.len() == items@.len() / 2,
        halves.0@.len() == items@.len() - items@.len() / 2,
        (halves.1@ + halves.0@).to_multiset() == items@.to_multiset(),
        sorted_along(halves.1@ + halves.0@, axis as int),
{
    let mut lower = items;
    sort_along(&mut lower, axis);
    proof {
        lemma_rearranged(items@, lower@);
    }
    let ghost sorted = lower@;
    let mid: usize = lower.len() / 2;
    let upper = lower.split_off(mid);
    assert(lower@ + upper@ =~= sorted);
    (upper, lower)
}

/// Draws the axis along which a list is split: a draw from `0 ..= 2`, turned
/// into an axis by `axis_of_draw`. Which of the three axes comes out is for
/// the draw to say.
fn pick_axis() -> (axis: usize)
    ensures
        axis < 3,
        exists|draw: i32| 0 <= draw <= 2 && axis == #[trigger] axis_for(draw),
{
    let draw: i32 = random_int(0, 2);
    axis_of_draw(draw)
}

/// The axis that a draw stands for: x for zero, y for one, and z for every
/// other draw.
pub open spec fn axis_for(draw: i32) -> usize {
    if draw == 0 {
        0
    } else if draw == 1 {
        1
    } else {
        2
    }
}

/// Turns a draw into the axis that it stands for.
pub fn axis_of_draw(draw: i32) -> (axis: usize)
    ensures
        axis == axis_for(draw),
        axis < 3,
{
    match draw {
        0 => 0,
        1 => 1,
        _ => 2,
    }
}

impl BVH {
    /// Builds the tree over a list of entries that is not empty: a single
    /// entry becomes a leaf with the extent of its surface; a longer list is
    /// split at the median of an axis drawn at random, each half is built in
    /// the same way, and the branch gets the box round the two.
    fn build(items: Vec<Entry>, extents: &Vec<AABB>, Ghost(objects): Ghost<Seq<Bounds>>) -> (tree:
        BVH)
        requires
            items@.len() > 0,
            ids_distinct(items@),
            extents@.len() == objects.len(),
            forall|i: int| 0 <= i < items@.len() ==> (#[trigger] items@[i]).id < extents@.len(),
            forall|i: int|
                0 <= i < extents@.len() ==> (#[trigger] objects[i]).extent == Some(extents@[i]),
            items@.len() >= 2 ==> agrees(items@, objects),
        ensures
            tree.leaves().len() == items@.len(),
            tree.leaves().no_duplicates(),
            forall|id: usize| tree.leaves().contains(id) <==> has_id(items@, id),
            tree.well_split(objects),
            tree.boxes_fit(objects),
        decreases items@.len(),
    {
        let axis = pick_axis();
        if items.len() == 1 {
            let id = items[0].id;
            let tree = BVH { tree: BVHNode::Leaf(id), bbox: extents[id] };
            proof {
                assert(objects[id as int].extent == Some(extents@[id as int]));
                assert forall|x: usize| tree.leaves().contains(x) <==> has_id(items@, x) by {
                    if tree.leaves().contains(x) {
                        assert(items@[0].id == x);
                    }
                    if has_id(items@, x) {
                        assert(tree.leaves()[0] == x);
                    }
                }
            }
            tree
        } else {
            let (upper, lower) = split_at_median(items, axis);
            let ghost all = lower@ + upper@;
            proof {
                lemma_rearranged(items@, all);
                lemma_parts(lower@, upper@, objects);
                let n = lower@.len() as int;
                assert forall|i: int| 0 <= i < lower@.len() implies (#[trigger] lower@[i]).id
                    < extents@.len() by {
                    assert(all[i] == lower@[i]);
                    assert(all.contains(all[i]));
                    let j = choose|j: int| 0 <= j < items@.len() && items@[j] == all[i];
                    assert(items@[j].id < extents@.len());
                }
                assert forall|i: int| 0 <= i < upper@.len() implies (#[trigger] upper@[i]).id
                    < extents@.len() by {
                    assert(all[n + i] == upper@[i]);
                    assert(all.contains(all[n + i]));
                    let j = choose|j: int| 0 <= j < items@.len() && items@[j] == all[n + i];
                    assert(items@[j].id < extents@.len());
                }
            }
            let left = BVH::build(upper, extents, Ghost(objects));
            let right = BVH::build(lower, extents, Ghost(objects));
            let bbox = AABB::surrounding_box(&left.bbox, &right.bbox);
            let ghost ll = left.leaves();
            let ghost rl = right.leaves();
            let tree = BVH {
                tree: BVHNode::Branch { left: Box::new(left), right: Box::new(right) },
                bbox,
            };
            proof {
                let n = lower@.len() as int;
                assert(tree.leaves() == ll + rl);
                assert forall|i: int, j: int| 0 <= i < ll.len() && 0 <= j < rl.len() implies ll[i]
                    != rl[j] by {
                    assert(ll.contains(ll[i]));
                    assert(rl.contains(rl[j]));
                    let p = choose|p: int|
                        0 <= p < upper@.len() && #[trigger] upper@[p].id == ll[i];
                    let q = choose|q: int|
                        0 <= q < lower@.len() && #[trigger] lower@[q].id == rl[j];
                    assert(lower@[q].id != upper@[p].id);
                }
                vstd::seq_lib::lemma_no_dup_in_concat(ll, rl);
                assert forall|x: usize| tree.leaves().contains(x) <==> has_id(items@, x) by {
                    if tree.leaves().contains(x) {
                        let i = choose|i: int| 0 <= i < (ll + rl).len() && (ll + rl)[i] == x;
                        if i < ll.len() {
                            assert(ll.contains(x));
                        } else {
                            assert(rl[i - ll.len()] == x);
                            assert(rl.contains(x));
                        }
                    }
                    if has_id(items@, x) {
                        if has_id(lower@, x) {
                            assert(rl.contains(x));
                            let j = choose|j: int| 0 <= j < rl.len() && rl[j] == x;
                            assert((ll + rl)[ll.len() + j] == x);
                        } else {
                            assert(ll.contains(x));
                            let j = choose|j: int| 0 <= j < ll.len() && ll[j] == x;
                            assert((ll + rl)[j] == x);
                        }
                    }
                }
                let x = axis as int;
                assert(parted(rl, ll, objects, x)) by {
                    assert forall|a: int, b: int|
                        0 <= a < rl.len() && 0 <= b < ll.len() implies sort_key(
                        objects,
                        #[trigger] rl[a] as int,
                        x,
                    ) <= sort_key(objects, #[trigger] ll[b] as int, x) by {
                        assert(rl.contains(rl[a]));
                        assert(ll.contains(ll[b]));
                        let q = choose|q: int|
                            0 <= q < lower@.len() && #[trigger] lower@[q].id == rl[a];
                        let p = choose|p: int|
                            0 <= p < upper@.len() && #[trigger] upper@[p].id == ll[b];
                        assert(all[q] == lower@[q] && all[n + p] == upper@[p]);
                        assert(carries_keys(lower@[q], objects));
                        assert(carries_keys(upper@[p], objects));
                        assert(all[q].keys[x] <= all[n + p].keys[x]);
                        assert(x == 0 || x == 1 || x == 2);
                    }
                }
            }
            tree
        }
    }

    /// Builds the hierarchy over a list of surfaces, each given by its two
    /// boxes. With one surface the tree is a leaf. With more, the surfaces
    /// are sorted along an axis drawn at random by the least corner of their
    /// anchors, in the total order of numbers; the upper half goes to the
    /// left, the lower half to the right, and each side is built in the same
    /// way. A leaf has the extent of its surface as its box, a branch the box
    /// round its two sides.
    ///
    /// An empty list and a surface without a box are errors. Otherwise the
    /// tree holds every surface in exactly one leaf, every branch splits at a
    /// median and every box fits, whichever axes are drawn on the way.
    pub fn new(objects: &Vec<Bounds>) -> (built: Result<BVH, BvhError>)
        ensures
            match built {
                Err(BvhError::Empty) => objects@.len() == 0,
                Err(BvhError::MissingBox) => objects@.len() > 0 && lacks_box(objects@),
                Ok(tree) => {
                    &&& objects@.len() > 0
                    &&& !lacks_box(objects@)
                    &&& tree.holds_each_once(objects@.len())
                    &&& tree.well_split(objects@)
                    &&& tree.boxes_fit(objects@)
                },
            },
    {
        let n: usize = objects.len();
        if n == 0 {
            return Err(BvhError::Empty);
        }
        let mut items: Vec<Entry> = Vec::new();
        let mut extents: Vec<AABB> = Vec::new();
        let mut i: usize = 0;
        while i < n
            invariant
                0 <= i <= n,
                n == objects@.len(),
                items@.len() == i,
                extents@.len() == i,
                forall|k: int| 0 <= k < i ==> (#[trigger] objects@[k]).extent == Some(extents@[k]),
                forall|k: int| 0 <= k < i && n >= 2 ==> (#[trigger] objects@[k]).anchor.is_some(),
                forall|k: int| 0 <= k < i ==> (#[trigger] items@[k]).id == k,
                forall|k: int|
                    0 <= k < i && n >= 2 ==> carries_keys(#[trigger] items@[k], objects@),
            decreases n - i,
        {
            let extent = match objects[i].extent {
                Some(extent) => extent,
                None => {
                    return Err(BvhError::MissingBox);
                },
            };
            let keys: [i64; 3] = match objects[i].anchor {
                Some(anchor) => {
                    let corner = anchor.min();
                    [order_key(corner[0]), order_key(corner[1]), order_key(corner[2])]
                },
                None => {
                    if n >= 2 {
                        return Err(BvhError::MissingBox);
                    }
                    [0, 0, 0]
                },
            };
            extents.push(extent);
            items.push(Entry { id: i, keys });
            i = i + 1;
        }
        let tree = BVH::build(items, &extents, Ghost(objects@));
        proof {
            assert forall|id: usize| 0 <= id < objects@.len() <==> tree.leaves().contains(id) by {
                if id < objects@.len() {
                    assert(items@[id as int].id == id);
                    assert(has_id(items@, id));
                }
                if tree.leaves().contains(id) {
                    assert(has_id(items@, id));
                }
            }
            assert(!lacks_box(objects@)) by {
                assert forall|k: int| 0 <= k < objects@.len() implies !((
                #[trigger] objects@[k]).extent.is_none() || (objects@.len() >= 2
                    && objects@[k].anchor.is_none())) by {}
            }
        }
        Ok(tree)
    }

    /// Searches the hierarchy for the nearest hit of a ray in the window from
    /// `t_min` to `t_max`. The arithmetic is the caller's: `box_hit` tells
    /// whether the ray passes a box inside a window, and `leaf_hit` gives the
    /// ray parameter at which the ray hits a surface inside a window, if it
    /// does.
    ///
    /// A node whose box the ray misses is skipped with all below it. At a
    /// branch the left side is searched first, and the right side only up to
    /// the hit on the left, if there was one; a hit on the right is nearer
    /// and takes its place. The result is the surface that is hit and the ray
    /// parameter of the hit.
    pub fn hit<B, L>(&self, box_hit: &B, leaf_hit: &L, t_min: u64, t_max: u64) -> (found: Option<
        (usize, u64),
    >) where B: Fn(AABB, u64, u64) -> bool, L: Fn(usize, u64, u64) -> Option<u64>
        requires
            forall|b: AABB, lo: u64, hi: u64| box_hit.requires((b, lo, hi)),
            forall|id: usize, lo: u64, hi: u64| leaf_hit.requires((id, lo, hi)),
        ensures
            self.searches(box_hit, leaf_hit, t_min, t_max, found),
        decreases self,
    {
        let passed = box_hit(self.bbox, t_min, t_max);
        assert(box_hit.ensures((self.bbox, t_min, t_max), passed));
        if !passed {
            return None;
        }
        match &self.tree {
            BVHNode::Leaf(id) => {
                let answer = leaf_hit(*id, t_min, t_max);
                let found = match answer {
                    Some(t) => Some((*id, t)),
                    None => None,
                };
                assert(leaf_hit.ensures((*id, t_min, t_max), answer) && found == report(
                    *id,
                    answer,
                ));
                found
            },
            BVHNode::Branch { left, right } => {
                let hit_left = left.hit(box_hit, leaf_hit, t_min, t_max);
                let end = until(hit_left, t_max);
                let hit_right = right.hit(box_hit, leaf_hit, t_min, end);
                let found = if hit_right.is_some() {
                    hit_right
                } else {
                    hit_left
                };
                assert(left.searches(box_hit, leaf_hit, t_min, t_max, hit_left) && right.searches(
                    box_hit,
                    leaf_hit,
                    t_min,
                    up_to(hit_left, t_max),
                    hit_right,
                ) && found == later_or(hit_right, hit_left));
                assert(is_result(hit_left) && is_result(hit_right));
                found
            },
        }
    }

    /// The box round all surfaces of the hierarchy.
    pub fn bounding_box(&self) -> (around: AABB)
        ensures
            around == self.bbox,
    {
        self.bbox
    }
}

} // verus!
