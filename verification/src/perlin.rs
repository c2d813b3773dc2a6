//! The integer lattice behind gradient noise: three shuffled tables and the
//! hash that picks a gradient for each lattice point.

use vstd::prelude::*;
use crate::util::random_int;

verus! {

/// The number of gradients, and the length of each table.
pub const POINT_COUNT: usize = 256;

/// The table that holds every index at its own place.
pub open spec fn identity() -> Seq<i32> {
    Seq::new(POINT_COUNT as nat, |i: int| i as i32)
}

/// A table of `POINT_COUNT` entries that holds each of `0 .. POINT_COUNT`
/// exactly once.
pub open spec fn is_permutation(t: Seq<i32>) -> bool {
    &&& t.len() == POINT_COUNT
    &&& forall|i: int| 0 <= i < t.len() ==> 0 <= #[trigger] t[i] < POINT_COUNT
    &&& forall|i: int, j: int| 0 <= i < j < t.len() ==> t[i] != t[j]
}

/// `s` with the entries at `a` and `b` exchanged.
pub open spec fn swapped(s: Seq<i32>, a: int, b: int) -> Seq<i32>
    recommends
        0 <= a < s.len(),
        0 <= b < s.len(),
{
    s.update(a, s[b]).update(b, s[a])
}

/// Draws that a shuffle of a table of length `len` can use: the draw for
/// position `i` names a position from `0` to `i`.
pub open spec fn draws_fit(draws: Seq<i32>, len: int) -> bool {
    &&& draws.len() == len
    &&& forall|i: int| 1 <= i < len ==> 0 <= #[trigger] draws[i] <= i
}

/// The table `s` after the exchanges for the positions from the last one down
/// to `from`: each position `i` in turn is exchanged with position `draws[i]`.
pub open spec fn shuffled(s: Seq<i32>, draws: Seq<i32>, from: int) -> Seq<i32>
    decreases s.len() - from,
{
    if from >= s.len() {
        s
    } else {
        swapped(shuffled(s, draws, from + 1), from, draws[from] as int)
    }
}

/// Exchanging two entries rearranges a table and changes nothing else about
/// what it holds.
pub proof fn lemma_swapped_rearranges(s: Seq<i32>, a: int, b: int)
    requires
        0 <= a < s.len(),
        0 <= b < s.len(),
    ensures
        swapped(s, a, b).len() == s.len(),
        swapped(s, a, b).to_multiset() == s.to_multiset(),
{
    broadcast use vstd::seq_lib::to_multiset_update;
    broadcast use vstd::multiset::group_multiset_axioms;

    let mid = s.update(a, s[b]);
    s.to_multiset_ensures();
    mid.to_multiset_ensures();
    assert(s.contains(s[a]));
    assert(s.contains(s[b]));
    assert(swapped(s, a, b).to_multiset() =~= s.to_multiset());
}

/// A shuffle keeps the length of the table and rearranges it: every value is
/// in the result as often as it was in the table.
pub proof fn lemma_shuffled_rearranges(s: Seq<i32>, draws: Seq<i32>, from: int)
    requires
        draws_fit(draws, s.len() as int),
        1 <= from,
    ensures
        shuffled(s, draws, from).len() == s.len(),
        shuffled(s, draws, from).to_multiset() == s.to_multiset(),
    decreases s.len() - from,
{
    if from < s.len() {
        lemma_shuffled_rearranges(s, draws, from + 1);
        lemma_swapped_rearranges(shuffled(s, draws, from + 1), from, draws[from] as int);
    }
}

/// An exchange of two entries of a permutation gives a permutation.
proof fn lemma_swapped_permutation(s: Seq<i32>, a: int, b: int)
    requires
        is_permutation(s),
        0 <= a < s.len(),
        0 <= b < s.len(),
    ensures
        is_permutation(swapped(s, a, b)),
{
    let t = swapped(s, a, b);
    assert forall|i: int, j: int| 0 <= i < j < t.len() implies t[i] != t[j] by {
        let si = if i == a {
            b
        } else if i == b {
            a
        } else {
            i
        };
        let sj = if j == a {
            b
        } else if j == b {
            a
        } else {
            j
        };
        assert(t[i] == s[si] && t[j] == s[sj] && si != sj);
        if si < sj {
            assert(s[si] != s[sj]);
        } else {
            assert(s[sj] != s[si]);
        }
    }
}

/// A shuffle of a permutation is a permutation, whatever the draws.
pub proof fn lemma_shuffled_permutation(s: Seq<i32>, draws: Seq<i32>, from: int)
    requires
        is_permutation(s),
        draws_fit(draws, s.len() as int),
        1 <= from,
    ensures
        is_permutation(shuffled(s, draws, from)),
    decreases s.len() - from,
{
    if from < s.len() {
        lemma_shuffled_permutation(s, draws, from + 1);
        lemma_shuffled_rearranges(s, draws, from + 1);
        lemma_swapped_permutation(shuffled(s, draws, from + 1), from, draws[from] as int);
    }
}

/// Shuffles the table with the given draws: for each position from the last
/// down to the second, the entry there changes places with the entry at the
/// position that the draw for it names. `draws[0]` is not used.
pub fn permute_by(p: &mut [i32; POINT_COUNT], draws: &[i32; POINT_COUNT])
    requires
        draws_fit(draws@, POINT_COUNT as int),
    ensures
        final(p)@ == shuffled(old(p)@, draws@, 1),
        final(p)@.to_multiset() == old(p)@.to_multiset(),
        is_permutation(old(p)@) ==> is_permutation(final(p)@),
{
    let mut i: usize = POINT_COUNT;
    while i > 1
        invariant
            1 <= i <= POINT_COUNT,
            draws_fit(draws@, POINT_COUNT as int),
            p@ == shuffled(old(p)@, draws@, i as int),
        decreases i,
    {
        i = i - 1;
        let target: usize = draws[i] as usize;
        let here: i32 = p[i];
        let there: i32 = p[target];
        p[i] = there;
        p[target] = here;
        assert(p@ =~= swapped(shuffled(old(p)@, draws@, i + 1), i as int, draws@[i as int] as int));
    }
    proof {
        lemma_shuffled_rearranges(old(p)@, draws@, 1);
        if is_permutation(old(p)@) {
            lemma_shuffled_permutation(old(p)@, draws@, 1);
        }
    }
}

/// Shuffles the table at random: one draw from `0 ..= i` for each position
/// `i`, from the last down to the second, and then the exchanges of
/// [`permute_by`]. Whatever is drawn, the table is rearranged and nothing
/// else.
pub fn permute(p: &mut [i32; POINT_COUNT])
    ensures
        exists|draws: Seq<i32>|
            draws_fit(draws, POINT_COUNT as int) && final(p)@ == shuffled(old(p)@, draws, 1),
        final(p)@.to_multiset() == old(p)@.to_multiset(),
        is_permutation(old(p)@) ==> is_permutation(final(p)@),
{
    let mut draws: [i32; POINT_COUNT] = [0; POINT_COUNT];
    let mut i: usize = POINT_COUNT;
    while i > 1
        invariant
            1 <= i <= POINT_COUNT,
            forall|k: int| i <= k < POINT_COUNT ==> 0 <= #[trigger] draws@[k] <= k,
        decreases i,
    {
        i = i - 1;
        let drawn: i32 = random_int(0, i as i32);
        draws[i] = drawn;
    }
    permute_by(p, &draws);
}

/// A fresh table: the indices `0 .. POINT_COUNT` in a random order.
pub fn perlin_generate_perm() -> (p: [i32; POINT_COUNT])
    ensures
        is_permutation(p@),
        exists|draws: Seq<i32>|
            draws_fit(draws, POINT_COUNT as int) && p@ == shuffled(identity(), draws, 1),
{
    let mut p: [i32; POINT_COUNT] = [0; POINT_COUNT];
    let mut i: usize = 0;
    while i < POINT_COUNT
        invariant
            0 <= i <= POINT_COUNT,
            forall|k: int| 0 <= k < i ==> #[trigger] p@[k] == k,
        decreases POINT_COUNT - i,
    {
        p[i] = i as i32;
        i = i + 1;
    }
    assert(p@ =~= identity());
    permute(&mut p);
    p
}

/// The lattice of a gradient noise: one shuffled table for each axis.
#[derive(Debug, Clone, Copy)]
pub struct Perlin {
    perm_x: [i32; POINT_COUNT],
    perm_y: [i32; POINT_COUNT],
    perm_z: [i32; POINT_COUNT],
}

/// The place in a table that a lattice coordinate reads: the coordinate
/// modulo `POINT_COUNT`, which is never negative.
pub open spec fn slot(c: int) -> int {
    c % (POINT_COUNT as int)
}

impl Perlin {
    /// The table for the x axis.
    pub closed spec fn table_x(&self) -> Seq<i32> {
        self.perm_x@
    }

    /// The table for the y axis.
    pub closed spec fn table_y(&self) -> Seq<i32> {
        self.perm_y@
    }

    /// The table for the z axis.
    pub closed spec fn table_z(&self) -> Seq<i32> {
        self.perm_z@
    }

    /// Each of the three tables is a permutation.
    #[verifier::type_invariant]
    pub closed spec fn well_formed(&self) -> bool {
        &&& is_permutation(self.perm_x@)
        &&& is_permutation(self.perm_y@)
        &&& is_permutation(self.perm_z@)
    }

    /// The gradient that belongs to the lattice point `(i, j, k)`: the three
    /// table entries for the coordinates, combined bit by bit with exclusive
    /// or.
    pub open spec fn gradient_at(&self, i: int, j: int, k: int) -> int {
        (self.table_x()[slot(i)] ^ self.table_y()[slot(j)] ^ self.table_z()[slot(k)]) as int
    }

    /// A lattice with three fresh random tables.
    pub fn new() -> (lattice: Perlin)
        ensures
            is_permutation(lattice.table_x()),
            is_permutation(lattice.table_y()),
            is_permutation(lattice.table_z()),
    {
        Perlin {
            perm_x: perlin_generate_perm(),
            perm_y: perlin_generate_perm(),
            perm_z: perlin_generate_perm(),
        }
    }

    /// The table for the x axis.
    pub fn perm_x(&self) -> (t: &[i32; POINT_COUNT])
        ensures
            t@ == self.table_x(),
            is_permutation(t@),
    {
        proof {
            use_type_invariant(self);
        }
        &self.perm_x
    }

    /// The table for the y axis.
    pub fn perm_y(&self) -> (t: &[i32; POINT_COUNT])
        ensures
            t@ == self.table_y(),
            is_permutation(t@),
    {
        proof {
            use_type_invariant(self);
        }
        &self.perm_y
    }

    /// The table for the z axis.
    pub fn perm_z(&self) -> (t: &[i32; POINT_COUNT])
        ensures
            t@ == self.table_z(),
            is_permutation(t@),
    {
        proof {
            use_type_invariant(self);
        }
        &self.perm_z
    }

    /// The index of the gradient for the lattice point `(i, j, k)`. It is
    /// below `POINT_COUNT` for every point.
    pub fn gradient_index(&self, i: i32, j: i32, k: i32) -> (index: usize)
        ensures
            index == self.gradient_at(i as int, j as int, k as int),
            index < POINT_COUNT,
    {
        proof {
            use_type_invariant(self);
        }
        let a: i32 = i & 255;
        let b: i32 = j & 255;
        let c: i32 = k & 255;
        proof {
            lemma_low_bits(i);
            lemma_low_bits(j);
            lemma_low_bits(k);
        }
        let x: i32 = self.perm_x[a as usize];
        let y: i32 = self.perm_y[b as usize];
        let z: i32 = self.perm_z[c as usize];
        assert(0 <= (x ^ y ^ z) < 256) by (bit_vector)
            requires
                0 <= x < 256,
                0 <= y < 256,
                0 <= z < 256,
        ;
        (x ^ y ^ z) as usize
    }

    /// The gradient indices for the eight corners of the lattice cell whose
    /// lowest corner is `(i, j, k)`: the entry at `[di][dj][dk]` belongs to
    /// the point `(i + di, j + dj, k + dk)`.
    pub fn corner_indices(&self, i: i32, j: i32, k: i32) -> (corners: [[[usize; 2]; 2]; 2])
        ensures
            forall|di: int, dj: int, dk: int|
                0 <= di < 2 && 0 <= dj < 2 && 0 <= dk < 2 ==> #[trigger] corners@[di]@[dj]@[dk]
                    == self.gradient_at(i + di, j + dj, k + dk),
            forall|di: int, dj: int, dk: int|
                0 <= di < 2 && 0 <= dj < 2 && 0 <= dk < 2 ==> #[trigger] corners@[di]@[dj]@[dk]
                    < POINT_COUNT,
    {
        let i1: i32 = i.wrapping_add(1);
        let j1: i32 = j.wrapping_add(1);
        let k1: i32 = k.wrapping_add(1);
        proof {
            lemma_next_slot(i);
            lemma_next_slot(j);
            lemma_next_slot(k);
        }
        [
            [
                [self.gradient_index(i, j, k), self.gradient_index(i, j, k1)],
                [self.gradient_index(i, j1, k), self.gradient_index(i, j1, k1)],
            ],
            [
                [self.gradient_index(i1, j, k), self.gradient_index(i1, j, k1)],
                [self.gradient_index(i1, j1, k), self.gradient_index(i1, j1, k1)],
            ],
        ]
    }
}

/// The low eight bits of a coordinate are its slot.
proof fn lemma_low_bits(c: i32)
    ensures
        0 <= (c & 255) < 256,
        (c & 255) as int == slot(c as int),
{
    assert(0 <= (c & 255) < 256 && (c & 255) == c - 256 * (c >> 8)) by (bit_vector);
    let q = (c >> 8) as int;
    let r = (c & 255) as int;
    vstd::arithmetic::div_mod::lemma_fundamental_div_mod_converse(c as int, 256, q, r);
}

/// The coordinate after `c`, wrapped round at the end of the type, has the
/// slot of `c + 1`.
proof fn lemma_next_slot(c: i32)
    ensures
        slot(c.wrapping_add(1) as int) == slot(c + 1),
{
    if c == i32::MAX {
        assert(c.wrapping_add(1) == i32::MIN);
        assert(slot(i32::MIN as int) == 0 && slot(i32::MAX + 1) == 0);
    }
}

} // verus!
