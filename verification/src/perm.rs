//! The permutation table: the numbers `0..=255` in an order fixed by a seed.
//!
//! The table is what turns lattice coordinates into pseudo-random choices. It
//! is shuffled once, by drawing from the generator, and only read afterwards.

use vstd::prelude::*;
use crate::lcgrng::{lcg_step, LCG};

verus! {

/// A table holds each of the 256 byte values exactly once: no value stands at
/// two places, and every value stands somewhere.
pub open spec fn is_permutation(t: Seq<u8>) -> bool {
    &&& t.len() == 256
    &&& forall|i: int, j: int| 0 <= i < j < 256 ==> t[i] != t[j]
    &&& forall|v: u8| #[trigger] t.contains(v)
}

/// The table before shuffling: entry `i` is `i`.
pub open spec fn identity_table() -> Seq<u8> {
    Seq::new(256, |i: int| i as u8)
}

/// `t` with the entries at `i` and `j` exchanged.
pub open spec fn swapped(t: Seq<u8>, i: int, j: int) -> Seq<u8> {
    t.update(i, t[j]).update(j, t[i])
}

/// The Fisher-Yates shuffle of the first `remaining` entries of `t`, drawing
/// from the generator in state `state`.
///
/// Each round draws one number, reduces it modulo the count of entries still
/// unplaced, and exchanges the entry it names with the last unplaced one, which
/// is thereby placed for good.
pub open spec fn shuffled(t: Seq<u8>, state: u32, remaining: nat) -> Seq<u8>
    decreases remaining,
{
    if remaining <= 1 {
        t
    } else {
        let drawn = lcg_step(state);
        let last = remaining - 1;
        shuffled(swapped(t, last, drawn as int % remaining as int), drawn, last as nat)
    }
}

/// The table that belongs to `seed`.
pub open spec fn table_of(seed: u32) -> Seq<u8> {
    shuffled(identity_table(), seed, 256)
}

/// Exchanging two entries of a permutation leaves a permutation.
pub proof fn lemma_swap_keeps_permutation(t: Seq<u8>, i: int, j: int)
    requires
        is_permutation(t),
        0 <= i < 256,
        0 <= j < 256,
    ensures
        is_permutation(swapped(t, i, j)),
{
    let s = swapped(t, i, j);
    assert forall|v: u8| #[trigger] s.contains(v) by {
        assert(t.contains(v));
        let k = choose|k: int| 0 <= k < 256 && t[k] == v;
        let moved = if k == i { j } else if k == j { i } else { k };
        assert(s[moved] == v);
    }
}

/// Shuffling a permutation leaves a permutation, whatever the generator draws.
pub proof fn lemma_shuffle_keeps_permutation(t: Seq<u8>, state: u32, remaining: nat)
    requires
        is_permutation(t),
        remaining <= 256,
    ensures
        is_permutation(shuffled(t, state, remaining)),
    decreases remaining,
{
    if remaining > 1 {
        let drawn = lcg_step(state);
        let last = remaining - 1;
        let j = drawn as int % remaining as int;
        lemma_swap_keeps_permutation(t, last, j);
        lemma_shuffle_keeps_permutation(swapped(t, last, j), drawn, last as nat);
    }
}

/// For every seed the table is a permutation of `0..=255`.
pub proof fn lemma_table_is_permutation(seed: u32)
    ensures
        is_permutation(table_of(seed)),
{
    assert(is_permutation(identity_table())) by {
        let t = identity_table();
        assert forall|v: u8| #[trigger] t.contains(v) by {
            assert(t[v as int] == v);
        }
    }
    lemma_shuffle_keeps_permutation(identity_table(), seed, 256);
}

/// The table position that a lattice coordinate falls on: the coordinate modulo 256,
/// which for a negative coordinate too lies in `0..=255`.
pub open spec fn wrapped(c: int) -> int {
    c % 256
}

/// The hash of a lattice point of the plane: two chained lookups.
pub open spec fn hash_2d_of(t: Seq<u8>, x: int, y: int) -> u8 {
    t[wrapped(t[wrapped(x)] + y)]
}

/// The hash of a lattice point of space: three chained lookups.
pub open spec fn hash_3d_of(t: Seq<u8>, x: int, y: int, z: int) -> u8 {
    t[wrapped(hash_2d_of(t, x, y) + z)]
}

/// The lattice repeats every 256 steps along each axis: points whose
/// coordinates agree modulo 256 have the same hash.
pub proof fn lemma_hash_2d_repeats(t: Seq<u8>, x: int, y: int, x2: int, y2: int)
    requires
        wrapped(x) == wrapped(x2),
        wrapped(y) == wrapped(y2),
    ensures
        hash_2d_of(t, x, y) == hash_2d_of(t, x2, y2),
{
    let first = t[wrapped(x)] as int;
    vstd::arithmetic::div_mod::lemma_add_mod_noop_right(first, y, 256);
    vstd::arithmetic::div_mod::lemma_add_mod_noop_right(first, y2, 256);
}

/// In space as in the plane: points whose coordinates agree modulo 256 have the same hash.
pub proof fn lemma_hash_3d_repeats(t: Seq<u8>, x: int, y: int, z: int, x2: int, y2: int, z2: int)
    requires
        wrapped(x) == wrapped(x2),
        wrapped(y) == wrapped(y2),
        wrapped(z) == wrapped(z2),
    ensures
        hash_3d_of(t, x, y, z) == hash_3d_of(t, x2, y2, z2),
{
    lemma_hash_2d_repeats(t, x, y, x2, y2);
    let second = hash_2d_of(t, x, y) as int;
    vstd::arithmetic::div_mod::lemma_add_mod_noop_right(second, z, 256);
    vstd::arithmetic::div_mod::lemma_add_mod_noop_right(second, z2, 256);
}

/// Keeping the low eight bits of a coordinate is reducing it modulo 256.
proof fn lemma_mask_wraps(c: i64)
    ensures
        (c & 0xff) == wrapped(c as int),
        0 <= (c & 0xff) < 256,
{
    assert((c & 0xff) == c % 256 && 0 <= (c & 0xff) < 256) by (bit_vector);
}

/// Keeping the low eight bits of a sum of two table positions is reducing it modulo 256.
proof fn lemma_mask_sum_wraps(s: usize)
    requires
        s < 512,
    ensures
        (s & 0xff) == wrapped(s as int),
        (s & 0xff) < 256,
{
    assert((s & 0xff) == s % 256 && (s & 0xff) < 256) by (bit_vector);
}

/// A permutation of `0..=255`, fixed at construction.
pub struct PermutationTable {
    perm: [u8; 256],
}

impl View for PermutationTable {
    type V = Seq<u8>;

    closed spec fn view(&self) -> Seq<u8> {
        self.perm@
    }
}

impl PermutationTable {
    #[verifier::type_invariant]
    spec fn holds_each_value_once(&self) -> bool {
        is_permutation(self.perm@)
    }

    /// Builds the table of `seed`: the identity, shuffled by a generator seeded with `seed`.
    pub fn build(seed: u32) -> (table: PermutationTable)
        ensures
            table@ == table_of(seed),
            is_permutation(table@),
    {
        let mut perm: [u8; 256] = [0u8; 256];
        let mut i: usize = 0;
        while i < 256
            invariant
                i <= 256,
                forall|k: int| 0 <= k < i ==> perm@[k] == k,
            decreases 256 - i,
        {
            perm[i] = i as u8;
            i += 1;
        }
        assert(perm@ =~= identity_table());
        let mut rng = LCG::from_seed(seed);
        let mut remaining: usize = 256;
        while remaining > 1
            invariant
                remaining <= 256,
                shuffled(perm@, rng.state(), remaining as nat) == table_of(seed),
            decreases remaining,
        {
            let drawn: u32 = rng.next_u32();
            let last: usize = remaining - 1;
            let j: usize = (drawn % (remaining as u32)) as usize;
            let moved: u8 = perm[last];
            perm[last] = perm[j];
            perm[j] = moved;
            remaining = last;
        }
        proof {
            lemma_table_is_permutation(seed);
        }
        PermutationTable { perm }
    }

    /// The entry at position `i`.
    pub fn get(&self, i: u8) -> (entry: u8)
        ensures
            entry == self@[i as int],
    {
        self.perm[i as usize]
    }

    /// The hash of the lattice point `(x, y)`.
    ///
    /// Only the coordinates modulo 256 count, so the hash repeats with period 256
    /// along each axis, and no coordinate can index outside the table.
    pub fn hash_2d(&self, x: i64, y: i64) -> (hash: u8)
        ensures
            hash == hash_2d_of(self@, x as int, y as int),
    {
        proof {
            lemma_mask_wraps(x);
            lemma_mask_wraps(y);
        }
        let xi: usize = (x & 0xff) as usize;
        let yi: usize = (y & 0xff) as usize;
        let sum: usize = self.perm[xi] as usize + yi;
        proof {
            lemma_mask_sum_wraps(sum);
            vstd::arithmetic::div_mod::lemma_add_mod_noop_right(
                self.perm@[xi as int] as int,
                y as int,
                256,
            );
        }
        self.perm[sum & 0xff]
    }

    /// The hash of the lattice point `(x, y, z)`.
    pub fn hash_3d(&self, x: i64, y: i64, z: i64) -> (hash: u8)
        ensures
            hash == hash_3d_of(self@, x as int, y as int, z as int),
    {
        proof {
            lemma_mask_wraps(z);
        }
        let zi: usize = (z & 0xff) as usize;
        let sum: usize = self.hash_2d(x, y) as usize + zi;
        proof {
            lemma_mask_sum_wraps(sum);
            vstd::arithmetic::div_mod::lemma_add_mod_noop_right(
                hash_2d_of(self@, x as int, y as int) as int,
                z as int,
                256,
            );
        }
        self.perm[sum & 0xff]
    }
}

} // verus!
