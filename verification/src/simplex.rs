//! The seeded state of the simplex kernel and the gradients it hands out.
//!
//! A generator is its seed: the permutation table is built from the seed and
//! kept beside it, so every gradient is a function of the seed and of the
//! lattice point alone.

use vstd::prelude::*;
use crate::perm::{
    hash_2d_of, hash_3d_of, lemma_hash_2d_repeats, lemma_hash_3d_repeats, table_of, wrapped,
    PermutationTable,
};

verus! {

/// The gradients of the plane, as consecutive `(x, y)` pairs.
const GRAD_2D: [i8; 16] = [5, 2, 2, 5, -5, 2, -2, 5, 5, -2, 2, -5, -5, -2, -2, -5];

/// The gradients of space, as consecutive `(x, y, z)` triples.
const GRAD_3D: [i8; 36] = [
    1, 1, 0, -1, 1, 0, 1, -1, 0, -1, -1, 0,
    1, 0, 1, -1, 0, 1, 1, 0, -1, -1, 0, -1,
    0, 1, 1, 0, -1, 1, 0, 1, -1, 0, -1, -1,
];

/// The eight gradients of the plane: 5 along one axis and 2 along the other, with either sign.
pub open spec fn gradients_2d() -> Seq<(int, int)> {
    seq![(5, 2), (2, 5), (-5, 2), (-2, 5), (5, -2), (2, -5), (-5, -2), (-2, -5)]
}

/// The twelve gradients of space: from the centre of a cube to the midpoints of its edges.
pub open spec fn gradients_3d() -> Seq<(int, int, int)> {
    seq![
        (1, 1, 0), (-1, 1, 0), (1, -1, 0), (-1, -1, 0),
        (1, 0, 1), (-1, 0, 1), (1, 0, -1), (-1, 0, -1),
        (0, 1, 1), (0, -1, 1), (0, 1, -1), (0, -1, -1),
    ]
}

/// The gradient at the lattice point `(x, y)` under table `t`: bits 1 to 3 of
/// the point's hash choose among the eight.
pub open spec fn gradient_2d_of(t: Seq<u8>, x: int, y: int) -> (int, int) {
    gradients_2d()[(hash_2d_of(t, x, y) as int / 2) % 8]
}

/// The gradient at the lattice point `(x, y, z)` under table `t`: the point's
/// hash modulo 12 chooses among the twelve.
pub open spec fn gradient_3d_of(t: Seq<u8>, x: int, y: int, z: int) -> (int, int, int) {
    gradients_3d()[hash_3d_of(t, x, y, z) as int % 12]
}

/// The squared length of a vector of the plane.
pub open spec fn squared_length_2d(v: (int, int)) -> int {
    v.0 * v.0 + v.1 * v.1
}

/// The squared length of a vector of space.
pub open spec fn squared_length_3d(v: (int, int, int)) -> int {
    v.0 * v.0 + v.1 * v.1 + v.2 * v.2
}

/// No direction is favoured: all gradients of the plane have the same length,
/// the square root of 29, whatever the table and the lattice point.
pub proof fn lemma_gradients_2d_equally_long(t: Seq<u8>, x: int, y: int)
    ensures
        squared_length_2d(gradient_2d_of(t, x, y)) == 29,
{
    assert(squared_length_2d((5, 2)) == 29 && squared_length_2d((2, 5)) == 29
        && squared_length_2d((-5, 2)) == 29 && squared_length_2d((-2, 5)) == 29
        && squared_length_2d((5, -2)) == 29 && squared_length_2d((2, -5)) == 29
        && squared_length_2d((-5, -2)) == 29 && squared_length_2d((-2, -5)) == 29)
        by (nonlinear_arith);
    assert forall|k: int| 0 <= k < 8 implies squared_length_2d(#[trigger] gradients_2d()[k])
        == 29 by {}
}

/// All gradients of space have the same length, the square root of 2,
/// whatever the table and the lattice point.
pub proof fn lemma_gradients_3d_equally_long(t: Seq<u8>, x: int, y: int, z: int)
    ensures
        squared_length_3d(gradient_3d_of(t, x, y, z)) == 2,
{
    assert(squared_length_3d((1, 1, 0)) == 2 && squared_length_3d((-1, 1, 0)) == 2
        && squared_length_3d((1, -1, 0)) == 2 && squared_length_3d((-1, -1, 0)) == 2
        && squared_length_3d((1, 0, 1)) == 2 && squared_length_3d((-1, 0, 1)) == 2
        && squared_length_3d((1, 0, -1)) == 2 && squared_length_3d((-1, 0, -1)) == 2
        && squared_length_3d((0, 1, 1)) == 2 && squared_length_3d((0, -1, 1)) == 2
        && squared_length_3d((0, 1, -1)) == 2 && squared_length_3d((0, -1, -1)) == 2)
        by (nonlinear_arith);
    assert forall|k: int| 0 <= k < 12 implies squared_length_3d(#[trigger] gradients_3d()[k])
        == 2 by {}
}

/// Adding a small offset to a coordinate with wrap-around lands on a
/// coordinate that agrees with the true sum modulo 256.
proof fn lemma_wrapping_offset(c: i64, offset: i8)
    ensures
        wrapped(vstd::wrapping::i64_specs::wrapping_add(c, offset as i64) as int) == wrapped(
            c + offset,
        ),
{
    let sum: int = c + offset;
    if sum > i64::MAX {
        vstd::arithmetic::div_mod::lemma_mod_multiples_vanish(-0x100_0000_0000_0000, sum, 256);
    } else if sum < i64::MIN {
        vstd::arithmetic::div_mod::lemma_mod_multiples_vanish(0x100_0000_0000_0000, sum, 256);
    }
}

/// The seeded state of a simplex noise generator.
pub struct Simplex {
    seed: u32,
    perm: PermutationTable,
}

impl Simplex {
    /// The table is always the one that belongs to the seed.
    #[verifier::type_invariant]
    spec fn table_matches_seed(&self) -> bool {
        self.perm@ == table_of(self.seed)
    }

    /// The seed that determines everything this generator returns.
    pub closed spec fn seed(&self) -> u32 {
        self.seed
    }

    /// The permutation table in use.
    pub closed spec fn table(&self) -> Seq<u8> {
        self.perm@
    }

    /// A generator for `seed`, with the table of `seed`.
    pub fn from_seed(seed: u32) -> (simplex: Simplex)
        ensures
            simplex.seed() == seed,
            simplex.table() == table_of(seed),
    {
        Simplex { seed: seed, perm: PermutationTable::build(seed) }
    }

    /// Re-seeds the generator in place, rebuilding its table.
    pub fn set_seed(&mut self, seed: u32)
        ensures
            final(self).seed() == seed,
            final(self).table() == table_of(seed),
    {
        *self = Simplex::from_seed(seed);
    }

    /// The seed in use.
    pub fn get_seed(&mut self) -> (seed: u32)
        ensures
            seed == old(self).seed(),
            *final(self) == *old(self),
    {
        self.seed
    }

    /// The gradient at the lattice point `(xsb, ysb)`, as `(x, y)`.
    pub fn gradient_2d(&self, xsb: i64, ysb: i64) -> (gradient: (i8, i8))
        ensures
            (gradient.0 as int, gradient.1 as int) == gradient_2d_of(
                table_of(self.seed()),
                xsb as int,
                ysb as int,
            ),
    {
        proof {
            use_type_invariant(self);
        }
        let hash: u8 = self.perm.hash_2d(xsb, ysb);
        let idx: usize = (hash & 0x0e) as usize;
        assert((hash & 0x0e) == 2 * ((hash / 2) % 8) && (hash & 0x0e) <= 14) by (bit_vector);
        (GRAD_2D[idx], GRAD_2D[idx + 1])
    }

    /// The gradient at the vertex that lies `offset` away from the lattice point `(xsb, ysb)`.
    ///
    /// The vertex is found for every `xsb` and `ysb`, at the ends of their range
    /// too: the gradient is that of the true sum, which need not fit in 64 bits.
    pub fn vertex_gradient_2d(&self, xsb: i64, ysb: i64, offset: (i8, i8)) -> (gradient: (i8, i8))
        ensures
            (gradient.0 as int, gradient.1 as int) == gradient_2d_of(
                table_of(self.seed()),
                xsb + offset.0,
                ysb + offset.1,
            ),
    {
        let x: i64 = xsb.wrapping_add(offset.0 as i64);
        let y: i64 = ysb.wrapping_add(offset.1 as i64);
        proof {
            lemma_wrapping_offset(xsb, offset.0);
            lemma_wrapping_offset(ysb, offset.1);
            lemma_hash_2d_repeats(
                table_of(self.seed()),
                x as int,
                y as int,
                xsb + offset.0,
                ysb + offset.1,
            );
        }
        self.gradient_2d(x, y)
    }

    /// The gradient at the lattice point `(xsb, ysb, zsb)`, as `(x, y, z)`.
    pub fn gradient_3d(&self, xsb: i64, ysb: i64, zsb: i64) -> (gradient: (i8, i8, i8))
        ensures
            (gradient.0 as int, gradient.1 as int, gradient.2 as int) == gradient_3d_of(
                table_of(self.seed()),
                xsb as int,
                ysb as int,
                zsb as int,
            ),
    {
        proof {
            use_type_invariant(self);
        }
        let hash: u8 = self.perm.hash_3d(xsb, ysb, zsb);
        let idx: usize = (hash % 12) as usize * 3;
        (GRAD_3D[idx], GRAD_3D[idx + 1], GRAD_3D[idx + 2])
    }

    /// The gradient at the vertex that lies `offset` away from the lattice point
    /// `(xsb, ysb, zsb)`, for every lattice point, as in the plane.
    pub fn vertex_gradient_3d(
        &self,
        xsb: i64,
        ysb: i64,
        zsb: i64,
        offset: (i8, i8, i8),
    ) -> (gradient: (i8, i8, i8))
        ensures
            (gradient.0 as int, gradient.1 as int, gradient.2 as int) == gradient_3d_of(
                table_of(self.seed()),
                xsb + offset.0,
                ysb + offset.1,
                zsb + offset.2,
            ),
    {
        let x: i64 = xsb.wrapping_add(offset.0 as i64);
        let y: i64 = ysb.wrapping_add(offset.1 as i64);
        let z: i64 = zsb.wrapping_add(offset.2 as i64);
        proof {
            lemma_wrapping_offset(xsb, offset.0);
            lemma_wrapping_offset(ysb, offset.1);
            lemma_wrapping_offset(zsb, offset.2);
            lemma_hash_3d_repeats(
                table_of(self.seed()),
                x as int,
                y as int,
                z as int,
                xsb + offset.0,
                ysb + offset.1,
                zsb + offset.2,
            );
        }
        self.gradient_3d(x, y, z)
    }
}

} // verus!
