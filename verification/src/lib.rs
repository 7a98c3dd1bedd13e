//! The integer kernel of a coherent-noise engine: the seeded generator, the
//! permutation table it shuffles, and the lattice decisions of simplex noise
//! (which vertices contribute to a sample and which gradient each one gets).
//!
//! Everything here is exact integer arithmetic with a proved contract. The
//! sampling itself, which blends these decisions with real-valued distances,
//! is built on top of this crate.

pub mod fractal;
pub mod lattice;
pub mod lcgrng;
pub mod period;
pub mod perm;
pub mod simplex;
