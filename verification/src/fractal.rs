//! What the fractal combinators share that is not a matter of real numbers.

use vstd::prelude::*;

verus! {

/// The number of passes a combinator makes over the kernel, for a requested
/// count of `octaves`: the count itself where it is at least one. A combinator
/// cannot be built on fewer, since nothing would be left to normalise by.
pub fn octave_count(octaves: isize) -> (count: Option<usize>)
    ensures
        octaves >= 1 ==> count == Some(octaves as usize),
        octaves < 1 ==> count is None,
{
    if octaves >= 1 {
        Some(octaves as usize)
    } else {
        None
    }
}

} // verus!
