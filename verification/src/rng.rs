//! Trusted boundary to the `rand` crate: every random draw the search
//! makes goes through [`rand_below`].

use vstd::prelude::*;
use rand::Rng;

verus! {

/// Relies on `rand::Rng::gen_range` on the thread-local generator from
/// `rand::thread_rng`: for a non-empty range `0..n` it returns a uniformly
/// distributed value of the range. Nothing more than the bound can be
/// promised of a random draw.
#[verifier::external_body]
pub(crate) fn rand_below(n: usize) -> (r: usize)
    requires
        n >= 1,
    ensures
        r < n,
{
    rand::thread_rng().gen_range(0..n)
}

} // verus!
