//! The random draws of the search, from a seedable generator owned by the
//! caller.

use vstd::prelude::*;
use rand::rngs::StdRng;
use rand::Rng;

verus! {

/// rand's `StdRng`, the seedable generator that the search draws from; it is
/// only carried through, never looked into.
#[verifier::external_type_specification]
#[verifier::external_body]
pub struct ExStdRng(StdRng);

/// Relies on rand's `Rng::gen_range` over `lo..hi`: it returns a value of
/// that range, and panics on an empty one.
#[verifier::external_body]
pub(crate) fn draw_index(rng: &mut StdRng, lo: usize, hi: usize) -> (r: usize)
    requires
        lo < hi,
    ensures
        lo <= r < hi,
{
    rng.gen_range(lo..hi)
}

} // verus!
