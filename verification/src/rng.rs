//! The library's single source of randomness. Every random decision of the
//! core (weapon draws, rarity rolls, hit and crit rolls) goes through the one
//! wrapper below; the logic that consumes a draw is verified for every value
//! the wrapper may hand back.

use vstd::prelude::*;

use rand::Rng;

verus! {

/// Relies on rand's `Rng::random_range` on the range `0..bound`: it returns a
/// uniformly distributed integer of that half-open range and panics only when
/// the range is empty, which the precondition rules out. Nothing more is
/// promised of the draw; callers must hold for every value below `bound`.
#[verifier::external_body]
pub(crate) fn sample_below(bound: u32) -> (r: u32)
    requires
        1 <= bound,
    ensures
        r < bound,
{
    rand::rng().random_range(0..bound)
}

} // verus!
