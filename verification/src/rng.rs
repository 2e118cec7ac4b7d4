//! The one randomness source of the simulation.
//!
//! The gameplay rules draw random values in three places: the delay until
//! the next enemy spawn, the angle at which an enemy is placed around the
//! player, and the choice between an experience and a healing pickup on an
//! enemy death. All three sample a uniform integer range, so one wrapper
//! serves them all. Nothing is assumed of the outcome beyond its bounds:
//! every caller is verified for every value the range admits.

use rand::Rng;
use vstd::prelude::*;

verus! {

/// Relies on `rand::Rng::gen_range` over the thread-local generator: a
/// half-open integer range yields a value inside it, and panics only on an
/// empty range, which the precondition rules out.
#[verifier::external_body]
pub(crate) fn gen_range_u64(lo: u64, hi: u64) -> (r: u64)
    requires
        lo < hi,
    ensures
        lo <= r < hi,
{
    rand::thread_rng().gen_range(lo..hi)
}

} // verus!
