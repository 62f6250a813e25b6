//! Trusted boundary to the `rand` crate.  Each wrapper states only what
//! holds of every possible outcome of the randomized call.

use vstd::prelude::*;

use rand::seq::SliceRandom;
use rand::Rng;

use crate::game::Role;

verus! {

/// Relies on rand's `SliceRandom::shuffle` (Fisher-Yates, in-place swaps
/// only): afterwards the vector is a permutation of what it was; nothing is
/// promised about the order.
#[verifier::external_body]
pub(crate) fn shuffle_roles(roles: &mut Vec<Role>)
    ensures
        final(roles)@.to_multiset() == old(roles)@.to_multiset(),
{
    roles.shuffle(&mut rand::thread_rng());
}

/// Relies on rand's `Rng::gen_range` over `lo..hi`: the sample lies in the
/// (nonempty, or the call panics) half-open range.
#[verifier::external_body]
pub(crate) fn gen_range_i32(lo: i32, hi: i32) -> (r: i32)
    requires
        lo < hi,
    ensures
        lo <= r < hi,
{
    rand::thread_rng().gen_range(lo..hi)
}

} // verus!
