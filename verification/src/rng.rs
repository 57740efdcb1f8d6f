//! Trusted boundary to the process-wide random number generator.
//!
//! Nothing useful can be promised about which value comes back, so each
//! contract states only what holds of every outcome. Both calls reach the
//! generator through rand::rng(), whose thread-local setup aborts only if
//! the operating system's entropy source fails — an environmental failure
//! on no particular input, akin to allocation failure.

use vstd::prelude::*;

use crate::orders::PendingOrder;

verus! {

/// Relies on rand::Rng::random_range over `0..n` (on the generator that
/// rand::rng() hands out): the result lies in the range; the call panics
/// only on an empty range, which the precondition rules out.
#[verifier::external_body]
pub(crate) fn random_below(n: usize) -> (r: usize)
    requires
        n > 0,
    ensures
        r < n,
{
    rand::Rng::random_range(&mut rand::rng(), 0..n)
}

/// Relies on rand::seq::SliceRandom::shuffle (on the generator that
/// rand::rng() hands out): the slice is permuted in place, so its length
/// and the multiset of its elements are unchanged.
#[verifier::external_body]
pub(crate) fn shuffle_pending_orders(orders: &mut Vec<PendingOrder>)
    ensures
        final(orders)@.to_multiset() == old(orders)@.to_multiset(),
        final(orders)@.len() == old(orders)@.len(),
{
    rand::seq::SliceRandom::shuffle(orders.as_mut_slice(), &mut rand::rng());
}

} // verus!
