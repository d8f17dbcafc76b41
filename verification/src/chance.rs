//! What the daemon leaves to chance, drawn with the `rand` crate.

use rand::seq::SliceRandom;
use vstd::prelude::*;

verus! {

/// Draws a number with `rand::random`. Nothing is known of it.
#[verifier::external_body]
pub(crate) fn random_u32() -> u32 {
    rand::random()
}

/// Shuffles with `SliceRandom::shuffle` and the generator of the thread,
/// `rand::rng`. The items are rearranged in place: what is known of the
/// outcome is that it holds the same items, each as often as before.
#[verifier::external_body]
pub(crate) fn shuffle<T>(items: &mut Vec<T>)
    ensures
        final(items)@.to_multiset() == old(items)@.to_multiset(),
{
    items.shuffle(&mut rand::rng());
}

} // verus!
