use vstd::prelude::*;

use bevy_prng::WyRand;
use rand::seq::SliceRandom;
use rand::RngCore;

use crate::card::SubCard;

verus! {

/// The random number generator the table shares.
#[verifier::external_type_specification]
#[verifier::external_body]
pub struct ExWyRand(WyRand);

/// Shuffles the cards with `rand`'s `SliceRandom::shuffle` driven by `rng`.
/// Claimed: the same cards come back, each as often as before, in some order
/// (the shuffle only swaps elements); which order is not claimed.
#[verifier::external_body]
pub(crate) fn shuffle_cards(cards: &mut Vec<SubCard>, rng: &mut WyRand)
    ensures
        final(cards)@.to_multiset() == old(cards)@.to_multiset(),
{
    cards.shuffle(rng)
}

/// The next 64 bits of `rng` (`RngCore::next_u64`); nothing is claimed of
/// their value.
#[verifier::external_body]
pub(crate) fn next_u64(rng: &mut WyRand) -> u64 {
    rng.next_u64()
}

} // verus!
