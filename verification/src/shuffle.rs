//! The random shuffle of a deck, done by the `rand` crate.

use rand::seq::SliceRandom;
use rand::rngs::ThreadRng;
use vstd::prelude::*;

use crate::cards::Card;

verus! {

/// `rand::rngs::ThreadRng`, the thread-local generator; opaque here.
#[verifier::external_type_specification]
#[verifier::external_body]
pub struct ExThreadRng(ThreadRng);

/// Calls `rand::thread_rng`, which hands out a handle to the thread's
/// generator. Nothing is claimed of the generator's state.
#[verifier::external_body]
pub(crate) fn thread_rng() -> ThreadRng {
    rand::thread_rng()
}

/// Calls `rand::seq::SliceRandom::shuffle` on the cards. Its source
/// (a Fisher-Yates shuffle made only of swaps within the slice) keeps the
/// same cards, each as often as before, so the contract claims the result is
/// a permutation of the input. Which permutation comes out depends on the
/// generator and is not stated.
#[verifier::external_body]
pub(crate) fn shuffle_cards(cards: &mut Vec<Card>, rng: &mut ThreadRng)
    ensures
        final(cards)@.to_multiset() == old(cards)@.to_multiset(),
        final(cards)@.len() == old(cards)@.len(),
{
    cards.shuffle(rng);
}

} // verus!
