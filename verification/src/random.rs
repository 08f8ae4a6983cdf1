use vstd::prelude::*;

use crate::{Card, InstanceID};
use rand::seq::{IteratorRandom, SliceRandom};



verus! {

#[verifier::external_type_specification]
#[verifier::external_body]
pub struct ExStdRng(rand::rngs::StdRng);

/// Calls `rand::seq::SliceRandom::shuffle` on `ids`. The shuffle swaps elements in place, so
/// the result is a permutation of `ids`; which one depends on `rng`.
#[verifier::external_body]
pub(crate) fn shuffle_ids(ids: &mut Vec<InstanceID>, rng: &mut rand::rngs::StdRng)
    ensures
        final(ids)@.len() == old(ids)@.len(),
        final(ids)@.to_multiset() == old(ids)@.to_multiset(),
{
    ids.shuffle(rng);
}

/// Calls `rand::seq::IteratorRandom::choose_multiple` on the items of `cards`. It returns
/// `count` of them (all of them when there are fewer), each taken from a different position
/// of `cards`; which ones, and in what order, depends on `rng`.
#[verifier::external_body]
pub(crate) fn choose_cards(cards: Vec<Card>, rng: &mut rand::rngs::StdRng, count: usize) -> (r: Vec<Card>)
    ensures
        r@.len() == if count < cards@.len() {
            count as int
        } else {
            cards@.len() as int
        },
        r@.to_multiset().subset_of(cards@.to_multiset()),
{
    cards.into_iter().choose_multiple(rng, count)
}

} // verus!
