use vstd::prelude::*;

use crate::{CardEvent, CardInstance, Player, State, Zone};

verus! {

/// What game code may read about a card: the instance, its owner, its zone, and its
/// attachment.
pub struct CardInfo<'a, S: State> {
    pub instance: &'a CardInstance<S>,
    pub owner: Player,
    pub zone: Zone,
    pub attachment: Option<&'a CardInstance<S>>,
}

/// What game code may change about a card: the instance itself, with its owner, zone and
/// attachment for reference, and the log that observers of this card are told through.
pub struct CardInfoMut<'a, S: State> {
    pub instance: &'a mut CardInstance<S>,
    pub owner: Player,
    pub zone: Zone,
    pub attachment: Option<&'a CardInstance<S>>,
    pub log: &'a mut Vec<CardEvent<S>>,
}

} // verus!
