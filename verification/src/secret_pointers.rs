//! A secret's side of handing out pointers: recording which instance each new pointer of
//! its player stands for.

use vstd::prelude::*;

use crate::player_secret::secret_hand_ids;
use crate::{InstanceID, PlayerSecret, State, Zone};

verus! {

impl<S: State> PlayerSecret<S> {
    /// The ID at position `index` of the secret zone `zone`, if there is one: the deck, the
    /// secret hand (where the entry holds an ID), the secret dust, the secret limbo and the
    /// card selection.
    pub open spec fn zone_entry(self, zone: Zone, index: usize) -> Option<InstanceID> {
        match zone {
            Zone::Deck => if index < self.deck@.len() {
                Some(self.deck@[index as int])
            } else {
                None
            },
            Zone::Hand { public: false } => if index < self.hand@.len() {
                self.hand@[index as int]
            } else {
                None
            },
            Zone::Dust { public: false } => if index < self.dust@.len() {
                Some(self.dust@[index as int])
            } else {
                None
            },
            Zone::Limbo { public: false } => if index < self.limbo@.len() {
                Some(self.limbo@[index as int])
            } else {
                None
            },
            Zone::CardSelection => if index < self.card_selection@.len() {
                Some(self.card_selection@[index as int])
            } else {
                None
            },
            _ => None,
        }
    }

    /// The IDs of the secret zone `zone`, in order (for the hand, the entries that hold an
    /// ID); empty for a zone that is not secret.
    pub open spec fn zone_ids(self, zone: Zone) -> Seq<InstanceID> {
        match zone {
            Zone::Deck => self.deck@,
            Zone::Hand { public: false } => secret_hand_ids(self.hand@),
            Zone::Dust { public: false } => self.dust@,
            Zone::Limbo { public: false } => self.limbo@,
            Zone::CardSelection => self.card_selection@,
            _ => Seq::empty(),
        }
    }

    /// Records a new pointer to the card at position `index` of the secret zone `zone`; fails,
    /// changing nothing, where there is no such card.
    pub fn point_to(&mut self, zone: Zone, index: usize) -> (ok: bool)
        ensures
            ok == old(self).zone_entry(zone, index) is Some,
            ok ==> final(self).pointers@ == old(self).pointers@.push(old(self).zone_entry(zone, index).unwrap()),
            *final(self) == (PlayerSecret { pointers: final(self).pointers, ..*old(self) }),
            !ok ==> *final(self) == *old(self),
    {
        let entry = match zone {
            Zone::Deck => if index < self.deck.len() {
                Some(self.deck[index])
            } else {
                None
            },
            Zone::Hand { public: false } => if index < self.hand.len() {
                self.hand[index]
            } else {
                None
            },
            Zone::Dust { public: false } => if index < self.dust.len() {
                Some(self.dust[index])
            } else {
                None
            },
            Zone::Limbo { public: false } => if index < self.limbo.len() {
                Some(self.limbo[index])
            } else {
                None
            },
            Zone::CardSelection => if index < self.card_selection.len() {
                Some(self.card_selection[index])
            } else {
                None
            },
            _ => None,
        };
        match entry {
            Some(id) => {
                self.pointers.push(id);
                true
            },
            None => false,
        }
    }

    /// Records a new pointer to `id`.
    pub fn new_pointer(&mut self, id: InstanceID)
        ensures
            final(self).pointers@ == old(self).pointers@.push(id),
            *final(self) == (PlayerSecret { pointers: final(self).pointers, ..*old(self) }),
    {
        self.pointers.push(id);
    }

    /// Records a new pointer to each card of `ids`, in order.
    pub fn new_pointers(&mut self, ids: &Vec<InstanceID>)
        ensures
            final(self).pointers@ == old(self).pointers@ + ids@,
            *final(self) == (PlayerSecret { pointers: final(self).pointers, ..*old(self) }),
    {
        let mut i: usize = 0;
        while i < ids.len()
            invariant
                0 <= i <= ids@.len(),
                self.pointers@ == old(self).pointers@ + ids@.subrange(0, i as int),
                *self == (PlayerSecret { pointers: self.pointers, ..*old(self) }),
            decreases ids.len() - i,
        {
            self.pointers.push(ids[i]);
            proof {
                assert(ids@.subrange(0, i as int + 1) == ids@.subrange(0, i as int).push(ids@[i as int]));
            }
            i = i + 1;
        }
        proof {
            assert(ids@.subrange(0, ids@.len() as int) == ids@);
        }
    }
}

} // verus!
