use vstd::prelude::*;

use crate::seq_util::{first_index, lemma_first_index_none, lemma_first_index_unique, opt_index};
use crate::{InstanceID, Zone};

verus! {

/// A player's cards as everyone sees them: the sizes of the secret deck and card selection,
/// the hand (`None` where the card is secret), the public zones, and the number of opaque
/// pointers handed out for this player.
#[derive(Clone, Debug)]
pub struct PlayerCards {
    pub deck: usize,
    pub hand: Vec<Option<InstanceID>>,
    pub field: Vec<InstanceID>,
    pub graveyard: Vec<InstanceID>,
    pub dust: Vec<InstanceID>,
    pub limbo: Vec<InstanceID>,
    pub casting: Vec<InstanceID>,
    pub card_selection: usize,
    pub pointers: usize,
}

/// The first position of `id` in `v`.
pub fn position_of_id(v: &Vec<InstanceID>, id: InstanceID) -> (r: Option<usize>)
    ensures
        opt_index(r) == first_index(v@, id),
{
    let mut i: usize = 0;
    while i < v.len()
        invariant
            0 <= i <= v.len(),
            forall|j: int| 0 <= j < i ==> v@[j] != id,
        decreases v.len() - i,
    {
        if v[i] == id {
            proof {
                lemma_first_index_unique(v@, id, i as int);
            }
            return Some(i);
        }
        i = i + 1;
    }
    proof {
        lemma_first_index_none(v@, id);
    }
    None
}

/// The first position of `Some(id)` in `v`.
pub fn position_of_some_id(v: &Vec<Option<InstanceID>>, id: InstanceID) -> (r: Option<usize>)
    ensures
        opt_index(r) == first_index(v@, Some(id)),
{
    let mut i: usize = 0;
    while i < v.len()
        invariant
            0 <= i <= v.len(),
            forall|j: int| 0 <= j < i ==> v@[j] != Some(id),
        decreases v.len() - i,
    {
        match v[i] {
            Some(x) => {
                if x == id {
                    proof {
                        lemma_first_index_unique(v@, Some(id), i as int);
                    }
                    return Some(i);
                }
            },
            None => {},
        }
        i = i + 1;
    }
    proof {
        lemma_first_index_none(v@, Some(id));
    }
    None
}

/// Pairs a zone with the position found in it.
pub open spec fn at_zone(zone: Zone, i: Option<int>) -> Option<(Zone, usize)> {
    match i {
        Some(i) => Some((zone, i as usize)),
        None => None,
    }
}

/// Whether removing from `zone` at `index` is defined for these cards.
pub open spec fn can_remove_from(cards: PlayerCards, zone: Zone, index: usize) -> bool {
    match zone {
        Zone::Deck => cards.deck > 0,
        Zone::Hand { .. } => index < cards.hand.len(),
        Zone::Field => index < cards.field.len(),
        Zone::Graveyard => index < cards.graveyard.len(),
        Zone::Dust { public: true } => index < cards.dust.len(),
        Zone::Attachment { .. } => false,
        Zone::Limbo { public: true } => index < cards.limbo.len(),
        Zone::Casting => index < cards.casting.len(),
        Zone::CardSelection => cards.card_selection > 0,
        _ => true,
    }
}

impl PlayerCards {
    /// The location of `id` in this player's public non-attachment zones: the first of the
    /// hand, field, graveyard, dust, limbo and casting zones that holds it, and its first
    /// position there.
    pub open spec fn spec_location(self, id: InstanceID) -> Option<(Zone, usize)> {
        if self.hand@.contains(Some(id)) {
            at_zone(Zone::Hand { public: true }, first_index(self.hand@, Some(id)))
        } else if self.field@.contains(id) {
            at_zone(Zone::Field, first_index(self.field@, id))
        } else if self.graveyard@.contains(id) {
            at_zone(Zone::Graveyard, first_index(self.graveyard@, id))
        } else if self.dust@.contains(id) {
            at_zone(Zone::Dust { public: true }, first_index(self.dust@, id))
        } else if self.limbo@.contains(id) {
            at_zone(Zone::Limbo { public: true }, first_index(self.limbo@, id))
        } else if self.casting@.contains(id) {
            at_zone(Zone::Casting, first_index(self.casting@, id))
        } else {
            None
        }
    }

    pub fn deck(&self) -> (r: usize)
        ensures
            r == self.deck,
    {
        self.deck
    }

    pub fn hand(&self) -> (r: &Vec<Option<InstanceID>>)
        ensures
            r == &self.hand,
    {
        &self.hand
    }

    pub fn field(&self) -> (r: &Vec<InstanceID>)
        ensures
            r == &self.field,
    {
        &self.field
    }

    pub fn graveyard(&self) -> (r: &Vec<InstanceID>)
        ensures
            r == &self.graveyard,
    {
        &self.graveyard
    }

    pub fn dust(&self) -> (r: &Vec<InstanceID>)
        ensures
            r == &self.dust,
    {
        &self.dust
    }

    pub fn limbo(&self) -> (r: &Vec<InstanceID>)
        ensures
            r == &self.limbo,
    {
        &self.limbo
    }

    pub fn casting(&self) -> (r: &Vec<InstanceID>)
        ensures
            r == &self.casting,
    {
        &self.casting
    }

    pub fn card_selection(&self) -> (r: usize)
        ensures
            r == self.card_selection,
    {
        self.card_selection
    }

    /// The number of opaque pointers handed out for this player.
    pub fn pointers(&self) -> (r: usize)
        ensures
            r == self.pointers,
    {
        self.pointers
    }

    pub fn zone(&self, id: InstanceID) -> (r: Option<Zone>)
        ensures
            r == (match self.spec_location(id) {
                Some((zone, _)) => Some(zone),
                None => None,
            }),
    {
        match self.location(id) {
            Some((zone, _)) => Some(zone),
            None => None,
        }
    }

    /// The location of the ID if it exists in one of the player's public non-attachment zones
    pub fn location(&self, id: InstanceID) -> (r: Option<(Zone, usize)>)
        ensures
            r == self.spec_location(id),
    {
        if let Some(i) = position_of_some_id(&self.hand, id) {
            return Some((Zone::Hand { public: true }, i));
        }
        if let Some(i) = position_of_id(&self.field, id) {
            return Some((Zone::Field, i));
        }
        if let Some(i) = position_of_id(&self.graveyard, id) {
            return Some((Zone::Graveyard, i));
        }
        if let Some(i) = position_of_id(&self.dust, id) {
            return Some((Zone::Dust { public: true }, i));
        }
        if let Some(i) = position_of_id(&self.limbo, id) {
            return Some((Zone::Limbo { public: true }, i));
        }
        if let Some(i) = position_of_id(&self.casting, id) {
            return Some((Zone::Casting, i));
        }
        None
    }

    /// Whether removing from `zone` at `index` is defined for these cards.
    pub fn can_remove(&self, zone: Zone, index: usize) -> (r: bool)
        ensures
            r == can_remove_from(*self, zone, index),
    {
        match zone {
            Zone::Deck => self.deck > 0,
            Zone::Hand { .. } => index < self.hand.len(),
            Zone::Field => index < self.field.len(),
            Zone::Graveyard => index < self.graveyard.len(),
            Zone::Dust { public: true } => index < self.dust.len(),
            Zone::Attachment { .. } => false,
            Zone::Limbo { public: true } => index < self.limbo.len(),
            Zone::Casting => index < self.casting.len(),
            Zone::CardSelection => self.card_selection > 0,
            _ => true,
        }
    }

    /// Removes the card at `index` of `zone` from the public record of this player's zones;
    /// secret zones other than the deck and card selection are not recorded here.
    pub(crate) fn remove_from(&mut self, zone: Zone, index: usize)
        requires
            can_remove_from(*old(self), zone, index),
        ensures
            match zone {
                Zone::Deck => *final(self) == PlayerCards { deck: (old(self).deck - 1) as usize, ..*old(self) },
                Zone::Hand { .. } => final(self).hand@ == old(self).hand@.remove(index as int)
                    && *final(self) == PlayerCards { hand: final(self).hand, ..*old(self) },
                Zone::Field => final(self).field@ == old(self).field@.remove(index as int)
                    && *final(self) == PlayerCards { field: final(self).field, ..*old(self) },
                Zone::Graveyard => final(self).graveyard@ == old(self).graveyard@.remove(index as int)
                    && *final(self) == PlayerCards { graveyard: final(self).graveyard, ..*old(self) },
                Zone::Dust { public: true } => final(self).dust@ == old(self).dust@.remove(index as int)
                    && *final(self) == PlayerCards { dust: final(self).dust, ..*old(self) },
                Zone::Limbo { public: true } => final(self).limbo@ == old(self).limbo@.remove(index as int)
                    && *final(self) == PlayerCards { limbo: final(self).limbo, ..*old(self) },
                Zone::Casting => final(self).casting@ == old(self).casting@.remove(index as int)
                    && *final(self) == PlayerCards { casting: final(self).casting, ..*old(self) },
                Zone::CardSelection => *final(self) == PlayerCards {
                    card_selection: (old(self).card_selection - 1) as usize,
                    ..*old(self)
                },
                _ => *final(self) == *old(self),
            },
    {
        match zone {
            Zone::Deck => self.deck = self.deck - 1,
            Zone::Hand { .. } => {
                self.hand.remove(index);
            },
            Zone::Field => {
                self.field.remove(index);
            },
            Zone::Graveyard => {
                self.graveyard.remove(index);
            },
            Zone::Dust { public: true } => {
                self.dust.remove(index);
            },
            Zone::Limbo { public: true } => {
                self.limbo.remove(index);
            },
            Zone::Casting => {
                self.casting.remove(index);
            },
            Zone::CardSelection => self.card_selection = self.card_selection - 1,
            _ => (),
        }
    }
}

impl Default for PlayerCards {
    fn default() -> (r: Self)
        ensures
            r.deck == 0,
            r.hand@.len() == 0,
            r.field@.len() == 0,
            r.graveyard@.len() == 0,
            r.dust@.len() == 0,
            r.limbo@.len() == 0,
            r.casting@.len() == 0,
            r.card_selection == 0,
            r.pointers == 0,
    {
        PlayerCards {
            deck: 0,
            hand: Vec::new(),
            field: Vec::new(),
            graveyard: Vec::new(),
            dust: Vec::new(),
            limbo: Vec::new(),
            casting: Vec::new(),
            card_selection: 0,
            pointers: 0,
        }
    }
}

} // verus!
