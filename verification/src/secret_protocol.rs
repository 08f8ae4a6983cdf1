//! What a player's secret answers and how it changes when the public side of a card
//! operation asks or tells it: the secret half of each operation.

use vstd::prelude::*;

use crate::player_secret::{copy_ids, is_move_to, without_id, without_some_id};
use crate::seq_util::{
    first_index, lemma_first_index_none, lemma_first_index_some, lemma_first_index_unique,
    lemma_remove_nodup, remove_all,
};
use crate::card_instance::copy_of;
use crate::game_state::InstanceOrPlayer;
use crate::pile_move::same_but_held_logs;
use crate::{Card, CardEvent, CardInstance, CardLocation, ExactCardLocation, InstanceID, Player, PlayerSecret, State, Zone};

verus! {

/// A question that one player's secret answers.
pub enum SecretQuery {
    /// The ID behind this player's pointer `index`.
    PointerTarget { index: usize },
    /// The entry of `buckets` for the ID behind this player's pointer `index`.
    PointerBucket { index: usize, buckets: Vec<(Option<Player>, Player)> },
    /// The entry of `buckets` for the ID behind this player's pointer `index`.
    PointerPlacement { index: usize, buckets: Vec<Option<Player>> },
    /// The instance of `id`.
    InstanceOf { id: InstanceID },
    /// The secret location of `card`, unless it is in secret limbo or an attachment.
    MoveLocation { card: Card },
    /// The instance of `card`, and its attachment.
    InstanceWithAttachment { card: Card },
    /// The number of pointers this secret has recorded.
    PointerCount,
    /// The number of pointers this secret has recorded, and the next instance ID it would
    /// give a new card.
    NewCardsEnd,
    /// The ID behind this player's pointer `index`, unless an instance of this secret has it
    /// as its attachment.
    UnattachedTarget { index: usize },
    /// This player's pointer `index` when this secret holds the card behind it, else the
    /// card's ID.
    HeldOrTarget { index: usize },
    /// The ID behind this player's pointer `index` when `placements` puts it in another
    /// player's secret.
    ForeignTarget { index: usize, placements: Vec<Option<Player>> },
    /// Whether this player's pointers `a` and `b` stand for the same ID.
    SameTarget { a: usize, b: usize },
    /// Whether `placements` makes the ID behind this player's pointer `index` public.
    TargetPublic { index: usize, placements: Vec<Option<Player>> },
}

/// A secret's answer to a `SecretQuery`.
pub enum SecretAnswer<S: State> {
    Id(InstanceID),
    Bucket(Option<Player>, Player),
    Placement(Option<Player>),
    Location(Option<(Zone, Option<usize>)>),
    Instances(Option<CardInstance<S>>, Option<CardInstance<S>>),
    Count(usize),
    Counts(usize, usize),
    Target(Option<InstanceID>),
    Resolved(Card),
    Flag(bool),
}

/// A change that the public side of an operation makes to one player's secret.
pub enum SecretChange<S: State> {
    /// Keep the location of `card` for a later log when it is one the public will not see.
    DeferLocation { card: Card },
    /// Move `card` between zones of this secret, logging the move.
    MoveWithin { card: Card, to_zone: Zone },
    /// Drop entry `index` of the secret hand.
    RemoveHandAt { index: usize },
    /// Take `card` and its attachment out of this secret.
    Extract { card: Card },
    /// Remove `id` from every zone of this secret.
    RemoveId { id: InstanceID },
    /// Put `id` at the end of a secret zone.
    PushZone { zone: Zone, id: InstanceID },
    /// Put an empty entry into the secret hand at `index`.
    InsertHandNone { index: usize },
    /// Keep `instance` in this secret.
    InsertInstance { instance: CardInstance<S> },
    /// Log a move, filling in a deferred location if the public one is unknown.
    LogMove {
        instance: Option<(CardInstance<S>, Option<CardInstance<S>>)>,
        from: CardLocation,
        to: ExactCardLocation,
    },
    /// Log what was held back.
    DrainDeferredLogs,
    /// Remove `card` from every zone of this secret, holding back the logs.
    RemoveIdDeferred { card: Card },
    /// Forget the instance of `id`.
    RemoveInstance { id: InstanceID },
    /// Attach `card` to `parent` within this secret; `location` is where `card` came from, or
    /// the last deferred location when it is unknown and `same_bucket`.
    AttachWithin { card: Card, parent: Card, location: Option<(Zone, Option<usize>)>, same_bucket: bool },
    /// Shuffle the deck.
    ShuffleDeck,
    /// Record a new pointer to the card at position `index` of the secret zone `zone`.
    PointToZone { zone: Zone, index: usize },
    /// Record a new pointer to each card of the secret zone `zone`, in order (for the hand,
    /// each entry that holds an ID).
    PointToAll { zone: Zone },
    /// Start creating cards, numbering them from `next`.
    StartNewCards { next: InstanceID },
    /// Stop creating cards.
    EndNewCards,
    /// Record a new pointer to the instance that `card` is attached to, if there is one.
    PointToParent { card: Card },
    /// Copy `card` into this secret's limbo (see `PlayerSecret::copy_card`).
    CopyInto { card: Card, public: Vec<InstanceOrPlayer<S>>, deep: bool, copy_first: bool },
    /// Reset the instance of `id`, held here (see `PlayerSecret::reset_held_card`).
    ResetHeld { id: InstanceID },
    /// Reset the instance behind this player's pointer `index` (see
    /// `PlayerSecret::reset_pointed_card`).
    ResetPointed { index: usize },
    /// Record a new pointer to `id`.
    PointTo { id: InstanceID },
}

/// The secret zones a card can be moved to within a secret.
pub open spec fn is_secret_zone(zone: Zone) -> bool {
    ||| zone == Zone::Deck
    ||| zone == Zone::Hand { public: false }
    ||| zone == Zone::Limbo { public: false }
    ||| zone == Zone::CardSelection
    ||| zone == Zone::Dust { public: false }
}

/// `after` is `before` with `id` moved within the secret to the end of the secret zone
/// `to_zone`: out of every zone and off its parent (which the detach hook may change), and
/// at the end of `to_zone`; every other instance, the pointers and the rest of the secret
/// are unchanged.
pub open spec fn moved_within<S: State>(before: PlayerSecret<S>, after: PlayerSecret<S>, id: InstanceID, to_zone: Zone) -> bool {
    let put = |z: Zone, s: Seq<InstanceID>| if to_zone == z {
        s.push(id)
    } else {
        s
    };
    &&& after.wf()
    &&& after.ids() == before.ids()
    &&& after.instances@.len() == before.instances@.len()
    &&& forall|k: int|
        0 <= k < before.instances@.len() ==> if before.instances@[k].attachment == Some(id) {
            (#[trigger] after.instances@[k]).attachment is None && after.instances@[k].id == before.instances@[k].id
        } else {
            after.instances@[k] == before.instances@[k]
        }
    &&& after.pointers == before.pointers
    &&& after.same_frame(before)
    &&& after.deck@ == put(Zone::Deck, remove_all(before.deck@, id))
    &&& after.hand@ == if to_zone == (Zone::Hand { public: false }) {
        remove_all(before.hand@, Some(id)).push(Some(id))
    } else {
        remove_all(before.hand@, Some(id))
    }
    &&& after.limbo@ == put(Zone::Limbo { public: false }, remove_all(before.limbo@, id))
    &&& after.card_selection@ == put(Zone::CardSelection, remove_all(before.card_selection@, id))
    &&& after.dust@ == put(Zone::Dust { public: false }, remove_all(before.dust@, id))
}

/// `after` is `before` with `id` put at the end of its secret zone `zone`, and nothing else
/// changed.
pub open spec fn pushed_zone<S: State>(before: PlayerSecret<S>, after: PlayerSecret<S>, zone: Zone, id: InstanceID) -> bool {
    match zone {
        Zone::Deck => after == (PlayerSecret { deck: after.deck, ..before }) && after.deck@ == before.deck@.push(id),
        Zone::Hand { public: false } => after == (PlayerSecret { hand: after.hand, ..before }) && after.hand@ == before.hand@.push(Some(id)),
        Zone::Limbo { public: false } => after == (PlayerSecret { limbo: after.limbo, ..before }) && after.limbo@ == before.limbo@.push(id),
        Zone::CardSelection => after == (PlayerSecret { card_selection: after.card_selection, ..before })
            && after.card_selection@ == before.card_selection@.push(id),
        Zone::Dust { public: false } => after == (PlayerSecret { dust: after.dust, ..before }) && after.dust@ == before.dust@.push(id),
        _ => false,
    }
}

/// `after` is `before` with its deck in another order: the same cards as often, and nothing
/// else changed.
pub open spec fn shuffled<S: State>(before: PlayerSecret<S>, after: PlayerSecret<S>) -> bool {
    &&& after == (PlayerSecret { deck: after.deck, ..before })
    &&& after.deck@.to_multiset() == before.deck@.to_multiset()
}

/// `card` is an ID, or a pointer of `secret`'s own player that is in range.
pub open spec fn own_card<S: State>(secret: PlayerSecret<S>, card: Card) -> bool {
    match card {
        Card::ID(_) => true,
        Card::Pointer(p) => p.player == secret.player && p.index < secret.pointers@.len(),
    }
}

/// Whether `secret` accepts `change`: what `apply_change` checks before making it.
pub open spec fn accepts<S: State>(secret: PlayerSecret<S>, change: SecretChange<S>) -> bool {
    let fresh_one = secret.next_instance matches Some(n) && n.0 + 1 <= usize::MAX && !secret.has(n);
    let fresh_two = secret.next_instance matches Some(n) && n.0 + 2 <= usize::MAX && !secret.has(n)
        && !secret.has(InstanceID((n.0 + 1) as usize));
    match change {
        SecretChange::DeferLocation { card } => secret.wf() && secret.resolvable(card) && secret.spec_id(card) is Some
            && secret.spec_zone_of(secret.spec_id(card).unwrap()) is Some,
        SecretChange::MoveWithin { card, to_zone } => secret.wf() && is_secret_zone(to_zone) && secret.resolvable(card)
            && secret.spec_instance(card) is Some,
        SecretChange::RemoveHandAt { index } => index < secret.hand@.len(),
        SecretChange::Extract { card } => secret.wf() && secret.resolvable(card) && secret.spec_instance(card) is Some,
        SecretChange::RemoveId { .. } => secret.wf(),
        SecretChange::PushZone { zone, .. } => is_secret_zone(zone),
        SecretChange::InsertHandNone { index } => index <= secret.hand@.len(),
        SecretChange::LogMove { from, .. } => from.location is Some || secret.deferred_locations@.len() > 0,
        SecretChange::RemoveIdDeferred { card } => secret.wf() && own_card(secret, card),
        SecretChange::AttachWithin { card, parent, location, same_bucket } => secret.wf() && own_card(secret, card)
            && own_card(secret, parent) && secret.has(secret.spec_id(card).unwrap())
            && secret.has(secret.spec_id(parent).unwrap())
            && (location is None && same_bucket ==> secret.deferred_locations@.len() > 0),
        SecretChange::PointToZone { zone, index } => secret.zone_entry(zone, index) is Some,
        SecretChange::PointToAll { zone } => is_secret_zone(zone),
        SecretChange::CopyInto { card, public, deep, .. } => secret.wf() && secret.resolvable(card) && fresh_two
            && secret.can_copy(card, public@, deep),
        SecretChange::ResetHeld { id } => secret.wf() && fresh_two && secret.has(id),
        SecretChange::ResetPointed { index } => secret.wf() && fresh_one && index < secret.pointers@.len()
            && secret.has(secret.pointers@[index as int]),
        SecretChange::PointToParent { card } => own_card(secret, card),
        _ => true,
    }
}

/// `id` is the last card of the secret zone `zone` of `secret`.
pub open spec fn last_in_zone<S: State>(secret: PlayerSecret<S>, zone: Zone, id: InstanceID) -> bool {
    match zone {
        Zone::Deck => secret.deck@.len() > 0 && secret.deck@.last() == id,
        Zone::Hand { public: false } => secret.hand@.len() > 0 && secret.hand@.last() == Some(id),
        Zone::Limbo { public: false } => secret.limbo@.len() > 0 && secret.limbo@.last() == id,
        Zone::CardSelection => secret.card_selection@.len() > 0 && secret.card_selection@.last() == id,
        Zone::Dust { public: false } => secret.dust@.len() > 0 && secret.dust@.last() == id,
        _ => false,
    }
}

impl<S: State> PlayerSecret<S> {
    /// Whether this secret is well-formed (see `wf`).
    pub fn check_wf(&self) -> (r: bool)
        ensures
            r == self.wf(),
    {
        let n = self.instances.len();
        let mut j: usize = 0;
        while j < n
            invariant
                n == self.instances.len(),
                0 <= j <= n,
                forall|a: int, b: int| 0 <= a < j && 0 <= b < n && a != b ==> self.instances@[a].id
                    != self.instances@[b].id,
                forall|a: int|
                    0 <= a < j && (#[trigger] self.instances@[a]).attachment is Some
                        ==> self.has(self.instances@[a].attachment.unwrap()),
                forall|a: int, b: int|
                    0 <= a < j && 0 <= b < n && self.instances@[a].attachment is Some
                        && self.instances@[a].attachment == self.instances@[b].attachment ==> a
                        == b,
            decreases n - j,
        {
            let mut k: usize = 0;
            while k < n
                invariant
                    n == self.instances.len(),
                    0 <= j < n,
                    0 <= k <= n,
                    forall|b: int| 0 <= b < k && j != b ==> self.instances@[j as int].id
                        != self.instances@[b].id,
                    forall|b: int|
                        0 <= b < k && self.instances@[j as int].attachment is Some
                            && self.instances@[j as int].attachment == self.instances@[b].attachment
                            ==> j == b,
                decreases n - k,
            {
                if k != j {
                    if self.instances[j].id == self.instances[k].id {
                        proof {
                            assert(self.ids()[j as int] == self.ids()[k as int]);
                        }
                        return false;
                    }
                    if self.instances[j].attachment.is_some() && self.instances[j].attachment
                        == self.instances[k].attachment {
                        return false;
                    }
                }
                k = k + 1;
            }
            if let Some(a) = self.instances[j].attachment {
                if self.slot_of(a).is_none() {
                    return false;
                }
            }
            j = j + 1;
        }
        proof {
            assert forall|a: int, b: int|
                0 <= a < self.ids().len() && 0 <= b < self.ids().len() && a != b implies self.ids()[a]
                != self.ids()[b] by {}
        }
        true
    }

    /// What `answer` gives for `query`: see each query.
    pub open spec fn answered(self, query: SecretQuery, r: Option<SecretAnswer<S>>) -> bool {
        match query {
            SecretQuery::PointerTarget { index } => if index < self.pointers@.len() {
                r == Some(SecretAnswer::<S>::Id(self.pointers@[index as int]))
            } else {
                r is None
            },
            SecretQuery::PointerBucket { index, buckets } => if index < self.pointers@.len()
                && self.pointers@[index as int].0 < buckets@.len() {
                r == Some(
                    SecretAnswer::<S>::Bucket(
                        buckets@[self.pointers@[index as int].0 as int].0,
                        buckets@[self.pointers@[index as int].0 as int].1,
                    ),
                )
            } else {
                r is None
            },
            SecretQuery::PointerPlacement { index, buckets } => if index < self.pointers@.len()
                && self.pointers@[index as int].0 < buckets@.len() {
                r == Some(
                    SecretAnswer::<S>::Placement(buckets@[self.pointers@[index as int].0 as int]),
                )
            } else {
                r is None
            },
            SecretQuery::InstanceOf { id } => if self.has(id) {
                match r {
                    Some(SecretAnswer::Instances(Some(i), None)) => i.id == id && copy_of(self.get(id), i),
                    _ => false,
                }
            } else {
                r is None
            },
            SecretQuery::MoveLocation { card } => if self.resolvable(card) && self.spec_id(
                card,
            ) is Some && self.spec_zone_of(self.spec_id(card).unwrap()) is Some {
                let l = self.spec_zone_of(self.spec_id(card).unwrap()).unwrap();
                r == Some(
                    SecretAnswer::<S>::Location(
                        if l.0 == (Zone::Limbo { public: false }) || l.0 is Attachment {
                            None
                        } else {
                            Some(l)
                        },
                    ),
                )
            } else {
                r is None
            },
            SecretQuery::InstanceWithAttachment { card } => if self.resolvable(card)
                && self.spec_instance(card) is Some {
                match r {
                    Some(SecretAnswer::Instances(Some(i), a)) => {
                        let inst = self.spec_instance(card).unwrap();
                        &&& i.id == inst.id
                        &&& i.attachment == inst.attachment
                        &&& copy_of(inst, i)
                        &&& (match inst.attachment {
                            Some(x) => a is Some && a.unwrap().id == x && copy_of(self.get(x), a.unwrap()),
                            None => a is None,
                        })
                    },
                    _ => false,
                }
            } else {
                r is None
            },
            SecretQuery::PointerCount => r == Some(SecretAnswer::<S>::Count(self.pointers@.len() as usize)),
            SecretQuery::NewCardsEnd => match self.next_instance {
                Some(n) => r == Some(SecretAnswer::<S>::Counts(self.pointers@.len() as usize, n.0)),
                None => r is None,
            },
            SecretQuery::ForeignTarget { index, placements } => if index < self.pointers@.len()
                && self.pointers@[index as int].0 < placements@.len() {
                r == Some(SecretAnswer::<S>::Target(
                    match placements@[self.pointers@[index as int].0 as int] {
                        Some(b) => if b == self.player {
                            None
                        } else {
                            Some(self.pointers@[index as int])
                        },
                        None => None,
                    },
                ))
            } else {
                r is None
            },
            SecretQuery::SameTarget { a, b } => if a < self.pointers@.len() && b < self.pointers@.len() {
                r == Some(SecretAnswer::<S>::Flag(self.pointers@[a as int] == self.pointers@[b as int]))
            } else {
                r is None
            },
            SecretQuery::TargetPublic { index, placements } => if index < self.pointers@.len()
                && self.pointers@[index as int].0 < placements@.len() {
                r == Some(SecretAnswer::<S>::Flag(placements@[self.pointers@[index as int].0 as int] is None))
            } else {
                r is None
            },
            SecretQuery::HeldOrTarget { index } => if index < self.pointers@.len() {
                r == Some(SecretAnswer::<S>::Resolved(
                    if self.has(self.pointers@[index as int]) {
                        Card::Pointer(crate::OpaquePointer { player: self.player, index })
                    } else {
                        Card::ID(self.pointers@[index as int])
                    },
                ))
            } else {
                r is None
            },
            SecretQuery::UnattachedTarget { index } => if index < self.pointers@.len() {
                r == Some(SecretAnswer::<S>::Target(
                    if self.attachments().contains(Some(self.pointers@[index as int])) {
                        None
                    } else {
                        Some(self.pointers@[index as int])
                    },
                ))
            } else {
                r is None
            },
        }
    }

    /// This secret's answer to `query`; `None` where answering would index past this
    /// secret's pointers or `buckets`, or ask about a card that is in none of its zones.
    pub fn answer(&self, query: &SecretQuery) -> (r: Option<SecretAnswer<S>>)
        requires
            self.wf(),
        ensures
            self.answered(*query, r),
    {
        match query {
            SecretQuery::PointerTarget { index } => {
                if *index < self.pointers.len() {
                    Some(SecretAnswer::Id(self.pointers[*index]))
                } else {
                    None
                }
            },
            SecretQuery::PointerBucket { index, buckets } => {
                if *index < self.pointers.len() && self.pointers[*index].0 < buckets.len() {
                    let b = buckets[self.pointers[*index].0];
                    Some(SecretAnswer::Bucket(b.0, b.1))
                } else {
                    None
                }
            },
            SecretQuery::PointerPlacement { index, buckets } => {
                if *index < self.pointers.len() && self.pointers[*index].0 < buckets.len() {
                    Some(SecretAnswer::Placement(buckets[self.pointers[*index].0]))
                } else {
                    None
                }
            },
            SecretQuery::InstanceOf { id } => {
                match self.slot_of(*id) {
                    Some(k) => Some(SecretAnswer::Instances(Some(self.instances[k].clone()), None)),
                    None => None,
                }
            },
            SecretQuery::MoveLocation { card } => {
                if let Card::Pointer(p) = card {
                    if p.player == self.player && p.index >= self.pointers.len() {
                        return None;
                    }
                }
                let location = self.location(*card).location;
                match location {
                    Some(l) => match l.0 {
                        Zone::Limbo { public: false } => Some(SecretAnswer::Location(None)),
                        Zone::Attachment { .. } => Some(SecretAnswer::Location(None)),
                        _ => Some(SecretAnswer::Location(Some(l))),
                    },
                    None => None,
                }
            },
            SecretQuery::InstanceWithAttachment { card } => {
                if let Card::Pointer(p) = card {
                    if p.player == self.player && p.index >= self.pointers.len() {
                        return None;
                    }
                }
                match self.instance(*card) {
                    Some(instance) => {
                        proof {
                            self.lemma_get(self.spec_id(*card).unwrap());
                        }
                        let attachment = match instance.attachment {
                            Some(a) => {
                                let k = self.slot_of(a).unwrap();
                                Some(self.instances[k].clone())
                            },
                            None => None,
                        };
                        Some(SecretAnswer::Instances(Some(instance.clone()), attachment))
                    },
                    None => None,
                }
            },
            SecretQuery::PointerCount => Some(SecretAnswer::Count(self.pointers.len())),
            SecretQuery::NewCardsEnd => match self.next_instance {
                Some(n) => Some(SecretAnswer::Counts(self.pointers.len(), n.0)),
                None => None,
            },
            SecretQuery::ForeignTarget { index, placements } => {
                if *index >= self.pointers.len() || self.pointers[*index].0 >= placements.len() {
                    return None;
                }
                let id = self.pointers[*index];
                match placements[id.0] {
                    Some(b) => if b == self.player {
                        Some(SecretAnswer::Target(None))
                    } else {
                        Some(SecretAnswer::Target(Some(id)))
                    },
                    None => Some(SecretAnswer::Target(None)),
                }
            },
            SecretQuery::SameTarget { a, b } => {
                if *a >= self.pointers.len() || *b >= self.pointers.len() {
                    return None;
                }
                Some(SecretAnswer::Flag(self.pointers[*a] == self.pointers[*b]))
            },
            SecretQuery::TargetPublic { index, placements } => {
                if *index >= self.pointers.len() || self.pointers[*index].0 >= placements.len() {
                    return None;
                }
                Some(SecretAnswer::Flag(placements[self.pointers[*index].0].is_none()))
            },
            SecretQuery::HeldOrTarget { index } => {
                if *index >= self.pointers.len() {
                    return None;
                }
                let id = self.pointers[*index];
                if self.slot_of(id).is_some() {
                    Some(SecretAnswer::Resolved(Card::Pointer(crate::OpaquePointer { player: self.player, index: *index })))
                } else {
                    Some(SecretAnswer::Resolved(Card::ID(id)))
                }
            },
            SecretQuery::UnattachedTarget { index } => {
                if *index >= self.pointers.len() {
                    return None;
                }
                let id = self.pointers[*index];
                match self.parent_slot(id) {
                    Some(_) => {
                        proof {
                            lemma_first_index_some(self.attachments(), Some(id));
                        }
                        Some(SecretAnswer::Target(None))
                    },
                    None => {
                        proof {
                            lemma_first_index_none(self.attachments(), Some(id));
                        }
                        Some(SecretAnswer::Target(Some(id)))
                    },
                }
            },
        }
    }

    /// Keeps the location of the card for a later log when it is one the public will not see
    /// (a secret limbo or an attachment).
    pub fn defer_location(&mut self, card: Card) -> (ok: bool)
        requires
            old(self).wf(),
        ensures
            ok == (old(self).resolvable(card) && old(self).spec_id(card) is Some && old(
                self,
            ).spec_zone_of(old(self).spec_id(card).unwrap()) is Some),
            ok ==> {
                let l = old(self).spec_zone_of(old(self).spec_id(card).unwrap()).unwrap();
                if l.0 == (Zone::Limbo { public: false }) || l.0 is Attachment {
                    final(self).deferred_locations@ == old(self).deferred_locations@.push(l)
                } else {
                    final(self).deferred_locations@ == old(self).deferred_locations@
                }
            },
            !ok ==> *final(self) == *old(self),
            *final(self) == (PlayerSecret {
                deferred_locations: final(self).deferred_locations,
                ..*old(self)
            }),
    {
        if let Card::Pointer(p) = card {
            if p.player == self.player && p.index >= self.pointers.len() {
                return false;
            }
        }
        match self.location(card).location {
            Some(l) => {
                match l.0 {
                    Zone::Limbo { public: false } => self.deferred_locations.push(l),
                    Zone::Attachment { .. } => self.deferred_locations.push(l),
                    _ => {},
                }
                true
            },
            None => false,
        }
    }

    /// Puts `id` at the end of the secret zone `zone`.
    pub fn push_zone(&mut self, zone: Zone, id: InstanceID)
        requires
            is_secret_zone(zone),
        ensures
            zone == Zone::Deck ==> *final(self) == (PlayerSecret {
                deck: final(self).deck,
                ..*old(self)
            }) && final(self).deck@ == old(self).deck@.push(id),
            zone == (Zone::Hand { public: false }) ==> *final(self) == (PlayerSecret {
                hand: final(self).hand,
                ..*old(self)
            }) && final(self).hand@ == old(self).hand@.push(Some(id)),
            zone == (Zone::Limbo { public: false }) ==> *final(self) == (PlayerSecret {
                limbo: final(self).limbo,
                ..*old(self)
            }) && final(self).limbo@ == old(self).limbo@.push(id),
            zone == Zone::CardSelection ==> *final(self) == (PlayerSecret {
                card_selection: final(self).card_selection,
                ..*old(self)
            }) && final(self).card_selection@ == old(self).card_selection@.push(id),
            zone == (Zone::Dust { public: false }) ==> *final(self) == (PlayerSecret {
                dust: final(self).dust,
                ..*old(self)
            }) && final(self).dust@ == old(self).dust@.push(id),
    {
        match zone {
            Zone::Deck => self.deck.push(id),
            Zone::Hand { .. } => self.hand.push(Some(id)),
            Zone::Limbo { .. } => self.limbo.push(id),
            Zone::CardSelection => self.card_selection.push(id),
            _ => self.dust.push(id),
        }
    }

    /// The length of the secret zone `zone`.
    pub fn zone_len(&self, zone: Zone) -> (r: usize)
        requires
            is_secret_zone(zone),
        ensures
            zone == Zone::Deck ==> r == self.deck@.len(),
            zone == (Zone::Hand { public: false }) ==> r == self.hand@.len(),
            zone == (Zone::Limbo { public: false }) ==> r == self.limbo@.len(),
            zone == Zone::CardSelection ==> r == self.card_selection@.len(),
            zone == (Zone::Dust { public: false }) ==> r == self.dust@.len(),
    {
        match zone {
            Zone::Deck => self.deck.len(),
            Zone::Hand { .. } => self.hand.len(),
            Zone::Limbo { .. } => self.limbo.len(),
            Zone::CardSelection => self.card_selection.len(),
            _ => self.dust.len(),
        }
    }

    /// Moves `card` from where it is in this secret to the end of the secret zone `to_zone`,
    /// logging the move (with the instance and its attachment) before the card is put there.
    pub fn move_within(&mut self, card: Card, to_zone: Zone, log: &mut Vec<CardEvent<S>>)
        requires
            old(self).wf(),
            old(self).resolvable(card),
            old(self).spec_instance(card) is Some,
            is_secret_zone(to_zone),
        ensures
            ({
                let id = old(self).spec_id(card).unwrap();
                let rest = remove_all(old(self).deck@, id);
                &&& final(self).wf()
                &&& final(self).ids() == old(self).ids()
                &&& !final(self).attachments().contains(Some(id))
                &&& final(self).pointers == old(self).pointers
                &&& final(self).same_frame(*old(self))
                &&& (to_zone == Zone::Deck ==> final(self).deck@ == remove_all(old(self).deck@, id).push(id))
                &&& (to_zone != Zone::Deck ==> final(self).deck@ == remove_all(old(self).deck@, id))
                &&& (to_zone == (Zone::Hand { public: false }) ==> final(self).hand@ == remove_all(old(self).hand@, Some(id)).push(Some(id)))
                &&& (to_zone != (Zone::Hand { public: false }) ==> final(self).hand@ == remove_all(old(self).hand@, Some(id)))
                &&& (to_zone == (Zone::Limbo { public: false }) ==> final(self).limbo@ == remove_all(old(self).limbo@, id).push(id))
                &&& (to_zone != (Zone::Limbo { public: false }) ==> final(self).limbo@ == remove_all(old(self).limbo@, id))
                &&& (to_zone == Zone::CardSelection ==> final(self).card_selection@ == remove_all(old(self).card_selection@, id).push(id))
                &&& (to_zone != Zone::CardSelection ==> final(self).card_selection@ == remove_all(old(self).card_selection@, id))
                &&& (to_zone == (Zone::Dust { public: false }) ==> final(self).dust@ == remove_all(old(self).dust@, id).push(id))
                &&& (to_zone != (Zone::Dust { public: false }) ==> final(self).dust@ == remove_all(old(self).dust@, id))
                &&& final(log)@.len() > old(log)@.len()
                &&& final(log)@.subrange(0, old(log)@.len() as int) == old(log)@
                &&& is_move_to(final(log)@.last(), id, ExactCardLocation { player: old(self).player, location: (to_zone, final(log)@.last()->MoveCard_to.location.1) })
            }),
            moved_within(*old(self), *final(self), old(self).spec_id(card).unwrap(), to_zone),
    {
        let id = self.id(card).unwrap();
        proof {
            self.lemma_get(id);
        }
        let old_location = self.location(Card::ID(id));
        let k = self.slot_of(id).unwrap();
        let instance = self.instances[k].clone();
        let attachment = match instance.attachment {
            Some(a) => {
                let ak = self.slot_of(a).unwrap();
                Some(self.instances[ak].clone())
            },
            None => None,
        };
        let ghost log0 = log@;
        self.remove_id(log, id);
        let ghost log1 = log@;
        let index = self.zone_len(to_zone);
        log.push(
            CardEvent::MoveCard {
                instance: Some((instance, attachment)),
                from: old_location,
                to: ExactCardLocation { player: self.player, location: (to_zone, index) },
            },
        );
        let ghost mid = *self;
        self.push_zone(to_zone, id);
        proof {
            assert(log1.subrange(0, log0.len() as int) == log0);
            assert(final(log)@.subrange(0, old(log)@.len() as int) =~= old(log)@);
            assert(self.ids() =~= mid.ids());
            assert(self.attachments() =~= mid.attachments());
        }
    }

    /// Removes the instance at position `k`.
    fn remove_slot(&mut self, k: usize)
        requires
            k < old(self).instances@.len(),
        ensures
            final(self).instances@ == old(self).instances@.remove(k as int),
            final(self).ids() == old(self).ids().remove(k as int),
            *final(self) == (PlayerSecret { instances: final(self).instances, ..*old(self) }),
    {
        self.instances.remove(k);
        proof {
            assert(self.ids() =~= old(self).ids().remove(k as int));
        }
    }

    /// Removing an instance that no other instance has as its attachment keeps a secret
    /// well-formed.
    proof fn lemma_remove_keeps_wf(s: PlayerSecret<S>, t: PlayerSecret<S>, k: int)
        requires
            s.wf(),
            0 <= k < s.instances@.len(),
            t.instances@ == s.instances@.remove(k),
            forall|j: int| 0 <= j < s.instances@.len() && j != k ==> (#[trigger] s.instances@[j]).attachment != Some(s.instances@[k].id),
        ensures
            t.wf(),
            t.ids() == s.ids().remove(k),
    {
        assert(t.ids() =~= s.ids().remove(k));
        lemma_remove_nodup(s.ids(), k);
        assert forall|j: int| 0 <= j < t.instances.len() && (#[trigger] t.instances@[j]).attachment is Some
            implies t.has(t.instances@[j].attachment.unwrap()) by {
            let j2 = if j < k { j } else { j + 1 };
            assert(t.instances@[j] == s.instances@[j2]);
            let b = s.instances@[j2].attachment.unwrap();
            assert(s.has(b));
            assert(b != s.ids()[k]);
        }
        assert forall|i: int, j: int|
            0 <= i < t.instances.len() && 0 <= j < t.instances.len() && (#[trigger] t.instances@[i]).attachment is Some
                && t.instances@[i].attachment == (#[trigger] t.instances@[j]).attachment implies i == j by {
            let i2 = if i < k { i } else { i + 1 };
            let j2 = if j < k { j } else { j + 1 };
            assert(t.instances@[i] == s.instances@[i2]);
            assert(t.instances@[j] == s.instances@[j2]);
        }
    }

    /// Takes `card` out of this secret: out of every zone, off its parent (whose change is
    /// held back in `deferred_logs`), and out of the instances together with its attachment.
    pub fn extract(&mut self, card: Card)
        requires
            old(self).wf(),
            old(self).resolvable(card),
            old(self).spec_instance(card) is Some,
        ensures
            ({
                let id = old(self).spec_id(card).unwrap();
                let a = old(self).get(id).attachment;
                &&& final(self).wf()
                &&& !final(self).has(id)
                &&& forall|x: InstanceID| #[trigger] final(self).has(x) ==> old(self).has(x)
                &&& forall|x: InstanceID|
                    old(self).has(x) && x != id && a != Some(x) ==> #[trigger] final(self).has(x)
                &&& a matches Some(x) ==> !final(self).has(x)
                &&& final(self).deck@ == remove_all(old(self).deck@, id)
                &&& final(self).hand@ == remove_all(old(self).hand@, Some(id))
                &&& final(self).dust@ == remove_all(old(self).dust@, id)
                &&& final(self).limbo@ == remove_all(old(self).limbo@, id)
                &&& final(self).card_selection@ == remove_all(old(self).card_selection@, id)
                &&& final(self).pointers == old(self).pointers
                &&& final(self).secret == old(self).secret
                &&& final(self).next_instance == old(self).next_instance
                &&& final(self).deferred_locations == old(self).deferred_locations
                &&& final(self).player == old(self).player
                &&& final(self).deferred_logs@.subrange(0, old(self).deferred_logs@.len() as int)
                    == old(self).deferred_logs@
                &&& final(self).deferred_logs@.len() <= old(self).deferred_logs@.len() + 1
            }),
    {
        let id = self.id(card).unwrap();
        proof {
            self.lemma_get(id);
        }
        let ghost a = self.get(id).attachment;
        self.deck = without_id(&self.deck, id);
        self.hand = without_some_id(&self.hand, id);
        self.limbo = without_id(&self.limbo, id);
        self.card_selection = without_id(&self.card_selection, id);
        self.dust = without_id(&self.dust, id);
        let ghost logs0 = self.deferred_logs@;
        let ghost s0 = *self;
        assert(s0.ids() =~= old(self).ids());
        match self.parent_slot(id) {
            Some(pk) => {
                let ak = self.slot_of(id).unwrap();
                let attach_clone = self.instances[ak].clone();
                let before = self.instances[pk].clone();
                {
                    let parent = &mut self.instances[pk];
                    let pid = parent.id;
                    parent.attachment = None;
                    S::on_detach(parent, &attach_clone);
                    parent.id = pid;
                    parent.attachment = None;
                }
                if !before.eq(&self.instances[pk]) {
                    let changed = self.instances[pk].clone();
                    self.deferred_logs.push(CardEvent::ModifyCard { instance: changed });
                }
                proof {
                    assert(s0.attachments()[pk as int] == Some(id));
                    assert forall|j: int| 0 <= j < self.instances@.len() && j != pk implies #[trigger] self.instances@[j]
                        == s0.instances@[j] && self.instances@[j].attachment != Some(id) by {
                        assert(s0.attachments()[j] == s0.instances@[j].attachment);
                    }
                }
            },
            None => {
                proof {
                    assert forall|j: int| 0 <= j < self.instances@.len() implies (#[trigger] self.instances@[j]).attachment
                        != Some(id) by {
                        assert(s0.attachments()[j] == self.instances@[j].attachment);
                    }
                }
            },
        }
        let ghost s1 = *self;
        assert(s1.ids() =~= old(self).ids());
        assert(self.deferred_logs@.subrange(0, logs0.len() as int) =~= logs0);
        proof {
            assert(s1.wf()) by {
                assert forall|j: int| 0 <= j < s1.instances.len() && (#[trigger] s1.instances@[j]).attachment is Some
                    implies s1.has(s1.instances@[j].attachment.unwrap()) by {
                    assert(s1.instances@[j] == s0.instances@[j]);
                }
                assert forall|i: int, j: int|
                    0 <= i < s1.instances.len() && 0 <= j < s1.instances.len() && (#[trigger] s1.instances@[i]).attachment is Some
                        && s1.instances@[i].attachment == (#[trigger] s1.instances@[j]).attachment implies i == j by {
                    assert(s1.instances@[i] == s0.instances@[i]);
                    assert(s1.instances@[j] == s0.instances@[j]);
                }
            }
            self.lemma_get(id);
            old(self).lemma_get(id);
        }
        let k = self.slot_of(id).unwrap();
        let att = self.instances[k].attachment;
        proof {
            assert(old(self).slot(id) == k);
            assert(att == a || att is None && a == Some(id));
        }
        self.remove_slot(k);
        proof {
            Self::lemma_remove_keeps_wf(s1, *self, k as int);
            lemma_remove_nodup(s1.ids(), k as int);
        }
        let ghost s2 = *self;
        if let Some(att_id) = att {
            if let Some(ak) = self.slot_of(att_id) {
                proof {
                    assert forall|j: int| 0 <= j < s2.instances@.len() && j != ak implies (#[trigger] s2.instances@[j]).attachment
                        != Some(s2.instances@[ak as int].id) by {
                        let j1 = if j < k { j } else { j + 1 };
                        let a1 = if (ak as int) < k { ak as int } else { ak + 1 };
                        assert(s2.instances@[j] == s1.instances@[j1]);
                        assert(s2.instances@[ak as int] == s1.instances@[a1]);
                        assert(j1 != k);
                    }
                    lemma_remove_nodup(s2.ids(), ak as int);
                }
                self.remove_slot(ak);
                proof {
                    Self::lemma_remove_keeps_wf(s2, *self, ak as int);
                }
            }
        }
        proof {
            assert(forall|x: InstanceID| #[trigger] self.has(x) ==> s2.has(x));
        }
    }

    /// Keeps `instance` in this secret: in place of the instance with its ID, else at the end.
    pub fn insert_instance(&mut self, instance: CardInstance<S>)
        ensures
            final(self).has(instance.id),
            forall|x: InstanceID| #[trigger] final(self).has(x) <==> (old(self).has(x) || x == instance.id),
            final(self).get(instance.id) == instance,
            *final(self) == (PlayerSecret { instances: final(self).instances, ..*old(self) }),
            !old(self).has(instance.id) ==> final(self).instances@ == old(self).instances@.push(instance),
    {
        let id = instance.id;
        match self.slot_of(id) {
            Some(k) => {
                self.instances.set(k, instance);
                proof {
                    assert(self.ids() =~= old(self).ids());
                }
            },
            None => {
                self.instances.push(instance);
                proof {
                    assert(self.ids() =~= old(self).ids().push(id));
                    let k = self.instances@.len() - 1;
                    assert(self.ids()[k] == id);
                    assert forall|j: int| 0 <= j < k implies self.ids()[j] != id by {
                        assert(self.ids()[j] == old(self).ids()[j]);
                    }
                    lemma_first_index_unique(self.ids(), id, k);
                    assert forall|x: InstanceID| #[trigger] self.has(x) <==> (old(self).has(x) || x == id) by {
                        if old(self).has(x) {
                            let j = choose|j: int| 0 <= j < old(self).ids().len() && old(self).ids()[j] == x;
                            assert(self.ids()[j] == x);
                        }
                        if self.has(x) && x != id {
                            let j = choose|j: int| 0 <= j < self.ids().len() && self.ids()[j] == x;
                            assert(old(self).ids()[j] == x);
                        }
                    }
                }
            },
        }
    }

    /// Logs the move `instance` made from `from` to `to`; when the public does not know where
    /// the card came from, the last deferred location is used. Fails when there is none.
    pub fn log_move(
        &mut self,
        instance: Option<(CardInstance<S>, Option<CardInstance<S>>)>,
        from: CardLocation,
        to: ExactCardLocation,
        log: &mut Vec<CardEvent<S>>,
    ) -> (ok: bool)
        ensures
            ok == (from.location is Some || old(self).deferred_locations@.len() > 0),
            ok ==> {
                let location = match from.location {
                    Some(l) => Some(l),
                    None => Some(old(self).deferred_locations@.last()),
                };
                &&& final(log)@ == old(log)@.push(
                    CardEvent::MoveCard {
                        instance,
                        from: CardLocation { player: from.player, location },
                        to,
                    },
                )
                &&& from.location is None ==> final(self).deferred_locations@
                    == old(self).deferred_locations@.drop_last()
                &&& from.location is Some ==> final(self).deferred_locations
                    == old(self).deferred_locations
            },
            !ok ==> final(log)@ == old(log)@ && *final(self) == *old(self),
            *final(self) == (PlayerSecret {
                deferred_locations: final(self).deferred_locations,
                ..*old(self)
            }),
    {
        let location = match from.location {
            Some(l) => Some(l),
            None => {
                if self.deferred_locations.len() == 0 {
                    return false;
                }
                self.deferred_locations.pop()
            },
        };
        log.push(
            CardEvent::MoveCard { instance, from: CardLocation { player: from.player, location }, to },
        );
        true
    }

    /// Logs what was held back, in order, and forgets it.
    pub fn drain_deferred_logs(&mut self, log: &mut Vec<CardEvent<S>>)
        ensures
            final(log)@ == old(log)@ + old(self).deferred_logs@,
            final(self).deferred_logs@.len() == 0,
            *final(self) == (PlayerSecret { deferred_logs: final(self).deferred_logs, ..*old(self) }),
    {
        log.append(&mut self.deferred_logs);
    }

    /// Applies `change` to this secret, logging to `log` what its owner is told. Returns
    /// `false`, with nothing changed, where the change cannot be made: a card this secret
    /// cannot resolve or does not hold, a hand index out of range, a move to a zone that is
    /// not secret, a missing deferred location, or a secret that is not well-formed where
    /// the change needs it to be.
    pub fn apply_change(
        &mut self,
        change: SecretChange<S>,
        log: &mut Vec<CardEvent<S>>,
        random: &mut rand::rngs::StdRng,
    ) -> (ok: bool)
        ensures
            ok == accepts(*old(self), change),
            ok && old(self).wf() && !(change is InsertInstance) && !(change is RemoveInstance) ==> final(self).wf(),
            ok && (change is LogMove || change is DrainDeferredLogs) ==> same_but_held_logs(*final(self), *old(self)),
            !ok ==> *final(self) == *old(self),
            !ok ==> final(log)@ == old(log)@,
            ok ==> final(log)@.subrange(0, old(log)@.len() as int) == old(log)@,
            ok ==> final(self).player == old(self).player && final(self).secret == old(self).secret,
            ok ==> match change {
                SecretChange::RemoveHandAt { index } => final(self).hand@ == old(self).hand@.remove(
                    index as int,
                ) && *final(self) == (PlayerSecret { hand: final(self).hand, ..*old(self) }),
                SecretChange::InsertHandNone { index } => final(self).hand@ == old(
                    self,
                ).hand@.insert(index as int, None) && *final(self) == (PlayerSecret {
                    hand: final(self).hand,
                    ..*old(self)
                }),
                SecretChange::PushZone { zone, id } => is_secret_zone(zone) && final(self).has(id)
                    == old(self).has(id) && final(self).ids() == old(self).ids() && pushed_zone(*old(self), *final(self), zone, id),
                SecretChange::InsertInstance { instance } => final(self).get(instance.id)
                    == instance && *final(self) == (PlayerSecret { instances: final(self).instances, ..*old(self) })
                    && (!old(self).has(instance.id) ==> final(self).instances@ == old(self).instances@.push(instance)),
                SecretChange::RemoveId { id } => final(self).wf() && final(self).ids() == old(
                    self,
                ).ids() && !final(self).attachments().contains(Some(id)),
                SecretChange::MoveWithin { card, to_zone } => final(self).wf() && final(self).ids()
                    == old(self).ids() && is_secret_zone(to_zone)
                    && last_in_zone(*final(self), to_zone, old(self).spec_id(card).unwrap())
                    && moved_within(*old(self), *final(self), old(self).spec_id(card).unwrap(), to_zone),
                SecretChange::Extract { card } => !final(self).has(old(self).spec_id(card).unwrap()),
                SecretChange::DrainDeferredLogs => final(log)@ == old(log)@ + old(
                    self,
                ).deferred_logs@ && final(self).deferred_logs@.len() == 0,
                SecretChange::AttachWithin { card, parent, location, same_bucket } => final(self).wf()
                    && final(self).get(old(self).spec_id(parent).unwrap()).attachment == Some(
                    old(self).spec_id(card).unwrap(),
                ),
                SecretChange::ShuffleDeck => shuffled(*old(self), *final(self)),
                SecretChange::PointToZone { zone, index } => final(self).pointers@ == old(
                    self,
                ).pointers@.push(old(self).zone_entry(zone, index).unwrap()) && *final(self) == (
                PlayerSecret { pointers: final(self).pointers, ..*old(self) }),
                SecretChange::PointToAll { zone } => final(self).pointers@ == old(self).pointers@
                    + old(self).zone_ids(zone) && *final(self) == (PlayerSecret {
                    pointers: final(self).pointers,
                    ..*old(self)
                }),
                SecretChange::PointTo { id } => *final(self) == (PlayerSecret {
                    pointers: final(self).pointers,
                    ..*old(self)
                }) && final(self).pointers@ == old(self).pointers@.push(id),
                SecretChange::StartNewCards { next } => *final(self) == (PlayerSecret {
                    next_instance: Some(next),
                    ..*old(self)
                }),
                SecretChange::EndNewCards => *final(self) == (PlayerSecret {
                    next_instance: None,
                    ..*old(self)
                }),
                SecretChange::PointToParent { card } => *final(self) == (PlayerSecret {
                    pointers: final(self).pointers,
                    ..*old(self)
                }) && final(self).pointers@ == if old(self).attachments().contains(Some(old(self).spec_id(card).unwrap())) {
                    old(self).pointers@.push(old(self).instances@[first_index(old(self).attachments(), Some(old(self).spec_id(card).unwrap())).unwrap()].id)
                } else {
                    old(self).pointers@
                },
                _ => true,
            },
    {
        match change {
            SecretChange::DeferLocation { card } => {
                if !self.check_wf() {
                    return false;
                }
                self.defer_location(card)
            },
            SecretChange::MoveWithin { card, to_zone } => {
                if !self.check_wf() {
                    return false;
                }
                match to_zone {
                    Zone::Deck | Zone::Hand { public: false } | Zone::Limbo { public: false }
                    | Zone::CardSelection | Zone::Dust { public: false } => {},
                    _ => {
                        return false;
                    },
                }
                if let Card::Pointer(p) = card {
                    if p.player == self.player && p.index >= self.pointers.len() {
                        return false;
                    }
                }
                if self.instance(card).is_none() {
                    return false;
                }
                self.move_within(card, to_zone, log);
                true
            },
            SecretChange::RemoveHandAt { index } => {
                if index >= self.hand.len() {
                    return false;
                }
                self.hand.remove(index);
                true
            },
            SecretChange::Extract { card } => {
                if !self.check_wf() {
                    return false;
                }
                if let Card::Pointer(p) = card {
                    if p.player == self.player && p.index >= self.pointers.len() {
                        return false;
                    }
                }
                if self.instance(card).is_none() {
                    return false;
                }
                self.extract(card);
                true
            },
            SecretChange::RemoveId { id } => {
                if !self.check_wf() {
                    return false;
                }
                self.remove_id(log, id);
                true
            },
            SecretChange::PushZone { zone, id } => {
                match zone {
                    Zone::Deck | Zone::Hand { public: false } | Zone::Limbo { public: false }
                    | Zone::CardSelection | Zone::Dust { public: false } => {},
                    _ => {
                        return false;
                    },
                }
                self.push_zone(zone, id);
                proof {
                    assert(self.ids() =~= old(self).ids());
                }
                true
            },
            SecretChange::InsertHandNone { index } => {
                if index > self.hand.len() {
                    return false;
                }
                self.hand.insert(index, None);
                true
            },
            SecretChange::InsertInstance { instance } => {
                self.insert_instance(instance);
                true
            },
            SecretChange::LogMove { instance, from, to } => {
                let ok = self.log_move(instance, from, to, log);
                proof {
                    assert(final(log)@.subrange(0, old(log)@.len() as int) =~= old(log)@);
                }
                ok
            },
            SecretChange::DrainDeferredLogs => {
                self.drain_deferred_logs(log);
                proof {
                    assert(final(log)@.subrange(0, old(log)@.len() as int) =~= old(log)@);
                }
                true
            },
            SecretChange::ShuffleDeck => {
                self.shuffle_deck(random, log);
                true
            },
            SecretChange::RemoveIdDeferred { card } => {
                if !self.check_wf() {
                    return false;
                }
                if let Card::Pointer(p) = card {
                    if p.player != self.player || p.index >= self.pointers.len() {
                        return false;
                    }
                }
                let id = self.id(card).unwrap();
                let mut deferred: Vec<CardEvent<S>> = Vec::new();
                self.remove_id(&mut deferred, id);
                self.deferred_logs.append(&mut deferred);
                true
            },
            SecretChange::RemoveInstance { id } => {
                if let Some(k) = self.slot_of(id) {
                    self.instances.remove(k);
                }
                true
            },
            SecretChange::AttachWithin { card, parent, location, same_bucket } => {
                if !self.check_wf() {
                    return false;
                }
                if let Card::Pointer(p) = card {
                    if p.player != self.player || p.index >= self.pointers.len() {
                        return false;
                    }
                }
                if let Card::Pointer(p) = parent {
                    if p.player != self.player || p.index >= self.pointers.len() {
                        return false;
                    }
                }
                let card_id = self.id(card).unwrap();
                let parent_id = self.id(parent).unwrap();
                if self.slot_of(card_id).is_none() || self.slot_of(parent_id).is_none() {
                    return false;
                }
                let location = match location {
                    Some(l) => Some(l),
                    None => if same_bucket {
                        if self.deferred_locations.len() == 0 {
                            return false;
                        }
                        self.deferred_locations.pop()
                    } else {
                        None
                    },
                };
                let ghost before_attach = *self;
                assert(before_attach.wf()) by {
                    assert(before_attach.ids() =~= old(self).ids());
                    assert(before_attach.attachments() =~= old(self).attachments());
                }
                let _ = self.attach_card(Card::ID(parent_id), Card::ID(card_id), location, log);
                true
            },
            SecretChange::PointToZone { zone, index } => self.point_to(zone, index),
            SecretChange::PointToAll { zone } => {
                match zone {
                    Zone::Deck => self.append_deck_to_pointers(),
                    Zone::Hand { public: false } => self.append_secret_hand_to_pointers(),
                    Zone::CardSelection => self.append_card_selection_to_pointers(),
                    Zone::Dust { public: false } => {
                        let ids = copy_ids(&self.dust);
                        self.new_pointers(&ids);
                    },
                    Zone::Limbo { public: false } => {
                        let ids = copy_ids(&self.limbo);
                        self.new_pointers(&ids);
                    },
                    _ => {
                        return false;
                    },
                }
                true
            },
            SecretChange::StartNewCards { next } => {
                self.next_instance = Some(next);
                true
            },
            SecretChange::EndNewCards => {
                self.next_instance = None;
                true
            },
            SecretChange::CopyInto { card, public, deep, copy_first } => {
                if !self.check_wf() {
                    return false;
                }
                if let Card::Pointer(p) = card {
                    if p.player == self.player && p.index >= self.pointers.len() {
                        return false;
                    }
                }
                let n = match self.next_instance {
                    Some(n) => n,
                    None => {
                        return false;
                    },
                };
                if n.0 > usize::MAX - 2 || self.slot_of(n).is_some() || self.slot_of(InstanceID(n.0 + 1)).is_some() {
                    return false;
                }
                let copied = self.copy_card(card, &public, deep, copy_first, log);
                copied.is_some()
            },
            SecretChange::PointTo { id } => {
                self.new_pointer(id);
                true
            },
            SecretChange::ResetHeld { id } => {
                if !self.check_wf() {
                    return false;
                }
                let n = match self.next_instance {
                    Some(n) => n,
                    None => {
                        return false;
                    },
                };
                if n.0 > usize::MAX - 2 || self.slot_of(n).is_some() || self.slot_of(InstanceID(n.0 + 1)).is_some() {
                    return false;
                }
                self.reset_held_card(id, log)
            },
            SecretChange::ResetPointed { index } => {
                if !self.check_wf() {
                    return false;
                }
                let n = match self.next_instance {
                    Some(n) => n,
                    None => {
                        return false;
                    },
                };
                if n.0 > usize::MAX - 1 || self.slot_of(n).is_some() {
                    return false;
                }
                self.reset_pointed_card(index, log)
            },
            SecretChange::PointToParent { card } => {
                if let Card::Pointer(p) = card {
                    if p.player != self.player || p.index >= self.pointers.len() {
                        return false;
                    }
                }
                let id = self.id(card).unwrap();
                match self.parent_slot(id) {
                    Some(k) => {
                        proof {
                            lemma_first_index_some(self.attachments(), Some(id));
                        }
                        let parent = self.instances[k].id;
                        self.pointers.push(parent);
                    },
                    None => {
                        proof {
                            lemma_first_index_none(self.attachments(), Some(id));
                        }
                    },
                }
                true
            },
        }
    }
}

} // verus!
