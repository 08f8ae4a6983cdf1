//! `modify_card`: letting game code change a card. A public card is changed here; a card in a
//! secret is changed by its holder's secret (`PlayerSecret::modify_card`).

use vstd::prelude::*;

use crate::card_game::Effect;
use crate::card_instance::copy_of;
use crate::game::CardGame;
use crate::game_public::field_order_total;
use crate::game_state::{is_player, lemma_location_same_shape, same_shape, InstanceOrPlayer};
use crate::move_card::push_logs;
use crate::player_secret::copy_ids;
use crate::secret_protocol::SecretAnswer;
use crate::{BaseCard, Card, CardEvent, CardInfoMut, CardInstance, GameState, InstanceID, Player, PlayerSecret, State, Zone};

verus! {

/// Where a card to be changed is.
pub enum ModifyTarget {
    /// Ask `player`'s secret whether it holds the card behind their pointer `index`
    /// (`SecretQuery::HeldOrTarget`).
    Ask { player: Player, index: usize },
    /// The card is public, with ID `id`.
    Public { id: InstanceID },
    /// The card is in `player`'s secret, known there as `card`.
    Secret { player: Player, card: Card },
    /// There is no such card: an ID out of the instance table.
    Invalid,
}

/// Where the card `card` of the public instance table is, as `modify_card` needs to know.
pub open spec fn spec_modify_target<S: State>(game: GameState<S>, card: Card) -> ModifyTarget {
    match card {
        Card::Pointer(p) => ModifyTarget::Ask { player: p.player, index: p.index },
        Card::ID(id) => if id.0 >= game.instances@.len() {
            ModifyTarget::Invalid
        } else {
            match game.instances@[id.0 as int] {
                InstanceOrPlayer::Instance(_) => ModifyTarget::Public { id },
                InstanceOrPlayer::Player(owner) => ModifyTarget::Secret { player: owner, card: Card::ID(id) },
            }
        },
    }
}

/// Whether a change re-sorts a field, and whether that field is public, depend only on the
/// public zones and the shape of the instance table.
proof fn lemma_modify_same_shape<S: State>(g: GameState<S>, h: GameState<S>, owner: Player, zone: Zone)
    requires
        g.player_cards == h.player_cards,
        same_shape(g.instances@, h.instances@),
    ensures
        g.resorts(zone) == h.resorts(zone),
        g.field_public(owner) == h.field_public(owner),
{
    if let Zone::Attachment { parent: Card::ID(grandparent) } = zone {
        lemma_location_same_shape(g, h, grandparent);
    }
    assert forall|x: InstanceID| #[trigger] g.public_with_attachment(x) == h.public_with_attachment(x) by {
        if x.0 < g.instances@.len() {
            let _ = g.instances@[x.0 as int];
            if let Some(i) = g.spec_public(x) {
                if let Some(a) = i.attachment {
                    if a.0 < g.instances@.len() {
                        let _ = g.instances@[a.0 as int];
                    }
                }
            }
        }
    }
    if is_player(owner) {
        let f = g.player_cards@[owner as int].field@;
        assert(h.player_cards@[owner as int].field@ == f);
        assert(forall|i: int| 0 <= i < f.len() ==> (g.public_with_attachment(#[trigger] f[i]) == h.public_with_attachment(f[i])));
    }
}

/// `after` is `before` with `owner`'s field re-sorted: the other zones and the other
/// player's cards are unchanged, the field holds the same cards, and, where the game's field
/// order is a total preorder, in that order.
pub open spec fn resorted<S: State>(before: GameState<S>, after: GameState<S>, owner: Player) -> bool {
    let b = before.player_cards@[owner as int];
    let a = after.player_cards@[owner as int];
    &&& owner < 2
    &&& forall|p: int| 0 <= p < 2 && p != owner ==> after.player_cards@[p] == before.player_cards@[p]
    &&& a == (crate::PlayerCards { field: a.field, ..b })
    &&& a.field@.to_multiset() == b.field@.to_multiset()
    &&& field_order_total::<S>() ==> after.field_sorted(a.field@, owner)
}

impl<S: State> GameState<S> {
    /// The public zone, and owner, of the public card `id`.
    pub open spec fn public_zone(self, id: InstanceID) -> Option<(Player, Zone)> {
        match self.spec_location(id) {
            Some(l) => match l.location {
                Some((zone, _)) => Some((l.player, zone)),
                None => None,
            },
            None => None,
        }
    }

    /// A change to a card in `zone` re-sorts its owner's field: the card is on the field, or
    /// attached to a card on it.
    pub open spec fn resorts(self, zone: Zone) -> bool {
        match zone {
            Zone::Field => true,
            Zone::Attachment { parent: Card::ID(grandparent) } => self.spec_location(grandparent) matches Some(l)
                && l.location matches Some((Zone::Field, _)),
            _ => false,
        }
    }

    /// Whether `modify_public` can change the public card `id`: it has a zone, its attachment
    /// is public, and where the change re-sorts its owner's field, that field holds only public
    /// cards with public attachments.
    pub open spec fn modifiable(self, id: InstanceID) -> bool {
        &&& self.public_with_attachment(id)
        &&& self.modifiable_internally(id)
    }

    /// Whether `modify_public_internal` can change the public card `id`: it has a zone, and
    /// where the change re-sorts its owner's field, that field holds only public cards with
    /// public attachments.
    pub open spec fn modifiable_internally(self, id: InstanceID) -> bool {
        &&& self.spec_public(id) is Some
        &&& self.public_zone(id) matches Some((owner, zone))
        &&& (self.resorts(zone) ==> self.field_public(owner))
    }

    /// Re-sorts `owner`'s field after a change to a card in `zone` of `owner`, when that card
    /// is on the field or attached to a card on it. Fails where the field holds a card that is
    /// not public.
    fn resort_after_change(&mut self, owner: Player, zone: Zone, log: &mut Vec<CardEvent<S>>) -> (ok: bool)
        ensures
            ok == (old(self).resorts(zone) ==> old(self).field_public(owner)),
            final(self).instances == old(self).instances,
            final(log)@.len() >= old(log)@.len(),
            final(log)@.subrange(0, old(log)@.len() as int) == old(log)@,
            (!ok || !old(self).resorts(zone)) ==> *final(self) == *old(self) && final(log)@ == old(log)@,
            (ok && old(self).resorts(zone)) ==> resorted(*old(self), *final(self), owner),
            final(self).state == old(self).state,
            final(self).shuffle_deck_on_insert == old(self).shuffle_deck_on_insert,
    {
        let resort = match zone {
            Zone::Field => true,
            Zone::Attachment { parent: Card::ID(grandparent) } => match self.try_location(grandparent) {
                Some(l) => match l.location {
                    Some((Zone::Field, _)) => true,
                    _ => false,
                },
                None => false,
            },
            _ => false,
        };
        if resort {
            if owner >= 2 || !self.is_field_public(owner) {
                proof {
                    assert(log@.subrange(0, old(log)@.len() as int) =~= old(log)@);
                }
                return false;
            }
            let old_field = copy_ids(&self.player_cards(owner).field);
            self.sort_field(owner, &old_field, true, log);
        } else {
            proof {
                assert(log@.subrange(0, old(log)@.len() as int) =~= old(log)@);
            }
        }
        true
    }

    /// Lets `f` change the public card `id`, seeing its owner, zone and attachment, and logs
    /// what `f` logs, then the change, then the re-sorting of its owner's field when it is on
    /// it or attached to a card on it. The card keeps its ID and attachment. Fails where `id`
    /// is not a public card with a zone, or its attachment or a card of that field is not
    /// public.
    pub fn modify_public<F: FnOnce(CardInfoMut<S>)>(&mut self, id: InstanceID, f: F, log: &mut Vec<CardEvent<S>>) -> (ok: bool)
        requires
            forall|i: CardInfoMut<S>| #[trigger] f.requires((i,)),
        ensures
            ok == old(self).modifiable(id),
            ok ==> old(self).spec_public(id) is Some && old(self).public_zone(id) is Some,
            ok ==> final(self).spec_public(id) is Some,
            ok ==> final(self).spec_public(id).unwrap().id == old(self).spec_public(id).unwrap().id,
            ok ==> final(self).spec_public(id).unwrap().attachment == old(self).spec_public(id).unwrap().attachment,
            ok ==> final(self).instances@.len() == old(self).instances@.len(),
            ok ==> forall|j: int| 0 <= j < old(self).instances@.len() && j != id.0 ==> final(self).instances@[j] == old(self).instances@[j],
            final(log)@.subrange(0, old(log)@.len() as int) == old(log)@,
            old(self).spec_public(id) is None ==> !ok && *final(self) == *old(self),
            ok ==> ({
                let (owner, zone) = old(self).public_zone(id).unwrap();
                &&& old(self).resorts(zone) ==> resorted(*old(self), *final(self), owner)
                &&& !old(self).resorts(zone) ==> final(self).player_cards == old(self).player_cards
            }),
            final(self).state == old(self).state,
            final(self).shuffle_deck_on_insert == old(self).shuffle_deck_on_insert,
            ok ==> exists|c: CardInfoMut<S>|
                {
                    let before = old(self).spec_public(id).unwrap();
                    &&& *c.instance == before
                    &&& (c.owner, c.zone) == old(self).public_zone(id).unwrap()
                    &&& (c.attachment is Some) == (before.attachment is Some)
                    &&& (c.attachment matches Some(x) ==> copy_of(old(self).spec_public(before.attachment.unwrap()).unwrap(), *x))
                    &&& c.log@.len() == 0
                    &&& #[trigger] f.ensures((c,), ())
                    &&& final(self).spec_public(id) == Some(CardInstance { id: before.id, attachment: before.attachment, ..*final(c.instance) })
                },
    {
        if id.0 >= self.instances.len() || self.instances[id.0].player().is_some() {
            proof {
                assert(log@.subrange(0, old(log)@.len() as int) =~= old(log)@);
            }
            return false;
        }
        let (owner, zone) = match self.try_location(id) {
            Some(l) => match l.location {
                Some((zone, _)) => (l.player, zone),
                None => {
                    proof {
                        assert(log@.subrange(0, old(log)@.len() as int) =~= old(log)@);
                    }
                    return false;
                },
            },
            None => {
                proof {
                    assert(log@.subrange(0, old(log)@.len() as int) =~= old(log)@);
                }
                return false;
            },
        };
        let before = match &self.instances[id.0] {
            InstanceOrPlayer::Instance(i) => i.clone(),
            InstanceOrPlayer::Player(_) => {
                return false;
            },
        };
        let attachment = match before.attachment {
            Some(a) => match self.public_instance(a) {
                Some(i) => Some(i.clone()),
                None => {
                    proof {
                        assert(log@.subrange(0, old(log)@.len() as int) =~= old(log)@);
                    }
                    return false;
                },
            },
            None => None,
        };
        let mut user_log: Vec<CardEvent<S>> = Vec::new();
        match &mut self.instances[id.0] {
            InstanceOrPlayer::Instance(instance) => {
                let saved_id = instance.id;
                let saved_attachment = instance.attachment;
                f(CardInfoMut { instance, owner, zone, attachment: attachment.as_ref(), log: &mut user_log });
                instance.id = saved_id;
                instance.attachment = saved_attachment;
            },
            InstanceOrPlayer::Player(_) => {},
        }
        let ghost log0 = log@;
        log.append(&mut user_log);
        let ghost log1 = log@;
        match &self.instances[id.0] {
            InstanceOrPlayer::Instance(after) => {
                if !before.eq(after) {
                    log.push(CardEvent::ModifyCard { instance: after.clone() });
                }
            },
            InstanceOrPlayer::Player(_) => {},
        }
        let ghost log2 = log@;
        let ghost mid = *self;
        let ok = self.resort_after_change(owner, zone, log);
        proof {
            assert(same_shape(old(self).instances@, mid.instances@)) by {
                assert forall|k: int| 0 <= k < old(self).instances@.len() && k != id.0 implies #[trigger] mid.instances@[k]
                    == old(self).instances@[k] by {}
            }
            lemma_modify_same_shape(*old(self), mid, owner, zone);
            assert(log1.subrange(0, log0.len() as int) =~= log0);
            assert(log2.subrange(0, log1.len() as int) =~= log1);
            assert(log@.subrange(0, log2.len() as int) == log2);
            assert(log@.subrange(0, old(log)@.len() as int) =~= old(log)@);
        }
        ok
    }

    /// Lets `f` change the public card `id` directly, with the log, and logs the change and
    /// the re-sorting of its owner's field as `modify_public` does. The card keeps its ID and
    /// attachment.
    pub fn modify_public_internal<F: FnOnce(&mut CardInstance<S>, &mut Vec<CardEvent<S>>)>(
        &mut self,
        id: InstanceID,
        f: F,
        log: &mut Vec<CardEvent<S>>,
    ) -> (ok: bool)
        requires
            forall|i: &mut CardInstance<S>, l: &mut Vec<CardEvent<S>>| #[trigger] f.requires((i, l)),
        ensures
            ok == old(self).modifiable_internally(id),
            ok ==> old(self).spec_public(id) is Some && old(self).public_zone(id) is Some,
            ok ==> final(self).spec_public(id) is Some,
            ok ==> final(self).spec_public(id).unwrap().id == old(self).spec_public(id).unwrap().id,
            ok ==> final(self).spec_public(id).unwrap().attachment == old(self).spec_public(id).unwrap().attachment,
            ok ==> final(self).instances@.len() == old(self).instances@.len(),
            ok ==> forall|j: int| 0 <= j < old(self).instances@.len() && j != id.0 ==> final(self).instances@[j] == old(self).instances@[j],
            final(log)@.subrange(0, old(log)@.len() as int) == old(log)@,
            old(self).spec_public(id) is None ==> !ok && *final(self) == *old(self),
            ok ==> ({
                let (owner, zone) = old(self).public_zone(id).unwrap();
                &&& old(self).resorts(zone) ==> resorted(*old(self), *final(self), owner)
                &&& !old(self).resorts(zone) ==> final(self).player_cards == old(self).player_cards
            }),
            final(self).state == old(self).state,
            final(self).shuffle_deck_on_insert == old(self).shuffle_deck_on_insert,
            ok ==> exists|i: &mut CardInstance<S>, l: &mut Vec<CardEvent<S>>|
                {
                    let before = old(self).spec_public(id).unwrap();
                    &&& *i == before
                    &&& l@.len() == 0
                    &&& #[trigger] f.ensures((i, l), ())
                    &&& final(self).spec_public(id) == Some(CardInstance { id: before.id, attachment: before.attachment, ..*final(i) })
                },
    {
        if id.0 >= self.instances.len() || self.instances[id.0].player().is_some() {
            proof {
                assert(log@.subrange(0, old(log)@.len() as int) =~= old(log)@);
            }
            return false;
        }
        let (owner, zone) = match self.try_location(id) {
            Some(l) => match l.location {
                Some((zone, _)) => (l.player, zone),
                None => {
                    proof {
                        assert(log@.subrange(0, old(log)@.len() as int) =~= old(log)@);
                    }
                    return false;
                },
            },
            None => {
                proof {
                    assert(log@.subrange(0, old(log)@.len() as int) =~= old(log)@);
                }
                return false;
            },
        };
        let before = match &self.instances[id.0] {
            InstanceOrPlayer::Instance(i) => i.clone(),
            InstanceOrPlayer::Player(_) => {
                return false;
            },
        };
        let mut user_log: Vec<CardEvent<S>> = Vec::new();
        match &mut self.instances[id.0] {
            InstanceOrPlayer::Instance(instance) => {
                let saved_id = instance.id;
                let saved_attachment = instance.attachment;
                f(instance, &mut user_log);
                instance.id = saved_id;
                instance.attachment = saved_attachment;
            },
            InstanceOrPlayer::Player(_) => {},
        }
        let ghost log0 = log@;
        log.append(&mut user_log);
        let ghost log1 = log@;
        match &self.instances[id.0] {
            InstanceOrPlayer::Instance(after) => {
                if !before.eq(after) {
                    log.push(CardEvent::ModifyCard { instance: after.clone() });
                }
            },
            InstanceOrPlayer::Player(_) => {},
        }
        let ghost log2 = log@;
        let ghost mid = *self;
        let ok = self.resort_after_change(owner, zone, log);
        proof {
            assert(same_shape(old(self).instances@, mid.instances@)) by {
                assert forall|k: int| 0 <= k < old(self).instances@.len() && k != id.0 implies #[trigger] mid.instances@[k]
                    == old(self).instances@[k] by {}
            }
            lemma_modify_same_shape(*old(self), mid, owner, zone);
            assert(log1.subrange(0, log0.len() as int) =~= log0);
            assert(log2.subrange(0, log1.len() as int) =~= log1);
            assert(log@.subrange(0, log2.len() as int) == log2);
            assert(log@.subrange(0, old(log)@.len() as int) =~= old(log)@);
        }
        ok
    }
}

impl<S: State> CardGame<S> {
    /// Where `card` is, for changing it: a public ID is changed publicly, an ID held in a
    /// secret by its holder, and a pointer needs its player's secret to tell first.
    pub fn modify_card_target(&self, card: Card) -> (r: ModifyTarget)
        ensures
            r == spec_modify_target(self.state, card),
    {
        match card {
            Card::Pointer(p) => ModifyTarget::Ask { player: p.player, index: p.index },
            Card::ID(id) => {
                if id.0 >= self.state.instances.len() {
                    return ModifyTarget::Invalid;
                }
                match &self.state.instances[id.0] {
                    InstanceOrPlayer::Instance(_) => ModifyTarget::Public { id },
                    InstanceOrPlayer::Player(owner) => ModifyTarget::Secret { player: *owner, card: Card::ID(id) },
                }
            },
        }
    }

    /// Where the card behind `player`'s pointer is, given their secret's answer: the pointer
    /// itself when their secret holds the card, else the card's ID.
    pub fn modify_card_resolved(&self, player: Player, answer: SecretAnswer<S>) -> (r: ModifyTarget)
        ensures
            match answer {
                SecretAnswer::Resolved(Card::Pointer(p)) => r == (ModifyTarget::Secret { player, card: Card::Pointer(p) }),
                SecretAnswer::Resolved(Card::ID(id)) => r == spec_modify_target(self.state, Card::ID(id)),
                _ => r is Invalid,
            },
    {
        match answer {
            SecretAnswer::Resolved(Card::Pointer(p)) => ModifyTarget::Secret { player, card: Card::Pointer(p) },
            SecretAnswer::Resolved(Card::ID(id)) => self.modify_card_target(Card::ID(id)),
            _ => ModifyTarget::Invalid,
        }
    }

    /// Lets `f` change the public card `id` (see `GameState::modify_public`), and returns the
    /// card with the log to tell everyone; `None` where the change cannot be made publicly.
    pub fn modify_card<F: FnOnce(CardInfoMut<S>)>(&mut self, id: InstanceID, f: F) -> (r: Option<(Card, Vec<Effect<S>>)>)
        requires
            forall|i: CardInfoMut<S>| #[trigger] f.requires((i,)),
        ensures
            r is Some <==> old(self).state.modifiable(id),
            r is Some ==> r->Some_0.0 == Card::ID(id),
            r is Some ==> final(self).state.spec_public(id) is Some,
            r is Some ==> final(self).state.spec_public(id).unwrap().id == old(self).state.spec_public(id).unwrap().id,
            r is Some ==> final(self).state.spec_public(id).unwrap().attachment == old(self).state.spec_public(id).unwrap().attachment,
            r is Some ==> final(self).state.instances@.len() == old(self).state.instances@.len(),
            r is Some ==> forall|j: int| 0 <= j < old(self).state.instances@.len() && j != id.0 ==> final(self).state.instances@[j]
                == old(self).state.instances@[j],
            old(self).state.spec_public(id) is None ==> r is None && *final(self) == *old(self),
            r is Some ==> ({
                let (owner, zone) = old(self).state.public_zone(id).unwrap();
                &&& old(self).state.resorts(zone) ==> resorted(old(self).state, final(self).state, owner)
                &&& !old(self).state.resorts(zone) ==> final(self).state.player_cards == old(self).state.player_cards
            }),
            r is Some ==> exists|c: CardInfoMut<S>|
                {
                    let before = old(self).state.spec_public(id).unwrap();
                    &&& *c.instance == before
                    &&& (c.owner, c.zone) == old(self).state.public_zone(id).unwrap()
                    &&& (c.attachment is Some) == (before.attachment is Some)
                    &&& (c.attachment matches Some(x) ==> copy_of(old(self).state.spec_public(before.attachment.unwrap()).unwrap(), *x))
                    &&& c.log@.len() == 0
                    &&& #[trigger] f.ensures((c,), ())
                    &&& final(self).state.spec_public(id) == Some(
                        CardInstance { id: before.id, attachment: before.attachment, ..*final(c.instance) },
                    )
                },
    {
        let mut log: Vec<CardEvent<S>> = Vec::new();
        if self.state.modify_public(id, f, &mut log) {
            let mut effects: Vec<Effect<S>> = Vec::new();
            push_logs(&mut effects, log);
            Some((Card::ID(id), effects))
        } else {
            None
        }
    }

    /// Lets `f` change the public card `id` directly (see `GameState::modify_public_internal`),
    /// returning the log to tell everyone; `None` where the change cannot be made publicly.
    pub fn modify_card_internal<F: FnOnce(&mut CardInstance<S>, &mut Vec<CardEvent<S>>)>(
        &mut self,
        id: InstanceID,
        f: F,
    ) -> (r: Option<Vec<Effect<S>>>)
        requires
            forall|i: &mut CardInstance<S>, l: &mut Vec<CardEvent<S>>| #[trigger] f.requires((i, l)),
        ensures
            r is Some <==> old(self).state.modifiable_internally(id),
            r is Some ==> final(self).state.spec_public(id) is Some,
            old(self).state.spec_public(id) is None ==> r is None && *final(self) == *old(self),
            r is Some ==> ({
                let (owner, zone) = old(self).state.public_zone(id).unwrap();
                &&& old(self).state.resorts(zone) ==> resorted(old(self).state, final(self).state, owner)
                &&& !old(self).state.resorts(zone) ==> final(self).state.player_cards == old(self).state.player_cards
            }),
            r is Some ==> exists|i: &mut CardInstance<S>, l: &mut Vec<CardEvent<S>>|
                {
                    let before = old(self).state.spec_public(id).unwrap();
                    &&& *i == before
                    &&& l@.len() == 0
                    &&& #[trigger] f.ensures((i, l), ())
                    &&& final(self).state.spec_public(id) == Some(
                        CardInstance { id: before.id, attachment: before.attachment, ..*final(i) },
                    )
                },
    {
        let mut log: Vec<CardEvent<S>> = Vec::new();
        if self.state.modify_public_internal(id, f, &mut log) {
            let mut effects: Vec<Effect<S>> = Vec::new();
            push_logs(&mut effects, log);
            Some(effects)
        } else {
            None
        }
    }

    /// Gives the public card `id` the kind `new_base`, returning the log to tell everyone;
    /// `None` where the change cannot be made publicly.
    pub fn change_base_card(&mut self, id: InstanceID, new_base: S::BaseCard) -> (r: Option<Vec<Effect<S>>>)
        ensures
            r is Some ==> final(self).state.spec_public(id) == Some(CardInstance { base: new_base, ..old(self).state.spec_public(id).unwrap() }),
            r is Some <==> old(self).state.modifiable_internally(id),
            r is Some ==> final(self).state.spec_public(id) is Some,
            old(self).state.spec_public(id) is None ==> r is None && *final(self) == *old(self),
    {
        let ghost kind = new_base;
        let f = move |instance: &mut CardInstance<S>, log: &mut Vec<CardEvent<S>>|
            ensures
                *final(instance) == (CardInstance { base: kind, ..*old(instance) }),
            {
                instance.base = new_base;
            };
        self.modify_card_internal(id, f)
    }
}

/// `event` tells of a change to `instance`: a `CardEvent::ModifyCard` with its ID and
/// attachment.
pub open spec fn modify_event_of<S: State>(event: CardEvent<S>, instance: CardInstance<S>) -> bool {
    event matches CardEvent::ModifyCard { instance: i } && i.id == instance.id && i.attachment == instance.attachment
}

impl<S: State> PlayerSecret<S> {
    /// The instance of `card` in this secret, to change in place.
    pub(crate) fn instance_mut(&mut self, card: Card) -> (r: Option<&mut CardInstance<S>>)
        requires
            old(self).resolvable(card),
        ensures
            r is Some <==> old(self).spec_instance(card) is Some,
            r is None ==> *final(self) == *old(self),
            r matches Some(x) ==> {
                let k = old(self).slot(old(self).spec_id(card).unwrap());
                &&& *x == old(self).spec_instance(card).unwrap()
                &&& final(self).instances@ == old(self).instances@.update(k, *final(x))
                &&& *final(self) == (PlayerSecret { instances: final(self).instances, ..*old(self) })
            },
    {
        match self.id(card) {
            Some(id) => match self.slot_of(id) {
                Some(k) => Some(&mut self.instances[k]),
                None => None,
            },
            None => None,
        }
    }

    /// Lets `f` change the instance of `card` in this secret directly, with the log, and logs
    /// the change. The instance keeps its ID and attachment.
    pub fn modify_card_internal<F: FnOnce(&mut CardInstance<S>, &mut Vec<CardEvent<S>>)>(
        &mut self,
        card: Card,
        log: &mut Vec<CardEvent<S>>,
        f: F,
    )
        requires
            old(self).wf(),
            old(self).resolvable(card),
            old(self).spec_instance(card) is Some,
            forall|i: &mut CardInstance<S>, l: &mut Vec<CardEvent<S>>| #[trigger] f.requires((i, l)),
        ensures
            ({
                let k = old(self).slot(old(self).spec_id(card).unwrap());
                &&& final(self).wf()
                &&& final(self).instances@.len() == old(self).instances@.len()
                &&& final(self).ids() == old(self).ids()
                &&& final(self).instances@[k].attachment == old(self).instances@[k].attachment
                &&& forall|j: int|
                    0 <= j < old(self).instances@.len() && j != k ==> final(self).instances@[j]
                        == old(self).instances@[j]
                &&& *final(self) == (PlayerSecret { instances: final(self).instances, ..*old(self) })
                &&& final(log)@.subrange(0, old(log)@.len() as int) == old(log)@
                &&& exists|i: &mut CardInstance<S>, l: &mut Vec<CardEvent<S>>|
                    {
                        &&& *i == old(self).instances@[k]
                        &&& l@.len() == 0
                        &&& f.ensures((i, l), ())
                        &&& final(self).instances@[k] == (CardInstance {
                            id: old(self).instances@[k].id,
                            attachment: old(self).instances@[k].attachment,
                            ..*final(i)
                        })
                        &&& final(log)@.subrange(0, (old(log)@.len() + final(l)@.len()) as int) == old(log)@ + final(l)@
                        &&& final(log)@.len() == old(log)@.len() + final(l)@.len() || (final(log)@.len()
                            == old(log)@.len() + final(l)@.len() + 1 && modify_event_of(
                            final(log)@.last(),
                            final(self).instances@[k],
                        ))
                    }
            }),
    {
        let id = self.id(card).unwrap();
        let k = self.slot_of(id).unwrap();
        let before = self.instances[k].clone();
        let mut user_log: Vec<CardEvent<S>> = Vec::new();
        {
            let instance = &mut self.instances[k];
            let saved_id = instance.id;
            let saved_attachment = instance.attachment;
            f(instance, &mut user_log);
            instance.id = saved_id;
            instance.attachment = saved_attachment;
        }
        let ghost user = user_log@;
        let ghost log0 = log@;
        log.append(&mut user_log);
        let ghost log1 = log@;
        if !before.eq(&self.instances[k]) {
            let event = CardEvent::ModifyCard { instance: self.instances[k].clone() };
            log.push(event);
        }
        proof {
            assert(log1 =~= log0 + user);
            assert(log1.subrange(0, log0.len() as int) =~= log0);
            assert(final(log)@.subrange(0, old(log)@.len() as int) =~= old(log)@);
            assert(self.ids() =~= old(self).ids());
            assert(self.attachments() =~= old(self).attachments());
            assert forall|j: int|
                0 <= j < self.instances.len() && (#[trigger] self.instances@[j]).attachment is Some implies self.has(
                self.instances@[j].attachment.unwrap(),
            ) by {
                assert(self.attachments()[j] == old(self).attachments()[j]);
                assert(old(self).instances@[j].attachment == self.instances@[j].attachment);
            }
            assert forall|j: int, l: int|
                0 <= j < self.instances.len() && 0 <= l < self.instances.len()
                    && (#[trigger] self.instances@[j]).attachment is Some && self.instances@[j].attachment
                    == (#[trigger] self.instances@[l]).attachment implies j == l by {
                assert(self.attachments()[j] == old(self).attachments()[j]);
                assert(self.attachments()[l] == old(self).attachments()[l]);
                assert(old(self).instances@[j].attachment == self.instances@[j].attachment);
                assert(old(self).instances@[l].attachment == self.instances@[l].attachment);
            }
        }
    }
}

} // verus!
