//! Card operations that need the players' secrets, written as steps: each step changes the
//! public state, lists what must be done to the secrets and the logs, and either asks one
//! player's secret a question (and resumes with the answer) or finishes.

use vstd::prelude::*;

use crate::error::MoveCardError;
use crate::game_state::InstanceOrPlayer;
use crate::player_secret::copy_ids;
use crate::secret_protocol::{SecretChange, SecretQuery};
use crate::{Card, CardEvent, CardInstance, CardLocation, ExactCardLocation, GameState, InstanceID, Player, State, Zone};

verus! {

/// Something an operation needs done outside the public state.
pub enum Effect<S: State> {
    /// Log `event` to everyone.
    Log { event: CardEvent<S> },
    /// Apply `change` to `player`'s secret; what the secret logs goes to that player.
    Mutate { player: Player, change: SecretChange<S> },
    /// Apply `change` to `player`'s secret, and log `event` to everyone else.
    MutateOrLog { player: Player, change: SecretChange<S>, event: CardEvent<S> },
}

/// The outcome of one step of an operation.
pub enum Step<S: State, T> {
    /// Perform `effects` in order, then ask `player`'s secret `query` and resume with the answer.
    Reveal { effects: Vec<Effect<S>>, player: Player, query: SecretQuery },
    /// Perform `effects` in order; the operation is over and returns `result`.
    Done { effects: Vec<Effect<S>>, result: T },
    /// Perform `effects` in order; the operation cannot go on: the state, or an answer, is
    /// not one it can work with.
    Failed { effects: Vec<Effect<S>> },
}

/// What `move_card` returns: where the card came from (as the public knows it) and its ID
/// when that was revealed.
pub type MoveResult = Result<(CardLocation, Option<InstanceID>), MoveCardError>;

/// The player whose secret holds cards in `zone` of `player`, or `None` for public zones.
pub open spec fn spec_bucket_of(zone: Zone, player: Player) -> Option<Player> {
    match zone {
        Zone::Deck => Some(player),
        Zone::Hand { public } => if public {
            None
        } else {
            Some(player)
        },
        Zone::Limbo { public } => if public {
            None
        } else {
            Some(player)
        },
        Zone::CardSelection => Some(player),
        Zone::Dust { public } => if public {
            None
        } else {
            Some(player)
        },
        _ => None,
    }
}

pub fn bucket_of(zone: Zone, player: Player) -> (r: Option<Player>)
    ensures
        r == spec_bucket_of(zone, player),
{
    match zone {
        Zone::Deck => Some(player),
        Zone::Hand { public } => if public {
            None
        } else {
            Some(player)
        },
        Zone::Limbo { public } => if public {
            None
        } else {
            Some(player)
        },
        Zone::CardSelection => Some(player),
        Zone::Dust { public } => if public {
            None
        } else {
            Some(player)
        },
        _ => None,
    }
}

/// How far a `MoveCard` has got.
pub enum MovePhase {
    AwaitBucket,
    AwaitId,
    AwaitLocation,
    AwaitInstance,
    Finished,
}

/// A `move_card` in progress: moving `card` to `to_zone` of `to_player`.
pub struct MoveCard {
    pub card: Card,
    pub to_player: Player,
    pub to_zone: Zone,
    pub to_bucket: Option<Player>,
    pub old_field: Option<Vec<InstanceID>>,
    pub bucket: Option<Player>,
    pub owner: Player,
    pub id: Option<InstanceID>,
    pub location: Option<(Zone, Option<usize>)>,
    pub phase: MovePhase,
}

impl<S: State> GameState<S> {
    /// The bucket (public, or the player whose secret holds it) and the owner of every
    /// instance; `None` when some instance has no determined location.
    pub fn buckets(&self) -> (r: Option<Vec<(Option<Player>, Player)>>)
        ensures
            r matches Some(b) ==> b@.len() == self.instances@.len() && (forall|i: int|
                0 <= i < b@.len() ==> #[trigger] self.spec_location(InstanceID(i as usize)) is Some)
                && forall|i: int|
                0 <= i < b@.len() ==> #[trigger] b@[i] == (
                    match self.instances@[i] {
                        InstanceOrPlayer::Instance(_) => None,
                        InstanceOrPlayer::Player(p) => Some(p),
                    },
                    self.spec_location(InstanceID(i as usize)).unwrap().player,
                ),
            r is None ==> exists|i: int|
                0 <= i < self.instances@.len() && #[trigger] self.spec_location(
                    InstanceID(i as usize),
                ) is None,
    {
        let mut b: Vec<(Option<Player>, Player)> = Vec::new();
        let mut i: usize = 0;
        while i < self.instances.len()
            invariant
                0 <= i <= self.instances.len(),
                b@.len() == i,
                forall|j: int| 0 <= j < i ==> #[trigger] self.spec_location(InstanceID(j as usize)) is Some,
                forall|j: int|
                    0 <= j < i ==> #[trigger] b@[j] == (
                        match self.instances@[j] {
                            InstanceOrPlayer::Instance(_) => None,
                            InstanceOrPlayer::Player(p) => Some(p),
                        },
                        self.spec_location(InstanceID(j as usize)).unwrap().player,
                    ),
            decreases self.instances.len() - i,
        {
            let owner = match self.try_location(InstanceID(i)) {
                Some(l) => l.player,
                None => {
                    proof {
                        assert(self.spec_location(InstanceID((i as int) as usize)) is None);
                    }
                    return None;
                },
            };
            b.push((self.instances[i].player(), owner));
            i = i + 1;
        }
        Some(b)
    }

    /// Detaches the public attachment `attach` from the public card `parent`: the game's
    /// detach hook runs, the parent's change is logged, and the field of the parent's owner is
    /// re-sorted when the parent is on it or attached to a card on it. Fails where that field
    /// holds a card that is not public, or the parent is not a public card with a location.
    pub fn detach_public(
        &mut self,
        parent: InstanceID,
        attach: &CardInstance<S>,
        log: &mut Vec<CardEvent<S>>,
    ) -> (ok: bool)
        ensures
            final(log)@.subrange(0, old(log)@.len() as int) == old(log)@,
            ok ==> final(self).spec_public(parent) is Some,
            ok ==> final(self).spec_public(parent).unwrap().attachment is None,
            ok ==> final(self).spec_public(parent).unwrap().id == old(self).spec_public(
                parent,
            ).unwrap().id,
            final(self).instances@.len() == old(self).instances@.len(),
            ok ==> forall|j: int|
                0 <= j < old(self).instances@.len() && j != parent.0 ==> final(self).instances@[j]
                    == old(self).instances@[j],
            crate::attach_card::attach_target_ok(*old(self), parent) ==> ok,
            crate::attach_card::attach_target_ok(*old(self), parent) ==> final(self).player_cards == old(self).player_cards,
            ok ==> exists|i: &mut CardInstance<S>|
                {
                    let before = old(self).spec_public(parent).unwrap();
                    &&& *i == (CardInstance { attachment: None, ..before })
                    &&& #[trigger] call_ensures(S::on_detach, (i, attach), ())
                    &&& final(self).spec_public(parent) == Some(CardInstance { id: before.id, attachment: None, ..*final(i) })
                },
    {
        if parent.0 >= self.instances.len() {
            return false;
        }
        let location = match self.try_location(parent) {
            Some(l) => l,
            None => {
                return false;
            },
        };
        let zone = match location.location {
            Some((zone, _)) => zone,
            None => {
                return false;
            },
        };
        let owner = location.player;
        let before = match &self.instances[parent.0] {
            InstanceOrPlayer::Instance(i) => i.clone(),
            InstanceOrPlayer::Player(_) => {
                return false;
            },
        };
        match &mut self.instances[parent.0] {
            InstanceOrPlayer::Instance(instance) => {
                let id = instance.id;
                instance.attachment = None;
                S::on_detach(instance, attach);
                instance.attachment = None;
                instance.id = id;
            },
            InstanceOrPlayer::Player(_) => {},
        }
        let ghost log0 = log@;
        let ghost mid = *self;
        match &self.instances[parent.0] {
            InstanceOrPlayer::Instance(after) => {
                if !before.eq(after) {
                    log.push(CardEvent::ModifyCard { instance: after.clone() });
                }
            },
            InstanceOrPlayer::Player(_) => {},
        }
        let ghost log1 = log@;
        let resort = match zone {
            Zone::Field => true,
            Zone::Attachment { parent: Card::ID(grandparent) } => {
                match self.try_location(grandparent) {
                    Some(l) => match l.location {
                        Some((Zone::Field, _)) => true,
                        _ => false,
                    },
                    None => false,
                }
            },
            _ => false,
        };
        if resort {
            if owner >= 2 || !self.is_field_public(owner) {
                proof {
                    assert(final(log)@.subrange(0, old(log)@.len() as int) =~= old(log)@);
                }
                return false;
            }
            let old_field = copy_ids(&self.player_cards(owner).field);
            self.sort_field(owner, &old_field, true, log);
        }
        proof {
            assert(log1.subrange(0, log0.len() as int) =~= log0);
            assert(final(log)@.subrange(0, old(log)@.len() as int) =~= old(log)@);
        }
        true
    }

    /// Whether every card of `player`'s field is public, and so are their attachments.
    pub fn is_field_public(&self, player: Player) -> (r: bool)
        requires
            player < 2,
        ensures
            r == self.field_public(player),
    {
        let field = &self.player_cards(player).field;
        let mut i: usize = 0;
        while i < field.len()
            invariant
                0 <= i <= field.len(),
                *field == self.player_cards@[player as int].field,
                forall|j: int| 0 <= j < i ==> #[trigger] self.public_with_attachment(field@[j]),
            decreases field.len() - i,
        {
            let id = field[i];
            match self.public_instance(id) {
                Some(inst) => {
                    match inst.attachment {
                        Some(a) => {
                            if self.public_instance(a).is_none() {
                                proof {
                                    assert(!self.public_with_attachment(field@[i as int]));
                                }
                                return false;
                            }
                        },
                        None => {},
                    }
                },
                None => {
                    proof {
                        assert(!self.public_with_attachment(field@[i as int]));
                    }
                    return false;
                },
            }
            i = i + 1;
        }
        true
    }

    /// Attaches the instance `new_attach` (ID `card_id`) to the public card `parent`: sets the
    /// parent's attachment, logs the move `from` to `to`, runs the game's attach hook, logs the
    /// parent's change, and re-sorts the field of the parent's owner when the parent is on it
    /// or attached to a card on it. Fails where the parent is not a public card with a zone,
    /// or that field holds a card that is not public.
    pub fn attach_public(
        &mut self,
        parent: InstanceID,
        card_id: InstanceID,
        new_attach: &CardInstance<S>,
        from: CardLocation,
        to: ExactCardLocation,
        log: &mut Vec<CardEvent<S>>,
    ) -> (ok: bool)
        ensures
            final(log)@.subrange(0, old(log)@.len() as int) == old(log)@,
            ok ==> final(log)@.len() > old(log)@.len(),
            ok ==> (match final(log)@[old(log)@.len() as int] {
                CardEvent::MoveCard { instance: Some((i, None)), from: f, to: t } => i.id == new_attach.id && f == from && t == to,
                _ => false,
            }),
            ok ==> final(self).spec_public(parent) is Some,
            ok ==> final(self).spec_public(parent).unwrap().attachment == Some(card_id),
            final(self).instances@.len() == old(self).instances@.len(),
            forall|j: int| 0 <= j < old(self).instances@.len() && j != parent.0 ==> final(self).instances@[j] == old(self).instances@[j],
            crate::attach_card::attach_target_ok(*old(self), parent) ==> ok,
            ok ==> exists|i: &mut CardInstance<S>|
                {
                    let before = old(self).spec_public(parent).unwrap();
                    &&& *i == (CardInstance { attachment: Some(card_id), ..before })
                    &&& #[trigger] call_ensures(S::on_attach, (i, new_attach), ())
                    &&& final(self).spec_public(parent) == Some(CardInstance { id: before.id, attachment: Some(card_id), ..*final(i) })
                },
    {
        if parent.0 >= self.instances.len() {
            return false;
        }
        let location = match self.try_location(parent) {
            Some(l) => l,
            None => {
                return false;
            },
        };
        let zone = match location.location {
            Some((zone, _)) => zone,
            None => {
                return false;
            },
        };
        let owner = location.player;
        let before = match &self.instances[parent.0] {
            InstanceOrPlayer::Instance(i) => i.clone(),
            InstanceOrPlayer::Player(_) => {
                return false;
            },
        };
        let ghost log0 = log@;
        match &mut self.instances[parent.0] {
            InstanceOrPlayer::Instance(instance) => {
                let id = instance.id;
                instance.attachment = Some(card_id);
                log.push(CardEvent::MoveCard { instance: Some((new_attach.clone(), None)), from, to });
                S::on_attach(instance, new_attach);
                instance.id = id;
                instance.attachment = Some(card_id);
            },
            InstanceOrPlayer::Player(_) => {},
        }
        let ghost log1 = log@;
        match &self.instances[parent.0] {
            InstanceOrPlayer::Instance(after) => {
                if !before.eq(after) {
                    log.push(CardEvent::ModifyCard { instance: after.clone() });
                }
            },
            InstanceOrPlayer::Player(_) => {},
        }
        let ghost log2 = log@;
        let ghost mid = *self;
        let resort = match zone {
            Zone::Field => true,
            Zone::Attachment { parent: Card::ID(grandparent) } => {
                match self.try_location(grandparent) {
                    Some(l) => match l.location {
                        Some((Zone::Field, _)) => true,
                        _ => false,
                    },
                    None => false,
                }
            },
            _ => false,
        };
        if resort {
            if owner >= 2 || !self.is_field_public(owner) {
                proof {
                    assert(log1.subrange(0, log0.len() as int) =~= log0);
                    assert(log2.subrange(0, log1.len() as int) =~= log1);
                    assert(final(log)@.subrange(0, old(log)@.len() as int) =~= old(log)@);
                }
                return false;
            }
            let old_field = copy_ids(&self.player_cards(owner).field);
            self.sort_field(owner, &old_field, true, log);
        }
        proof {
            assert(log1.subrange(0, log0.len() as int) =~= log0);
            assert(log2.subrange(0, log1.len() as int) =~= log1);
            assert(final(log)@.subrange(0, log2.len() as int) == log2);
            assert(final(log)@.subrange(0, old(log)@.len() as int) =~= old(log)@);
            assert(final(log)@[old(log)@.len() as int] == log1[old(log)@.len() as int]);
        }
        true
    }
}

} // verus!
