//! Moving a card to a zone that is not an attachment: the public side, step by step.

use vstd::prelude::*;

use crate::card_game::{bucket_of, spec_bucket_of, Effect, MoveCard, MovePhase, MoveResult, Step};
use crate::error::MoveCardError;
use crate::game_public::field_order_total;
use crate::game_state::InstanceOrPlayer;
use crate::player_secret::copy_ids;
use crate::secret_protocol::{SecretAnswer, SecretChange, SecretQuery};
use crate::{Card, CardEvent, CardInstance, CardLocation, ExactCardLocation, GameState, InstanceID, Player, PlayerCards, State, Zone};
use crate::secret_move::within_public;
use crate::secret_entry::{enterable, lemma_pile_to_secret_steps, move_in_done, pile_to_secret, secret_added};
use crate::secret_protocol::is_secret_zone;
use crate::pile_move::{
    is_pile, lemma_pile_added_reorder, lemma_pile_location, lemma_pile_moved_steps, pile, pile_added, pile_location, pile_move_done,
    pile_moved, pile_removed,
};

verus! {

/// A copy of an optional location.
fn copy_location(l: &Option<(Zone, Option<usize>)>) -> (r: Option<(Zone, Option<usize>)>)
    ensures
        r == *l,
{
    *l
}

/// The card to ask a secret about: its ID when known, else the pointer.
pub open spec fn spec_target(card: Card, id: Option<InstanceID>) -> Card {
    match id {
        Some(i) => Card::ID(i),
        None => card,
    }
}

fn target(card: Card, id: Option<InstanceID>) -> (r: Card)
    ensures
        r == spec_target(card, id),
{
    match id {
        Some(i) => Card::ID(i),
        None => card,
    }
}

impl MoveCard {
    /// `self` moves the same card to the same place as `other`.
    pub open spec fn same_request(self, other: MoveCard) -> bool {
        &&& self.card == other.card
        &&& self.to_player == other.to_player
        &&& self.to_zone == other.to_zone
        &&& self.to_bucket == other.to_bucket
    }

    /// The move takes the public card `id` out of its position in a public pile of the
    /// public state `game`, into a public pile.
    pub open spec fn pile_request<S: State>(self, game: GameState<S>) -> bool {
        &&& self.bucket is None
        &&& self.to_bucket is None
        &&& self.id is Some
        &&& self.owner < 2
        &&& self.location is Some && self.location.unwrap().1 is Some
        &&& is_pile(self.location.unwrap().0)
        &&& is_pile(self.to_zone)
        &&& self.location.unwrap().1.unwrap() < pile(game.player_cards@[self.owner as int], self.location.unwrap().0).len()
        &&& pile(game.player_cards@[self.owner as int], self.location.unwrap().0)[self.location.unwrap().1.unwrap() as int]
            == self.id.unwrap()
    }

    /// What a finished `pile_request` did to the public state: the card left its pile for the
    /// destination pile, and the instance table is unchanged.
    pub open spec fn pile_done<S: State>(self, before: GameState<S>, after: GameState<S>) -> bool {
        &&& after.instances == before.instances
        &&& pile_moved(
            before.player_cards@,
            after.player_cards@,
            self.id.unwrap(),
            self.owner,
            self.location.unwrap().0,
            self.to_player,
            self.to_zone,
        )
    }

    /// The move takes the public card `id`, without an attachment, out of its position in a
    /// public pile of the public state `game` into the secret zone `to_zone` of `to_player`,
    /// with the instance table already giving the card to `to_player`.
    pub open spec fn entry_request<S: State>(self, game: GameState<S>, instance: Option<CardInstance<S>>) -> bool {
        &&& self.bucket is None
        &&& self.to_bucket == Some(self.to_player)
        &&& self.to_player < 2
        &&& self.id is Some
        &&& instance matches Some(i) && i.id == self.id.unwrap()
        &&& self.owner < 2
        &&& self.location is Some && self.location.unwrap().1 is Some
        &&& is_pile(self.location.unwrap().0)
        &&& is_secret_zone(self.to_zone)
        &&& self.location.unwrap().1.unwrap() < pile(game.player_cards@[self.owner as int], self.location.unwrap().0).len()
        &&& pile(game.player_cards@[self.owner as int], self.location.unwrap().0)[self.location.unwrap().1.unwrap() as int]
            == self.id.unwrap()
        &&& self.id.unwrap().0 < game.instances@.len()
        &&& game.instances@[self.id.unwrap().0 as int] == InstanceOrPlayer::<S>::Player(self.to_player)
    }

    /// The move takes the public card `id`, an instance of the table that carries its own ID
    /// and has no attachment, out of its position in a public pile of `game` into the secret
    /// zone `to_zone` of `to_player`.
    pub open spec fn entering<S: State>(self, game: GameState<S>) -> bool {
        &&& self.bucket is None
        &&& self.to_bucket == Some(self.to_player)
        &&& self.to_player < 2
        &&& self.id is Some
        &&& self.owner < 2
        &&& self.location is Some && self.location.unwrap().1 is Some
        &&& is_pile(self.location.unwrap().0)
        &&& is_secret_zone(self.to_zone)
        &&& self.location.unwrap().1.unwrap() < pile(game.player_cards@[self.owner as int], self.location.unwrap().0).len()
        &&& pile(game.player_cards@[self.owner as int], self.location.unwrap().0)[self.location.unwrap().1.unwrap() as int]
            == self.id.unwrap()
        &&& self.id.unwrap().0 < game.instances@.len()
        &&& game.instances@[self.id.unwrap().0 as int] matches InstanceOrPlayer::Instance(inst) && inst.id == self.id.unwrap()
            && inst.attachment is None
    }

    /// What a finished move that was `entering` did to the public state: the table gives the
    /// card to `to_player`, and it left its pile for the secret zone.
    pub open spec fn entered<S: State>(self, before: GameState<S>, after: GameState<S>) -> bool {
        &&& after.instances@ == before.instances@.update(self.id.unwrap().0 as int, InstanceOrPlayer::Player(self.to_player))
        &&& pile_to_secret(
            before.player_cards@,
            after.player_cards@,
            self.id.unwrap(),
            self.owner,
            self.location.unwrap().0,
            self.to_player,
            self.to_zone,
        )
    }

    /// What a finished `entry_request` did to the public record: the card left its pile for
    /// the secret zone.
    pub open spec fn entry_done<S: State>(self, before: GameState<S>, after: GameState<S>) -> bool {
        &&& after.instances@ == before.instances@
        &&& pile_to_secret(
            before.player_cards@,
            after.player_cards@,
            self.id.unwrap(),
            self.owner,
            self.location.unwrap().0,
            self.to_player,
            self.to_zone,
        )
    }

    /// What a finished move within the secret of `to_player` did to the public state: their
    /// record of zones changed as `within_public` says, and nothing else.
    pub open spec fn within_done<S: State>(self, before: GameState<S>, after: GameState<S>) -> bool {
        &&& self.to_player < 2
        &&& after.instances == before.instances
        &&& within_public(
            before.player_cards@[self.to_player as int],
            after.player_cards@[self.to_player as int],
            self.location,
            self.to_zone,
        )
        &&& after.player_cards@[1 - self.to_player] == before.player_cards@[1 - self.to_player]
    }

    /// Starts moving `card` to `to_zone` of `to_player`; `to_zone` is not an attachment zone.
    /// Moving a public card by its ID asks no secret anything.
    pub fn start<S: State>(game: &mut GameState<S>, card: Card, to_player: Player, to_zone: Zone) -> (r: (
        MoveCard,
        Step<S, MoveResult>,
    ))
        ensures
            sorts_field(to_zone, to_player, r.1, *final(game)),
            final(game).instances@.len() == old(game).instances@.len(),
            r.0.card == card,
            r.0.to_player == to_player,
            r.0.to_zone == to_zone,
            r.0.to_bucket == spec_bucket_of(to_zone, to_player),
            (card matches Card::ID(id) && id.0 < old(game).instances@.len() && old(game).instances@[id.0 as int] is Instance)
                ==> !(r.1 is Reveal),
            (card is ID && card->ID_0.0 < old(game).instances@.len() && old(game).instances@[card->ID_0.0 as int] is Instance)
                ==> (r.1 matches Step::Done { result, .. } ==> (result matches Ok((from, Some(_))) && old(game).spec_location(card->ID_0) == Some(from))),
            lands_in(r.1, final(game).player_cards@, to_player, to_zone),
            (card is ID && card->ID_0.0 < old(game).instances@.len() && old(game).instances@[card->ID_0.0 as int] is Instance)
                ==> done_with(r.1, card->ID_0),
            (card is ID && card->ID_0.0 < old(game).instances@.len() && old(game).instances@[card->ID_0.0 as int] is Instance
                && is_pile(to_zone) && pile_location(*old(game), card->ID_0) is Some && r.1 is Done)
                ==> pile_move_done(*old(game), *final(game), card->ID_0, to_player, to_zone),
            (card is ID && is_secret_zone(to_zone) && to_player < 2 && enterable(*old(game), card->ID_0) && r.1 is Done)
                ==> move_in_done(*old(game), *final(game), card->ID_0, to_player, to_zone),
            (card is ID && is_pile(to_zone) && to_player < 2 && pile_location(*old(game), card->ID_0) is Some
                && old(game).public_with_attachment(card->ID_0) && (to_zone == Zone::Field ==> old(game).field_public(to_player)))
                ==> r.1 is Done,
            (card is ID && is_secret_zone(to_zone) && to_player < 2 && enterable(*old(game), card->ID_0)
                && room_in(old(game).player_cards@[to_player as int], to_zone)) ==> r.1 is Done,
            card is Pointer && !(to_zone is Attachment) && to_player < 2 ==> r.1 is Reveal ==> (
            match r.1 {
                Step::Reveal { player, query, .. } => player == card->Pointer_0.player && query is PointerBucket,
                _ => false,
            }),
            (card is ID && card->ID_0.0 < old(game).instances@.len() && old(game).instances@[card->ID_0.0 as int] is Instance)
                ==> logs_move(
                r.1,
                old(game).spec_location(card->ID_0).unwrap(),
                to_player,
                to_zone,
                if is_pile(to_zone) && pile_location(*old(game), card->ID_0) is Some
                    && old(game).spec_public(card->ID_0).unwrap().id == card->ID_0 {
                    Some(card->ID_0)
                } else {
                    None
                },
            ),
            (card is ID && old(game).spec_public(card->ID_0) is Some && detachable(*old(game), card->ID_0, to_player, to_zone)) ==> (r.1 is Done
                && (final(game).spec_public(attached_to(*old(game), card->ID_0).unwrap()) matches Some(i) && i.attachment is None)),
    {
        let to_bucket = bucket_of(to_zone, to_player);
        let mut machine = MoveCard {
            card,
            to_player,
            to_zone,
            to_bucket,
            old_field: None,
            bucket: None,
            owner: 0,
            id: None,
            location: None,
            phase: MovePhase::Finished,
        };
        if to_player >= 2 {
            return (machine, Step::Failed { effects: Vec::new() });
        }
        if let Zone::Attachment { .. } = to_zone {
            return (machine, Step::Failed { effects: Vec::new() });
        }
        if let Zone::Field = to_zone {
            machine.old_field = Some(copy_ids(&game.player_cards(to_player).field));
        }
        match card {
            Card::Pointer(p) => {
                let buckets = match game.buckets() {
                    Some(b) => b,
                    None => {
                        return (machine, Step::Failed { effects: Vec::new() });
                    },
                };
                machine.phase = MovePhase::AwaitBucket;
                (
                    machine,
                    Step::Reveal {
                        effects: Vec::new(),
                        player: p.player,
                        query: SecretQuery::PointerBucket { index: p.index, buckets },
                    },
                )
            },
            Card::ID(id) => {
                if id.0 >= game.instances.len() {
                    return (machine, Step::Failed { effects: Vec::new() });
                }
                let owner = match game.try_location(id) {
                    Some(l) => l.player,
                    None => {
                        return (machine, Step::Failed { effects: Vec::new() });
                    },
                };
                machine.bucket = game.instances[id.0].player();
                machine.owner = owner;
                let step = machine.after_bucket(game, Vec::new());
                (machine, step)
            },
        }
    }

    /// Resumes with `player`'s answer to the last question.
    pub fn resume<S: State>(&mut self, game: &mut GameState<S>, answer: SecretAnswer<S>) -> (r: Step<
        S,
        MoveResult,
    >)
        ensures
            sorts_field(old(self).to_zone, old(self).to_player, r, *final(game)),
            final(game).instances@.len() == old(game).instances@.len(),
            final(self).same_request(*old(self)),
            lands_in(r, final(game).player_cards@, old(self).to_player, old(self).to_zone),
            (old(self).phase is AwaitLocation && answer is Location && old(self).bucket == Some(old(self).to_player)
                && old(self).to_bucket == old(self).bucket && secret_location(answer->Location_0) && r is Done)
                ==> final(self).location == answer->Location_0 && final(self).within_done(*old(game), *final(game)),
            move_resumed(*old(self), *old(game), *final(game), answer, r),
    {
        match self.phase {
            MovePhase::AwaitBucket => match answer {
                SecretAnswer::Bucket(bucket, owner) => {
                    self.bucket = bucket;
                    self.owner = owner;
                    self.after_bucket(game, Vec::new())
                },
                _ => Step::Failed { effects: Vec::new() },
            },
            MovePhase::AwaitId => match answer {
                SecretAnswer::Id(id) => {
                    self.id = Some(id);
                    self.after_id(game, Vec::new())
                },
                _ => Step::Failed { effects: Vec::new() },
            },
            MovePhase::AwaitLocation => match answer {
                SecretAnswer::Location(location) => {
                    self.location = location;
                    self.after_location(game, Vec::new())
                },
                _ => Step::Failed { effects: Vec::new() },
            },
            MovePhase::AwaitInstance => match answer {
                SecretAnswer::Instances(instance, attachment) => {
                    let player = match self.bucket {
                        Some(p) => p,
                        None => {
                            return Step::Failed { effects: Vec::new() };
                        },
                    };
                    let mut effects: Vec<Effect<S>> = Vec::new();
                    effects.push(
                        Effect::Mutate {
                            player,
                            change: SecretChange::Extract { card: target(self.card, self.id) },
                        },
                    );
                    self.finish(game, effects, Vec::new(), instance, attachment)
                },
                _ => Step::Failed { effects: Vec::new() },
            },
            MovePhase::Finished => Step::Failed { effects: Vec::new() },
        }
    }

    /// With the card's bucket and owner known: reveals its ID unless the pointer, the card
    /// and the destination are all in the pointer owner's secret.
    fn after_bucket<S: State>(&mut self, game: &mut GameState<S>, effects: Vec<Effect<S>>) -> (r: Step<
        S,
        MoveResult,
    >)
        ensures
            sorts_field(old(self).to_zone, old(self).to_player, r, *final(game)),
            final(game).instances@.len() == old(game).instances@.len(),
            old(self).card is ID && old(self).bucket is None ==> (r matches Step::Done { result, .. } ==> (result matches Ok((from, Some(_)))
                && old(game).spec_location(old(self).card->ID_0) == Some(from))),
            old(self).card is ID && old(self).bucket is None ==> !(r is Reveal),
            old(self).card is ID && old(self).bucket is None ==> done_with(r, old(self).card->ID_0),
            final(self).same_request(*old(self)),
            (old(self).card is ID && old(self).bucket is None && old(self).to_bucket is None && is_pile(old(self).to_zone)
                && pile_location(*old(game), old(self).card->ID_0) is Some && r is Done)
                ==> pile_move_done(*old(game), *final(game), old(self).card->ID_0, old(self).to_player, old(self).to_zone),
            (old(self).card is ID && old(self).bucket is None && old(self).to_bucket == Some(old(self).to_player)
                && old(self).to_player < 2 && is_secret_zone(old(self).to_zone) && enterable(*old(game), old(self).card->ID_0)
                && r is Done) ==> move_in_done(*old(game), *final(game), old(self).card->ID_0, old(self).to_player, old(self).to_zone),
            lands_in(r, final(game).player_cards@, old(self).to_player, old(self).to_zone),
            (old(self).card is ID && old(self).bucket is None && old(self).to_bucket is None && is_pile(old(self).to_zone)
                && pile_location(*old(game), old(self).card->ID_0) is Some && old(self).to_player < 2
                && old(game).public_with_attachment(old(self).card->ID_0) && field_ready(*old(self), *old(game))) ==> r is Done,
            (old(self).card is ID && old(self).bucket is None && old(self).to_bucket == Some(old(self).to_player)
                && old(self).to_player < 2 && is_secret_zone(old(self).to_zone) && enterable(*old(game), old(self).card->ID_0)
                && room_in(old(game).player_cards@[old(self).to_player as int], old(self).to_zone)) ==> r is Done,
            (old(self).card is ID && old(self).bucket is None) ==> logs_move(
                r,
                old(game).spec_location(old(self).card->ID_0).unwrap(),
                old(self).to_player,
                old(self).to_zone,
                if old(self).to_bucket is None && is_pile(old(self).to_zone) && pile_location(*old(game), old(self).card->ID_0) is Some
                    && old(game).spec_public(old(self).card->ID_0) is Some
                    && old(game).spec_public(old(self).card->ID_0).unwrap().id == old(self).card->ID_0 {
                    Some(old(self).card->ID_0)
                } else {
                    None
                },
            ),
            (old(self).card is ID && old(self).bucket is None && old(self).to_bucket is None
                && detachable(*old(game), old(self).card->ID_0, old(self).to_player, old(self).to_zone)) ==> (r is Done && (final(game).spec_public(attached_to(*old(game), old(self).card->ID_0).unwrap()) matches Some(i) && i.attachment is None)),
            old(self).card is Pointer ==> r is Reveal,
    {
        match self.card {
            Card::ID(id) => {
                self.id = Some(id);
                self.after_id(game, effects)
            },
            Card::Pointer(p) => {
                if self.bucket != Some(p.player) || self.to_bucket != Some(p.player) {
                    self.phase = MovePhase::AwaitId;
                    Step::Reveal {
                        effects,
                        player: p.player,
                        query: SecretQuery::PointerTarget { index: p.index },
                    }
                } else {
                    self.id = None;
                    self.after_id(game, effects)
                }
            },
        }
    }

    /// With the ID known (or kept secret): finds where the card comes from, publicly or by
    /// asking the secret that holds it.
    fn after_id<S: State>(&mut self, game: &mut GameState<S>, effects: Vec<Effect<S>>) -> (r: Step<
        S,
        MoveResult,
    >)
        ensures
            sorts_field(old(self).to_zone, old(self).to_player, r, *final(game)),
            final(game).instances@.len() == old(game).instances@.len(),
            old(self).bucket is None && old(self).id is Some ==> (r matches Step::Done { result, .. } ==> (result matches Ok((from, Some(_)))
                && old(game).spec_location(old(self).id.unwrap()) == Some(from))),
            old(self).bucket is None ==> !(r is Reveal),
            final(self).same_request(*old(self)),
            old(self).bucket is None && old(self).id is Some ==> done_with(r, old(self).id.unwrap()),
            (old(self).bucket is None && old(self).to_bucket is None && old(self).id is Some && is_pile(old(self).to_zone)
                && pile_location(*old(game), old(self).id.unwrap()) is Some && r is Done)
                ==> pile_move_done(*old(game), *final(game), old(self).id.unwrap(), old(self).to_player, old(self).to_zone),
            (old(self).bucket is None && old(self).to_bucket == Some(old(self).to_player) && old(self).to_player < 2
                && old(self).id is Some && is_secret_zone(old(self).to_zone) && enterable(*old(game), old(self).id.unwrap()) && r is Done)
                ==> move_in_done(*old(game), *final(game), old(self).id.unwrap(), old(self).to_player, old(self).to_zone),
            lands_in(r, final(game).player_cards@, old(self).to_player, old(self).to_zone),
            (old(self).bucket is None && old(self).to_bucket is None && old(self).id is Some && is_pile(old(self).to_zone)
                && pile_location(*old(game), old(self).id.unwrap()) is Some && old(self).to_player < 2
                && old(game).public_with_attachment(old(self).id.unwrap()) && field_ready(*old(self), *old(game))) ==> r is Done,
            (old(self).bucket is None && old(self).to_bucket == Some(old(self).to_player) && old(self).to_player < 2
                && old(self).id is Some && is_secret_zone(old(self).to_zone) && enterable(*old(game), old(self).id.unwrap())
                && room_in(old(game).player_cards@[old(self).to_player as int], old(self).to_zone)) ==> r is Done,
            (old(self).bucket is None && old(self).id is Some) ==> logs_move(
                r,
                old(game).spec_location(old(self).id.unwrap()).unwrap(),
                old(self).to_player,
                old(self).to_zone,
                if old(self).to_bucket is None && is_pile(old(self).to_zone) && pile_location(*old(game), old(self).id.unwrap()) is Some
                    && old(game).spec_public(old(self).id.unwrap()) is Some
                    && old(game).spec_public(old(self).id.unwrap()).unwrap().id == old(self).id.unwrap() {
                    old(self).id
                } else {
                    None
                },
            ),
            (old(self).bucket is None && old(self).to_bucket is None && old(self).id is Some
                && detachable(*old(game), old(self).id.unwrap(), old(self).to_player, old(self).to_zone)) ==> (r is Done && (final(game).spec_public(attached_to(*old(game), old(self).id.unwrap()).unwrap()) matches Some(i) && i.attachment is None)),
            old(self).bucket is Some ==> r is Reveal,
    {
        let mut effects = effects;
        match self.bucket {
            None => {
                let id = match self.id {
                    Some(id) => id,
                    None => {
                        return Step::Failed { effects };
                    },
                };
                match game.try_location(id) {
                    Some(l) => match l.location {
                        Some(location) => {
                            proof {
                                if pile_location(*game, id) is Some {
                                    lemma_pile_location(*game, id);
                                }
                            }
                            self.owner = l.player;
                            self.location = Some(location);
                            self.after_location(game, effects)
                        },
                        None => Step::Failed { effects },
                    },
                    None => Step::Failed { effects },
                }
            },
            Some(player) => {
                let t = target(self.card, self.id);
                effects.push(Effect::Mutate { player, change: SecretChange::DeferLocation { card: t } });
                self.phase = MovePhase::AwaitLocation;
                Step::Reveal { effects, player, query: SecretQuery::MoveLocation { card: t } }
            },
        }
    }

    /// With the origin known: finishes a move within one secret, or takes the card out of
    /// where it is.
    fn after_location<S: State>(&mut self, game: &mut GameState<S>, effects: Vec<Effect<S>>) -> (r: Step<
        S,
        MoveResult,
    >)
        ensures
            sorts_field(old(self).to_zone, old(self).to_player, r, *final(game)),
            final(game).instances@.len() == old(game).instances@.len(),
            old(self).bucket is None ==> (r matches Step::Done { result, .. } ==> (result matches Ok((from, Some(_)))
                && from == (CardLocation { player: old(self).owner, location: old(self).location }))),
            old(self).bucket is None ==> !(r is Reveal),
            final(self).same_request(*old(self)),
            final(self).location == old(self).location,
            old(self).bucket is None && old(self).id is Some ==> done_with(r, old(self).id.unwrap()),
            (old(self).pile_request(*old(game)) && r is Done) ==> old(self).pile_done(*old(game), *final(game)),
            (old(self).entering(*old(game)) && r is Done) ==> old(self).entered(*old(game), *final(game)),
            (old(self).bucket == Some(old(self).to_player) && old(self).to_bucket == old(self).bucket
                && secret_location(old(self).location) && r is Done) ==> old(self).within_done(*old(game), *final(game)),
            lands_in(r, final(game).player_cards@, old(self).to_player, old(self).to_zone),
            (old(self).pile_request(*old(game)) && old(self).to_player < 2 && old(game).public_with_attachment(old(self).id.unwrap())
                && field_ready(*old(self), *old(game))) ==> r is Done,
            (old(self).entering(*old(game)) && room_in(old(game).player_cards@[old(self).to_player as int], old(self).to_zone))
                ==> r is Done,
            old(self).bucket is None ==> logs_move(
                r,
                CardLocation { player: old(self).owner, location: old(self).location },
                old(self).to_player,
                old(self).to_zone,
                public_moved(*old(self), *old(game)),
            ),
            (old(self).bucket is None && old(self).to_bucket is None && old(self).id is Some && old(self).to_player < 2
                && old(self).owner < 2 && attached_origin(*old(self)) is Some && attached_origin(*old(self)).unwrap() != old(self).id.unwrap()
                && crate::attach_card::attach_target_ok(*old(game), attached_origin(*old(self)).unwrap()) && is_pile(old(self).to_zone)
                && old(self).to_zone != Zone::Field && old(game).public_with_attachment(old(self).id.unwrap())) ==> r is Done,
            (old(self).bucket is None && old(self).to_bucket is None && attached_origin(*old(self)) is Some && r is Done) ==> (final(game).spec_public(
                attached_origin(*old(self)).unwrap(),
            ) matches Some(i) && i.attachment is None),
            (old(self).bucket is Some && old(self).to_bucket != old(self).bucket) ==> r is Reveal,
            ({
                let b = old(self).bucket.unwrap();
                (old(self).bucket is Some && old(self).to_bucket == old(self).bucket && b < 2 && old(self).to_player < 2
                    && removable_at(old(game).player_cards@[b as int], old(self).location) && is_secret_zone(old(self).to_zone)
                    && room_in(old(game).player_cards@[old(self).to_player as int], old(self).to_zone)) ==> r is Done
            }),
            (old(self).bucket is Some && old(self).to_bucket == old(self).bucket) ==> (r matches Step::Done { result, effects }
                ==> result == Ok::<(CardLocation, Option<InstanceID>), MoveCardError>(
                (CardLocation { player: old(self).bucket.unwrap(), location: old(self).location }, old(self).id),
            ) && effects@.len() > 0 && hidden_move_event(
                effects@.last(),
                CardLocation { player: old(self).bucket.unwrap(), location: old(self).location },
                old(self).to_player,
                old(self).to_zone,
            )),
    {
        let mut effects = effects;
        if let Some(bucket_owner) = self.bucket {
            if self.to_bucket == self.bucket {
                return self.within_secret(game, effects, bucket_owner);
            }
        }
        match self.bucket {
            None => {
                let id = match self.id {
                    Some(id) => id,
                    None => {
                        return Step::Failed { effects };
                    },
                };
                let mut deferred_logs: Vec<CardEvent<S>> = Vec::new();
                if let Some((Zone::Attachment { parent: Card::ID(old_parent) }, _)) = self.location {
                    let attach_clone = match game.public_instance(id) {
                        Some(i) => i.clone(),
                        None => {
                            return Step::Failed { effects };
                        },
                    };
                    if !game.detach_public(old_parent, &attach_clone, &mut deferred_logs) {
                        return Step::Failed { effects };
                    }
                }
                match self.to_bucket {
                    Some(to_bucket_player) => {
                        if id.0 >= game.instances.len() {
                            return Step::Failed { effects };
                        }
                        let instance = match game.instances[id.0].player() {
                            None => {
                                let mut entry = InstanceOrPlayer::Player(to_bucket_player);
                                std::mem::swap(&mut game.instances[id.0], &mut entry);
                                match entry.instance() {
                                    Some(i) => i,
                                    None => {
                                        return Step::Failed { effects };
                                    },
                                }
                            },
                            Some(_) => {
                                return Step::Failed { effects };
                            },
                        };
                        let attachment = match instance.attachment {
                            Some(a) => {
                                if a.0 >= game.instances.len() || game.instances[a.0].player().is_some() {
                                    return Step::Failed { effects };
                                }
                                let mut entry = InstanceOrPlayer::Player(to_bucket_player);
                                std::mem::swap(&mut game.instances[a.0], &mut entry);
                                entry.instance()
                            },
                            None => None,
                        };
                        if let Some((Zone::Hand { public: false }, index)) = self.location {
                            match index {
                                Some(i) => effects.push(
                                    Effect::Mutate {
                                        player: self.owner,
                                        change: SecretChange::RemoveHandAt { index: i },
                                    },
                                ),
                                None => {
                                    return Step::Failed { effects };
                                },
                            }
                        }
                        self.finish(game, effects, deferred_logs, Some(instance), attachment)
                    },
                    None => self.finish(game, effects, deferred_logs, None, None),
                }
            },
            Some(player) => {
                self.phase = MovePhase::AwaitInstance;
                Step::Reveal {
                    effects,
                    player,
                    query: SecretQuery::InstanceWithAttachment { card: target(self.card, self.id) },
                }
            },
        }
    }

    /// Moves the card between zones of its owner's secret: the public record of the secret
    /// zones is updated, and everyone else is told only where it went.
    fn within_secret<S: State>(
        &mut self,
        game: &mut GameState<S>,
        effects: Vec<Effect<S>>,
        bucket_owner: Player,
    ) -> (r: Step<S, MoveResult>)
        ensures
            sorts_field(old(self).to_zone, old(self).to_player, r, *final(game)),
            final(game).instances@.len() == old(game).instances@.len(),
            !(r is Reveal),
            final(self).same_request(*old(self)),
            final(self).location == old(self).location,
            lands_in(r, final(game).player_cards@, old(self).to_player, old(self).to_zone),
            (bucket_owner == old(self).to_player && secret_location(old(self).location) && r is Done)
                ==> old(self).within_done(*old(game), *final(game)),
            (bucket_owner < 2 && old(self).to_player < 2 && removable_at(old(game).player_cards@[bucket_owner as int], old(self).location)
                && is_secret_zone(old(self).to_zone) && room_in(old(game).player_cards@[old(self).to_player as int], old(self).to_zone))
                ==> r is Done,
            r matches Step::Done { result, effects } ==> result == Ok::<(CardLocation, Option<InstanceID>), MoveCardError>(
                (CardLocation { player: bucket_owner, location: old(self).location }, old(self).id),
            ) && effects@.len() > 0 && hidden_move_event(
                effects@.last(),
                CardLocation { player: bucket_owner, location: old(self).location },
                old(self).to_player,
                old(self).to_zone,
            ),
    {
        let mut effects = effects;
        self.phase = MovePhase::Finished;
        if bucket_owner >= 2 || self.to_player >= 2 {
            return Step::Failed { effects };
        }
        if let Some((zone, index)) = self.location {
            let i = match index {
                Some(i) => i,
                None => 0,
            };
            if !game.player_cards(bucket_owner).can_remove(zone, i) {
                return Step::Failed { effects };
            }
            game.player_cards_mut(bucket_owner).remove_from(zone, i);
        }
        let ghost mid = *game;
        let to_player = self.to_player;
        let index = match self.to_zone {
            Zone::Deck => {
                let cards = game.player_cards_mut(to_player);
                if cards.deck == usize::MAX {
                    return Step::Failed { effects };
                }
                cards.deck = cards.deck + 1;
                cards.deck - 1
            },
            Zone::Hand { public: false } => {
                let cards = game.player_cards_mut(to_player);
                cards.hand.push(None);
                cards.hand.len() - 1
            },
            Zone::Limbo { public: false } => 0,
            Zone::CardSelection => {
                let cards = game.player_cards_mut(to_player);
                if cards.card_selection == usize::MAX {
                    return Step::Failed { effects };
                }
                cards.card_selection = cards.card_selection + 1;
                0
            },
            Zone::Dust { public: false } => 0,
            _ => {
                return Step::Failed { effects };
            },
        };
        let location = copy_location(&self.location);
        effects.push(
            Effect::MutateOrLog {
                player: bucket_owner,
                change: SecretChange::MoveWithin { card: target(self.card, self.id), to_zone: self.to_zone },
                event: CardEvent::MoveCard {
                    instance: None,
                    from: CardLocation { player: bucket_owner, location },
                    to: ExactCardLocation { player: to_player, location: (self.to_zone, index) },
                },
            },
        );
        proof {
            if bucket_owner == to_player && secret_location(old(self).location) {
                let b = old(game).player_cards@[to_player as int];
                let m = mid.player_cards@[to_player as int];
                let a = game.player_cards@[to_player as int];
                assert(a.field == b.field && a.graveyard == b.graveyard && a.dust == b.dust && a.limbo == b.limbo
                    && a.casting == b.casting);
                assert(game.player_cards@[1 - to_player] == old(game).player_cards@[1 - to_player]);
            }
        }
        Step::Done {
            effects,
            result: Ok((CardLocation { player: bucket_owner, location: copy_location(&self.location) }, self.id)),
        }
    }

    /// Puts the card, now out of where it was, into its new zone.
    #[verifier::rlimit(100)]
    fn finish<S: State>(
        &mut self,
        game: &mut GameState<S>,
        effects: Vec<Effect<S>>,
        deferred_logs: Vec<CardEvent<S>>,
        instance: Option<CardInstance<S>>,
        attachment_instance: Option<CardInstance<S>>,
    ) -> (r: Step<S, MoveResult>)
        ensures
            final(game).instances@.len() == old(game).instances@.len(),
            r matches Step::Done { result, .. } ==> (result matches Ok((_, Some(_))) && old(self).to_player < 2),
            old(self).id is Some ==> done_with(r, old(self).id.unwrap()),
            lands_in(r, final(game).player_cards@, old(self).to_player, old(self).to_zone),
            r matches Step::Done { result, .. } ==> (result matches Ok((from, Some(_)))
                && from == (CardLocation { player: old(self).owner, location: old(self).location })),
            !(r is Reveal),
            final(self).same_request(*old(self)),
            final(self).location == old(self).location,
            (old(self).pile_request(*old(game)) && instance is None && attachment_instance is None && r is Done)
                ==> old(self).pile_done(*old(game), *final(game)),
            (old(self).entry_request(*old(game), instance) && attachment_instance is None && r is Done)
                ==> old(self).entry_done(*old(game), *final(game)),
            (old(self).pile_request(*old(game)) && instance is None && attachment_instance is None && old(self).to_player < 2
                && old(game).public_with_attachment(old(self).id.unwrap()) && field_ready(*old(self), *old(game))) ==> r is Done,
            (old(self).entry_request(*old(game), instance) && attachment_instance is None && room_in(
                old(game).player_cards@[old(self).to_player as int],
                old(self).to_zone,
            )) ==> r is Done,
            (old(self).bucket is None && old(self).to_bucket is None && old(self).id is Some && instance is None
                && attachment_instance is None && old(self).to_player < 2 && old(self).owner < 2 && attached_origin(*old(self)) is Some
                && attached_origin(*old(self)).unwrap().0 < old(game).instances@.len()
                && old(game).instances@[attached_origin(*old(self)).unwrap().0 as int] is Instance && is_pile(old(self).to_zone)
                && old(self).to_zone != Zone::Field && old(game).public_with_attachment(old(self).id.unwrap())) ==> r is Done,
            (attached_origin(*old(self)) is Some && instance is None && attachment_instance is None && r is Done) ==> (final(game).spec_public(attached_origin(*old(self)).unwrap()) matches Some(
                i,
            ) && i.attachment is None),
            logs_move(
                r,
                CardLocation { player: old(self).owner, location: old(self).location },
                old(self).to_player,
                old(self).to_zone,
                if old(self).pile_request(*old(game)) && instance is None && old(game).spec_public(old(self).id.unwrap()) is Some
                    && old(game).spec_public(old(self).id.unwrap()).unwrap().id == old(self).id.unwrap() {
                    old(self).id
                } else {
                    None
                },
            ),
            logs_hand_slot(r, CardLocation { player: old(self).owner, location: old(self).location }, old(self).to_player, old(self).to_zone),
            sorts_field(old(self).to_zone, old(self).to_player, r, *final(game)),
            revealed_as_given(instance, attachment_instance, old(self).to_bucket, r, *final(game)),
            (instance is Some && old(self).bucket is Some && old(self).to_player < 2 && old(self).owner < 2
                && leaves_ok(*old(game), old(self).owner, old(self).location) && !(old(self).to_zone is Attachment)
                && old(self).to_zone != Zone::Field && room_in(old(game).player_cards@[old(self).to_player as int], old(self).to_zone)
                && instance.unwrap().id.0 < old(game).instances@.len() && (attachment_instance is Some
                ==> attachment_instance.unwrap().id.0 < old(game).instances@.len())) ==> r is Done,
    {
        let mut effects = effects;
        self.phase = MovePhase::Finished;
        let to_player = self.to_player;
        let owner = self.owner;
        if to_player >= 2 || owner >= 2 {
            return Step::Failed { effects };
        }
        let id = match self.id {
            Some(id) => id,
            None => match &instance {
                Some(i) => i.id,
                None => {
                    return Step::Failed { effects };
                },
            },
        };
        match self.bucket {
            Some(bucket_owner) => effects.push(
                Effect::Mutate { player: bucket_owner, change: SecretChange::RemoveId { id } },
            ),
            None => {
                if let Some((Zone::Hand { public: true }, index)) = self.location {
                    match index {
                        Some(i) => effects.push(
                            Effect::Mutate { player: owner, change: SecretChange::RemoveHandAt { index: i } },
                        ),
                        None => {
                            return Step::Failed { effects };
                        },
                    }
                }
            },
        }
        match self.location {
            Some((Zone::Attachment { parent: Card::ID(old_parent) }, _)) => {
                if old_parent.0 >= game.instances.len() {
                    return Step::Failed { effects };
                }
                match &mut game.instances[old_parent.0] {
                    InstanceOrPlayer::Instance(p) => {
                        p.attachment = None;
                    },
                    InstanceOrPlayer::Player(_) => {
                        return Step::Failed { effects };
                    },
                }
            },
            Some((zone, index)) => {
                let i = match index {
                    Some(i) => i,
                    None => 0,
                };
                if !game.player_cards(owner).can_remove(zone, i) {
                    return Step::Failed { effects };
                }
                game.player_cards_mut(owner).remove_from(zone, i);
            },
            None => {},
        }
        let ghost mid = *game;
        proof {
            if old(self).pile_request(*old(game)) || old(self).entry_request(*old(game), instance) {
                let z = old(self).location.unwrap().0;
                let b = old(game).player_cards@[owner as int];
                let m = game.player_cards@[owner as int];
                assert(pile_removed(b, m, z, old(self).location.unwrap().1.unwrap() as int)) by {
                    assert forall|z2: Zone| is_pile(z2) implies #[trigger] pile(m, z2) == if z2 == z {
                        pile(b, z2).remove(old(self).location.unwrap().1.unwrap() as int)
                    } else {
                        pile(b, z2)
                    } by {}
                }
                assert(game.player_cards@[1 - owner] == old(game).player_cards@[1 - owner]);
                if old(self).to_zone == Zone::Field && old(game).field_public(to_player) {
                    lemma_field_public_removed(*old(game), *game, to_player, owner, z, old(self).location.unwrap().1.unwrap() as int);
                }
            }
        }
        let field_index = match self.to_zone {
            Zone::Field => {
                if !game.is_field_public(to_player) {
                    return Step::Failed { effects };
                }
                let me = match &instance {
                    Some(i) => i.clone(),
                    None => match game.public_instance(id) {
                        Some(i) => i.clone(),
                        None => {
                            return Step::Failed { effects };
                        },
                    },
                };
                let my_attachment = match &attachment_instance {
                    Some(a) => Some(a.clone()),
                    None => match me.attachment {
                        Some(a) => match game.public_instance(a) {
                            Some(i) => Some(i.clone()),
                            None => {
                                return Step::Failed { effects };
                            },
                        },
                        None => None,
                    },
                };
                game.field_index(to_player, &me, my_attachment.as_ref())
            },
            _ => 0,
        };
        let from_location = copy_location(&self.location);
        let to_index = match self.to_zone {
            Zone::Deck => {
                effects.push(Effect::Mutate { player: to_player, change: SecretChange::PushZone { zone: Zone::Deck, id } });
                let cards = game.player_cards_mut(to_player);
                if cards.deck == usize::MAX {
                    return Step::Failed { effects };
                }
                cards.deck = cards.deck + 1;
                cards.deck - 1
            },
            Zone::Hand { public: false } => {
                effects.push(Effect::Mutate {
                    player: to_player,
                    change: SecretChange::PushZone { zone: Zone::Hand { public: false }, id },
                });
                let cards = game.player_cards_mut(to_player);
                cards.hand.push(None);
                cards.hand.len() - 1
            },
            Zone::Hand { public: true } => {
                let len = game.player_cards(to_player).hand.len();
                let index = match from_location {
                    Some((Zone::Hand { public: false }, Some(i))) => if to_player == owner && i <= len {
                        i
                    } else {
                        len
                    },
                    _ => len,
                };
                proof {
                    if let Some((Zone::Hand { public: false }, Some(i))) = old(self).location {
                        if to_player == owner {
                            assert(i <= len);
                            assert(index == i);
                        }
                    }
                }
                game.player_cards_mut(to_player).hand.insert(index, Some(id));
                assert(game.player_cards@[to_player as int].hand@[index as int] == Some(id));
                effects.push(Effect::Mutate {
                    player: to_player,
                    change: SecretChange::InsertHandNone { index },
                });
                index
            },
            Zone::Field => {
                let ghost before_insert = *game;
                game.player_cards_mut(to_player).field.insert(field_index, id);
                assert(game.player_cards@[to_player as int].field@[field_index as int] == id);
                proof {
                    if before_insert.field_public(to_player) && before_insert.public_with_attachment(id) {
                        lemma_field_public_inserted(before_insert, *game, to_player, field_index as int, id);
                    }
                }
                field_index
            },
            Zone::Graveyard => {
                let cards = game.player_cards_mut(to_player);
                cards.graveyard.push(id);
                cards.graveyard.len() - 1
            },
            Zone::Limbo { public: false } => {
                effects.push(Effect::Mutate {
                    player: to_player,
                    change: SecretChange::PushZone { zone: Zone::Limbo { public: false }, id },
                });
                0
            },
            Zone::Limbo { public: true } => {
                let cards = game.player_cards_mut(to_player);
                cards.limbo.push(id);
                cards.limbo.len() - 1
            },
            Zone::CardSelection => {
                effects.push(Effect::Mutate {
                    player: to_player,
                    change: SecretChange::PushZone { zone: Zone::CardSelection, id },
                });
                let cards = game.player_cards_mut(to_player);
                if cards.card_selection == usize::MAX {
                    return Step::Failed { effects };
                }
                cards.card_selection = cards.card_selection + 1;
                cards.card_selection - 1
            },
            Zone::Casting => {
                let cards = game.player_cards_mut(to_player);
                cards.casting.push(id);
                cards.casting.len() - 1
            },
            Zone::Dust { public: false } => {
                effects.push(Effect::Mutate {
                    player: to_player,
                    change: SecretChange::PushZone { zone: Zone::Dust { public: false }, id },
                });
                0
            },
            Zone::Dust { public: true } => {
                let cards = game.player_cards_mut(to_player);
                cards.dust.push(id);
                cards.dust.len() - 1
            },
            Zone::Attachment { .. } => {
                return Step::Failed { effects };
            },
        };
        assert(placed(game.player_cards@[to_player as int], self.to_zone, id));
        let ghost pile_path = old(self).pile_request(*old(game)) && instance is None && attachment_instance is None;
        proof {
            if pile_path {
                broadcast use vstd::seq_lib::group_to_multiset_ensures;
                let tz = old(self).to_zone;
                let m = mid.player_cards@[to_player as int];
                let a = game.player_cards@[to_player as int];
                assert(pile_added(m, a, tz, id)) by {
                    assert forall|z2: Zone| is_pile(z2) implies #[trigger] pile(a, z2).to_multiset() == if z2 == tz {
                        pile(m, z2).to_multiset().insert(id)
                    } else {
                        pile(m, z2).to_multiset()
                    } by {
                        if z2 == tz && tz == Zone::Field {
                            vstd::seq_lib::to_multiset_insert(m.field@, field_index as int, id);
                        }
                    }
                }
                assert(game.player_cards@[1 - to_player] == mid.player_cards@[1 - to_player]);
            }
        }
        let ghost entry_path = old(self).entry_request(*old(game), instance) && attachment_instance is None;
        proof {
            if entry_path {
                let m = mid.player_cards@[to_player as int];
                let a = game.player_cards@[to_player as int];
                assert(secret_added(m, a, old(self).to_zone)) by {
                    assert forall|z2: Zone| is_pile(z2) implies #[trigger] pile(a, z2) == pile(m, z2) by {}
                }
                assert(game.player_cards@[1 - to_player] == mid.player_cards@[1 - to_player]);
                assert(game.instances == old(game).instances);
            }
        }
        let ghost given = instance;
        let event_instance = match instance {
            Some(i) => match install_instances(game, &mut effects, i, attachment_instance, self.to_bucket) {
                Some(shown) => {
                    proof {
                        if entry_path {
                            assert(game.instances@ =~= old(game).instances@);
                        }
                    }
                    Some(shown)
                },
                None => {
                    return Step::Failed { effects };
                },
            },
            None => match game.public_instance(id) {
                Some(i) => {
                    let att = match i.attachment {
                        Some(a) => match game.public_instance(a) {
                            Some(ai) => Some(ai.clone()),
                            None => {
                                return Step::Failed { effects };
                            },
                        },
                        None => None,
                    };
                    Some((i.clone(), att))
                },
                None => None,
            },
        };
        if let Zone::Field = self.to_zone {
            if !game.is_field_public(to_player) {
                return Step::Failed { effects };
            }
            let old_field = match &self.old_field {
                Some(f) => copy_ids(f),
                None => {
                    return Step::Failed { effects };
                },
            };
            let mut logs: Vec<CardEvent<S>> = Vec::new();
            let ghost unsorted = *game;
            game.sort_field(to_player, &old_field, false, &mut logs);
            proof {
                assert(game.player_cards@[to_player as int] == unsorted.player_cards@[to_player as int]);
            }
            push_logs(&mut effects, logs);
        }
        proof {
            if pile_path {
                assert(pile_added(mid.player_cards@[to_player as int], game.player_cards@[to_player as int], old(self).to_zone, id));
                assert(game.player_cards@[1 - to_player] == mid.player_cards@[1 - to_player]);
                assert(game.instances == old(game).instances);
            }
        }
        let from = CardLocation { player: owner, location: copy_location(&from_location) };
        let to = ExactCardLocation { player: to_player, location: (self.to_zone, to_index) };
        let ghost k = effects@.len() as int;
        let ghost pub_id = if old(self).pile_request(*old(game)) && given is None && old(game).spec_public(old(self).id.unwrap()) is Some
            && old(game).spec_public(old(self).id.unwrap()).unwrap().id == old(self).id.unwrap() {
            old(self).id
        } else {
            None
        };
        proof {
            if pub_id is Some {
                assert(game.instances == old(game).instances);
                assert(event_instance is Some && event_instance->Some_0.0.id == id);
            }
        }
        push_move_log(&mut effects, owner, event_instance, from, to, deferred_logs);
        let ghost ev = effects@[k];
        assert(moved_event(ev, CardLocation { player: old(self).owner, location: old(self).location }, to_player, old(self).to_zone, pub_id));
        match self.to_zone {
            Zone::Deck => {
                if game.shuffle_deck_on_insert {
                    effects.push(Effect::Mutate { player: to_player, change: SecretChange::ShuffleDeck });
                }
            },
            Zone::Field => {
                if !game.is_field_public(to_player) {
                    return Step::Failed { effects };
                }
                let old_field = match &self.old_field {
                    Some(f) => copy_ids(f),
                    None => {
                        return Step::Failed { effects };
                    },
                };
                let mut logs: Vec<CardEvent<S>> = Vec::new();
                let ghost before = game.player_cards@[to_player as int].field@;
                let ghost unsorted = *game;
                game.sort_field(to_player, &old_field, true, &mut logs);
                proof {
                    broadcast use vstd::seq_lib::group_to_multiset_ensures;
                    assert(before.to_multiset().count(id) > 0);
                    if pile_path {
                        lemma_pile_added_reorder(
                            mid.player_cards@[to_player as int],
                            unsorted.player_cards@[to_player as int],
                            game.player_cards@[to_player as int],
                            old(self).to_zone,
                            id,
                        );
                    }
                }
                let ghost before_sort_logs = effects@;
                push_logs(&mut effects, logs);
                assert(effects@.subrange(0, before_sort_logs.len() as int)[k] == effects@[k]);
            },
            _ => {},
        }
        assert(effects@[k] == ev);
        assert(moved_event(effects@[k], CardLocation { player: old(self).owner, location: old(self).location }, to_player, old(self).to_zone, pub_id));
        proof {
            if entry_path {
                assert(game.instances@ =~= old(game).instances@);
                assert(mid.player_cards@[1 - owner] == old(game).player_cards@[1 - owner]);
                assert(game.player_cards@[1 - to_player] == mid.player_cards@[1 - to_player]);
                assert(secret_added(mid.player_cards@[to_player as int], game.player_cards@[to_player as int], old(self).to_zone));
                lemma_pile_to_secret_steps(
                    old(game).player_cards@,
                    mid.player_cards@,
                    game.player_cards@,
                    id,
                    owner,
                    old(self).location.unwrap().0,
                    old(self).location.unwrap().1.unwrap() as int,
                    to_player,
                    old(self).to_zone,
                );
            }
            if pile_path {
                lemma_pile_moved_steps(
                    old(game).player_cards@,
                    mid.player_cards@,
                    game.player_cards@,
                    id,
                    owner,
                    old(self).location.unwrap().0,
                    old(self).location.unwrap().1.unwrap() as int,
                    to_player,
                    old(self).to_zone,
                );
            }
        }
        assert(0 <= k < effects@.len());
        let ghost effects_view = effects@;
        let done = Step::Done {
            effects,
            result: Ok((CardLocation { player: owner, location: from_location }, Some(id))),
        };
        assert(logs_hand_slot(done, CardLocation { player: old(self).owner, location: old(self).location }, to_player, old(self).to_zone)) by {
            assert(done->Done_effects@ == effects_view);
            if let Some((Zone::Hand { public: false }, Some(i))) = old(self).location {
                if old(self).to_zone == (Zone::Hand { public: true }) && owner == to_player {
                    assert(hand_slot_event(done->Done_effects@[k], to_player, i));
                }
            }
        }
        assert(logs_move(done, CardLocation { player: old(self).owner, location: old(self).location }, to_player, old(self).to_zone, pub_id)) by {
            assert(done->Done_effects@ == effects_view);
            assert(moved_event(done->Done_effects@[k], CardLocation { player: old(self).owner, location: old(self).location }, to_player, old(self).to_zone, pub_id));
        }
        done
    }
}

/// Where the move goes to the field, its owner's field holds only public cards with public
/// attachments, and the field as it was is kept for the log.
pub open spec fn field_ready<S: State>(m: MoveCard, game: GameState<S>) -> bool {
    m.to_zone == Zone::Field ==> game.field_public(m.to_player) && m.old_field is Some
}

/// The public count of `zone` among `cards`, where it is a counted secret zone, can grow by one.
pub open spec fn room_in(cards: PlayerCards, zone: Zone) -> bool {
    &&& zone == Zone::Deck ==> cards.deck < usize::MAX
    &&& zone == Zone::CardSelection ==> cards.card_selection < usize::MAX
}

/// Taking a card out of a pile keeps a field that holds only public cards so.
proof fn lemma_field_public_removed<S: State>(g: GameState<S>, h: GameState<S>, p: Player, owner: Player, zone: Zone, i: int)
    requires
        p < 2,
        owner < 2,
        h.instances == g.instances,
        g.field_public(p),
        pile_removed(g.player_cards@[owner as int], h.player_cards@[owner as int], zone, i),
        is_pile(zone),
        0 <= i < pile(g.player_cards@[owner as int], zone).len(),
        h.player_cards@[1 - owner] == g.player_cards@[1 - owner],
    ensures
        h.field_public(p),
{
    let f = g.player_cards@[p as int].field@;
    let f2 = h.player_cards@[p as int].field@;
    if p == owner {
        assert(pile(h.player_cards@[owner as int], Zone::Field) == if Zone::Field == zone {
            pile(g.player_cards@[owner as int], Zone::Field).remove(i)
        } else {
            pile(g.player_cards@[owner as int], Zone::Field)
        });
        assert forall|k: int| 0 <= k < f2.len() implies #[trigger] h.public_with_attachment(f2[k]) by {
            if zone == Zone::Field {
                if k < i {
                    assert(f2[k] == f[k]);
                    assert(g.public_with_attachment(f[k]));
                } else {
                    assert(f2[k] == f[k + 1]);
                    assert(g.public_with_attachment(f[k + 1]));
                }
            } else {
                assert(f2[k] == f[k]);
                assert(g.public_with_attachment(f[k]));
            }
        }
    } else {
        assert(p as int == 1 - owner);
        assert(f2 == f);
        assert forall|k: int| 0 <= k < f2.len() implies #[trigger] h.public_with_attachment(f2[k]) by {
            assert(g.public_with_attachment(f[k]));
        }
    }
}

/// Putting a public card with a public attachment into a field that holds only such cards
/// keeps it so.
proof fn lemma_field_public_inserted<S: State>(g: GameState<S>, h: GameState<S>, p: Player, idx: int, id: InstanceID)
    requires
        h.instances == g.instances,
        g.field_public(p),
        g.public_with_attachment(id),
        0 <= idx <= g.player_cards@[p as int].field@.len(),
        h.player_cards@[p as int].field@ == g.player_cards@[p as int].field@.insert(idx, id),
    ensures
        h.field_public(p),
{
    let f = g.player_cards@[p as int].field@;
    let f2 = h.player_cards@[p as int].field@;
    assert forall|k: int| 0 <= k < f2.len() implies #[trigger] h.public_with_attachment(f2[k]) by {
        if k < idx {
            assert(f2[k] == f[k]);
            assert(g.public_with_attachment(f[k]));
        } else if k > idx {
            assert(f2[k] == f[k - 1]);
            assert(g.public_with_attachment(f[k - 1]));
        }
    }
}

/// The card can leave `location` as `cards`, its owner's public record, knows it.
pub open spec fn removable_at(cards: PlayerCards, location: Option<(Zone, Option<usize>)>) -> bool {
    match location {
        Some((zone, index)) => crate::player_cards::can_remove_from(
            cards,
            zone,
            match index {
                Some(i) => i,
                None => 0,
            },
        ),
        None => true,
    }
}

/// The card can leave `location` of `owner` in `game`: a public parent named by ID holds it,
/// or its owner's record lets it leave that zone.
pub open spec fn leaves_ok<S: State>(game: GameState<S>, owner: Player, location: Option<(Zone, Option<usize>)>) -> bool {
    match location {
        Some((Zone::Attachment { parent: Card::ID(p) }, _)) => p.0 < game.instances@.len() && game.instances@[p.0 as int] is Instance,
        Some((Zone::Attachment { .. }, _)) => false,
        _ => removable_at(game.player_cards@[owner as int], location),
    }
}

/// `e` logs a move within a secret from `from` to `to_zone` of `to_player`, without the instance.
pub open spec fn hidden_move_event<S: State>(e: Effect<S>, from: CardLocation, to_player: Player, to_zone: Zone) -> bool {
    e matches Effect::MutateOrLog { event: CardEvent::MoveCard { instance: None, from: f, to: t }, .. } && f == from
        && t.player == to_player && t.location.0 == to_zone
}

/// What a resumed move owes: for an answer of the kind its phase asks for, a pointer's
/// owner is known and its ID or location asked next; a public card by its revealed ID moves
/// between piles or into a secret, or off its parent, and the move is logged; a move within
/// its owner's secret finishes with the card's old location, the ID as known, and an event
/// that hides the instance; a card taken out of a secret finishes from where it was, logged
/// (to the same position, from a secret hand to the public hand); an answer of another kind
/// fails.
pub open spec fn move_resumed<S: State>(m: MoveCard, before: GameState<S>, after: GameState<S>, answer: SecretAnswer<S>, r: Step<S, MoveResult>) -> bool {
    let b = m.bucket.unwrap();
    let id = answer->Id_0;
    let loc = answer->Location_0;
    let i = answer->Instances_0;
    let a = answer->Instances_1;
    &&& (m.phase is AwaitBucket && answer is Bucket && m.card is Pointer) ==> r is Reveal
    &&& (m.phase is AwaitId && answer is Id && m.bucket is Some) ==> r is Reveal
    &&& (m.phase is AwaitId && answer is Id && m.bucket is None && m.to_bucket is None && is_pile(m.to_zone)
        && pile_location(before, id) is Some && m.to_player < 2 && before.public_with_attachment(id) && field_ready(m, before))
        ==> (r is Done && pile_move_done(before, after, id, m.to_player, m.to_zone))
    &&& (m.phase is AwaitLocation && answer is Location && m.bucket is Some && m.to_bucket != m.bucket) ==> r is Reveal
    &&& (m.phase is AwaitLocation && answer is Location && m.bucket is Some && m.to_bucket == m.bucket && b < 2 && m.to_player < 2
        && removable_at(before.player_cards@[b as int], loc) && is_secret_zone(m.to_zone) && room_in(
        before.player_cards@[m.to_player as int],
        m.to_zone,
    )) ==> (r is Done && r->Done_result == Ok::<(CardLocation, Option<InstanceID>), MoveCardError>(
        (CardLocation { player: b, location: loc }, m.id),
    ) && r->Done_effects@.len() > 0 && hidden_move_event(
        r->Done_effects@.last(),
        CardLocation { player: b, location: loc },
        m.to_player,
        m.to_zone,
    ))
    &&& (m.phase is AwaitInstance && answer is Instances && i is Some && m.bucket is Some && m.to_player < 2 && m.owner < 2
        && leaves_ok(before, m.owner, m.location) && !(m.to_zone is Attachment) && m.to_zone != Zone::Field && room_in(
        before.player_cards@[m.to_player as int],
        m.to_zone,
    ) && i.unwrap().id.0 < before.instances@.len() && (a is Some ==> a.unwrap().id.0 < before.instances@.len())) ==> r is Done
    &&& (m.phase is AwaitInstance && answer is Instances && r is Done) ==> (r->Done_result matches Ok((from, Some(_))) && from
        == (CardLocation { player: m.owner, location: m.location }))
    &&& (m.phase is AwaitInstance && answer is Instances && m.bucket is Some) ==> revealed_as_given(
        answer->Instances_0,
        answer->Instances_1,
        m.to_bucket,
        r,
        after,
    )
    &&& (m.phase is AwaitInstance && answer is Instances && m.bucket is Some) ==> logs_hand_slot(
        r,
        CardLocation { player: m.owner, location: m.location },
        m.to_player,
        m.to_zone,
    )
    &&& (m.phase is AwaitInstance && answer is Instances && m.bucket is Some) ==> logs_move(
        r,
        CardLocation { player: m.owner, location: m.location },
        m.to_player,
        m.to_zone,
        None,
    )
    &&& (m.phase is AwaitId && answer is Id && m.bucket is None && r is Done) ==> (r->Done_result matches Ok((from, Some(c)))
        && c == id && before.spec_location(id) == Some(from))
    &&& (m.phase is AwaitId && answer is Id && m.bucket is None) ==> logs_move(
        r,
        before.spec_location(id).unwrap(),
        m.to_player,
        m.to_zone,
        if m.to_bucket is None && is_pile(m.to_zone) && pile_location(before, id) is Some && before.spec_public(id) is Some
            && before.spec_public(id).unwrap().id == id {
            Some(id)
        } else {
            None
        },
    )
    &&& (m.phase is AwaitId && answer is Id && m.bucket is None && m.to_bucket is None && is_pile(m.to_zone)
        && pile_location(before, id) is Some && r is Done) ==> pile_move_done(before, after, id, m.to_player, m.to_zone)
    &&& (m.phase is AwaitId && answer is Id && m.bucket is None && m.to_bucket == Some(m.to_player) && m.to_player < 2
        && is_secret_zone(m.to_zone) && enterable(before, id) && room_in(before.player_cards@[m.to_player as int], m.to_zone))
        ==> (r is Done && move_in_done(before, after, id, m.to_player, m.to_zone))
    &&& (m.phase is AwaitId && answer is Id && m.bucket is None && m.to_bucket is None && detachable(before, id, m.to_player, m.to_zone))
        ==> (r is Done && (after.spec_public(attached_to(before, id).unwrap()) matches Some(i) && i.attachment is None))
    &&& (m.phase is AwaitBucket && !(answer is Bucket)) ==> r is Failed
    &&& (m.phase is AwaitId && !(answer is Id)) ==> r is Failed
    &&& (m.phase is AwaitLocation && !(answer is Location)) ==> r is Failed
    &&& (m.phase is AwaitInstance && !(answer is Instances)) ==> r is Failed
    &&& m.phase is Finished ==> r is Failed
}

/// The public parent the moved card is attached to, where it is attached to one named by ID.
pub open spec fn attached_origin(m: MoveCard) -> Option<InstanceID> {
    match m.location {
        Some((Zone::Attachment { parent: Card::ID(p) }, _)) => Some(p),
        _ => None,
    }
}

/// The public parent that `id` is attached to in `game`, where it has one named by ID.
pub open spec fn attached_to<S: State>(game: GameState<S>, id: InstanceID) -> Option<InstanceID> {
    match game.spec_location(id) {
        Some(l) => match l.location {
            Some((Zone::Attachment { parent: Card::ID(p) }, _)) => Some(p),
            _ => None,
        },
        None => None,
    }
}

/// `id` is attached to a public parent at a position of a public pile other than the field,
/// and can be moved off it publicly to the pile `to_zone` of `to_player` (not the field).
pub open spec fn detachable<S: State>(game: GameState<S>, id: InstanceID, to_player: Player, to_zone: Zone) -> bool {
    &&& attached_to(game, id) is Some
    &&& attached_to(game, id).unwrap() != id
    &&& crate::attach_card::attach_target_ok(game, attached_to(game, id).unwrap())
    &&& game.spec_location(id).unwrap().player < 2
    &&& game.public_with_attachment(id)
    &&& is_pile(to_zone)
    &&& to_zone != Zone::Field
    &&& to_player < 2
}

/// The card a `pile_request` moves, where the instance table holds it publicly under its own ID.
pub open spec fn public_moved<S: State>(m: MoveCard, game: GameState<S>) -> Option<InstanceID> {
    if m.pile_request(game) && game.spec_public(m.id.unwrap()) is Some && game.spec_public(m.id.unwrap()).unwrap().id == m.id.unwrap() {
        m.id
    } else {
        None
    }
}

/// `e` logs the move of a card from `from` to `to_zone` of `to_player`, showing the instance
/// of `public` where that is given.
pub open spec fn moved_event<S: State>(e: Effect<S>, from: CardLocation, to_player: Player, to_zone: Zone, public: Option<InstanceID>) -> bool {
    e matches Effect::MutateOrLog { event: CardEvent::MoveCard { instance, from: f, to: t }, .. } && f == from && t.player
        == to_player && t.location.0 == to_zone && (public matches Some(id) ==> (instance matches Some((i, _)) && i.id == id))
}

/// A finished move logs its move from `from` to `to_zone` of `to_player` (see `moved_event`).
pub open spec fn logs_move<S: State>(r: Step<S, MoveResult>, from: CardLocation, to_player: Player, to_zone: Zone, public: Option<InstanceID>) -> bool {
    r matches Step::Done { effects, .. } ==> exists|k: int| 0 <= k < effects@.len() && #[trigger] moved_event(effects@[k], from, to_player, to_zone, public)
}

/// A finished move to the field leaves that field in the game's order, where that order is
/// a total preorder.
pub open spec fn sorts_field<S: State>(to_zone: Zone, to_player: Player, r: Step<S, MoveResult>, after: GameState<S>) -> bool {
    (to_zone == Zone::Field && r is Done && field_order_total::<S>()) ==> after.field_sorted(
        after.player_cards@[to_player as int].field@,
        to_player,
    )
}

/// Puts the instance a secret handed over, and its attachment, into the instance table at
/// their IDs: as public instances where the card goes public, else as held by `to_bucket`,
/// whose secret is told to insert them. Returns copies of them for the move's event; `None`
/// where an ID is out of the table.
fn install_instances<S: State>(
    game: &mut GameState<S>,
    effects: &mut Vec<Effect<S>>,
    instance: CardInstance<S>,
    attachment: Option<CardInstance<S>>,
    to_bucket: Option<Player>,
) -> (r: Option<(CardInstance<S>, Option<CardInstance<S>>)>)
    ensures
        final(game).player_cards == old(game).player_cards,
        final(game).shuffle_deck_on_insert == old(game).shuffle_deck_on_insert,
        final(game).state == old(game).state,
        final(game).instances@.len() == old(game).instances@.len(),
        r is Some ==> instance.id.0 < old(game).instances@.len() && (attachment matches Some(a) ==> a.id.0
            < old(game).instances@.len()),
        r is Some ==> r->Some_0.0.id == instance.id && (r->Some_0.1 is Some) == (attachment is Some),
        (instance.id.0 < old(game).instances@.len() && (attachment matches Some(a) ==> a.id.0 < old(game).instances@.len()))
            ==> r is Some,
        r is Some ==> forall|j: int|
            0 <= j < old(game).instances@.len() && j != instance.id.0 && (attachment matches Some(a) ==> j != a.id.0)
                ==> final(game).instances@[j] == old(game).instances@[j],
        (r is Some && to_bucket is None && (attachment matches Some(a) ==> a.id != instance.id)) ==> {
            &&& final(game).instances@[instance.id.0 as int] == InstanceOrPlayer::Instance(instance)
            &&& (attachment matches Some(a) ==> final(game).instances@[a.id.0 as int] == InstanceOrPlayer::Instance(a))
        },
        (r is Some && to_bucket is Some) ==> {
            &&& final(game).instances@[instance.id.0 as int] == InstanceOrPlayer::<S>::Player(to_bucket.unwrap())
            &&& (attachment matches Some(a) ==> final(game).instances@[a.id.0 as int] == InstanceOrPlayer::<S>::Player(
                to_bucket.unwrap(),
            ))
        },
{
    let iid = instance.id;
    if iid.0 >= game.instances.len() {
        return None;
    }
    match &attachment {
        Some(a) => {
            if a.id.0 >= game.instances.len() {
                return None;
            }
        },
        None => {},
    }
    let shown = instance.clone();
    match to_bucket {
        None => {
            game.instances.set(iid.0, InstanceOrPlayer::Instance(instance));
        },
        Some(tb) => {
            game.instances.set(iid.0, InstanceOrPlayer::Player(tb));
            effects.push(Effect::Mutate { player: tb, change: SecretChange::InsertInstance { instance } });
        },
    }
    let att = match attachment {
        Some(a) => {
            let aid = a.id;
            let shown_a = a.clone();
            match to_bucket {
                None => {
                    game.instances.set(aid.0, InstanceOrPlayer::Instance(a));
                },
                Some(tb) => {
                    game.instances.set(aid.0, InstanceOrPlayer::Player(tb));
                    effects.push(Effect::Mutate { player: tb, change: SecretChange::InsertInstance { instance: a } });
                },
            }
            Some(shown_a)
        },
        None => None,
    };
    Some((shown, att))
}

/// A finished move that takes a card, and its attachment, out of a secret into the public
/// state puts in the instance table the very instances the secret handed over.
pub open spec fn revealed_as_given<S: State>(
    instance: Option<CardInstance<S>>,
    attachment: Option<CardInstance<S>>,
    to_bucket: Option<Player>,
    r: Step<S, MoveResult>,
    after: GameState<S>,
) -> bool {
    (instance is Some && to_bucket is None && r is Done && (attachment matches Some(a) ==> a.id != instance.unwrap().id)) ==> {
        let i = instance.unwrap();
        &&& after.instances@[i.id.0 as int] == InstanceOrPlayer::Instance(i)
        &&& (attachment matches Some(a) ==> after.instances@[a.id.0 as int] == InstanceOrPlayer::Instance(a))
    }
}

/// `e` logs a move to position `i` of `to_player`'s public hand.
pub open spec fn hand_slot_event<S: State>(e: Effect<S>, to_player: Player, i: usize) -> bool {
    e matches Effect::MutateOrLog { event: CardEvent::MoveCard { to: t, .. }, .. } && t.player == to_player && t.location == (
    Zone::Hand { public: true }, i)
}

/// A finished move that takes a card from position `i` of its owner's secret hand to that
/// player's public hand logs the move to position `i` there.
pub open spec fn logs_hand_slot<S: State>(r: Step<S, MoveResult>, from: CardLocation, to_player: Player, to_zone: Zone) -> bool {
    match from.location {
        Some((Zone::Hand { public: false }, Some(i))) => (to_zone == (Zone::Hand { public: true }) && from.player == to_player)
            ==> (r matches Step::Done { effects, .. } ==> exists|k: int|
            0 <= k < effects@.len() && #[trigger] hand_slot_event(effects@[k], to_player, i)),
        _ => true,
    }
}

/// A finished move that names its card names `id`.
pub open spec fn done_with<S: State>(r: Step<S, MoveResult>, id: InstanceID) -> bool {
    r matches Step::Done { result: Ok((_, Some(c))), .. } ==> c == id
}

/// Whether `id` stands where a finished move into `zone` leaves it among `cards`:
/// last in a public pile, somewhere on the field or in the public hand.
pub open spec fn placed(cards: PlayerCards, zone: Zone, id: InstanceID) -> bool {
    match zone {
        Zone::Graveyard => cards.graveyard@.last() == id,
        Zone::Casting => cards.casting@.last() == id,
        Zone::Dust { public: true } => cards.dust@.last() == id,
        Zone::Limbo { public: true } => cards.limbo@.last() == id,
        Zone::Field => cards.field@.contains(id),
        Zone::Hand { public: true } => cards.hand@.contains(Some(id)),
        _ => true,
    }
}

/// A finished move that names its card leaves that card where `placed` says among the
/// cards of `to_player`; a card that a player reveals from their secret hand to their
/// public hand keeps its position in the hand.
pub open spec fn lands_in<S: State>(r: Step<S, MoveResult>, cards: Seq<PlayerCards>, to_player: Player, to_zone: Zone) -> bool {
    r matches Step::Done { result, .. } ==> (result matches Ok((from, Some(id))) ==> {
        &&& placed(cards[to_player as int], to_zone, id)
        &&& (to_zone == Zone::Hand { public: true } && from.player == to_player
            && from.location matches Some((Zone::Hand { public: false }, Some(i))))
            ==> cards[to_player as int].hand@[from.location->Some_0.1->Some_0 as int] == Some(id)
    })
}

/// `location`, when there is one, is in a secret zone.
pub open spec fn secret_location(location: Option<(Zone, Option<usize>)>) -> bool {
    location matches Some((z, _)) ==> is_secret_zone(z)
}

/// A copy of a moved instance and its attachment.
fn clone_move_instance<S: State>(i: &Option<(CardInstance<S>, Option<CardInstance<S>>)>) -> (r: Option<(CardInstance<S>, Option<CardInstance<S>>)>)
    ensures
        r is Some == i is Some,
        r is Some ==> r->Some_0.0.id == i->Some_0.0.id,
{
    match i {
        Some((a, b)) => Some((a.clone(), match b {
            Some(x) => Some(x.clone()),
            None => None,
        })),
        None => None,
    }
}

/// Appends a `Log` effect for each of `logs`, in order.
/// Logs the move of `event_instance` from `from` to `to` (to its owner in full, and to
/// everyone else as far as they may see it), then the logs held back, then lets both secrets
/// log what they held back.
fn push_move_log<S: State>(
    effects: &mut Vec<Effect<S>>,
    owner: Player,
    event_instance: Option<(CardInstance<S>, Option<CardInstance<S>>)>,
    from: CardLocation,
    to: ExactCardLocation,
    deferred_logs: Vec<CardEvent<S>>,
)
    ensures
        final(effects)@.len() == old(effects)@.len() + deferred_logs@.len() + 3,
        final(effects)@.subrange(0, old(effects)@.len() as int) == old(effects)@,
        final(effects)@[old(effects)@.len() as int] matches Effect::MutateOrLog {
            event: CardEvent::MoveCard { instance, from: f, to: t },
            ..
        } && f == from && t == to && (instance is Some) == (event_instance is Some) && (instance is Some ==> instance->Some_0.0.id
            == event_instance->Some_0.0.id),
{
    let public_instance = clone_move_instance(&event_instance);
    let ghost k = effects@.len() as int;
    effects.push(Effect::MutateOrLog {
        player: owner,
        change: SecretChange::LogMove { instance: event_instance, from, to },
        event: CardEvent::MoveCard { instance: public_instance, from, to },
    });
    let ghost ev = effects@[k];
    let ghost start = effects@;
    push_logs(effects, deferred_logs);
    let ghost mid = effects@;
    assert forall|i: int| 0 <= i <= k implies mid[i] == start[i] by {
        assert(mid.subrange(0, start.len() as int)[i] == mid[i]);
    }
    effects.push(Effect::Mutate { player: 0, change: SecretChange::DrainDeferredLogs });
    effects.push(Effect::Mutate { player: 1, change: SecretChange::DrainDeferredLogs });
    assert(effects@[k] == ev);
    assert(effects@.subrange(0, k) =~= old(effects)@);
}

pub fn push_logs<S: State>(effects: &mut Vec<Effect<S>>, logs: Vec<CardEvent<S>>)
    ensures
        final(effects)@.len() == old(effects)@.len() + logs@.len(),
        final(effects)@.subrange(0, old(effects)@.len() as int) == old(effects)@,
        forall|i: int| 0 <= i < logs@.len() ==> final(effects)@[old(effects)@.len() + i] == (Effect::Log { event: logs@[i] }),
{
    let mut logs = logs;
    let n = logs.len();
    let ghost all = logs@;
    let ghost start = effects@;
    let mut k: usize = 0;
    while logs.len() > 0
        invariant
            logs@ == all.subrange(k as int, all.len() as int),
            k <= all.len(),
            all.len() == n,
            effects@.len() == start.len() + k,
            effects@.subrange(0, start.len() as int) == start,
            forall|i: int| 0 <= i < k ==> effects@[start.len() + i] == (Effect::Log { event: all[i] }),
        decreases logs@.len(),
    {
        let e = logs.remove(0);
        effects.push(Effect::Log { event: e });
        k = k + 1;
        proof {
            assert(logs@ =~= all.subrange(k as int, all.len() as int));
            assert(effects@.subrange(0, start.len() as int) =~= start);
        }
    }
}

} // verus!
