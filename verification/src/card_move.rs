//! `move_card`: moving a card to any zone, attachments included, step by step.

use vstd::prelude::*;

use crate::attach_card::{attach_resumed, attach_revealed, attach_target_ok, AttachCard};
use crate::card_game::{Effect, MoveCard, MoveResult, Step};
use crate::move_card::{
    attached_to, detachable, done_with, field_ready, sorts_field, lands_in, leaves_ok, logs_move, move_resumed, removable_at, room_in,
    secret_location,
};
use crate::pile_move::{is_pile, pile_location, pile_move_done};
use crate::secret_entry::{enterable, move_in_done};
use crate::secret_protocol::is_secret_zone;
use crate::secret_protocol::SecretAnswer;
use crate::{Card, GameState, Player, State, Zone};

verus! {

/// A `move_card` in progress: a plain move, or an attachment to a parent card.
pub enum CardMove<S: State> {
    Plain(MoveCard),
    Attach(AttachCard<S>),
}

/// `effects` followed by the effects of `step`.
pub fn with_effects<S: State, T>(effects: Vec<Effect<S>>, step: Step<S, T>) -> (r: Step<S, T>)
    ensures
        step is Reveal <==> r is Reveal,
        step is Done <==> r is Done,
        step is Failed <==> r is Failed,
        step matches Step::Done { result, .. } ==> (r matches Step::Done { result: r2, .. } && r2 == result),
        step matches Step::Reveal { player, query, .. } ==> (r matches Step::Reveal { player: p2, query: q2, .. } && p2 == player && q2 == query),
{
    let mut effects = effects;
    match step {
        Step::Reveal { effects: mut e, player, query } => {
            effects.append(&mut e);
            Step::Reveal { effects, player, query }
        },
        Step::Done { effects: mut e, result } => {
            effects.append(&mut e);
            Step::Done { effects, result }
        },
        Step::Failed { effects: mut e } => {
            effects.append(&mut e);
            Step::Failed { effects }
        },
    }
}

/// The answer, of the kind the phase of `cm` asks for, makes the resumed move ask its next
/// question (see `move_resumed` and `attach_resumed`).
pub open spec fn resume_asks<S: State>(cm: CardMove<S>, answer: SecretAnswer<S>) -> bool {
    match cm {
        CardMove::Plain(m) => {
            ||| (m.phase is AwaitBucket && answer is Bucket && m.card is Pointer)
            ||| (m.phase is AwaitId && answer is Id && m.bucket is Some)
            ||| (m.phase is AwaitLocation && answer is Location && m.bucket is Some && m.to_bucket != m.bucket)
        },
        CardMove::Attach(m) => {
            ||| (m.phase is AwaitCardBucket && answer is Placement && m.parent is Pointer)
            ||| (m.phase is AwaitCardId && answer is Id && m.card_bucket is Some)
            ||| (m.phase is AwaitTransferId && answer is Id && m.card_bucket is Some)
        },
    }
}

/// The answer, of the kind the phase of `cm` asks for, lets the resumed move finish on
/// `game` (see `move_resumed` and `attach_resumed`).
pub open spec fn resume_finishes<S: State>(cm: CardMove<S>, game: GameState<S>, answer: SecretAnswer<S>) -> bool {
    match cm {
        CardMove::Plain(m) => {
            let b = m.bucket.unwrap();
            let id = answer->Id_0;
            let loc = answer->Location_0;
            let i = answer->Instances_0;
            let a = answer->Instances_1;
            ||| (m.phase is AwaitId && answer is Id && m.bucket is None && m.to_bucket is None && is_pile(m.to_zone)
                && pile_location(game, id) is Some && m.to_player < 2 && game.public_with_attachment(id) && field_ready(m, game))
            ||| (m.phase is AwaitId && answer is Id && m.bucket is None && m.to_bucket == Some(m.to_player) && m.to_player < 2
                && is_secret_zone(m.to_zone) && enterable(game, id) && room_in(game.player_cards@[m.to_player as int], m.to_zone))
            ||| (m.phase is AwaitLocation && answer is Location && m.bucket is Some && m.to_bucket == m.bucket && b < 2
                && m.to_player < 2 && removable_at(game.player_cards@[b as int], loc) && is_secret_zone(m.to_zone)
                && room_in(game.player_cards@[m.to_player as int], m.to_zone))
            ||| (m.phase is AwaitInstance && answer is Instances && i is Some && m.bucket is Some && m.to_player < 2
                && m.owner < 2 && leaves_ok(game, m.owner, m.location) && !(m.to_zone is Attachment) && m.to_zone != Zone::Field
                && room_in(game.player_cards@[m.to_player as int], m.to_zone) && i.unwrap().id.0 < game.instances@.len()
                && (a is Some ==> a.unwrap().id.0 < game.instances@.len()))
        },
        CardMove::Attach(m) => {
            let id = answer->Id_0;
            let i = answer->Instances_0;
            ||| (m.phase is AwaitLateId && answer is Id && m.parent_bucket is Some)
            ||| (m.phase is AwaitCardInstance && answer is Instances && i is Some && m.card_bucket is Some
                && m.parent_bucket is Some && i.unwrap().id.0 < game.instances@.len())
            ||| (m.phase is AwaitPublicParentCardId && answer is Id && m.parent_id is Some && game.spec_public(id) is Some
                && attach_target_ok(game, m.parent_id.unwrap()))
            ||| (m.phase is AwaitParentId && answer is Id && m.card is ID && m.card_bucket is None && m.parent_bucket is None
                && m.card->ID_0 != id && pile_location(game, m.card->ID_0) is Some && game.spec_public(m.card->ID_0) is Some
                && attach_target_ok(game, id) && game.spec_public(id).unwrap().attachment is None)
        },
    }
}

impl<S: State> CardMove<S> {
    /// The card being moved.
    pub open spec fn card(self) -> Card {
        match self {
            CardMove::Plain(m) => m.card,
            CardMove::Attach(m) => m.card,
        }
    }

    /// Starts moving `card` to `to_zone` of `to_player`. A move to an attachment zone attaches
    /// the card to that zone's parent (and the parent's owner becomes the card's owner);
    /// any other move goes to `to_player`'s zone. Attaching a public card to a card in a
    /// secret asks no secret anything, so nothing shows whether that card had an attachment.
    pub fn start(game: &mut GameState<S>, card: Card, to_player: Player, to_zone: Zone) -> (r: (CardMove<S>, Step<S, MoveResult>))
        ensures
            final(game).instances@.len() == old(game).instances@.len(),
            r.0.card() == card,
            to_zone matches Zone::Attachment { parent } ==> (r.0 matches CardMove::Attach(m) && m.parent == parent),
            !(to_zone is Attachment) ==> (r.0 matches CardMove::Plain(m) && m.to_player == to_player && m.to_zone == to_zone),
            (card matches Card::ID(c) && to_zone matches Zone::Attachment { parent: Card::ID(p) } && c.0 < old(game).instances@.len()
                && p.0 < old(game).instances@.len() && old(game).instances@[c.0 as int] is Instance
                && old(game).instances@[p.0 as int] is Player) ==> !(r.1 is Reveal),
            !(to_zone is Attachment) ==> lands_in(r.1, final(game).player_cards@, to_player, to_zone),
            sorts_field(to_zone, to_player, r.1, *final(game)),
            (!(to_zone is Attachment) && card is ID && card->ID_0.0 < old(game).instances@.len()
                && old(game).instances@[card->ID_0.0 as int] is Instance) ==> done_with(r.1, card->ID_0),
            (card is ID && card->ID_0.0 < old(game).instances@.len() && old(game).instances@[card->ID_0.0 as int] is Instance
                && is_pile(to_zone) && pile_location(*old(game), card->ID_0) is Some && r.1 is Done)
                ==> pile_move_done(*old(game), *final(game), card->ID_0, to_player, to_zone),
            (card is ID && is_secret_zone(to_zone) && to_player < 2 && enterable(*old(game), card->ID_0) && r.1 is Done)
                ==> move_in_done(*old(game), *final(game), card->ID_0, to_player, to_zone),
            (card is ID && is_pile(to_zone) && to_player < 2 && pile_location(*old(game), card->ID_0) is Some
                && old(game).public_with_attachment(card->ID_0) && (to_zone == Zone::Field ==> old(game).field_public(to_player)))
                ==> r.1 is Done,
            (card is ID && is_secret_zone(to_zone) && to_player < 2 && enterable(*old(game), card->ID_0)
                && room_in(old(game).player_cards@[to_player as int], to_zone)) ==> r.1 is Done,
            ({
                let p = to_zone->parent->ID_0;
                (card is ID && to_zone is Attachment && to_zone->parent is ID && card->ID_0 != p
                    && pile_location(*old(game), card->ID_0) is Some && old(game).spec_public(card->ID_0) is Some
                    && attach_target_ok(*old(game), p) && old(game).spec_public(p).unwrap().attachment is None) ==> r.1 is Done
            }),
            (card is ID && to_zone is Attachment && to_zone->parent is ID && old(game).spec_public(to_zone->parent->ID_0) is Some
                && r.1 is Done) ==> (final(game).spec_public(to_zone->parent->ID_0) matches Some(i) && i.attachment == Some(card->ID_0)),
            (!(to_zone is Attachment) && card is ID && card->ID_0.0 < old(game).instances@.len()
                && old(game).instances@[card->ID_0.0 as int] is Instance) ==> logs_move(
                r.1,
                old(game).spec_location(card->ID_0).unwrap(),
                to_player,
                to_zone,
                if is_pile(to_zone) && pile_location(*old(game), card->ID_0) is Some
                    && old(game).spec_public(card->ID_0).unwrap().id == card->ID_0 {
                    Some(card->ID_0)
                } else {
                    None
                },
            ),
            (card is ID && old(game).spec_public(card->ID_0) is Some && detachable(*old(game), card->ID_0, to_player, to_zone)) ==> (r.1 is Done
                && (final(game).spec_public(attached_to(*old(game), card->ID_0).unwrap()) matches Some(i) && i.attachment is None)),
            ({
                let c = card->ID_0;
                let p = to_zone->parent->ID_0;
                (card is ID && to_zone is Attachment && to_zone->parent is ID && p.0 < old(game).instances@.len()
                    && old(game).instances@[p.0 as int] is Player && pile_location(*old(game), c) is Some
                    && c.0 < old(game).instances@.len() && old(game).instances@[c.0 as int] is Instance
                    && old(game).instances@[c.0 as int]->Instance_0.id.0 < old(game).instances@.len()) ==> r.1 is Done
            }),
            to_zone is Attachment ==> r.0->Attach_0.attached_publicly(r.1, *final(game)),
            to_zone is Attachment ==> r.0->Attach_0.attached_as_named(r.1, *final(game)),
            (card is ID && to_zone is Attachment && to_zone->parent is ID && to_zone->parent->ID_0.0 < old(game).instances@.len()
                && old(game).instances@[to_zone->parent->ID_0.0 as int] is Instance) ==> r.0->Attach_0.parent_bucket is None,
            (!(to_zone is Attachment) && card is ID && card->ID_0.0 < old(game).instances@.len()
                && old(game).instances@[card->ID_0.0 as int] is Instance) ==> (!(r.1 is Reveal)
                && (r.1 matches Step::Done { result, .. } ==> (result matches Ok((from, Some(_)))
                    && old(game).spec_location(card->ID_0) == Some(from)))),
    {
        match to_zone {
            Zone::Attachment { parent } => {
                let (m, step) = AttachCard::start(game, card, parent);
                (CardMove::Attach(m), step)
            },
            _ => {
                let (m, step) = MoveCard::start(game, card, to_player, to_zone);
                (CardMove::Plain(m), step)
            },
        }
    }

    /// Resumes with the answer to the last question.
    pub fn resume(&mut self, game: &mut GameState<S>, answer: SecretAnswer<S>) -> (r: Step<S, MoveResult>)
        ensures
            final(game).instances@.len() == old(game).instances@.len(),
            final(self).card() == old(self).card(),
            *old(self) is Plain ==> (*final(self) is Plain && final(self)->Plain_0.same_request(old(self)->Plain_0)),
            *old(self) is Plain ==> lands_in(r, final(game).player_cards@, old(self)->Plain_0.to_player, old(self)->Plain_0.to_zone),
            *old(self) is Plain ==> move_resumed(old(self)->Plain_0, *old(game), *final(game), answer, r),
            *old(self) is Plain ==> sorts_field(old(self)->Plain_0.to_zone, old(self)->Plain_0.to_player, r, *final(game)),
            *old(self) is Attach ==> attach_resumed(old(self)->Attach_0, *old(game), answer, r),
            *old(self) is Attach ==> attach_revealed(old(self)->Attach_0, answer, r, *final(game)),
            resume_asks(*old(self), answer) ==> r is Reveal,
            resume_finishes(*old(self), *old(game), answer) ==> r is Done,
            *old(self) is Attach ==> (*final(self) is Attach && final(self)->Attach_0.attached_publicly(r, *final(game))),
            ({
                let m = old(self)->Plain_0;
                (*old(self) is Plain && m.phase is AwaitLocation && answer is Location && m.bucket == Some(m.to_player)
                    && m.to_bucket == m.bucket && secret_location(answer->Location_0) && r is Done)
                    ==> (*final(self) is Plain && final(self)->Plain_0.location == answer->Location_0
                        && final(self)->Plain_0.within_done(*old(game), *final(game)))
            }),
    {
        match self {
            CardMove::Plain(m) => m.resume(game, answer),
            CardMove::Attach(m) => m.resume(game, answer),
        }
    }
}

} // verus!
