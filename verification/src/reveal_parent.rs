//! `reveal_parent`: the card a card is attached to, step by step. A parent in a player's
//! secret is handed to that player as a new pointer; a public one by its ID.

use vstd::prelude::*;

use crate::card_game::{Effect, Step};
use crate::game::{pointer_card, CardGame};
use crate::game_state::InstanceOrPlayer;
use crate::secret_protocol::{SecretAnswer, SecretChange, SecretQuery};
use crate::{Card, GameState, InstanceID, Player, State};

verus! {

/// How far a `RevealParent` has got.
pub enum RevealParentPhase {
    /// Waiting for the ID behind the pointer, unless its parent is in the same secret.
    AwaitTarget,
    /// Waiting for the number of pointers of `player`, whose secret pointed to the parent.
    AwaitCount { player: Player },
    Finished,
}

/// A `reveal_parent` in progress.
pub struct RevealParent {
    pub card: Card,
    pub phase: RevealParentPhase,
}

/// What `reveal_parent` gives for `id`, an ID of the public instance table, when the public
/// state settles it: the public parent's ID, or no parent.
pub open spec fn public_parent_result<S: State>(game: GameState<S>, id: InstanceID) -> Option<Card> {
    match game.spec_unique_parent(id) {
        Some(p) => Some(Card::ID(p)),
        None => None,
    }
}

impl RevealParent {
    /// Starts finding the card that `card` is attached to.
    pub fn start<S: State>(game: &mut CardGame<S>, card: Card) -> (r: (RevealParent, Step<S, Option<Card>>))
        requires
            old(game).state.parent_known_for(card),
        ensures
            r.0.card == card,
            *final(game) == *old(game),
            match card {
                Card::ID(id) => RevealParent::id_step(old(game).state, id, r.1),
                Card::Pointer(p) => {
                    &&& (r.1 is Reveal)
                    &&& r.1->Reveal_player == p.player
                    &&& r.1->Reveal_query == (SecretQuery::UnattachedTarget { index: p.index })
                    &&& r.1->Reveal_effects@.len() == 0
                },
            },
    {
        let mut machine = RevealParent { card, phase: RevealParentPhase::Finished };
        match card {
            Card::ID(id) => {
                let step = machine.with_id(game, id);
                (machine, step)
            },
            Card::Pointer(p) => {
                machine.phase = RevealParentPhase::AwaitTarget;
                (
                    machine,
                    Step::Reveal {
                        effects: Vec::new(),
                        player: p.player,
                        query: SecretQuery::UnattachedTarget { index: p.index },
                    },
                )
            },
        }
    }

    /// What happens for `id`: a public instance's parent, of which it has at most one, is
    /// found publicly; an instance in a secret has its holder point to its parent.
    pub open spec fn id_step<S: State>(game: GameState<S>, id: InstanceID, step: Step<S, Option<Card>>) -> bool {
        if id.0 >= game.instances@.len() {
            step is Failed
        } else {
            match game.instances@[id.0 as int] {
                InstanceOrPlayer::Instance(_) => {
                    &&& (step is Done)
                    &&& step->Done_effects@.len() == 0
                    &&& step->Done_result == public_parent_result(game, id)
                },
                InstanceOrPlayer::Player(owner) => ({
                    &&& (step is Reveal)
                    &&& step->Reveal_player == owner
                    &&& step->Reveal_query == SecretQuery::PointerCount
                    &&& step->Reveal_effects@ == Seq::<Effect<S>>::empty().push(
                        Effect::Mutate { player: owner, change: SecretChange::PointToParent { card: Card::ID(id) } },
                    )
                }),
            }
        }
    }

    fn with_id<S: State>(&mut self, game: &mut CardGame<S>, id: InstanceID) -> (r: Step<S, Option<Card>>)
        requires
            old(game).state.parent_known_for(Card::ID(id)),
        ensures
            final(self).card == old(self).card,
            *final(game) == *old(game),
            RevealParent::id_step(old(game).state, id, r),
    {
        if id.0 >= game.state.instances.len() {
            return Step::Failed { effects: Vec::new() };
        }
        match &game.state.instances[id.0] {
            InstanceOrPlayer::Instance(_) => {
                self.phase = RevealParentPhase::Finished;
                match game.state.public_parent(id) {
                    Ok(None) => Step::Done { effects: Vec::new(), result: None },
                    Ok(Some(p)) => Step::Done { effects: Vec::new(), result: Some(Card::ID(p)) },
                    Err(()) => {
                        proof {
                            let (j, k) = choose|j: int, k: int| j != k && game.state.is_parent_slot(j, id) && game.state.is_parent_slot(k, id);
                            assert(game.state.is_parent_slot(j, id) && game.state.is_parent_slot(k, id));
                        }
                        Step::Failed { effects: Vec::new() }
                    },
                }
            },
            InstanceOrPlayer::Player(owner) => {
                let owner = *owner;
                self.phase = RevealParentPhase::AwaitCount { player: owner };
                let mut effects: Vec<Effect<S>> = Vec::new();
                effects.push(Effect::Mutate { player: owner, change: SecretChange::PointToParent { card: Card::ID(id) } });
                Step::Reveal { effects, player: owner, query: SecretQuery::PointerCount }
            },
        }
    }

    /// Resumes with the answer to the last question. The pointer count of the player whose
    /// secret pointed to the parent has grown by one when there is a parent, and not at all
    /// when there is none; anything else fails.
    pub fn resume<S: State>(&mut self, game: &mut CardGame<S>, answer: SecretAnswer<S>) -> (r: Step<S, Option<Card>>)
        requires
            answer matches SecretAnswer::Target(Some(id)) ==> old(game).state.parent_known_for(Card::ID(id)),
        ensures
            final(self).card == old(self).card,
            final(game).state.instances == old(game).state.instances,
            ({
                let player = old(self).phase->AwaitCount_player;
                old(self).phase is AwaitCount && player < 2 ==> match answer {
                SecretAnswer::Count(n) => {
                    let start = old(game).state.player_cards@[player as int].pointers;
                    if n == start {
                        r matches Step::Done { result, .. } && result is None
                    } else if n == start + 1 {
                        r matches Step::Done { result, .. } && result == Some(pointer_card(player, start as int))
                            && final(game).pointers_grew(*old(game), player, 1)
                    } else {
                        r is Failed
                    }
                },
                _ => r is Failed,
                }
            }),
            (old(self).phase is AwaitTarget && old(self).card is Pointer) ==> match answer {
                SecretAnswer::Target(Some(id)) => RevealParent::id_step(old(game).state, id, r),
                SecretAnswer::Target(None) => {
                    &&& (r is Reveal)
                    &&& r->Reveal_player == old(self).card->Pointer_0.player
                    &&& r->Reveal_query == SecretQuery::PointerCount
                    &&& r->Reveal_effects@ == Seq::<Effect<S>>::empty().push(
                        Effect::Mutate {
                            player: old(self).card->Pointer_0.player,
                            change: SecretChange::PointToParent { card: old(self).card },
                        },
                    )
                },
                _ => r is Failed,
            },
    {
        match self.phase {
            RevealParentPhase::AwaitTarget => match answer {
                SecretAnswer::Target(Some(id)) => self.with_id(game, id),
                SecretAnswer::Target(None) => match self.card {
                    Card::Pointer(p) => {
                        self.phase = RevealParentPhase::AwaitCount { player: p.player };
                        let mut effects: Vec<Effect<S>> = Vec::new();
                        effects.push(Effect::Mutate { player: p.player, change: SecretChange::PointToParent { card: self.card } });
                        Step::Reveal { effects, player: p.player, query: SecretQuery::PointerCount }
                    },
                    Card::ID(_) => Step::Failed { effects: Vec::new() },
                },
                _ => Step::Failed { effects: Vec::new() },
            },
            RevealParentPhase::AwaitCount { player } => match answer {
                SecretAnswer::Count(n) => {
                    if player >= 2 {
                        return Step::Failed { effects: Vec::new() };
                    }
                    let start = game.state.player_cards(player).pointers;
                    if n > start && n - start > 1 {
                        return Step::Failed { effects: Vec::new() };
                    }
                    match game.new_secret_pointers(player, n) {
                        Some(cards) => {
                            self.phase = RevealParentPhase::Finished;
                            if cards.len() == 0 {
                                Step::Done { effects: Vec::new(), result: None }
                            } else {
                                Step::Done { effects: Vec::new(), result: Some(cards[0]) }
                            }
                        },
                        None => Step::Failed { effects: Vec::new() },
                    }
                },
                _ => Step::Failed { effects: Vec::new() },
            },
            RevealParentPhase::Finished => Step::Failed { effects: Vec::new() },
        }
    }
}

} // verus!
