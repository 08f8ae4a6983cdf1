//! Questions about cards that may need a player's secret to answer: whether two cards are
//! the same, whether a card is public, and handing a card to a player as a new pointer.

use vstd::prelude::*;

use crate::attach_card::placements;
use crate::card::card_eq_result;
use crate::card_game::{Effect, Step};
use crate::game::{pointer_card, CardGame};
use crate::secret_protocol::{SecretAnswer, SecretChange, SecretQuery};
use crate::{Card, InstanceID, Player, State};

verus! {

/// How far a `RevealCardsEq` has got.
pub enum EqPhase {
    /// Waiting for whether two pointers of one player stand for the same ID.
    AwaitSame,
    /// Waiting for the ID behind the first card's pointer.
    AwaitFirst,
    /// Waiting for the ID behind the second card's pointer, the first being `first`.
    AwaitSecond { first: InstanceID },
    Finished,
}

/// A `reveal_if_cards_eq` in progress: whether `a` and `b` are the same card.
pub struct RevealCardsEq {
    pub a: Card,
    pub b: Card,
    pub phase: EqPhase,
}

impl RevealCardsEq {
    /// Compares the ID `first` with the second card, asking for the ID behind it if it is a
    /// pointer.
    fn with_first<S: State>(&mut self, first: InstanceID) -> (r: Step<S, bool>)
        ensures
            final(self).a == old(self).a,
            final(self).b == old(self).b,
            match old(self).b {
                Card::ID(y) => r matches Step::Done { result, effects } && result == (first == y) && effects@.len() == 0,
                Card::Pointer(q) => r is Reveal && r->Reveal_player == q.player
                    && r->Reveal_query == (SecretQuery::PointerTarget { index: q.index }) && r->Reveal_effects@.len() == 0
                    && final(self).phase == (EqPhase::AwaitSecond { first }),
            },
    {
        match self.b {
            Card::ID(y) => {
                self.phase = EqPhase::Finished;
                Step::Done { effects: Vec::new(), result: first == y }
            },
            Card::Pointer(q) => {
                self.phase = EqPhase::AwaitSecond { first };
                Step::Reveal { effects: Vec::new(), player: q.player, query: SecretQuery::PointerTarget { index: q.index } }
            },
        }
    }

    /// Starts comparing `a` and `b`: settled publicly when `Card::eq` can tell; two pointers
    /// of one player are compared by that player's secret; otherwise each pointer's ID is
    /// revealed and the IDs are compared.
    pub fn start<S: State>(a: Card, b: Card) -> (r: (RevealCardsEq, Step<S, bool>))
        ensures
            r.0.a == a,
            r.0.b == b,
            card_eq_result(a, b) matches Ok(x) ==> (r.1 matches Step::Done { result, .. } && result == x),
            card_eq_result(a, b) is Err && a is Pointer && b is Pointer && a->Pointer_0.player == b->Pointer_0.player
                ==> r.1 is Reveal && r.1->Reveal_player == a->Pointer_0.player
                && r.1->Reveal_query == (SecretQuery::SameTarget { a: a->Pointer_0.index, b: b->Pointer_0.index }),
            (card_eq_result(a, b) is Err && a is ID && b is Pointer) ==> r.1 is Reveal && r.1->Reveal_player == b->Pointer_0.player
                && r.1->Reveal_query == (SecretQuery::PointerTarget { index: b->Pointer_0.index })
                && r.0.phase == (EqPhase::AwaitSecond { first: a->ID_0 }),
            (card_eq_result(a, b) is Err && a is Pointer && !(b is Pointer && a->Pointer_0.player == b->Pointer_0.player))
                ==> r.1 is Reveal && r.1->Reveal_player == a->Pointer_0.player
                && r.1->Reveal_query == (SecretQuery::PointerTarget { index: a->Pointer_0.index }) && r.0.phase is AwaitFirst,
    {
        let mut machine = RevealCardsEq { a, b, phase: EqPhase::Finished };
        if let Ok(result) = a.eq(b) {
            return (machine, Step::Done { effects: Vec::new(), result });
        }
        if let (Card::Pointer(p), Card::Pointer(q)) = (a, b) {
            if p.player == q.player {
                machine.phase = EqPhase::AwaitSame;
                return (
                    machine,
                    Step::Reveal { effects: Vec::new(), player: p.player, query: SecretQuery::SameTarget { a: p.index, b: q.index } },
                );
            }
        }
        match a {
            Card::ID(x) => {
                let step = machine.with_first(x);
                (machine, step)
            },
            Card::Pointer(p) => {
                machine.phase = EqPhase::AwaitFirst;
                (machine, Step::Reveal { effects: Vec::new(), player: p.player, query: SecretQuery::PointerTarget { index: p.index } })
            },
        }
    }

    /// Resumes with the answer to the last question.
    pub fn resume<S: State>(&mut self, answer: SecretAnswer<S>) -> (r: Step<S, bool>)
        ensures
            final(self).a == old(self).a,
            final(self).b == old(self).b,
            old(self).phase is AwaitSame ==> match answer {
                SecretAnswer::Flag(same) => r matches Step::Done { result, .. } && result == same,
                _ => r is Failed,
            },
            old(self).phase matches EqPhase::AwaitSecond { first } ==> match answer {
                SecretAnswer::Id(second) => r matches Step::Done { result, .. } && result == (first == second),
                _ => r is Failed,
            },
            old(self).phase is AwaitFirst ==> match answer {
                SecretAnswer::Id(first) => match old(self).b {
                    Card::ID(y) => r matches Step::Done { result, .. } && result == (first == y),
                    Card::Pointer(q) => r is Reveal && r->Reveal_player == q.player
                        && r->Reveal_query == (SecretQuery::PointerTarget { index: q.index })
                        && final(self).phase == (EqPhase::AwaitSecond { first }),
                },
                _ => r is Failed,
            },
            old(self).phase is Finished ==> r is Failed,
    {
        match self.phase {
            EqPhase::AwaitSame => match answer {
                SecretAnswer::Flag(same) => {
                    self.phase = EqPhase::Finished;
                    Step::Done { effects: Vec::new(), result: same }
                },
                _ => Step::Failed { effects: Vec::new() },
            },
            EqPhase::AwaitFirst => match answer {
                SecretAnswer::Id(first) => self.with_first(first),
                _ => Step::Failed { effects: Vec::new() },
            },
            EqPhase::AwaitSecond { first } => match answer {
                SecretAnswer::Id(second) => {
                    self.phase = EqPhase::Finished;
                    Step::Done { effects: Vec::new(), result: first == second }
                },
                _ => Step::Failed { effects: Vec::new() },
            },
            EqPhase::Finished => Step::Failed { effects: Vec::new() },
        }
    }
}

/// The negation of what a `RevealCardsEq` step gives.
pub fn negate_step<S: State>(step: Step<S, bool>) -> (r: Step<S, bool>)
    ensures
        step matches Step::Done { result, .. } ==> (r matches Step::Done { result: x, .. } && x == !result),
        step is Reveal ==> r is Reveal && r->Reveal_player == step->Reveal_player && r->Reveal_query == step->Reveal_query,
        step is Failed ==> r is Failed,
{
    match step {
        Step::Done { effects, result } => Step::Done { effects, result: !result },
        other => other,
    }
}

impl<S: State> CardGame<S> {
    /// Whether `card` is public: an ID is looked up publicly, a pointer asks its player's
    /// secret (`SecretQuery::TargetPublic`). `None` for an ID out of the instance table.
    pub fn is_public(&self, card: Card) -> (r: Option<Step<S, bool>>)
        ensures
            match card {
                Card::ID(id) => if id.0 < self.state.instances@.len() {
                    r matches Some(Step::Done { result, .. }) && result == (self.state.instances@[id.0 as int] is Instance)
                } else {
                    r is None
                },
                Card::Pointer(p) => r matches Some(Step::Reveal { player, query: SecretQuery::TargetPublic { index, placements }, .. })
                    && player == p.player && index == p.index && placements@.len() == self.state.instances@.len(),
            },
    {
        match card {
            Card::ID(id) => {
                if id.0 >= self.state.instances.len() {
                    return None;
                }
                Some(Step::Done { effects: Vec::new(), result: self.state.instances[id.0].instance_ref().is_some() })
            },
            Card::Pointer(p) => {
                let placements = placements(&self.state);
                Some(Step::Reveal { effects: Vec::new(), player: p.player, query: SecretQuery::TargetPublic { index: p.index, placements } })
            },
        }
    }
}

/// How far a `MovePointer` has got.
pub enum MovePointerPhase {
    /// Waiting for the ID behind the pointer.
    AwaitId,
    /// Waiting for the pointer count of `player`, who was given a pointer.
    AwaitCount { player: Player },
    Finished,
}

/// A `move_pointer` in progress: handing `card` to `player` as a new pointer, or revealing
/// its ID when `player` is `None`.
pub struct MovePointer {
    pub card: Card,
    pub player: Option<Player>,
    pub phase: MovePointerPhase,
}

impl MovePointer {
    fn with_id<S: State>(&mut self, id: InstanceID) -> (r: Step<S, Card>)
        ensures
            final(self).card == old(self).card,
            final(self).player == old(self).player,
            match old(self).player {
                None => r matches Step::Done { result, .. } && result == Card::ID(id),
                Some(p) => r is Reveal && r->Reveal_player == p && r->Reveal_query == SecretQuery::PointerCount
                    && r->Reveal_effects@ == seq![Effect::<S>::Mutate { player: p, change: SecretChange::PointTo { id } }],
            },
    {
        match self.player {
            None => {
                self.phase = MovePointerPhase::Finished;
                Step::Done { effects: Vec::new(), result: Card::ID(id) }
            },
            Some(p) => {
                self.phase = MovePointerPhase::AwaitCount { player: p };
                let mut effects: Vec<Effect<S>> = Vec::new();
                effects.push(Effect::Mutate { player: p, change: SecretChange::PointTo { id } });
                Step::Reveal { effects, player: p, query: SecretQuery::PointerCount }
            },
        }
    }

    /// Starts handing `card` to `player`.
    pub fn start<S: State>(card: Card, player: Option<Player>) -> (r: (MovePointer, Step<S, Card>))
        ensures
            r.0.card == card,
            r.0.player == player,
            card is Pointer ==> r.1 is Reveal && r.1->Reveal_player == card->Pointer_0.player
                && r.1->Reveal_query == (SecretQuery::PointerTarget { index: card->Pointer_0.index }),
    {
        let mut machine = MovePointer { card, player, phase: MovePointerPhase::Finished };
        match card {
            Card::ID(id) => {
                let step = machine.with_id(id);
                (machine, step)
            },
            Card::Pointer(p) => {
                machine.phase = MovePointerPhase::AwaitId;
                (machine, Step::Reveal { effects: Vec::new(), player: p.player, query: SecretQuery::PointerTarget { index: p.index } })
            },
        }
    }

    /// Resumes with the answer to the last question; the new pointer is the first one the
    /// player's secret recorded beyond those the player had.
    pub fn resume<S: State>(&mut self, game: &mut CardGame<S>, answer: SecretAnswer<S>) -> (r: Step<S, Card>)
        ensures
            final(self).card == old(self).card,
            ({
                let p = old(self).phase->AwaitCount_player;
                old(self).phase is AwaitCount && p < 2 ==> match answer {
                    SecretAnswer::Count(n) => {
                        let start = old(game).state.player_cards@[p as int].pointers;
                        if n > start {
                            r matches Step::Done { result, .. } && result == pointer_card(p, start as int)
                                && final(game).pointers_grew(*old(game), p, n - start)
                        } else {
                            r is Failed
                        }
                    },
                    _ => r is Failed,
                }
            }),
    {
        match self.phase {
            MovePointerPhase::AwaitId => match answer {
                SecretAnswer::Id(id) => self.with_id(id),
                _ => Step::Failed { effects: Vec::new() },
            },
            MovePointerPhase::AwaitCount { player } => match answer {
                SecretAnswer::Count(n) => {
                    if player >= 2 || n <= game.state.player_cards(player).pointers {
                        return Step::Failed { effects: Vec::new() };
                    }
                    match game.new_secret_pointers(player, n) {
                        Some(cards) => {
                            self.phase = MovePointerPhase::Finished;
                            Step::Done { effects: Vec::new(), result: cards[0] }
                        },
                        None => Step::Failed { effects: Vec::new() },
                    }
                },
                _ => Step::Failed { effects: Vec::new() },
            },
            MovePointerPhase::Finished => Step::Failed { effects: Vec::new() },
        }
    }
}

} // verus!
