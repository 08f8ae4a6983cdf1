//! Operations on several cards at once, one card after another: moving, drawing, finding
//! parents and copying.

use vstd::prelude::*;

use crate::card_game::{Effect, MoveResult, Step};
use crate::card_move::{resume_asks, resume_finishes, with_effects, CardMove};
use crate::copy_card::CopyCard;
use crate::game::CardGame;
use crate::game_state::lemma_parent_known_same_table;
use crate::random::choose_cards;
use crate::reveal_parent::RevealParent;
use crate::secret_protocol::SecretAnswer;
use crate::{Card, GameState, Player, State, Zone};

verus! {

/// A `move_cards` in progress: moving each of `cards`, in order, to `to_zone` of
/// `to_player`, collecting each move's result.
pub struct MoveCards<S: State> {
    pub cards: Vec<Card>,
    pub to_player: Player,
    pub to_zone: Zone,
    pub results: Vec<MoveResult>,
    pub current: Option<CardMove<S>>,
}

impl<S: State> MoveCards<S> {
    /// The move in progress, if any, is that of the first card of `cards` without a result,
    /// to the batch's destination.
    pub open spec fn on_track(self) -> bool {
        &&& self.results@.len() <= self.cards@.len()
        &&& self.current matches Some(m) ==> {
            &&& self.results@.len() < self.cards@.len()
            &&& m.card() == self.cards@[self.results@.len() as int]
            &&& !(self.to_zone is Attachment) ==> (m matches CardMove::Plain(p) && p.to_player == self.to_player
                && p.to_zone == self.to_zone)
        }
    }

    /// Moves on from the step of the current move: a finished move records its result and
    /// the next one starts; a question is passed on.
    fn advance(&mut self, game: &mut GameState<S>, effects: Vec<Effect<S>>, step: Step<S, MoveResult>) -> (r: Step<S, Vec<MoveResult>>)
        requires
            old(self).results@.len() < old(self).cards@.len(),
        ensures
            final(self).cards == old(self).cards,
            r matches Step::Done { result, .. } ==> (result@.len() == old(self).cards@.len()
                && result@.subrange(0, old(self).results@.len() as int) == old(self).results@),
            step is Reveal ==> r is Reveal,
            step is Failed ==> r is Failed,
            (step is Done && old(self).results@.len() + 1 == old(self).cards@.len()) ==> r is Done,
            old(self).on_track() ==> final(self).on_track(),
            final(self).to_player == old(self).to_player && final(self).to_zone == old(self).to_zone,
        decreases old(self).cards@.len() - old(self).results@.len(), 0nat,
    {
        match step {
            Step::Done { effects: mut e, result } => {
                let mut effects = effects;
                effects.append(&mut e);
                self.results.push(result);
                self.current = None;
                self.next(game, effects)
            },
            Step::Reveal { effects: e, player, query } => with_effects(effects, Step::Reveal { effects: e, player, query }),
            Step::Failed { effects: e } => with_effects(effects, Step::Failed { effects: e }),
        }
    }

    /// Starts the move of the next card, or finishes with the results.
    fn next(&mut self, game: &mut GameState<S>, effects: Vec<Effect<S>>) -> (r: Step<S, Vec<MoveResult>>)
        requires
            old(self).results@.len() <= old(self).cards@.len(),
        ensures
            final(self).cards == old(self).cards,
            old(self).results@.len() == old(self).cards@.len() ==> (r matches Step::Done { result, .. } && result@ == old(self).results@),
            r matches Step::Done { result, .. } ==> (result@.len() == old(self).cards@.len()
                && result@.subrange(0, old(self).results@.len() as int) == old(self).results@),
            final(self).on_track(),
            final(self).to_player == old(self).to_player && final(self).to_zone == old(self).to_zone,
        decreases old(self).cards@.len() - old(self).results@.len(), 1nat,
    {
        let k = self.results.len();
        if k >= self.cards.len() {
            let mut results: Vec<MoveResult> = Vec::new();
            std::mem::swap(&mut results, &mut self.results);
            self.current = None;
            return Step::Done { effects, result: results };
        }
        let (m, step) = CardMove::start(game, self.cards[k], self.to_player, self.to_zone);
        self.current = Some(m);
        self.advance(game, effects, step)
    }

    /// Starts moving `cards` to `to_zone` of `to_player`.
    pub fn start(game: &mut GameState<S>, cards: Vec<Card>, to_player: Player, to_zone: Zone) -> (r: (MoveCards<S>, Step<S, Vec<MoveResult>>))
        ensures
            r.0.cards@ == cards@,
            r.0.on_track(),
            r.0.to_player == to_player && r.0.to_zone == to_zone,
            cards@.len() == 0 ==> (r.1 matches Step::Done { result, .. } && result@.len() == 0),
            r.1 matches Step::Done { result, .. } ==> result@.len() == cards@.len(),
    {
        let mut machine = MoveCards { cards, to_player, to_zone, results: Vec::new(), current: None };
        let step = machine.next(game, Vec::new());
        (machine, step)
    }

    /// Resumes the current move with the answer to its last question; the results of the
    /// moves already finished are kept, first, among the results. An answer that makes the
    /// current move ask again is passed on as that question; one that lets the last move
    /// finish finishes the whole.
    pub fn resume(&mut self, game: &mut GameState<S>, answer: SecretAnswer<S>) -> (r: Step<S, Vec<MoveResult>>)
        ensures
            final(self).cards == old(self).cards,
            r matches Step::Done { result, .. } ==> (result@.len() == old(self).cards@.len()
                && result@.subrange(0, old(self).results@.len() as int) == old(self).results@),
            old(self).current is None ==> r is Failed,
            old(self).on_track() ==> final(self).on_track(),
            final(self).to_player == old(self).to_player && final(self).to_zone == old(self).to_zone,
            (old(self).current matches Some(cm) && old(self).results@.len() < old(self).cards@.len()
                && resume_asks(cm, answer)) ==> r is Reveal,
            (old(self).current matches Some(cm) && old(self).results@.len() + 1 == old(self).cards@.len()
                && resume_finishes(cm, *old(game), answer)) ==> r is Done,
    {
        let step = match &mut self.current {
            Some(m) => m.resume(game, answer),
            None => {
                return Step::Failed { effects: Vec::new() };
            },
        };
        if self.results.len() >= self.cards.len() {
            return Step::Failed { effects: Vec::new() };
        }
        self.advance(game, Vec::new(), step)
    }
}

/// A `draw_cards` in progress: `cards` were chosen from the deck and are moved to the secret
/// hand.
pub struct DrawCards<S: State> {
    pub cards: Vec<Card>,
    pub moves: MoveCards<S>,
}

/// The chosen cards, once their moves are over.
fn drawn<S: State>(cards: &Vec<Card>, step: Step<S, Vec<MoveResult>>) -> (r: Step<S, Vec<Card>>)
    ensures
        step is Done ==> (r matches Step::Done { result, .. } && result@ == cards@),
        step is Reveal ==> r is Reveal && r->Reveal_player == step->Reveal_player && r->Reveal_query == step->Reveal_query,
        step is Failed ==> r is Failed,
{
    match step {
        Step::Done { effects, .. } => {
            let mut result: Vec<Card> = Vec::new();
            let mut i: usize = 0;
            while i < cards.len()
                invariant
                    0 <= i <= cards@.len(),
                    result@ == cards@.subrange(0, i as int),
                decreases cards.len() - i,
            {
                result.push(cards[i]);
                i = i + 1;
                proof {
                    assert(result@ =~= cards@.subrange(0, i as int));
                }
            }
            proof {
                assert(cards@.subrange(0, cards@.len() as int) =~= cards@);
            }
            Step::Done { effects, result }
        },
        Step::Reveal { effects, player, query } => Step::Reveal { effects, player, query },
        Step::Failed { effects } => Step::Failed { effects },
    }
}

impl<S: State> DrawCards<S> {
    /// Starts drawing `count` cards from `player`'s deck: `player` gets a pointer to each card
    /// of their deck, `count` of them (all, when the deck is smaller) are chosen with
    /// `random`, and they are moved, in that order, to `player`'s secret hand. The drawn cards
    /// are the chosen pointers.
    pub fn start(game: &mut CardGame<S>, player: Player, count: usize, random: &mut rand::rngs::StdRng) -> (r: (DrawCards<S>, Step<S, Vec<Card>>))
        requires
            player < 2,
            old(game).state.player_cards@[player as int].pointers + old(game).state.player_cards@[player as int].deck <= usize::MAX,
        ensures
            r.0.cards@.len() == if count < old(game).state.player_cards@[player as int].deck {
                count as int
            } else {
                old(game).state.player_cards@[player as int].deck as int
            },
            r.0.cards@.to_multiset().subset_of(Seq::new(
                old(game).state.player_cards@[player as int].deck as nat,
                |i: int| crate::game::pointer_card(player, old(game).state.player_cards@[player as int].pointers + i),
            ).to_multiset()),
            r.1 matches Step::Done { result, .. } ==> result@ == r.0.cards@,
            r.0.moves.cards@ == r.0.cards@,
            r.0.moves.on_track(),
            r.0.moves.to_player == player && r.0.moves.to_zone == (Zone::Hand { public: false }),
    {
        let (pointers, effects) = game.deck_cards(player);
        let count = if count < pointers.len() {
            count
        } else {
            pointers.len()
        };
        let cards = choose_cards(pointers, random, count);
        let mut chosen: Vec<Card> = Vec::new();
        let mut i: usize = 0;
        while i < cards.len()
            invariant
                0 <= i <= cards@.len(),
                chosen@ == cards@.subrange(0, i as int),
            decreases cards.len() - i,
        {
            chosen.push(cards[i]);
            i = i + 1;
            proof {
                assert(chosen@ =~= cards@.subrange(0, i as int));
            }
        }
        proof {
            assert(cards@.subrange(0, cards@.len() as int) =~= cards@);
        }
        let (moves, step) = MoveCards::start(&mut game.state, chosen, player, Zone::Hand { public: false });
        let step = drawn(&cards, with_effects(effects, step));
        (DrawCards { cards, moves }, step)
    }

    /// Resumes the current move with the answer to its last question: an answer that makes
    /// that move ask again is passed on as that question; one that lets the last move finish
    /// finishes the draw with the chosen cards.
    pub fn resume(&mut self, game: &mut CardGame<S>, answer: SecretAnswer<S>) -> (r: Step<S, Vec<Card>>)
        ensures
            final(self).cards == old(self).cards,
            r matches Step::Done { result, .. } ==> result@ == old(self).cards@,
            old(self).moves.current is None ==> r is Failed,
            final(self).moves.cards == old(self).moves.cards,
            old(self).moves.on_track() ==> final(self).moves.on_track(),
            final(self).moves.to_player == old(self).moves.to_player && final(self).moves.to_zone == old(self).moves.to_zone,
            (old(self).moves.current matches Some(cm) && old(self).moves.results@.len() < old(self).moves.cards@.len()
                && resume_asks(cm, answer)) ==> r is Reveal,
            (old(self).moves.current matches Some(cm) && old(self).moves.results@.len() + 1 == old(self).moves.cards@.len()
                && resume_finishes(cm, old(game).state, answer)) ==> r is Done,
    {
        let step = self.moves.resume(&mut game.state, answer);
        drawn(&self.cards, step)
    }
}

/// A `reveal_parents` in progress: the parent of each of `cards`, in order.
pub struct RevealParents {
    pub cards: Vec<Card>,
    pub parents: Vec<Option<Card>>,
    pub current: Option<RevealParent>,
}

impl RevealParents {
    fn advance<S: State>(&mut self, game: &mut CardGame<S>, step: Step<S, Option<Card>>) -> (r: Step<S, Vec<Option<Card>>>)
        requires
            old(self).parents@.len() < old(self).cards@.len(),
            forall|k: int| 0 <= k < old(self).cards@.len() ==> old(game).state.parent_known_for(#[trigger] old(self).cards@[k]),
        ensures
            final(game).state.instances == old(game).state.instances,
            final(self).cards == old(self).cards,
            r matches Step::Done { result, .. } ==> (result@.len() == old(self).cards@.len()
                && result@.subrange(0, old(self).parents@.len() as int) == old(self).parents@),
        decreases old(self).cards@.len() - old(self).parents@.len(), 0nat,
    {
        match step {
            Step::Done { effects, result } => {
                self.parents.push(result);
                self.current = None;
                with_effects(effects, self.next(game))
            },
            Step::Reveal { effects, player, query } => Step::Reveal { effects, player, query },
            Step::Failed { effects } => Step::Failed { effects },
        }
    }

    fn next<S: State>(&mut self, game: &mut CardGame<S>) -> (r: Step<S, Vec<Option<Card>>>)
        requires
            old(self).parents@.len() <= old(self).cards@.len(),
            forall|k: int| 0 <= k < old(self).cards@.len() ==> old(game).state.parent_known_for(#[trigger] old(self).cards@[k]),
        ensures
            final(game).state.instances == old(game).state.instances,
            final(self).cards == old(self).cards,
            r matches Step::Done { result, .. } ==> (result@.len() == old(self).cards@.len()
                && result@.subrange(0, old(self).parents@.len() as int) == old(self).parents@),
        decreases old(self).cards@.len() - old(self).parents@.len(), 1nat,
    {
        let k = self.parents.len();
        if k >= self.cards.len() {
            let mut parents: Vec<Option<Card>> = Vec::new();
            std::mem::swap(&mut parents, &mut self.parents);
            return Step::Done { effects: Vec::new(), result: parents };
        }
        let (m, step) = RevealParent::start(game, self.cards[k]);
        self.current = Some(m);
        self.advance(game, step)
    }

    /// Starts finding the parent of each of `cards`.
    pub fn start<S: State>(game: &mut CardGame<S>, cards: Vec<Card>) -> (r: (RevealParents, Step<S, Vec<Option<Card>>>))
        requires
            forall|k: int| 0 <= k < cards@.len() ==> old(game).state.parent_known_for(#[trigger] cards@[k]),
        ensures
            r.0.cards@ == cards@,
            r.1 matches Step::Done { result, .. } ==> result@.len() == cards@.len(),
    {
        let mut machine = RevealParents { cards, parents: Vec::new(), current: None };
        let step = machine.next(game);
        (machine, step)
    }

    /// Resumes the current search with the answer to its last question; the parents already
    /// found are kept, first, among the results.
    pub fn resume<S: State>(&mut self, game: &mut CardGame<S>, answer: SecretAnswer<S>) -> (r: Step<S, Vec<Option<Card>>>)
        requires
            forall|k: int| 0 <= k < old(self).cards@.len() ==> old(game).state.parent_known_for(#[trigger] old(self).cards@[k]),
            answer matches SecretAnswer::Target(Some(id)) ==> old(game).state.parent_known_for(Card::ID(id)),
        ensures
            final(game).state.instances == old(game).state.instances,
            final(self).cards == old(self).cards,
            r matches Step::Done { result, .. } ==> (result@.len() == old(self).cards@.len()
                && result@.subrange(0, old(self).parents@.len() as int) == old(self).parents@),
    {
        let step = match &mut self.current {
            Some(m) => m.resume(game, answer),
            None => {
                return Step::Failed { effects: Vec::new() };
            },
        };
        if self.parents.len() >= self.cards.len() {
            return Step::Failed { effects: Vec::new() };
        }
        proof {
            assert forall|k: int| 0 <= k < self.cards@.len() implies game.state.parent_known_for(#[trigger] self.cards@[k]) by {
                assert(self.cards@[k] == old(self).cards@[k]);
                lemma_parent_known_same_table(game.state, old(game).state, self.cards@[k]);
            }
        }
        self.advance(game, step)
    }
}

/// A `copy_cards` in progress: a copy of each of `cards`, in order.
pub struct CopyCards {
    pub cards: Vec<Card>,
    pub deep: bool,
    pub copies: Vec<Card>,
    pub current: Option<CopyCard>,
}

impl CopyCards {
    fn advance<S: State>(&mut self, game: &mut CardGame<S>, step: Step<S, Card>) -> (r: Step<S, Vec<Card>>)
        requires
            old(self).copies@.len() < old(self).cards@.len(),
        ensures
            final(self).cards == old(self).cards,
            r matches Step::Done { result, .. } ==> (result@.len() == old(self).cards@.len()
                && result@.subrange(0, old(self).copies@.len() as int) == old(self).copies@),
        decreases old(self).cards@.len() - old(self).copies@.len(), 0nat,
    {
        match step {
            Step::Done { effects, result } => {
                self.copies.push(result);
                self.current = None;
                with_effects(effects, self.next(game))
            },
            Step::Reveal { effects, player, query } => Step::Reveal { effects, player, query },
            Step::Failed { effects } => Step::Failed { effects },
        }
    }

    fn next<S: State>(&mut self, game: &mut CardGame<S>) -> (r: Step<S, Vec<Card>>)
        requires
            old(self).copies@.len() <= old(self).cards@.len(),
        ensures
            final(self).cards == old(self).cards,
            r matches Step::Done { result, .. } ==> (result@.len() == old(self).cards@.len()
                && result@.subrange(0, old(self).copies@.len() as int) == old(self).copies@),
        decreases old(self).cards@.len() - old(self).copies@.len(), 1nat,
    {
        let k = self.copies.len();
        if k >= self.cards.len() {
            let mut copies: Vec<Card> = Vec::new();
            std::mem::swap(&mut copies, &mut self.copies);
            return Step::Done { effects: Vec::new(), result: copies };
        }
        let (m, step) = CopyCard::start(game, self.cards[k], self.deep);
        self.current = Some(m);
        self.advance(game, step)
    }

    /// Starts copying each of `cards`.
    pub fn start<S: State>(game: &mut CardGame<S>, cards: Vec<Card>, deep: bool) -> (r: (CopyCards, Step<S, Vec<Card>>))
        ensures
            r.0.cards@ == cards@,
            r.1 matches Step::Done { result, .. } ==> result@.len() == cards@.len(),
    {
        let mut machine = CopyCards { cards, deep, copies: Vec::new(), current: None };
        let step = machine.next(game);
        (machine, step)
    }

    /// Resumes the current copy with the answer to its last question; the copies already made
    /// are kept, first, among the results.
    pub fn resume<S: State>(&mut self, game: &mut CardGame<S>, answer: SecretAnswer<S>) -> (r: Step<S, Vec<Card>>)
        ensures
            final(self).cards == old(self).cards,
            r matches Step::Done { result, .. } ==> (result@.len() == old(self).cards@.len()
                && result@.subrange(0, old(self).copies@.len() as int) == old(self).copies@),
    {
        let step = match &mut self.current {
            Some(m) => m.resume(game, answer),
            None => {
                return Step::Failed { effects: Vec::new() };
            },
        };
        if self.copies.len() >= self.cards.len() {
            return Step::Failed { effects: Vec::new() };
        }
        self.advance(game, step)
    }
}

impl<S: State> CardGame<S> {
    /// The cards of `cards` whose entry of `keep`, taken in the same order, is `true`.
    pub fn filter_cards(cards: &Vec<Card>, keep: &Vec<bool>) -> (r: Vec<Card>)
        requires
            cards@.len() == keep@.len(),
        ensures
            r@ == cards@.zip_with(keep@).filter(|x: (Card, bool)| x.1).map_values(|x: (Card, bool)| x.0),
    {
        let ghost pairs = cards@.zip_with(keep@);
        let mut r: Vec<Card> = Vec::new();
        let mut i: usize = 0;
        while i < cards.len()
            invariant
                0 <= i <= cards@.len(),
                cards@.len() == keep@.len(),
                pairs == cards@.zip_with(keep@),
                r@ == pairs.subrange(0, i as int).filter(|x: (Card, bool)| x.1).map_values(|x: (Card, bool)| x.0),
            decreases cards.len() - i,
        {
            proof {
                reveal(Seq::filter);
                assert(pairs.subrange(0, i as int + 1).drop_last() =~= pairs.subrange(0, i as int));
                assert(pairs[i as int] == (cards@[i as int], keep@[i as int]));
            }
            if keep[i] {
                r.push(cards[i]);
                proof {
                    assert(r@ =~= pairs.subrange(0, i as int + 1).filter(|x: (Card, bool)| x.1).map_values(|x: (Card, bool)| x.0));
                }
            } else {
                proof {
                    assert(r@ =~= pairs.subrange(0, i as int + 1).filter(|x: (Card, bool)| x.1).map_values(|x: (Card, bool)| x.0));
                }
            }
            i = i + 1;
        }
        proof {
            assert(pairs.subrange(0, cards@.len() as int) =~= pairs);
        }
        r
    }
}

} // verus!
