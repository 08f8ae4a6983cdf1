//! `reveal_from_card` and `reveal_from_cards_fold`: applying game code to what is known of
//! cards, publicly for public cards, and inside the holder's secret for the others, so that
//! only the result is revealed.

use vstd::prelude::*;

use crate::game::CardGame;
use crate::game_state::InstanceOrPlayer;
use crate::{Card, CardInfo, GameState, InstanceID, Player, PlayerSecret, State};

verus! {

/// A question for a secret that applies the game's function to a card there.
pub enum RevealQuery {
    /// The card with ID `id`, which this secret holds.
    Held { id: InstanceID },
    /// The card behind this player's pointer `index`; its ID when this secret does not hold
    /// it.
    Pointer { index: usize },
}

/// A secret's answer to a `RevealQuery`.
pub enum RevealAnswer<T> {
    /// What the game's function gave.
    Value(T),
    /// The card is not held here: it has this ID.
    Elsewhere(InstanceID),
}

/// The outcome of one step of `reveal_from_card`.
pub enum RevealStep<T> {
    /// Ask `player`'s secret `query` and resume with its answer.
    Ask { player: Player, query: RevealQuery },
    /// The game's function gave this.
    Done(T),
    /// The card cannot be found: an ID out of the instance table, or a public card without a
    /// zone or with an attachment that is not public.
    Failed,
}

impl<S: State> GameState<S> {
    /// A public card with a zone, whose attachment, if any, is public.
    pub open spec fn has_public_info(self, id: InstanceID) -> bool {
        &&& self.public_with_attachment(id)
        &&& self.public_zone(id) is Some
    }

    /// What game code sees of the public card `id`, when `has_public_info(id)`.
    pub open spec fn spec_public_info(self, id: InstanceID) -> CardInfo<'static, S> {
        let instance = self.spec_public(id).unwrap();
        CardInfo {
            instance: &instance,
            owner: self.public_zone(id).unwrap().0,
            zone: self.public_zone(id).unwrap().1,
            attachment: match instance.attachment {
                Some(a) => Some(&self.spec_public(a).unwrap()),
                None => None,
            },
        }
    }
}

impl<S: State> CardGame<S> {
    /// What game code sees of the public card `id`: the instance, its owner and zone, and its
    /// attachment. `None` where the card is not public, has no zone, or its attachment is not
    /// public.
    pub fn card_info(&self, id: InstanceID) -> (r: Option<CardInfo<S>>)
        ensures
            r is Some <==> self.state.has_public_info(id),
            r matches Some(info) ==> {
                &&& *info.instance == self.state.spec_public(id).unwrap()
                &&& (info.owner, info.zone) == self.state.public_zone(id).unwrap()
                &&& match self.state.spec_public(id).unwrap().attachment {
                    Some(a) => info.attachment matches Some(x) && *x == self.state.spec_public(a).unwrap(),
                    None => info.attachment is None,
                }
            },
    {
        let instance = match self.state.public_instance(id) {
            Some(i) => i,
            None => {
                return None;
            },
        };
        let (owner, zone) = match self.state.try_location(id) {
            Some(l) => match l.location {
                Some((zone, _)) => (l.player, zone),
                None => {
                    return None;
                },
            },
            None => {
                return None;
            },
        };
        let attachment = match instance.attachment {
            Some(a) => match self.state.public_instance(a) {
                Some(x) => Some(x),
                None => {
                    return None;
                },
            },
            None => None,
        };
        Some(CardInfo { instance, owner, zone, attachment })
    }

    /// Starts applying `f` to `card`: a public card here, a card in a secret by asking its
    /// holder.
    pub fn reveal_from_card<T, F: Fn(CardInfo<S>) -> T>(&self, card: Card, f: &F) -> (r: RevealStep<T>)
        requires
            forall|i: CardInfo<S>| #[trigger] f.requires((i,)),
        ensures
            match card {
                Card::Pointer(p) => r == (RevealStep::<T>::Ask { player: p.player, query: RevealQuery::Pointer { index: p.index } }),
                Card::ID(id) => self.id_step(id, f, r),
            },
    {
        match card {
            Card::Pointer(p) => RevealStep::Ask { player: p.player, query: RevealQuery::Pointer { index: p.index } },
            Card::ID(id) => self.reveal_from_id(id, f),
        }
    }

    /// What `reveal_from_card` does for the ID `id`.
    pub open spec fn id_step<T, F: Fn(CardInfo<S>) -> T>(self, id: InstanceID, f: &F, r: RevealStep<T>) -> bool {
        if id.0 >= self.state.instances@.len() {
            r is Failed
        } else {
            match self.state.instances@[id.0 as int] {
                InstanceOrPlayer::Player(owner) => r == (RevealStep::<T>::Ask { player: owner, query: RevealQuery::Held { id } }),
                InstanceOrPlayer::Instance(_) => if self.state.has_public_info(id) {
                    r matches RevealStep::Done(t) && f.ensures((self.state.spec_public_info(id),), t)
                } else {
                    r is Failed
                },
            }
        }
    }

    fn reveal_from_id<T, F: Fn(CardInfo<S>) -> T>(&self, id: InstanceID, f: &F) -> (r: RevealStep<T>)
        requires
            forall|i: CardInfo<S>| #[trigger] f.requires((i,)),
        ensures
            self.id_step(id, f, r),
    {
        if id.0 >= self.state.instances.len() {
            return RevealStep::Failed;
        }
        match &self.state.instances[id.0] {
            InstanceOrPlayer::Player(owner) => RevealStep::Ask { player: *owner, query: RevealQuery::Held { id } },
            InstanceOrPlayer::Instance(_) => match self.card_info(id) {
                Some(info) => RevealStep::Done(f(info)),
                None => RevealStep::Failed,
            },
        }
    }

    /// Resumes `reveal_from_card` with a secret's answer: its value, or the ID of the card when
    /// it is not held there, which is then looked up as `reveal_from_card` does.
    pub fn resume_reveal_from<T, F: Fn(CardInfo<S>) -> T>(&self, answer: RevealAnswer<T>, f: &F) -> (r: RevealStep<T>)
        requires
            forall|i: CardInfo<S>| #[trigger] f.requires((i,)),
        ensures
            match answer {
                RevealAnswer::Value(t) => r == RevealStep::Done(t),
                RevealAnswer::Elsewhere(id) => self.id_step(id, f, r),
            },
    {
        match answer {
            RevealAnswer::Value(t) => RevealStep::Done(t),
            RevealAnswer::Elsewhere(id) => self.reveal_from_id(id, f),
        }
    }
}

impl<S: State> PlayerSecret<S> {
    /// This secret's answer to `query`, applying `f` to the card when it is held here with a
    /// zone. `None` where the pointer is out of range, or the card of a `Held` query is not
    /// held here, or the card held here has no zone.
    pub fn answer_reveal<T, F: Fn(CardInfo<S>) -> T>(&self, query: &RevealQuery, f: &F) -> (r: Option<RevealAnswer<T>>)
        requires
            self.wf(),
            forall|i: CardInfo<S>| #[trigger] f.requires((i,)),
        ensures
            match *query {
                RevealQuery::Held { id } => if self.has(id) && self.spec_zone_of(id) is Some {
                    r matches Some(RevealAnswer::Value(t)) && f.ensures((self.spec_card_info(Card::ID(id)),), t)
                } else {
                    r is None
                },
                RevealQuery::Pointer { index } => if index >= self.pointers@.len() {
                    r is None
                } else if !self.has(self.pointers@[index as int]) {
                    r == Some(RevealAnswer::<T>::Elsewhere(self.pointers@[index as int]))
                } else if self.spec_zone_of(self.pointers@[index as int]) is Some {
                    r matches Some(RevealAnswer::Value(t)) && f.ensures(
                        (self.spec_card_info(Card::ID(self.pointers@[index as int])),),
                        t,
                    )
                } else {
                    r is None
                },
            },
    {
        let id = match query {
            RevealQuery::Held { id } => *id,
            RevealQuery::Pointer { index } => {
                if *index >= self.pointers.len() {
                    return None;
                }
                let id = self.pointers[*index];
                if self.slot_of(id).is_none() {
                    return Some(RevealAnswer::Elsewhere(id));
                }
                id
            },
        };
        if self.zone_of(id).is_none() {
            return None;
        }
        match self.reveal_from_card(Card::ID(id), f) {
            Some(t) => Some(RevealAnswer::Value(t)),
            None => None,
        }
    }
}

/// What the public side of `reveal_from_cards_fold` leaves to the secrets: the value folded so
/// far, the cards each player's secret must fold in, and the game's function applied to every
/// public card.
pub struct FoldPlan<T, B> {
    pub accumulated: B,
    pub first_player_cards: Vec<Card>,
    pub second_player_cards: Vec<Card>,
    pub public_values: Vec<(InstanceID, T)>,
}

/// `mids` is a run of folding `fold` over `values` from `init`: it starts at `init`, and each
/// value folded onto one entry can give the next.
pub open spec fn fold_trace<T, B, F: Fn(B, &T) -> B>(fold: &F, init: B, values: Seq<T>, mids: Seq<B>) -> bool {
    &&& mids.len() == values.len() + 1
    &&& mids[0] == init
    &&& forall|i: int| 0 <= i < values.len() ==> fold.ensures((mids[i], &#[trigger] values[i]), mids[i + 1])
}

/// `acc` is what folding `fold` over `values`, in order, from `init` can give.
pub open spec fn folds_to<T, B, F: Fn(B, &T) -> B>(fold: &F, init: B, values: Seq<T>, acc: B) -> bool {
    exists|mids: Seq<B>| #[trigger] fold_trace(fold, init, values, mids) && mids.last() == acc
}

/// A run of a fold, with one more value folded on.
pub proof fn lemma_fold_trace_push<T, B, F: Fn(B, &T) -> B>(fold: &F, init: B, values: Seq<T>, mids: Seq<B>, t: T, next: B)
    requires
        fold_trace(fold, init, values, mids),
        fold.ensures((mids.last(), &t), next),
    ensures
        fold_trace(fold, init, values.push(t), mids.push(next)),
{
    let v = values.push(t);
    let m = mids.push(next);
    assert forall|i: int| 0 <= i < v.len() implies fold.ensures((m[i], &#[trigger] v[i]), m[i + 1]) by {
        if i < values.len() {
            assert(v[i] == values[i]);
            assert(m[i] == mids[i]);
            assert(m[i + 1] == mids[i + 1]);
        } else {
            assert(v[i] == t);
            assert(m[i] == mids.last());
        }
    }
}

/// Entry `i` of `values` is the first with the key `id`.
pub open spec fn is_first_key<T>(values: Seq<(InstanceID, T)>, id: InstanceID, i: int) -> bool {
    &&& 0 <= i < values.len()
    &&& values[i].0 == id
    &&& forall|j: int| 0 <= j < i ==> values[j].0 != id
}

/// The value of the first entry of `values` with the key `id`.
pub open spec fn first_value<T>(values: Seq<(InstanceID, T)>, id: InstanceID) -> T {
    values[choose|i: int| is_first_key(values, id, i)].1
}

/// The value recorded for `id` in `values`, if any: that of the first entry with that key.
pub fn value_of<T>(values: &Vec<(InstanceID, T)>, id: InstanceID) -> (r: Option<&T>)
    ensures
        r is Some <==> exists|i: int| 0 <= i < values@.len() && (#[trigger] values@[i]).0 == id,
        r matches Some(t) ==> *t == first_value(values@, id),
{
    let mut i: usize = 0;
    while i < values.len()
        invariant
            0 <= i <= values@.len(),
            forall|j: int| 0 <= j < i ==> (#[trigger] values@[j]).0 != id,
        decreases values.len() - i,
    {
        if values[i].0 == id {
            proof {
                assert(is_first_key(values@, id, i as int));
                let c = choose|c: int| is_first_key(values@, id, c);
                if c < i {
                    assert(values@[c].0 != id);
                } else if c > i {
                    assert(values@[i as int].0 != id);
                }
            }
            return Some(&values[i].1);
        }
        i = i + 1;
    }
    None
}

impl<S: State> CardGame<S> {
    /// The holder of `card` for folding: `None` for a public ID, `Some(player)` for an ID in
    /// `player`'s secret or `player`'s pointer.
    pub open spec fn fold_holder(self, card: Card) -> Option<Player> {
        match card {
            Card::ID(id) => match self.state.instances@[id.0 as int] {
                InstanceOrPlayer::Instance(_) => None,
                InstanceOrPlayer::Player(owner) => Some(owner),
            },
            Card::Pointer(p) => Some(p.player),
        }
    }

    /// Every card of `cards` can be sorted for folding: IDs in range, holders `0` or `1`.
    pub open spec fn fold_sortable(self, cards: Seq<Card>) -> bool {
        forall|i: int| 0 <= i < cards.len() ==> {
            &&& (#[trigger] cards[i] matches Card::ID(id) ==> id.0 < self.state.instances@.len())
            &&& (self.fold_holder(cards[i]) matches Some(p) ==> p < 2)
        }
    }

    /// The public cards of `cards`, in order.
    pub open spec fn fold_public(self, cards: Seq<Card>) -> Seq<Card> {
        cards.filter(|c: Card| self.fold_holder(c) is None)
    }

    /// Every public instance of the table has the information game code sees.
    pub open spec fn table_mappable(self) -> bool {
        forall|k: int| 0 <= k < self.state.instances@.len() ==> (#[trigger] self.state.instances@[k] matches InstanceOrPlayer::Instance(inst)
            ==> self.state.has_public_info(inst.id))
    }

    /// Some public instance of the table has the ID `id`.
    pub open spec fn in_table(self, id: InstanceID) -> bool {
        exists|k: int| 0 <= k < self.state.instances@.len() && (#[trigger] self.state.instances@[k] matches InstanceOrPlayer::Instance(inst)
            && inst.id == id)
    }

    /// A public card of `cards` whose ID no mapped value has is not a public instance, so the
    /// fold cannot be made.
    proof fn lemma_unmapped_not_ready<T>(self, cards: Seq<Card>, public_ids: Seq<InstanceID>, values: Seq<(InstanceID, T)>, j: int)
        requires
            public_ids.map_values(|id: InstanceID| Card::ID(id)) == self.fold_public(cards),
            0 <= j < public_ids.len(),
            forall|k2: int| 0 <= k2 < self.state.instances@.len() ==> (#[trigger] self.state.instances@[k2] matches InstanceOrPlayer::Instance(inst)
                ==> exists|i: int| 0 <= i < values.len() && (#[trigger] values[i]).0 == inst.id),
            !(exists|i: int| 0 <= i < values.len() && (#[trigger] values[i]).0 == public_ids[j]),
        ensures
            !self.fold_ready(cards),
    {
        let publics = self.fold_public(cards);
        assert(public_ids.map_values(|id: InstanceID| Card::ID(id))[j] == Card::ID(public_ids[j]));
        assert(publics[j]->ID_0 == public_ids[j]);
        if self.fold_ready(cards) {
            assert(self.in_table(publics[j]->ID_0));
            let k2 = choose|k2: int| 0 <= k2 < self.state.instances@.len() && (#[trigger] self.state.instances@[k2] matches InstanceOrPlayer::Instance(inst)
                && inst.id == public_ids[j]);
            assert(self.state.instances@[k2] matches InstanceOrPlayer::Instance(x) && x.id == public_ids[j]);
        }
    }

    /// What `reveal_from_cards_fold` needs to succeed on `cards`: they can be sorted, every
    /// public instance can be mapped, and every public card of `cards` is a public instance.
    pub open spec fn fold_ready(self, cards: Seq<Card>) -> bool {
        &&& self.fold_sortable(cards)
        &&& self.table_mappable()
        &&& forall|i: int| 0 <= i < self.fold_public(cards).len() ==> self.in_table(#[trigger] self.fold_public(cards)[i]->ID_0)
    }

    /// Folds `fold` over `map` applied to each of `cards`, in the order of the public cards
    /// first, then the cards held by the first player, then those held by the second: the
    /// public side. It sorts the cards by holder, applies `map` to every public card, and folds
    /// in the public cards of `cards`; the plan it returns lists what each player's secret
    /// folds in (`PlayerSecret::fold_cards`). `None` where a card cannot be sorted, a public
    /// card has no information, or a public card of `cards` was not mapped.
    pub fn reveal_from_cards_fold<T, B, F: Fn(B, &T) -> B, G: Fn(CardInfo<S>) -> T>(
        &self,
        cards: &Vec<Card>,
        map: &G,
        init: B,
        fold: &F,
    ) -> (r: Option<FoldPlan<T, B>>)
        requires
            forall|i: CardInfo<S>| #[trigger] map.requires((i,)),
            forall|b: B, t: &T| #[trigger] fold.requires((b, t)),
        ensures
            r is Some <==> self.fold_ready(cards@),
            r matches Some(plan) ==> {
                &&& plan.first_player_cards@ == cards@.filter(|c: Card| self.fold_holder(c) == Some(0u8))
                &&& plan.second_player_cards@ == cards@.filter(|c: Card| self.fold_holder(c) == Some(1u8))
                &&& forall|i: int| 0 <= i < plan.public_values@.len() ==> self.state.has_public_info((#[trigger] plan.public_values@[i]).0)
                    && map.ensures((self.state.spec_public_info(plan.public_values@[i].0),), plan.public_values@[i].1)
                &&& forall|id: InstanceID| self.in_table(id) ==> exists|i: int| 0 <= i < plan.public_values@.len()
                    && (#[trigger] plan.public_values@[i]).0 == id
                &&& folds_to(fold, init, self.fold_public(cards@).map_values(|c: Card| first_value(plan.public_values@, c->ID_0)), plan.accumulated)
            },
    {
        let mut public_ids: Vec<InstanceID> = Vec::new();
        let mut first: Vec<Card> = Vec::new();
        let mut second: Vec<Card> = Vec::new();
        let mut i: usize = 0;
        while i < cards.len()
            invariant
                0 <= i <= cards@.len(),
                self.fold_sortable(cards@.subrange(0, i as int)),
                first@ == cards@.subrange(0, i as int).filter(|c: Card| self.fold_holder(c) == Some(0u8)),
                second@ == cards@.subrange(0, i as int).filter(|c: Card| self.fold_holder(c) == Some(1u8)),
                public_ids@.map_values(|id: InstanceID| Card::ID(id)) == self.fold_public(cards@.subrange(0, i as int)),
            decreases cards.len() - i,
        {
            let card = cards[i];
            proof {
                reveal(Seq::filter);
                assert(cards@.subrange(0, i as int + 1).drop_last() =~= cards@.subrange(0, i as int));
            }
            let holder = match card {
                Card::ID(id) => {
                    if id.0 >= self.state.instances.len() {
                        proof {
                            assert(!self.fold_sortable(cards@)) by {
                                assert(cards@[i as int] == card);
                            }
                        }
                        return None;
                    }
                    self.state.instances[id.0].player()
                },
                Card::Pointer(p) => Some(p.player),
            };
            let ghost ids0 = public_ids@;
            match holder {
                None => {
                    if let Card::ID(id) = card {
                        public_ids.push(id);
                        proof {
                            assert(public_ids@.map_values(|id: InstanceID| Card::ID(id)) =~= ids0.map_values(|id: InstanceID| Card::ID(id)).push(card));
                        }
                    }
                },
                Some(0) => first.push(card),
                Some(1) => second.push(card),
                Some(_) => {
                    proof {
                        assert(!self.fold_sortable(cards@)) by {
                            assert(cards@[i as int] == card);
                        }
                    }
                    return None;
                },
            }
            proof {
                assert(self.fold_sortable(cards@.subrange(0, i as int + 1))) by {
                    assert forall|j: int| 0 <= j < i + 1 implies {
                        &&& (#[trigger] cards@.subrange(0, i as int + 1)[j] matches Card::ID(id) ==> id.0 < self.state.instances@.len())
                        &&& (self.fold_holder(cards@.subrange(0, i as int + 1)[j]) matches Some(p) ==> p < 2)
                    } by {
                        if j < i {
                            assert(cards@.subrange(0, i as int + 1)[j] == cards@.subrange(0, i as int)[j]);
                        }
                    }
                }
            }
            i = i + 1;
        }
        proof {
            assert(cards@.subrange(0, cards@.len() as int) =~= cards@);
        }
        let ghost publics = self.fold_public(cards@);
        let mut values: Vec<(InstanceID, T)> = Vec::new();
        let mut k: usize = 0;
        while k < self.state.instances.len()
            invariant
                0 <= k <= self.state.instances@.len(),
                forall|i: CardInfo<S>| #[trigger] map.requires((i,)),
                forall|i: int| 0 <= i < values@.len() ==> self.state.has_public_info((#[trigger] values@[i]).0)
                    && map.ensures((self.state.spec_public_info(values@[i].0),), values@[i].1),
                forall|i: int| 0 <= i < values@.len() ==> self.in_table((#[trigger] values@[i]).0),
                forall|k2: int| 0 <= k2 < k ==> (#[trigger] self.state.instances@[k2] matches InstanceOrPlayer::Instance(inst)
                    ==> self.state.has_public_info(inst.id) && exists|i: int| 0 <= i < values@.len() && (#[trigger] values@[i]).0 == inst.id),
            decreases self.state.instances.len() - k,
        {
            if let InstanceOrPlayer::Instance(inst) = &self.state.instances[k] {
                let id = inst.id;
                match self.card_info(id) {
                    Some(info) => {
                        let t = map(info);
                        let ghost v0 = values@;
                        values.push((id, t));
                        proof {
                            assert(values@[v0.len() as int].0 == id);
                            assert(self.in_table(id)) by {
                                assert(self.state.instances@[k as int] matches InstanceOrPlayer::Instance(x) && x.id == id);
                            }
                            assert forall|k2: int| 0 <= k2 < k implies (#[trigger] self.state.instances@[k2] matches InstanceOrPlayer::Instance(x)
                                ==> exists|i: int| 0 <= i < values@.len() && (#[trigger] values@[i]).0 == x.id) by {
                                if let InstanceOrPlayer::Instance(x) = self.state.instances@[k2] {
                                    let i0 = choose|i: int| 0 <= i < v0.len() && (#[trigger] v0[i]).0 == x.id;
                                    assert(values@[i0] == v0[i0]);
                                }
                            }
                        }
                    },
                    None => {
                        proof {
                            assert(!self.table_mappable()) by {
                                assert(self.state.instances@[k as int] matches InstanceOrPlayer::Instance(x) && x.id == id);
                            }
                        }
                        return None;
                    },
                }
            }
            k = k + 1;
        }
        let mut accumulated = init;
        let ghost mut folded: Seq<T> = Seq::empty();
        let ghost mut mids: Seq<B> = seq![init];
        let mut j: usize = 0;
        while j < public_ids.len()
            invariant
                0 <= j <= public_ids@.len(),
                forall|b: B, t: &T| #[trigger] fold.requires((b, t)),
                folded.len() == j,
                forall|i: int| 0 <= i < j ==> folded[i] == first_value(values@, #[trigger] public_ids@[i]),
                fold_trace(fold, init, folded, mids),
                mids.last() == accumulated,
                forall|i: int| 0 <= i < j ==> self.in_table(#[trigger] public_ids@[i]),
                forall|i: int| 0 <= i < values@.len() ==> self.in_table((#[trigger] values@[i]).0),
                public_ids@.map_values(|id: InstanceID| Card::ID(id)) == self.fold_public(cards@),
                forall|k2: int| 0 <= k2 < self.state.instances@.len() ==> (#[trigger] self.state.instances@[k2] matches InstanceOrPlayer::Instance(inst)
                    ==> exists|i: int| 0 <= i < values@.len() && (#[trigger] values@[i]).0 == inst.id),
            decreases public_ids.len() - j,
        {
            match value_of(&values, public_ids[j]) {
                Some(t) => {
                    let next = fold(accumulated, t);
                    proof {
                        lemma_fold_trace_push(fold, init, folded, mids, *t, next);
                        folded = folded.push(*t);
                        mids = mids.push(next);
                        let i0 = choose|i: int| 0 <= i < values@.len() && (#[trigger] values@[i]).0 == public_ids@[j as int];
                        assert(self.in_table(values@[i0].0));
                    }
                    accumulated = next;
                },
                None => {
                    proof {
                        self.lemma_unmapped_not_ready(cards@, public_ids@, values@, j as int);
                    }
                    return None;
                },
            }
            j = j + 1;
        }
        let plan = FoldPlan { accumulated, first_player_cards: first, second_player_cards: second, public_values: values };
        proof {
            let mapped = publics.map_values(|c: Card| first_value(plan.public_values@, c->ID_0));
            assert(publics.len() == public_ids@.len()) by {
                assert(public_ids@.map_values(|id: InstanceID| Card::ID(id)).len() == public_ids@.len());
            }
            assert(mapped =~= folded) by {
                assert forall|i: int| 0 <= i < folded.len() implies mapped[i] == folded[i] by {
                    assert(public_ids@.map_values(|id: InstanceID| Card::ID(id))[i] == Card::ID(public_ids@[i]));
                }
            }
            assert(fold_trace(fold, init, mapped, mids));
            assert(self.fold_ready(cards@)) by {
                assert forall|i: int| 0 <= i < publics.len() implies self.in_table(#[trigger] publics[i]->ID_0) by {
                    assert(public_ids@.map_values(|id: InstanceID| Card::ID(id))[i] == Card::ID(public_ids@[i]));
                }
            }
        }
        Some(plan)
    }
}

impl<S: State> PlayerSecret<S> {
    /// `fold_cards` can fold `card` in: it resolves here to an ID, which is either held here
    /// with a zone, or has a value in `public_values`.
    pub open spec fn foldable<T>(self, card: Card, public_values: Seq<(InstanceID, T)>) -> bool {
        &&& self.resolvable(card)
        &&& self.spec_id(card) matches Some(id)
        &&& if self.has(id) {
            self.spec_zone_of(id) is Some
        } else {
            exists|i: int| 0 <= i < public_values.len() && (#[trigger] public_values[i]).0 == id
        }
    }

    /// `v` is a value `fold_cards` can fold in for `card`: `map` applied here to the card when
    /// it is held here, else the value of its ID in `public_values`.
    pub open spec fn fold_value<T, G: Fn(CardInfo<S>) -> T>(self, card: Card, public_values: Seq<(InstanceID, T)>, map: &G, v: T) -> bool {
        let id = self.spec_id(card).unwrap();
        if self.has(id) {
            map.ensures((self.spec_card_info(Card::ID(id)),), v)
        } else {
            v == first_value(public_values, id)
        }
    }

    /// Folds `fold` over `map` applied to each of `cards`, from `init`: a card held here is
    /// mapped here, any other by its value in `public_values`. `None` where a card cannot be
    /// resolved here, has no zone here, or is neither held here nor in `public_values`.
    pub fn fold_cards<T, B, F: Fn(B, &T) -> B, G: Fn(CardInfo<S>) -> T>(
        &self,
        cards: &Vec<Card>,
        public_values: &Vec<(InstanceID, T)>,
        init: B,
        map: &G,
        fold: &F,
    ) -> (r: Option<B>)
        requires
            self.wf(),
            forall|i: CardInfo<S>| #[trigger] map.requires((i,)),
            forall|b: B, t: &T| #[trigger] fold.requires((b, t)),
        ensures
            r is Some <==> forall|i: int| 0 <= i < cards@.len() ==> self.foldable(#[trigger] cards@[i], public_values@),
            r matches Some(b) ==> exists|vs: Seq<T>, mids: Seq<B>| {
                &&& vs.len() == cards@.len()
                &&& forall|i: int| 0 <= i < cards@.len() ==> self.fold_value(#[trigger] cards@[i], public_values@, map, vs[i])
                &&& #[trigger] fold_trace(fold, init, vs, mids)
                &&& mids.last() == b
            },
    {
        let mut accumulated = init;
        let ghost mut vs: Seq<T> = Seq::empty();
        let ghost mut mids: Seq<B> = seq![init];
        let mut i: usize = 0;
        while i < cards.len()
            invariant
                0 <= i <= cards@.len(),
                self.wf(),
                forall|i: CardInfo<S>| #[trigger] map.requires((i,)),
                forall|b: B, t: &T| #[trigger] fold.requires((b, t)),
                forall|j: int| 0 <= j < i ==> self.foldable(#[trigger] cards@[j], public_values@),
                vs.len() == i,
                forall|j: int| 0 <= j < i ==> self.fold_value(#[trigger] cards@[j], public_values@, map, vs[j]),
                fold_trace(fold, init, vs, mids),
                mids.last() == accumulated,
            decreases cards.len() - i,
        {
            let card = cards[i];
            if let Card::Pointer(p) = card {
                if p.player == self.player && p.index >= self.pointers.len() {
                    proof {
                        assert(!self.foldable(cards@[i as int], public_values@));
                    }
                    return None;
                }
            }
            let id = match self.id(card) {
                Some(id) => id,
                None => {
                    proof {
                        assert(!self.foldable(cards@[i as int], public_values@));
                    }
                    return None;
                },
            };
            if self.slot_of(id).is_some() {
                if self.zone_of(id).is_none() {
                    proof {
                        assert(!self.foldable(cards@[i as int], public_values@));
                    }
                    return None;
                }
                match self.reveal_from_card(Card::ID(id), map) {
                    Some(t) => {
                        let next = fold(accumulated, &t);
                        proof {
                            lemma_fold_trace_push(fold, init, vs, mids, t, next);
                            vs = vs.push(t);
                            mids = mids.push(next);
                            assert(self.fold_value(cards@[i as int], public_values@, map, vs[i as int]));
                        }
                        accumulated = next;
                    },
                    None => {
                        return None;
                    },
                }
            } else {
                match value_of(public_values, id) {
                    Some(t) => {
                        let next = fold(accumulated, t);
                        proof {
                            lemma_fold_trace_push(fold, init, vs, mids, *t, next);
                            vs = vs.push(*t);
                            mids = mids.push(next);
                            assert(self.fold_value(cards@[i as int], public_values@, map, vs[i as int]));
                        }
                        accumulated = next;
                    },
                    None => {
                        proof {
                            assert(!self.foldable(cards@[i as int], public_values@));
                        }
                        return None;
                    },
                }
            }
            proof {
                assert(self.foldable(cards@[i as int], public_values@));
                assert forall|j: int| 0 <= j < i + 1 implies self.fold_value(#[trigger] cards@[j], public_values@, map, vs[j]) by {
                    if j < i {
                        assert(vs[j] == vs.drop_last()[j]);
                    }
                }
            }
            i = i + 1;
        }
        Some(accumulated)
    }
}

} // verus!
