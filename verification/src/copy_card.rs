//! `copy_card`: copying a card into its holder's limbo, step by step. A public card is copied
//! publicly; a card in a secret is copied inside that secret, and its holder gets a pointer
//! to the copy.

use vstd::prelude::*;

use crate::attach_card::{attach_target_ok, placements};
use crate::pile_move::{pile_location, pile};
use crate::card_game::{Effect, Step};
use crate::card_move::CardMove;
use crate::game::CardGame;
use crate::game_state::InstanceOrPlayer;
use crate::secret_protocol::{SecretAnswer, SecretChange, SecretQuery};
use crate::{BaseCard, Card, CardEvent, CardInstance, CardState, GameState, InstanceID, Player, PlayerCards, PlayerSecret, State, Zone};

verus! {

/// The instance for `id`: the public one in `public`, else the one in `secret`.
pub open spec fn copy_source<S: State>(public: Seq<InstanceOrPlayer<S>>, secret: PlayerSecret<S>, id: InstanceID) -> Option<CardInstance<S>> {
    if id.0 < public.len() && public[id.0 as int] is Instance {
        Some(public[id.0 as int]->Instance_0)
    } else if secret.has(id) {
        Some(secret.get(id))
    } else {
        None
    }
}

/// `copy`, numbered `id`, is a copy of `source` as `copy_card` makes one: where it has no
/// attachment (which the attach hook could have changed it for), its kind is cloned from the
/// source's and its state is what the source state's `CardState::copy_card` gives.
pub open spec fn copied_from<S: State>(source: CardInstance<S>, copy: CardInstance<S>, id: InstanceID) -> bool {
    &&& copy.id == id
    &&& copy.attachment is None ==> exists|b: S::BaseCard, st: <S::BaseCard as BaseCard>::CardState|
        {
            &&& cloned(source.base, b)
            &&& call_ensures(<<S::BaseCard as BaseCard>::CardState as CardState>::copy_card, (&source.state,), st)
            &&& copy == (CardInstance::<S> { id, base: b, attachment: None, state: st })
        }
}

impl<S: State> PlayerSecret<S> {
    /// The IDs a copy and its attachment take: the next two, the copy first when
    /// `copy_first`.
    pub open spec fn copy_ids(self, copy_first: bool) -> (InstanceID, InstanceID) {
        let n = self.next_instance.unwrap().0;
        if copy_first {
            (InstanceID(n), InstanceID((n + 1) as usize))
        } else {
            (InstanceID((n + 1) as usize), InstanceID(n))
        }
    }

    /// Whether `copy_card` can copy `card`: it names an instance, public (in `public`) or in
    /// this secret, and a deep copy of a card with an attachment finds that attachment, which
    /// has no attachment of its own.
    pub open spec fn can_copy(self, card: Card, public: Seq<InstanceOrPlayer<S>>, deep: bool) -> bool {
        &&& self.spec_id(card) is Some
        &&& copy_source(public, self, self.spec_id(card).unwrap()) is Some
        &&& ({
            let source = copy_source(public, self, self.spec_id(card).unwrap()).unwrap();
            deep && source.attachment is Some ==> (copy_source(public, self, source.attachment.unwrap()) is Some
                && copy_source(public, self, source.attachment.unwrap()).unwrap().attachment is None)
        })
    }

    /// Copies `card` (an instance public in `public`, or held here) into this secret's
    /// limbo, with a new pointer to the copy, taking the next two instance IDs. A `deep` copy
    /// copies the card's attachment too; otherwise the copy gets a fresh attachment of the
    /// kind its card comes with, if any. Returns the copy's ID; `None`, changing nothing,
    /// where the card cannot be copied.
    #[verifier::rlimit(40)]
    pub fn copy_card(
        &mut self,
        card: Card,
        public: &Vec<InstanceOrPlayer<S>>,
        deep: bool,
        copy_first: bool,
        log: &mut Vec<CardEvent<S>>,
    ) -> (r: Option<InstanceID>)
        requires
            old(self).wf(),
            old(self).resolvable(card),
            old(self).next_instance matches Some(n) && n.0 + 2 <= usize::MAX && !old(self).has(n)
                && !old(self).has(InstanceID((n.0 + 1) as usize)),
        ensures
            r is Some <==> old(self).can_copy(card, public@, deep),
            r is None ==> *final(self) == *old(self) && final(log)@ == old(log)@,
            r is Some ==> {
                let copy = old(self).copy_ids(copy_first).0;
                let n = old(self).next_instance.unwrap();
                &&& r == Some(copy)
                &&& final(self).wf()
                &&& final(self).has(copy)
                &&& final(self).pointers@ == old(self).pointers@.push(copy)
                &&& final(self).next_instance == Some(InstanceID((n.0 + 2) as usize))
                &&& forall|x: InstanceID| old(self).has(x) ==> #[trigger] final(self).has(x)
                &&& final(self).player == old(self).player && final(self).secret == old(self).secret
                &&& final(log)@.subrange(0, old(log)@.len() as int) == old(log)@
                &&& copied_from(
                    copy_source(public@, *old(self), old(self).spec_id(card).unwrap()).unwrap(),
                    final(self).get(copy),
                    copy,
                )
                &&& ({
                    let source = copy_source(public@, *old(self), old(self).spec_id(card).unwrap()).unwrap();
                    let attach = old(self).copy_ids(copy_first).1;
                    (deep && source.attachment is Some) ==> copied_from(
                        copy_source(public@, *old(self), source.attachment.unwrap()).unwrap(),
                        final(self).get(attach),
                        attach,
                    )
                })
                &&& ({
                    let source = copy_source(public@, *old(self), old(self).spec_id(card).unwrap()).unwrap();
                    let attach = old(self).copy_ids(copy_first).1;
                    (!deep && final(self).get(copy).attachment is Some) ==> exists|
                        b: S::BaseCard,
                        ab: S::BaseCard,
                        st0: <S::BaseCard as BaseCard>::CardState,
                        st: <S::BaseCard as BaseCard>::CardState,
                    |
                        {
                            &&& cloned(source.base, b)
                            &&& call_ensures(<S::BaseCard as BaseCard>::attachment, (&b,), Some(ab))
                            &&& call_ensures(<<S::BaseCard as BaseCard>::CardState as CardState>::copy_card, (&source.state,), st0)
                            &&& call_ensures(<S::BaseCard as BaseCard>::new_card_state, (&ab, Some(&st0)), st)
                            &&& final(self).get(attach) == (CardInstance::<S> { id: attach, base: ab, attachment: None, state: st })
                        }
                })
            },
    {
        let n = self.next_instance.unwrap();
        let (copy_id, attach_id) = if copy_first {
            (n, InstanceID(n.0 + 1))
        } else {
            (InstanceID(n.0 + 1), n)
        };
        let id = match self.id(card) {
            Some(id) => id,
            None => {
                return None;
            },
        };
        let public_source = if id.0 < public.len() {
            public[id.0].instance_ref()
        } else {
            None
        };
        let source: &CardInstance<S> = match public_source {
            Some(i) => i,
            None => match self.slot_of(id) {
                Some(k) => &self.instances[k],
                None => {
                    return None;
                },
            },
        };
        proof {
            if !(id.0 < public@.len() && public@[id.0 as int] is Instance) {
                self.lemma_get(id);
            }
        }
        let ghost mut src_att: CardInstance<S> = *source;
        let old_attachment = if deep {
            match source.attachment {
                Some(a) => {
                    let public_found = if a.0 < public.len() {
                        public[a.0].instance_ref()
                    } else {
                        None
                    };
                    let found: &CardInstance<S> = match public_found {
                        Some(i) => i,
                        None => match self.slot_of(a) {
                            Some(k) => &self.instances[k],
                            None => {
                                return None;
                            },
                        },
                    };
                    proof {
                        if !(a.0 < public@.len() && public@[a.0 as int] is Instance) {
                            self.lemma_get(a);
                        }
                    }
                    if found.attachment.is_some() {
                        return None;
                    }
                    proof {
                        src_att = *found;
                    }
                    Some((found.base.clone(), found.state.copy_card()))
                },
                None => None,
            }
        } else {
            None
        };
        let base = source.base.clone();
        let state = source.state.copy_card();
        let ghost src = *source;
        assert(src == copy_source(public@, *old(self), old(self).spec_id(card).unwrap()).unwrap());
        self.next_instance = Some(InstanceID(n.0 + 2));
        let ghost start = *self;
        let ghost mut att_inst: CardInstance<S> = src;
        let ghost mut shallow_ok: bool = false;
        let ghost gbase = base;
        let ghost gstate = state;
        let attachment = if deep {
            match old_attachment {
                Some((attach_base, attach_state)) => {
                    proof {
                        att_inst = CardInstance { id: attach_id, base: attach_base, attachment: None, state: attach_state };
                    }
                    self.push_instance(CardInstance { id: attach_id, base: attach_base, attachment: None, state: attach_state });
                    self.limbo.push(attach_id);
                    Some(attach_id)
                },
                None => None,
            }
        } else {
            match base.attachment() {
                Some(attach_base) => {
                    let attach_state = attach_base.new_card_state(Some(&state));
                    proof {
                        att_inst = CardInstance { id: attach_id, base: attach_base, attachment: None, state: attach_state };
                        shallow_ok = call_ensures(<S::BaseCard as BaseCard>::attachment, (&base,), Some(attach_base))
                            && call_ensures(<S::BaseCard as BaseCard>::new_card_state, (&attach_base, Some(&state)), attach_state);
                    }
                    self.push_instance(CardInstance { id: attach_id, base: attach_base, attachment: None, state: attach_state });
                    self.limbo.push(attach_id);
                    Some(attach_id)
                },
                None => None,
            }
        };
        let ghost mid = *self;
        proof {
            assert(mid.wf()) by {
                assert(mid.ids() == start.ids() || mid.ids() == start.ids().push(attach_id));
                if attachment is Some {
                    assert(mid.ids() =~= start.ids().push(attach_id));
                }
            }
            assert(!mid.has(copy_id)) by {
                if mid.has(copy_id) {
                    let j = choose|j: int| 0 <= j < mid.ids().len() && mid.ids()[j] == copy_id;
                    if j < old(self).ids().len() {
                        assert(old(self).ids()[j] == copy_id);
                    }
                }
            }
        }
        self.push_instance(CardInstance { id: copy_id, base, attachment: None, state });
        self.limbo.push(copy_id);
        self.pointers.push(copy_id);
        let ghost pre_attach = *self;
        proof {
            assert(pre_attach.wf()) by {
                assert(pre_attach.ids() == mid.ids().push(copy_id));
                assert(pre_attach.attachments() =~= mid.attachments().push(None));
            }
            assert(pre_attach.has(copy_id)) by {
                assert(pre_attach.ids()[pre_attach.ids().len() - 1] == copy_id);
            }
            assert forall|x: InstanceID| old(self).has(x) implies #[trigger] pre_attach.has(x) by {
                let j = choose|j: int| 0 <= j < old(self).ids().len() && old(self).ids()[j] == x;
                assert(pre_attach.ids()[j] == x);
            }
            assert(pre_attach.limbo@.contains(copy_id)) by {
                assert(pre_attach.limbo@[pre_attach.limbo@.len() - 1] == copy_id);
            }
        }
        match attachment {
            Some(a) => {
                proof {
                    assert(pre_attach.has(a)) by {
                        assert(mid.ids()[mid.ids().len() - 1] == a);
                        assert(pre_attach.ids()[mid.ids().len() - 1] == a);
                    }
                    assert(pre_attach.spec_instance(Card::ID(copy_id)) is Some);
                }
                let _ = self.attach_card(Card::ID(copy_id), Card::ID(a), None, log);
                proof {
                    assert(self.has(copy_id));
                    assert forall|x: InstanceID| old(self).has(x) implies #[trigger] self.has(x) by {
                        assert(pre_attach.has(x));
                    }
                    self.lemma_get(copy_id);
                    if attachment is Some {
                        let la = mid.instances@.len() - 1;
                        assert(mid.instances@[la] == att_inst);
                        mid.lemma_slot(a, la);
                        assert(pre_attach.instances@[la] == att_inst);
                        pre_attach.lemma_slot(a, la);
                        pre_attach.lemma_get(a);
                        assert(self.get(a) == att_inst);
                        if deep {
                            assert(copied_from(src_att, self.get(a), a));
                        } else {
                            assert(shallow_ok);
                            assert(cloned(src.base, gbase));
                            assert(call_ensures(<<S::BaseCard as BaseCard>::CardState as CardState>::copy_card, (&src.state,), gstate));
                            assert(self.get(a) == (CardInstance::<S> { id: a, base: att_inst.base, attachment: None, state: att_inst.state }));
                        }
                    }
                }
            },
            None => {
                proof {
                    assert(log@.subrange(0, old(log)@.len() as int) =~= old(log)@);
                    let last = self.instances@.len() - 1;
                    assert(self.instances@[last] == CardInstance::<S> { id: copy_id, base, attachment: None, state });
                    self.lemma_slot(copy_id, last);
                    self.lemma_get(copy_id);
                    assert(copied_from(src, self.get(copy_id), copy_id));
                }
            },
        }
        Some(copy_id)
    }
}

/// The move of a new public card `card` of `owner` to the attachment zone of `parent`, run
/// as far as the public state allows: `None` where it needs a secret, or fails.
fn attach_public<S: State>(game: &mut CardGame<S>, card: InstanceID, owner: Player, parent: InstanceID) -> (r: Option<Vec<Effect<S>>>)
    ensures
        final(game).state.instances@.len() == old(game).state.instances@.len(),
        (card.0 < old(game).state.instances@.len() && old(game).state.instances@[card.0 as int] is Instance
            && parent.0 < old(game).state.instances@.len() && old(game).state.instances@[parent.0 as int] is Instance && r is Some)
            ==> (final(game).state.spec_public(parent) matches Some(i) && i.attachment == Some(card)),
        (card != parent && pile_location(old(game).state, card) is Some && old(game).state.spec_public(card) is Some
            && attach_target_ok(old(game).state, parent) && old(game).state.spec_public(parent).unwrap().attachment is None)
            ==> r is Some,
{
    let (_machine, step) = CardMove::start(&mut game.state, Card::ID(card), owner, Zone::Attachment { parent: Card::ID(parent) });
    match step {
        Step::Done { effects, result: Ok(_) } => Some(effects),
        _ => None,
    }
}

/// A copy of the instance table.
fn clone_table<S: State>(v: &Vec<InstanceOrPlayer<S>>) -> (r: Vec<InstanceOrPlayer<S>>)
    ensures
        r@.len() == v@.len(),
        forall|i: int| 0 <= i < v@.len() ==> (#[trigger] r@[i] is Instance) == (v@[i] is Instance),
{
    let mut r: Vec<InstanceOrPlayer<S>> = Vec::new();
    let mut i: usize = 0;
    while i < v.len()
        invariant
            0 <= i <= v@.len(),
            r@.len() == i,
            forall|k: int| 0 <= k < i ==> (#[trigger] r@[k] is Instance) == (v@[k] is Instance),
        decreases v.len() - i,
    {
        let entry = match &v[i] {
            InstanceOrPlayer::Instance(inst) => InstanceOrPlayer::Instance(inst.clone()),
            InstanceOrPlayer::Player(p) => InstanceOrPlayer::Player(*p),
        };
        r.push(entry);
        i = i + 1;
    }
    r
}

/// Every ID in `s` is below `n`.
pub open spec fn ids_below(s: Seq<InstanceID>, n: int) -> bool {
    forall|i: int| 0 <= i < s.len() ==> (#[trigger] s[i]).0 < n
}

/// Every ID in the public zones of `cards` but its limbo is below `n`.
pub open spec fn piles_below(cards: PlayerCards, n: int) -> bool {
    &&& forall|i: int| 0 <= i < cards.hand@.len() ==> (#[trigger] cards.hand@[i] matches Some(x) ==> x.0 < n)
    &&& ids_below(cards.field@, n)
    &&& ids_below(cards.graveyard@, n)
    &&& ids_below(cards.dust@, n)
    &&& ids_below(cards.casting@, n)
}

/// Every ID in the public zones of `cards` is below `n`.
pub open spec fn zones_below(cards: PlayerCards, n: int) -> bool {
    &&& piles_below(cards, n)
    &&& ids_below(cards.limbo@, n)
}

/// The public zones of `game` name only IDs of its instance table.
pub open spec fn zones_in_range<S: State>(game: GameState<S>) -> bool {
    &&& zones_below(game.player_cards@[0], game.instances@.len() as int)
    &&& zones_below(game.player_cards@[1], game.instances@.len() as int)
}

/// A public card that is in `player`'s public limbo and in no other public zone of either
/// player is at a position of that limbo.
proof fn lemma_fresh_in_limbo<S: State>(g: GameState<S>, player: Player, x: InstanceID, n: int)
    requires
        player < 2,
        x.0 >= n,
        x.0 < g.instances@.len(),
        g.instances@[x.0 as int] is Instance,
        zones_below(g.player_cards@[1 - player], n),
        piles_below(g.player_cards@[player as int], n),
        g.player_cards@[player as int].limbo@.contains(x),
    ensures
        pile_location(g, x) is Some,
        pile_location(g, x).unwrap().1 == (Zone::Limbo { public: true }),
{
    let c = g.player_cards@[player as int];
    let o = g.player_cards@[1 - player];
    assert(!c.hand@.contains(Some(x))) by {
        if c.hand@.contains(Some(x)) {
            let j = choose|j: int| 0 <= j < c.hand@.len() && c.hand@[j] == Some(x);
            assert(c.hand@[j] matches Some(y) ==> y.0 < n);
        }
    }
    assert(!o.hand@.contains(Some(x))) by {
        if o.hand@.contains(Some(x)) {
            let j = choose|j: int| 0 <= j < o.hand@.len() && o.hand@[j] == Some(x);
            assert(o.hand@[j] matches Some(y) ==> y.0 < n);
        }
    }
    assert forall|s: Seq<InstanceID>| ids_below(s, n) implies !s.contains(x) by {
        if s.contains(x) {
            let j = choose|j: int| 0 <= j < s.len() && s[j] == x;
            assert(s[j].0 < n);
        }
    }
    assert(!o.limbo@.contains(x));
    assert(o.spec_location(x) is None);
    assert(c.spec_location(x) is Some && c.spec_location(x).unwrap().0 == (Zone::Limbo { public: true }));
    if player == 0 {
        assert(g.player_cards@[1] == o);
    } else {
        assert(g.player_cards@[0] == o);
    }
    crate::seq_util::lemma_first_index_some(c.limbo@, x);
}

/// `r` tells of a new public card of kind `base` that `after` holds at the end of the
/// instance table and of `player`'s public limbo, with the state its kind gives a card
/// with no parent and no attachment; nothing else changed and nothing is logged.
pub open spec fn new_public_card<S: State>(
    before: CardGame<S>,
    after: CardGame<S>,
    player: Player,
    base: S::BaseCard,
    r: Option<(InstanceID, Vec<Effect<S>>)>,
) -> bool {
    let id = InstanceID(before.state.instances@.len() as usize);
    let cards = before.state.player_cards@[player as int];
    &&& r matches Some((c, e)) && c == id && e@.len() == 0
    &&& exists|st: <S::BaseCard as BaseCard>::CardState|
        {
            &&& call_ensures(
                <S::BaseCard as BaseCard>::new_card_state,
                (&base, None::<&<S::BaseCard as BaseCard>::CardState>),
                st,
            )
            &&& after.state.instances@ == before.state.instances@.push(
                InstanceOrPlayer::Instance(CardInstance { id, base, attachment: None, state: st }),
            )
        }
    &&& after.state.player_cards@ == before.state.player_cards@.update(
        player as int,
        PlayerCards { limbo: after.state.player_cards@[player as int].limbo, ..cards },
    )
    &&& after.state.player_cards@[player as int].limbo@ == cards.limbo@.push(id)
    &&& after.state.shuffle_deck_on_insert == before.state.shuffle_deck_on_insert
    &&& after.state.state == before.state.state
}

/// `r` tells of a copy of the public instance `source` without an attachment, that `after`
/// holds at the end of the instance table and of `owner`'s public limbo: a clone of its kind
/// and the state its kind's `copy_card` gives; nothing else changed and nothing is logged.
pub open spec fn public_copy<S: State>(
    before: CardGame<S>,
    after: CardGame<S>,
    source: CardInstance<S>,
    owner: Player,
    r: Option<(InstanceID, Vec<Effect<S>>)>,
) -> bool {
    let id = InstanceID(before.state.instances@.len() as usize);
    let cards = before.state.player_cards@[owner as int];
    &&& r matches Some((c, e)) && c == id && e@.len() == 0
    &&& exists|b: S::BaseCard, st: <S::BaseCard as BaseCard>::CardState|
        {
            &&& cloned(source.base, b)
            &&& call_ensures(<<S::BaseCard as BaseCard>::CardState as CardState>::copy_card, (&source.state,), st)
            &&& after.state.instances@ == before.state.instances@.push(
                InstanceOrPlayer::Instance(CardInstance { id, base: b, attachment: None, state: st }),
            )
        }
    &&& after.state.player_cards@ == before.state.player_cards@.update(
        owner as int,
        PlayerCards { limbo: after.state.player_cards@[owner as int].limbo, ..cards },
    )
    &&& after.state.player_cards@[owner as int].limbo@ == cards.limbo@.push(id)
    &&& after.state.shuffle_deck_on_insert == before.state.shuffle_deck_on_insert
    &&& after.state.state == before.state.state
}

impl<S: State> CardGame<S> {
    /// Creates a public card of kind `base` in `player`'s limbo, with the attachment its kind
    /// comes with, if any, attached. Returns its ID, the next entry of the instance table, and
    /// the log of the attachment's move; `None` where that move does not complete publicly.
    pub fn new_card(&mut self, player: Player, base: S::BaseCard) -> (r: Option<(InstanceID, Vec<Effect<S>>)>)
        requires
            player < 2,
        ensures
            r matches Some((id, _)) ==> id == InstanceID(old(self).state.instances@.len() as usize),
            r matches Some((id, _)) ==> id.0 < final(self).state.instances@.len(),
            r matches Some((id, _)) ==> final(self).state.spec_public(id) is Some,
            final(self).state.instances@.len() >= old(self).state.instances@.len(),
            r is None ==> exists|ab: S::BaseCard| call_ensures(<S::BaseCard as BaseCard>::attachment, (&base,), Some(ab)),
            zones_in_range(old(self).state) ==> r is Some,
            (r is Some && forall|a: Option<S::BaseCard>| call_ensures(<S::BaseCard as BaseCard>::attachment, (&base,), a) ==> a is Some)
                ==> (final(self).state.spec_public(r->Some_0.0) matches Some(i) && i.attachment == Some(
                InstanceID((r->Some_0.0.0 + 1) as usize),
            ) && final(self).state.instances@.len() == old(self).state.instances@.len() + 2),
            (forall|a: Option<S::BaseCard>| call_ensures(<S::BaseCard as BaseCard>::attachment, (&base,), a) ==> a is None)
                ==> new_public_card(*old(self), *final(self), player, base, r),
    {
        let id = InstanceID(self.state.instances.len());
        let state = base.new_card_state(None);
        let attach_base = base.attachment();
        let instance = CardInstance { id, base, attachment: None, state };
        let attach_state = match &attach_base {
            Some(ab) => Some(ab.new_card_state(Some(&instance.state))),
            None => None,
        };
        self.state.instances.push(InstanceOrPlayer::Instance(instance));
        self.state.player_cards_mut(player).limbo.push(id);
        match (attach_base, attach_state) {
            (Some(ab), Some(st)) => {
                let attach_id = InstanceID(self.state.instances.len());
                self.state.instances.push(InstanceOrPlayer::Instance(CardInstance { id: attach_id, base: ab, attachment: None, state: st }));
                self.state.player_cards_mut(player).limbo.push(attach_id);
                proof {
                    if zones_in_range(old(self).state) {
                        let n = old(self).state.instances@.len() as int;
                        let g = self.state;
                        let c0 = old(self).state.player_cards@[player as int];
                        let c = g.player_cards@[player as int];
                        assert(c.limbo@ == c0.limbo@.push(id).push(attach_id));
                        assert(c.limbo@[c0.limbo@.len() as int] == id);
                        assert(c.limbo@[c0.limbo@.len() as int + 1] == attach_id);
                        assert(g.player_cards@[1 - player] == old(self).state.player_cards@[1 - player]);
                        assert(c.hand == c0.hand && c.field == c0.field && c.graveyard == c0.graveyard && c.dust == c0.dust
                            && c.casting == c0.casting);
                        assert(zones_below(c0, n));
                        assert(g.instances@[n] is Instance);
                        assert(g.instances@[n + 1] is Instance);
                        lemma_fresh_in_limbo(g, player, id, n);
                        lemma_fresh_in_limbo(g, player, attach_id, n);
                    }
                }
                match attach_public(self, attach_id, player, id) {
                    Some(effects) => Some((id, effects)),
                    None => None,
                }
            },
            _ => Some((id, Vec::new())),
        }
    }

    /// Copies the public card `id` into its owner's public limbo: a `deep` copy copies its
    /// attachment too (following at most `fuel` attachments); otherwise the copy gets a new
    /// attachment of the kind its card comes with, if any. Returns the copy's ID and the log;
    /// `None` where the card is not public with an owner, or a copy or move does not complete
    /// publicly. A deep copy of a card with an attachment gets a new public copy of it as its
    /// attachment; a shallow copy of a card whose kind comes with an attachment gets a new card
    /// of that kind, the first new entry of the instance table.
    pub fn copy_public_card(&mut self, id: InstanceID, deep: bool, fuel: usize) -> (r: Option<(InstanceID, Vec<Effect<S>>)>)
        ensures
            old(self).state.spec_public(id) is None ==> r is None,
            r matches Some((c, _)) ==> old(self).state.instances@.len() <= c.0 < final(self).state.instances@.len(),
            final(self).state.instances@.len() >= old(self).state.instances@.len(),
            ({
                let inst = old(self).state.spec_public(id).unwrap();
                let l = old(self).state.spec_location(id).unwrap();
                (old(self).state.spec_public(id) is Some && old(self).state.spec_location(id) is Some && l.player < 2
                    && (deep ==> inst.attachment is None) && (!deep ==> forall|b: S::BaseCard, a: Option<S::BaseCard>|
                    cloned(inst.base, b) && call_ensures(<S::BaseCard as BaseCard>::attachment, (&b,), a) ==> a is None))
                    ==> public_copy(*old(self), *final(self), inst, l.player, r)
            }),
            r matches Some((c, _)) ==> final(self).state.spec_public(c) is Some,
            ({
                let inst = old(self).state.spec_public(id).unwrap();
                let c = r->Some_0.0;
                (deep && old(self).state.spec_public(id) is Some && inst.attachment is Some && r is Some)
                    ==> (final(self).state.spec_public(c) matches Some(ci) && ci.attachment matches Some(a)
                        && old(self).state.instances@.len() <= a.0 < c.0)
            }),
            ({
                let inst = old(self).state.spec_public(id).unwrap();
                let c = r->Some_0.0;
                (!deep && old(self).state.spec_public(id) is Some && r is Some && forall|b: S::BaseCard, a: Option<S::BaseCard>|
                    cloned(inst.base, b) && call_ensures(<S::BaseCard as BaseCard>::attachment, (&b,), a) ==> a is Some)
                    ==> (final(self).state.spec_public(c) matches Some(ci) && ci.attachment == Some(
                        InstanceID(old(self).state.instances@.len() as usize),
                    ))
            }),
        decreases fuel,
    {
        if id.0 >= self.state.instances.len() {
            return None;
        }
        let (base, state, source_attachment) = match &self.state.instances[id.0] {
            InstanceOrPlayer::Instance(inst) => (inst.base.clone(), inst.state.copy_card(), inst.attachment),
            InstanceOrPlayer::Player(_) => {
                return None;
            },
        };
        let owner = match self.state.try_location(id) {
            Some(l) => l.player,
            None => {
                return None;
            },
        };
        if owner >= 2 {
            return None;
        }
        let mut effects: Vec<Effect<S>> = Vec::new();
        let attachment = if deep {
            match source_attachment {
                Some(a) => {
                    if fuel == 0 {
                        return None;
                    }
                    match self.copy_public_card(a, deep, fuel - 1) {
                        Some((c, mut e)) => {
                            effects.append(&mut e);
                            Some(c)
                        },
                        None => {
                            return None;
                        },
                    }
                },
                None => None,
            }
        } else {
            match base.attachment() {
                Some(ab) => match self.new_card(owner, ab) {
                    Some((c, mut e)) => {
                        effects.append(&mut e);
                        Some(c)
                    },
                    None => {
                        return None;
                    },
                },
                None => None,
            }
        };
        let copy_id = InstanceID(self.state.instances.len());
        self.state.instances.push(InstanceOrPlayer::Instance(CardInstance { id: copy_id, base, state, attachment: None }));
        self.state.player_cards_mut(owner).limbo.push(copy_id);
        match attachment {
            Some(a) => match attach_public(self, a, owner, copy_id) {
                Some(mut e) => {
                    effects.append(&mut e);
                },
                None => {
                    return None;
                },
            },
            None => {},
        }
        Some((copy_id, effects))
    }
}

/// How far a `CopyCard` has got.
pub enum CopyPhase {
    /// Waiting for the ID behind the pointer, if it is in another player's secret.
    AwaitForeign,
    /// Waiting for `player`'s secret to tell how many pointers and IDs it has used.
    AwaitEnd { player: Player },
    Finished,
}

/// A `copy_card` in progress.
pub struct CopyCard {
    pub card: Card,
    pub deep: bool,
    pub phase: CopyPhase,
}

/// The effects that copy `card` inside `player`'s secret, numbering from `next`.
pub open spec fn secret_copy_effects<S: State>(player: Player, next: InstanceID, card: Card, deep: bool, copy_first: bool, effects: Seq<Effect<S>>) -> bool {
    &&& effects.len() == 2
    &&& effects[0] == (Effect::<S>::Mutate { player, change: SecretChange::StartNewCards { next } })
    &&& effects[1] matches Effect::Mutate { player: p, change: SecretChange::CopyInto { card: c, deep: d, copy_first: f, .. } }
        && p == player && c == card && d == deep && f == copy_first
}

impl CopyCard {
    /// Asks `player`'s secret to copy `card`.
    fn secret_copy<S: State>(&mut self, game: &CardGame<S>, player: Player, card: Card, copy_first: bool, with_public: bool) -> (r: Step<S, Card>)
        ensures
            final(self).card == old(self).card,
            final(self).deep == old(self).deep,
            final(self).phase == (CopyPhase::AwaitEnd { player }),
            r is Reveal,
            r->Reveal_player == player,
            r->Reveal_query == SecretQuery::NewCardsEnd,
            secret_copy_effects(player, InstanceID(game.state.instances@.len() as usize), card, old(self).deep, copy_first, r->Reveal_effects@),
    {
        let public = if with_public {
            clone_table(&game.state.instances)
        } else {
            Vec::new()
        };
        let mut effects: Vec<Effect<S>> = Vec::new();
        effects.push(Effect::Mutate { player, change: game.start_new_cards() });
        effects.push(Effect::Mutate { player, change: SecretChange::CopyInto { card, public, deep: self.deep, copy_first } });
        self.phase = CopyPhase::AwaitEnd { player };
        Step::Reveal { effects, player, query: SecretQuery::NewCardsEnd }
    }

    /// Starts copying `card`; see `CardGame::copy_public_card` and `PlayerSecret::copy_card`.
    /// A public ID to a public card is copied publicly. A public ID to a card in a secret is
    /// copied in that secret. A pointer is first checked against the other player's secret.
    pub fn start<S: State>(game: &mut CardGame<S>, card: Card, deep: bool) -> (r: (CopyCard, Step<S, Card>))
        ensures
            r.0.card == card,
            r.0.deep == deep,
            ({
                let id = card->ID_0;
                card is ID && id.0 < old(game).state.instances@.len() && old(game).state.instances@[id.0 as int] is Player
                    ==> r.1 is Reveal && r.1->Reveal_player == old(game).state.instances@[id.0 as int]->Player_0
                    && *final(game) == *old(game)
                    && secret_copy_effects(r.1->Reveal_player, InstanceID(old(game).state.instances@.len() as usize), card, deep, false, r.1->Reveal_effects@)
            }),
            r.1 matches Step::Done { result, .. } ==> (card is ID && result is ID
                && old(game).state.instances@.len() <= result->ID_0.0 < final(game).state.instances@.len()),
            card is Pointer ==> (r.1 is Reveal && r.1->Reveal_player == card->Pointer_0.player && *final(game) == *old(game)
                && (r.1->Reveal_query matches SecretQuery::ForeignTarget { index, .. } && index == card->Pointer_0.index)),
            ({
                let id = card->ID_0;
                let inst = old(game).state.spec_public(id).unwrap();
                let l = old(game).state.spec_location(id).unwrap();
                (card is ID && old(game).state.spec_public(id) is Some && old(game).state.spec_location(id) is Some && l.player < 2
                    && (deep ==> inst.attachment is None) && (!deep ==> forall|b: S::BaseCard, a: Option<S::BaseCard>|
                    cloned(inst.base, b) && call_ensures(<S::BaseCard as BaseCard>::attachment, (&b,), a) ==> a is None))
                    ==> (r.1 is Done && r.1->Done_result is ID && public_copy(
                    *old(game),
                    *final(game),
                    inst,
                    l.player,
                    Some((r.1->Done_result->ID_0, r.1->Done_effects)),
                ))
            }),
            ({
                let id = card->ID_0;
                let inst = old(game).state.spec_public(id).unwrap();
                let c = r.1->Done_result->ID_0;
                (card is ID && deep && old(game).state.spec_public(id) is Some && inst.attachment is Some && r.1 is Done)
                    ==> (final(game).state.spec_public(c) matches Some(ci) && ci.attachment matches Some(a)
                        && old(game).state.instances@.len() <= a.0 < c.0)
            }),
            ({
                let id = card->ID_0;
                let inst = old(game).state.spec_public(id).unwrap();
                let c = r.1->Done_result->ID_0;
                (card is ID && !deep && old(game).state.spec_public(id) is Some && r.1 is Done && forall|b: S::BaseCard, a: Option<S::BaseCard>|
                    cloned(inst.base, b) && call_ensures(<S::BaseCard as BaseCard>::attachment, (&b,), a) ==> a is Some)
                    ==> (final(game).state.spec_public(c) matches Some(ci) && ci.attachment == Some(
                        InstanceID(old(game).state.instances@.len() as usize),
                    ))
            }),
    {
        let mut machine = CopyCard { card, deep, phase: CopyPhase::Finished };
        match card {
            Card::ID(id) => {
                if id.0 >= game.state.instances.len() {
                    return (machine, Step::Failed { effects: Vec::new() });
                }
                match &game.state.instances[id.0] {
                    InstanceOrPlayer::Instance(_) => {
                        let fuel = game.state.instances.len();
                        match game.copy_public_card(id, deep, fuel) {
                            Some((copy, effects)) => (machine, Step::Done { effects, result: Card::ID(copy) }),
                            None => (machine, Step::Failed { effects: Vec::new() }),
                        }
                    },
                    InstanceOrPlayer::Player(owner) => {
                        let owner = *owner;
                        let step = machine.secret_copy(game, owner, card, false, false);
                        (machine, step)
                    },
                }
            },
            Card::Pointer(p) => {
                machine.phase = CopyPhase::AwaitForeign;
                let placements = placements(&game.state);
                (
                    machine,
                    Step::Reveal {
                        effects: Vec::new(),
                        player: p.player,
                        query: SecretQuery::ForeignTarget { index: p.index, placements },
                    },
                )
            },
        }
    }

    /// Resumes with the answer to the last question. When the secret that copied the card
    /// tells how many pointers and IDs it has used, it stops creating cards, the instance
    /// table and its pointers catch up, and the copy is its first new pointer.
    pub fn resume<S: State>(&mut self, game: &mut CardGame<S>, answer: SecretAnswer<S>) -> (r: Step<S, Card>)
        ensures
            final(self).card == old(self).card,
            ({
                let player = old(self).phase->AwaitEnd_player;
                old(self).phase is AwaitEnd && player < 2 ==> match answer {
                    SecretAnswer::Counts(pointers, end) => {
                        let start = old(game).state.player_cards@[player as int].pointers;
                        if pointers > start && end >= old(game).state.instances@.len() {
                            &&& r is Done
                            &&& r->Done_result == crate::game::pointer_card(player, start as int)
                            &&& r->Done_effects@ == seq![Effect::<S>::Mutate { player, change: SecretChange::EndNewCards }]
                            &&& final(game).state.player_cards@[player as int].pointers == pointers
                            &&& final(game).state.instances@ == old(game).state.instances@ + Seq::new(
                                (end - old(game).state.instances@.len()) as nat,
                                |i: int| crate::InstanceOrPlayer::<S>::Player(player),
                            )
                        } else {
                            r is Failed
                        }
                    },
                    _ => r is Failed,
                }
            }),
            (old(self).phase is AwaitForeign && old(self).card is Pointer) ==> match answer {
                SecretAnswer::Target(None) => r is Reveal && r->Reveal_player == old(self).card->Pointer_0.player
                    && secret_copy_effects(r->Reveal_player, InstanceID(old(game).state.instances@.len() as usize), old(self).card, old(self).deep, true, r->Reveal_effects@),
                SecretAnswer::Target(Some(id)) => if id.0 < old(game).state.instances@.len() && old(game).state.instances@[id.0 as int] is Player {
                    r is Reveal && r->Reveal_player == old(game).state.instances@[id.0 as int]->Player_0
                        && secret_copy_effects(r->Reveal_player, InstanceID(old(game).state.instances@.len() as usize), Card::ID(id), old(self).deep, true, r->Reveal_effects@)
                } else {
                    r is Failed
                },
                _ => r is Failed,
            },
    {
        match self.phase {
            CopyPhase::AwaitForeign => match answer {
                SecretAnswer::Target(None) => match self.card {
                    Card::Pointer(p) => self.secret_copy(game, p.player, self.card, true, true),
                    Card::ID(_) => Step::Failed { effects: Vec::new() },
                },
                SecretAnswer::Target(Some(id)) => {
                    if id.0 >= game.state.instances.len() {
                        return Step::Failed { effects: Vec::new() };
                    }
                    match game.state.instances[id.0].player() {
                        Some(owner) => self.secret_copy(game, owner, Card::ID(id), true, false),
                        None => Step::Failed { effects: Vec::new() },
                    }
                },
                _ => Step::Failed { effects: Vec::new() },
            },
            CopyPhase::AwaitEnd { player } => match answer {
                SecretAnswer::Counts(pointers, end) => {
                    if player >= 2 {
                        return Step::Failed { effects: Vec::new() };
                    }
                    if pointers <= game.state.player_cards(player).pointers {
                        return Step::Failed { effects: Vec::new() };
                    }
                    match game.new_secret_cards(player, pointers, end) {
                        Some(cards) => {
                            self.phase = CopyPhase::Finished;
                            let mut effects: Vec<Effect<S>> = Vec::new();
                            effects.push(Effect::Mutate { player, change: SecretChange::EndNewCards });
                            Step::Done { effects, result: cards[0] }
                        },
                        None => Step::Failed { effects: Vec::new() },
                    }
                },
                _ => Step::Failed { effects: Vec::new() },
            },
            CopyPhase::Finished => Step::Failed { effects: Vec::new() },
        }
    }
}

} // verus!
