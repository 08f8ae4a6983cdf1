//! `reset_card`: returning a card to the state its kind gives it, with the attachment its
//! kind comes with. A public card is reset publicly; a card in a secret inside that secret.

use vstd::prelude::*;

use crate::card_game::{Effect, Step};
use crate::card_move::CardMove;
use crate::move_card::placed;
use crate::pile_move::{is_pile, pile_location, pile_move_done};
use crate::game::CardGame;
use crate::game_state::InstanceOrPlayer;
use crate::secret_protocol::{SecretAnswer, SecretChange, SecretQuery};
use crate::{BaseCard, Card, CardEvent, CardInfoMut, CardInstance, InstanceID, Player, PlayerSecret, State, Zone};

verus! {

/// `copy` is a clone of `instance`: the same ID and attachment, and a clone of its kind and
/// state.
pub open spec fn clone_of<S: State>(instance: CardInstance<S>, copy: CardInstance<S>) -> bool {
    &&& copy.id == instance.id
    &&& copy.attachment == instance.attachment
    &&& cloned(instance.base, copy.base)
    &&& cloned(instance.state, copy.state)
}

impl<S: State> PlayerSecret<S> {
    /// Resets the state of the instance at position `k` with its kind's reset, then runs the
    /// attach hook with its attachment, if any; it keeps its ID and attachment. The change is
    /// logged when `with_log`.
    fn reset_state_at(&mut self, k: usize, with_log: bool, log: &mut Vec<CardEvent<S>>)
        requires
            old(self).wf(),
            k < old(self).instances@.len(),
        ensures
            final(self).wf(),
            final(self).instances@.len() == old(self).instances@.len(),
            final(self).ids() == old(self).ids(),
            final(self).attachments() == old(self).attachments(),
            forall|j: int| 0 <= j < old(self).instances@.len() && j != k ==> final(self).instances@[j] == old(self).instances@[j],
            *final(self) == (PlayerSecret { instances: final(self).instances, ..*old(self) }),
            final(log)@.len() >= old(log)@.len(),
            final(log)@.subrange(0, old(log)@.len() as int) == old(log)@,
            !with_log ==> final(log)@ == old(log)@,
            ({
                let before = old(self).instances@[k as int];
                let after = final(self).instances@[k as int];
                (before.attachment matches Some(a) && old(self).has(a)) ==> exists|
                    st: <S::BaseCard as BaseCard>::CardState,
                    i: &mut CardInstance<S>,
                    c: CardInstance<S>,
                |
                    {
                        &&& call_ensures(<S::BaseCard as BaseCard>::reset_card, (&before.base, &before.state), st)
                        &&& *i == (CardInstance { state: st, ..before })
                        &&& clone_of(old(self).get(before.attachment.unwrap()), c)
                        &&& call_ensures(S::on_attach, (i, &c), ())
                        &&& after == (CardInstance { id: before.id, attachment: before.attachment, ..*final(i) })
                    }
            }),
            ({
                let before = old(self).instances@[k as int];
                let after = final(self).instances@[k as int];
                !(before.attachment matches Some(a) && old(self).has(a)) ==> exists|st: <S::BaseCard as BaseCard>::CardState|
                    call_ensures(<S::BaseCard as BaseCard>::reset_card, (&before.base, &before.state), st) && after == (
                    CardInstance { state: st, ..before })
            }),
            final(log)@ == old(log)@ || (final(log)@.len() == old(log)@.len() + 1 && crate::modify_card::modify_event_of(
                final(log)@.last(),
                final(self).instances@[k as int],
            )),
    {
        let attachment = match self.instances[k].attachment {
            Some(a) => match self.slot_of(a) {
                Some(ak) => Some(self.instances[ak].clone()),
                None => None,
            },
            None => None,
        };
        let before = self.instances[k].clone();
        {
            let instance = &mut self.instances[k];
            let id = instance.id;
            let a = instance.attachment;
            instance.state = instance.base.reset_card(&instance.state);
            if let Some(attach) = &attachment {
                S::on_attach(instance, attach);
            }
            instance.id = id;
            instance.attachment = a;
        }
        if with_log && !before.eq(&self.instances[k]) {
            log.push(CardEvent::ModifyCard { instance: self.instances[k].clone() });
        }
        proof {
            assert(log@.subrange(0, old(log)@.len() as int) =~= old(log)@);
            assert(self.ids() =~= old(self).ids());
            assert(self.attachments() =~= old(self).attachments());
            assert forall|j: int|
                0 <= j < self.instances.len() && (#[trigger] self.instances@[j]).attachment is Some implies self.has(
                self.instances@[j].attachment.unwrap(),
            ) by {
                assert(self.attachments()[j] == old(self).attachments()[j]);
                assert(old(self).instances@[j].attachment == self.instances@[j].attachment);
            }
            assert forall|j: int, l: int|
                0 <= j < self.instances.len() && 0 <= l < self.instances.len()
                    && (#[trigger] self.instances@[j]).attachment is Some && self.instances@[j].attachment
                    == (#[trigger] self.instances@[l]).attachment implies j == l by {
                assert(self.attachments()[j] == old(self).attachments()[j]);
                assert(self.attachments()[l] == old(self).attachments()[l]);
                assert(old(self).instances@[j].attachment == self.instances@[j].attachment);
                assert(old(self).instances@[l].attachment == self.instances@[l].attachment);
            }
        }
    }

    /// Sets the state of the instance at position `k` to `state`, keeping everything else.
    fn set_state_at(&mut self, k: usize, state: <S::BaseCard as BaseCard>::CardState)
        requires
            old(self).wf(),
            k < old(self).instances@.len(),
        ensures
            final(self).wf(),
            final(self).instances@.len() == old(self).instances@.len(),
            final(self).ids() == old(self).ids(),
            final(self).attachments() == old(self).attachments(),
            forall|j: int| 0 <= j < old(self).instances@.len() && j != k ==> final(self).instances@[j] == old(self).instances@[j],
            *final(self) == (PlayerSecret { instances: final(self).instances, ..*old(self) }),
            final(self).instances@[k as int] == (CardInstance { state, ..old(self).instances@[k as int] }),
    {
        self.instances[k].state = state;
        proof {
            assert(self.ids() =~= old(self).ids());
            assert(self.attachments() =~= old(self).attachments());
            assert forall|j: int|
                0 <= j < self.instances.len() && (#[trigger] self.instances@[j]).attachment is Some implies self.has(
                self.instances@[j].attachment.unwrap(),
            ) by {
                assert(self.attachments()[j] == old(self).attachments()[j]);
                assert(old(self).instances@[j].attachment == self.instances@[j].attachment);
            }
            assert forall|j: int, l: int|
                0 <= j < self.instances.len() && 0 <= l < self.instances.len()
                    && (#[trigger] self.instances@[j]).attachment is Some && self.instances@[j].attachment
                    == (#[trigger] self.instances@[l]).attachment implies j == l by {
                assert(self.attachments()[j] == old(self).attachments()[j]);
                assert(self.attachments()[l] == old(self).attachments()[l]);
                assert(old(self).instances@[j].attachment == self.instances@[j].attachment);
                assert(old(self).instances@[l].attachment == self.instances@[l].attachment);
            }
        }
    }

    /// Resets the instance of `id` in this secret (a public ID held here): its attachment
    /// becomes the kind its card comes with (a current one of another kind is replaced and
    /// dusted, one of that kind has its state reset, one its kind does not come with is
    /// dusted, and a missing one is created), then its state is reset and the change logged.
    /// Fails, changing nothing, where `id` is not held here.
    pub fn reset_held_card(&mut self, id: InstanceID, log: &mut Vec<CardEvent<S>>) -> (ok: bool)
        requires
            old(self).wf(),
            old(self).next_instance matches Some(n) && n.0 + 2 <= usize::MAX && !old(self).has(n)
                && !old(self).has(InstanceID((n.0 + 1) as usize)),
        ensures
            ok == old(self).has(id),
            !ok ==> *final(self) == *old(self) && final(log)@ == old(log)@,
            ok ==> final(self).wf() && final(self).has(id),
            ok ==> final(self).next_instance == old(self).next_instance || final(self).next_instance == Some(
                InstanceID((old(self).next_instance.unwrap().0 + 2) as usize),
            ),
            ok ==> final(self).player == old(self).player && final(self).secret == old(self).secret,
            ok ==> forall|x: InstanceID| old(self).has(x) ==> #[trigger] final(self).has(x),
            final(log)@.subrange(0, old(log)@.len() as int) == old(log)@,
            ({
                let before = old(self).get(id);
                (ok && before.attachment is None && forall|b: S::BaseCard, a: Option<S::BaseCard>|
                    cloned(before.base, b) && call_ensures(<S::BaseCard as BaseCard>::attachment, (&b,), a) ==> a is None)
                    ==> exists|st: <S::BaseCard as BaseCard>::CardState|
                    call_ensures(<S::BaseCard as BaseCard>::reset_card, (&before.base, &before.state), st)
                        && final(self).get(id) == (CardInstance { state: st, ..before })
            }),
    {
        let k = match self.slot_of(id) {
            Some(k) => k,
            None => {
                proof {
                    assert(log@.subrange(0, old(log)@.len() as int) =~= old(log)@);
                }
                return false;
            },
        };
        let instance = self.instances[k].clone();
        let current = match instance.attachment {
            Some(a) => {
                let ak = self.slot_of(a).unwrap();
                Some((ak, self.instances[ak].clone()))
            },
            None => None,
        };
        let ghost s0 = *self;
        let ghost l0 = log@;
        match (current, instance.base.attachment()) {
            (None, None) => {},
            (Some((_, cur)), None) => {
                proof {
                    assert(self.has(cur.id)) by {
                        assert(self.ids()[self.slot(cur.id)] == cur.id) by { self.lemma_get(cur.id); }
                    }
                }
                let _ = self.dust_card(Card::ID(cur.id), log);
                proof {
                    assert(self.ids() == s0.ids());
                }
            },
            (None, Some(default)) => {
                let a = self.new_card(default, log);
                let ghost s1 = *self;
                let _ = self.attach_card(Card::ID(id), Card::ID(a), None, log);
                proof {
                    assert(self.ids() == s1.ids());
                    assert forall|x: InstanceID| s0.has(x) implies #[trigger] self.has(x) by {
                        assert(s1.has(x));
                    }
                }
            },
            (Some((ak, cur)), Some(default)) => {
                if cur.base == default {
                    let state = cur.base.new_card_state(Some(&instance.state));
                    self.set_state_at(ak, state);
                    proof {
                        assert(self.ids() == s0.ids());
                    }
                } else {
                    let a = self.new_card(default, log);
                    let ghost s1 = *self;
                    let _ = self.attach_card(Card::ID(id), Card::ID(a), None, log);
                    proof {
                        assert(self.ids() == s1.ids());
                        assert forall|x: InstanceID| s0.has(x) implies #[trigger] self.has(x) by {
                            assert(s1.has(x));
                        }
                    }
                }
            },
        }
        proof {
            assert forall|x: InstanceID| s0.has(x) implies #[trigger] self.has(x) by {
                if self.ids() == s0.ids() {
                    assert(s0.ids().contains(x));
                }
            }
        }
        proof {
            assert(self.has(id));
            assert(log@.subrange(0, l0.len() as int) == l0);
        }
        let k2 = self.slot_of(id).unwrap();
        let ghost l1 = log@;
        let ghost s2 = *self;
        self.reset_state_at(k2, true, log);
        proof {
            assert forall|x: InstanceID| s0.has(x) implies #[trigger] self.has(x) by {
                assert(s2.has(x));
                assert(s2.ids().contains(x));
            }
            assert(self.ids() == self.ids());
            assert(log@.subrange(0, l1.len() as int) == l1);
            assert(log@.subrange(0, old(log)@.len() as int) =~= old(log)@);
        }
        true
    }

    /// Resets the instance behind this player's pointer `index`, held here, as
    /// `reset_held_card` does, except that a missing attachment is created directly with the
    /// next instance ID (no pointer, no limbo), that ID is skipped whatever happens so that
    /// nothing shows, and the reset itself is not logged. Fails, changing nothing, where the
    /// pointer is out of range or its instance is not held here.
    pub fn reset_pointed_card(&mut self, index: usize, log: &mut Vec<CardEvent<S>>) -> (ok: bool)
        requires
            old(self).wf(),
            old(self).next_instance matches Some(n) && n.0 + 1 <= usize::MAX && !old(self).has(n),
        ensures
            ok == (index < old(self).pointers@.len() && old(self).has(old(self).pointers@[index as int])),
            !ok ==> *final(self) == *old(self) && final(log)@ == old(log)@,
            ok ==> final(self).wf() && final(self).has(old(self).pointers@[index as int]),
            ok ==> final(self).next_instance == Some(InstanceID((old(self).next_instance.unwrap().0 + 1) as usize)),
            ok ==> final(self).player == old(self).player && final(self).secret == old(self).secret,
            ok ==> final(self).pointers == old(self).pointers,
            ok ==> forall|x: InstanceID| old(self).has(x) ==> #[trigger] final(self).has(x),
            final(log)@.subrange(0, old(log)@.len() as int) == old(log)@,
            ({
                let id = old(self).pointers@[index as int];
                let before = old(self).get(id);
                (ok && before.attachment is None && forall|b: S::BaseCard, a: Option<S::BaseCard>|
                    cloned(before.base, b) && call_ensures(<S::BaseCard as BaseCard>::attachment, (&b,), a) ==> a is None)
                    ==> exists|st: <S::BaseCard as BaseCard>::CardState|
                    call_ensures(<S::BaseCard as BaseCard>::reset_card, (&before.base, &before.state), st)
                        && final(self).get(id) == (CardInstance { state: st, ..before })
            }),
    {
        if index >= self.pointers.len() {
            proof {
                assert(log@.subrange(0, old(log)@.len() as int) =~= old(log)@);
            }
            return false;
        }
        let id = self.pointers[index];
        let k = match self.slot_of(id) {
            Some(k) => k,
            None => {
                proof {
                    assert(log@.subrange(0, old(log)@.len() as int) =~= old(log)@);
                }
                return false;
            },
        };
        let n = self.next_instance.unwrap();
        let instance = self.instances[k].clone();
        let current = match instance.attachment {
            Some(a) => {
                let ak = self.slot_of(a).unwrap();
                Some((ak, self.instances[ak].clone()))
            },
            None => None,
        };
        let ghost s0 = *self;
        let ghost l0 = log@;
        match (current, instance.base.attachment()) {
            (None, None) => {},
            (Some((_, cur)), None) => {
                proof {
                    self.lemma_get(cur.id);
                }
                let _ = self.dust_card(Card::ID(cur.id), log);
                proof {
                    assert(self.ids() == s0.ids());
                }
            },
            (None, Some(default)) => {
                let state = default.new_card_state(Some(&instance.state));
                self.push_instance(CardInstance { id: n, base: default, attachment: None, state });
                let ghost s1 = *self;
                proof {
                    assert(self.has(n)) by {
                        assert(self.ids()[self.ids().len() - 1] == n);
                    }
                    assert(self.has(id)) by {
                        assert(self.ids()[k as int] == id);
                    }
                }
                let _ = self.attach_card(Card::ID(id), Card::ID(n), None, log);
                proof {
                    assert(self.ids() == s1.ids());
                    assert forall|x: InstanceID| s0.has(x) implies #[trigger] self.has(x) by {
                        let j = choose|j: int| 0 <= j < s0.ids().len() && s0.ids()[j] == x;
                        assert(s1.ids()[j] == x);
                    }
                }
            },
            (Some((ak, cur)), Some(default)) => {
                if cur.base == default {
                    let state = cur.base.new_card_state(Some(&instance.state));
                    self.set_state_at(ak, state);
                    proof {
                        assert(self.ids() == s0.ids());
                    }
                } else {
                    let state = default.new_card_state(Some(&instance.state));
                    proof {
                        self.lemma_get(cur.id);
                    }
                    let _ = self.dust_card(Card::ID(cur.id), log);
                    let ghost sd = *self;
                    proof {
                        assert(!self.has(n)) by {
                            assert(self.ids() == s0.ids());
                        }
                    }
                    self.push_instance(CardInstance { id: n, base: default, attachment: None, state });
                    let ghost s1 = *self;
                    proof {
                        assert(self.has(n)) by {
                            assert(self.ids()[self.ids().len() - 1] == n);
                        }
                        assert(self.has(id)) by {
                            assert(sd.ids() == s0.ids());
                            assert(s0.ids()[k as int] == id);
                            assert(self.ids()[k as int] == id);
                        }
                    }
                    let _ = self.attach_card(Card::ID(id), Card::ID(n), None, log);
                    proof {
                        assert(self.ids() == s1.ids());
                        assert forall|x: InstanceID| s0.has(x) implies #[trigger] self.has(x) by {
                            let j = choose|j: int| 0 <= j < s0.ids().len() && s0.ids()[j] == x;
                            assert(sd.ids()[j] == x);
                            assert(s1.ids()[j] == x);
                        }
                    }
                }
            },
        }
        proof {
            assert forall|x: InstanceID| s0.has(x) implies #[trigger] self.has(x) by {
                if self.ids() == s0.ids() {
                    assert(s0.ids().contains(x));
                }
            }
            assert(self.has(id));
            assert(log@.subrange(0, l0.len() as int) == l0);
        }
        let ghost s_pre = *self;
        self.next_instance = Some(InstanceID(n.0 + 1));
        let k2 = self.slot_of(id).unwrap();
        let ghost s2 = *self;
        self.reset_state_at(k2, false, log);
        proof {
            assert(s2.ids() =~= s_pre.ids());
            assert forall|x: InstanceID| s0.has(x) implies #[trigger] self.has(x) by {
                assert(s_pre.has(x));
                assert(s2.ids().contains(x));
            }
            assert(log@.subrange(0, old(log)@.len() as int) =~= old(log)@);
        }
        true
    }
}

/// The move of the public card `card` to `to_zone` of `owner`, run as far as the public
/// state allows: `None` where it needs a secret, or fails.
fn move_public<S: State>(game: &mut CardGame<S>, card: InstanceID, owner: Player, to_zone: Zone) -> (r: Option<Vec<Effect<S>>>)
    ensures
        final(game).state.instances@.len() == old(game).state.instances@.len(),
        (!(to_zone is Attachment) && card.0 < old(game).state.instances@.len() && old(game).state.instances@[card.0 as int] is Instance
            && r is Some) ==> old(game).state.spec_location(card) is Some && placed(
            final(game).state.player_cards@[owner as int],
            to_zone,
            card,
        ),
        (to_zone is Attachment && to_zone->parent is ID && card.0 < old(game).state.instances@.len()
            && old(game).state.instances@[card.0 as int] is Instance && to_zone->parent->ID_0.0 < old(game).state.instances@.len()
            && old(game).state.instances@[to_zone->parent->ID_0.0 as int] is Instance && r is Some)
            ==> (final(game).state.spec_public(to_zone->parent->ID_0) matches Some(i) && i.attachment == Some(card)),
        (card.0 < old(game).state.instances@.len() && old(game).state.instances@[card.0 as int] is Instance && is_pile(to_zone)
            && pile_location(old(game).state, card) is Some && r is Some) ==> pile_move_done(old(game).state, final(game).state, card, owner, to_zone),
{
    let (_machine, step) = CardMove::start(&mut game.state, Card::ID(card), owner, to_zone);
    match step {
        Step::Done { effects, result: Ok(_) } => Some(effects),
        _ => None,
    }
}

/// Sets the state of the public card `id` to `state`, returning the log.
fn set_public_state<S: State>(game: &mut CardGame<S>, id: InstanceID, state: <S::BaseCard as BaseCard>::CardState) -> (r: Option<Vec<Effect<S>>>)
    ensures
        r is Some <==> old(game).state.modifiable(id),
        r is Some ==> final(game).state.spec_public(id) is Some && final(game).state.spec_public(id).unwrap().id == old(
            game,
        ).state.spec_public(id).unwrap().id,
        old(game).state.spec_public(id) is None ==> *final(game) == *old(game),
        r is Some ==> final(game).state.spec_public(id).unwrap().attachment == old(game).state.spec_public(id).unwrap().attachment,
        r is Some ==> final(game).state.instances@.len() == old(game).state.instances@.len(),
        r is Some ==> final(game).state.spec_public(id) == Some(CardInstance { state, ..old(game).state.spec_public(id).unwrap() }),
        r is Some ==> forall|j: int| 0 <= j < old(game).state.instances@.len() && j != id.0 ==> final(game).state.instances@[j]
            == old(game).state.instances@[j],
{
    let ghost new_state = state;
    let f = move |c: CardInfoMut<S>|
        ensures
            *final(c.instance) == (CardInstance { state: new_state, ..*old(c.instance) }),
        {
            c.instance.state = state;
        };
    match game.modify_card(id, f) {
        Some((_, effects)) => Some(effects),
        None => None,
    }
}

/// What resetting the card `id` of `before` did, giving `after` and the step `r`: a card in a
/// secret is reset there, asked of its holder, with the game unchanged; an ID out of the
/// table fails; a public card is reset as `CardGame::reset_public_card` says.
pub open spec fn reset_by_id<S: State>(before: CardGame<S>, after: CardGame<S>, id: InstanceID, r: Step<S, ()>) -> bool {
    let inst = before.state.spec_public(id).unwrap();
    let plain = before.state.spec_public(id) is Some && before.state.spec_location(id) is Some
        && before.state.spec_location(id).unwrap().player < 2 && inst.attachment is None && forall|
        b: S::BaseCard,
        a: Option<S::BaseCard>,
    | cloned(inst.base, b) && call_ensures(<S::BaseCard as BaseCard>::attachment, (&b,), a) ==> a is None;
    let owner = before.state.spec_location(id).unwrap().player;
    let a = inst.attachment.unwrap();
    &&& (id.0 < before.state.instances@.len() && before.state.instances@[id.0 as int] is Player) ==> {
        let holder = before.state.instances@[id.0 as int]->Player_0;
        &&& r is Reveal
        &&& r->Reveal_player == holder
        &&& r->Reveal_effects@[1] == (Effect::<S>::Mutate { player: holder, change: SecretChange::ResetHeld { id } })
        &&& after == before
    }
    &&& id.0 >= before.state.instances@.len() ==> r is Failed
    &&& (plain && r is Done) ==> exists|st: <S::BaseCard as BaseCard>::CardState|
        call_ensures(<S::BaseCard as BaseCard>::reset_card, (&inst.base, &inst.state), st)
            && after.state.spec_public(id) == Some(CardInstance { state: st, ..inst })
    &&& plain ==> (r is Done <==> before.state.modifiable(id))
    &&& (before.state.spec_public(id) is Some && inst.attachment is Some && before.state.spec_public(a) is Some
        && before.state.spec_public(a).unwrap().id == a && (forall|b: S::BaseCard, k: Option<S::BaseCard>|
        cloned(inst.base, b) && call_ensures(<S::BaseCard as BaseCard>::attachment, (&b,), k) ==> k is None) && r is Done)
        ==> after.state.player_cards@[owner as int].dust@.last() == a
}

impl<S: State> CardGame<S> {
    /// Resets the public card `id`: its attachment becomes the kind its card comes with (a
    /// current one its kind does not come with goes to its owner's public dust, one of that
    /// kind has its state reset, and otherwise a new one is created and attached, replacing
    /// any current one), then its state is reset and the attach hook runs with its
    /// attachment. Returns the log; `None` where the card or its attachment is not public, or
    /// a move does not complete publicly.
    pub fn reset_public_card(&mut self, id: InstanceID) -> (r: Option<Vec<Effect<S>>>)
        ensures
            old(self).state.spec_public(id) is None ==> r is None,
            ({
                let inst = old(self).state.spec_public(id).unwrap();
                (old(self).state.spec_public(id) is Some && old(self).state.spec_location(id) is Some
                    && old(self).state.spec_location(id).unwrap().player < 2 && inst.attachment is None && forall|
                    b: S::BaseCard,
                    a: Option<S::BaseCard>,
                | cloned(inst.base, b) && call_ensures(<S::BaseCard as BaseCard>::attachment, (&b,), a) ==> a is None)
                    ==> (r is Some <==> old(self).state.modifiable(id))
            }),
            ({
                let inst = old(self).state.spec_public(id).unwrap();
                (old(self).state.spec_public(id) is Some && old(self).state.spec_location(id) is Some
                    && old(self).state.spec_location(id).unwrap().player < 2 && inst.attachment is None && forall|
                    b: S::BaseCard,
                    a: Option<S::BaseCard>,
                | cloned(inst.base, b) && call_ensures(<S::BaseCard as BaseCard>::attachment, (&b,), a) ==> a is None) && r is Some
                    ==> exists|st: <S::BaseCard as BaseCard>::CardState|
                    call_ensures(<S::BaseCard as BaseCard>::reset_card, (&inst.base, &inst.state), st)
                        && final(self).state.spec_public(id) == Some(CardInstance { state: st, ..inst })
            }),
            ({
                let inst = old(self).state.spec_public(id).unwrap();
                let owner = old(self).state.spec_location(id).unwrap().player;
                let a = inst.attachment.unwrap();
                (old(self).state.spec_public(id) is Some && inst.attachment is Some && old(self).state.spec_public(a) is Some
                    && old(self).state.spec_public(a).unwrap().id == a && (forall|b: S::BaseCard, k: Option<S::BaseCard>|
                    cloned(inst.base, b) && call_ensures(<S::BaseCard as BaseCard>::attachment, (&b,), k) ==> k is None) && r is Some)
                    ==> final(self).state.player_cards@[owner as int].dust@.last() == a
            }),
    {
        let instance = match self.state.public_instance(id) {
            Some(i) => i.clone(),
            None => {
                return None;
            },
        };
        let owner = match self.state.try_location(id) {
            Some(l) => l.player,
            None => {
                return None;
            },
        };
        if owner >= 2 {
            return None;
        }
        let current = match instance.attachment {
            Some(a) => match self.state.public_instance(a) {
                Some(i) => Some(i.clone()),
                None => {
                    return None;
                },
            },
            None => None,
        };
        let mut effects: Vec<Effect<S>> = Vec::new();
        match (current, instance.base.attachment()) {
            (None, None) => {},
            (Some(cur), None) => match move_public(self, cur.id, owner, Zone::Dust { public: true }) {
                Some(mut e) => effects.append(&mut e),
                None => {
                    return None;
                },
            },
            (Some(cur), Some(default)) => {
                if cur.base == default {
                    let new_state = default.new_card_state(Some(&instance.state));
                    match set_public_state(self, cur.id, new_state) {
                        Some(mut e) => effects.append(&mut e),
                        None => {
                            return None;
                        },
                    }
                } else {
                    match self.attach_new_public(id, owner, default, &instance) {
                        Some(mut e) => effects.append(&mut e),
                        None => {
                            return None;
                        },
                    }
                }
            },
            (None, Some(default)) => match self.attach_new_public(id, owner, default, &instance) {
                Some(mut e) => effects.append(&mut e),
                None => {
                    return None;
                },
            },
        }
        let f = |c: CardInfoMut<S>|
            ensures
                c.attachment is None ==> exists|st: <S::BaseCard as BaseCard>::CardState|
                    call_ensures(<S::BaseCard as BaseCard>::reset_card, (&old(c.instance).base, &old(c.instance).state), st)
                        && *final(c.instance) == (CardInstance { state: st, ..*old(c.instance) }),
        {
            c.instance.state = c.instance.base.reset_card(&c.instance.state);
            if let Some(attach) = c.attachment {
                S::on_attach(c.instance, attach);
            }
        };
        let ghost mid = self.state;
        match self.modify_card(id, f) {
            Some((_, mut e)) => {
                proof {
                    let (o2, z2) = mid.public_zone(id).unwrap();
                    if mid.resorts(z2) && o2 != owner {
                        assert(self.state.player_cards@[owner as int] == mid.player_cards@[owner as int]);
                    }
                    assert(self.state.player_cards@[owner as int].dust == mid.player_cards@[owner as int].dust);
                }
                effects.append(&mut e);
            },
            None => {
                return None;
            },
        }
        Some(effects)
    }

    /// Creates a public card of kind `default` for `owner`, with the state `default` gives
    /// an attachment of `parent`, and attaches it to the public card `id`.
    fn attach_new_public(&mut self, id: InstanceID, owner: Player, default: S::BaseCard, parent: &CardInstance<S>) -> (r: Option<Vec<Effect<S>>>)
        requires
            owner < 2,
        ensures
            r is Some ==> final(self).state.instances@.len() > old(self).state.instances@.len(),
    {
        let new_state = default.new_card_state(Some(&parent.state));
        let (attachment, mut effects) = match self.new_card(owner, default) {
            Some(x) => x,
            None => {
                return None;
            },
        };
        match set_public_state(self, attachment, new_state) {
            Some(mut e) => effects.append(&mut e),
            None => {
                return None;
            },
        }
        match move_public(self, attachment, owner, Zone::Attachment { parent: Card::ID(id) }) {
            Some(mut e) => effects.append(&mut e),
            None => {
                return None;
            },
        }
        Some(effects)
    }
}

/// How far a `ResetCard` has got.
pub enum ResetPhase {
    /// Waiting to learn whether the pointer's player holds the card.
    AwaitResolved,
    /// Waiting for `player`'s secret to tell how many pointers and IDs it has used.
    AwaitEnd { player: Player },
    Finished,
}

/// A `reset_card` in progress.
pub struct ResetCard {
    pub card: Card,
    pub phase: ResetPhase,
}

impl ResetCard {
    /// Asks `player`'s secret to make `change`, a reset, while it may create cards.
    fn secret_reset<S: State>(&mut self, game: &CardGame<S>, player: Player, change: SecretChange<S>) -> (r: Step<S, ()>)
        ensures
            final(self).card == old(self).card,
            final(self).phase == (ResetPhase::AwaitEnd { player }),
            r is Reveal,
            r->Reveal_player == player,
            r->Reveal_query == SecretQuery::NewCardsEnd,
            r->Reveal_effects@ == seq![
                Effect::<S>::Mutate { player, change: SecretChange::StartNewCards { next: InstanceID(game.state.instances@.len() as usize) } },
                Effect::<S>::Mutate { player, change },
            ],
    {
        let mut effects: Vec<Effect<S>> = Vec::new();
        effects.push(Effect::Mutate { player, change: game.start_new_cards() });
        effects.push(Effect::Mutate { player, change });
        self.phase = ResetPhase::AwaitEnd { player };
        Step::Reveal { effects, player, query: SecretQuery::NewCardsEnd }
    }

    fn with_id<S: State>(&mut self, game: &mut CardGame<S>, id: InstanceID) -> (r: Step<S, ()>)
        ensures
            final(self).card == old(self).card,
            reset_by_id(*old(game), *final(game), id, r),
    {
        if id.0 >= game.state.instances.len() {
            return Step::Failed { effects: Vec::new() };
        }
        match &game.state.instances[id.0] {
            InstanceOrPlayer::Instance(_) => {
                self.phase = ResetPhase::Finished;
                match game.reset_public_card(id) {
                    Some(effects) => Step::Done { effects, result: () },
                    None => Step::Failed { effects: Vec::new() },
                }
            },
            InstanceOrPlayer::Player(owner) => {
                let owner = *owner;
                self.secret_reset(game, owner, SecretChange::ResetHeld { id })
            },
        }
    }

    /// Starts resetting `card`; see `CardGame::reset_public_card`,
    /// `PlayerSecret::reset_held_card` and `PlayerSecret::reset_pointed_card`.
    pub fn start<S: State>(game: &mut CardGame<S>, card: Card) -> (r: (ResetCard, Step<S, ()>))
        ensures
            r.0.card == card,
            card is Pointer ==> r.1 is Reveal && r.1->Reveal_player == card->Pointer_0.player
                && r.1->Reveal_query == (SecretQuery::HeldOrTarget { index: card->Pointer_0.index })
                && *final(game) == *old(game),
            card is ID ==> reset_by_id(*old(game), *final(game), card->ID_0, r.1),
    {
        let mut machine = ResetCard { card, phase: ResetPhase::Finished };
        match card {
            Card::ID(id) => {
                let step = machine.with_id(game, id);
                (machine, step)
            },
            Card::Pointer(p) => {
                machine.phase = ResetPhase::AwaitResolved;
                (machine, Step::Reveal { effects: Vec::new(), player: p.player, query: SecretQuery::HeldOrTarget { index: p.index } })
            },
        }
    }

    /// Resumes with the answer to the last question.
    pub fn resume<S: State>(&mut self, game: &mut CardGame<S>, answer: SecretAnswer<S>) -> (r: Step<S, ()>)
        ensures
            final(self).card == old(self).card,
            (old(self).phase is AwaitResolved && old(self).card is Pointer) ==> match answer {
                SecretAnswer::Resolved(Card::Pointer(q)) => r is Reveal && r->Reveal_player == old(self).card->Pointer_0.player
                    && r->Reveal_effects@[1] == (Effect::<S>::Mutate {
                        player: old(self).card->Pointer_0.player,
                        change: SecretChange::ResetPointed { index: q.index },
                    }),
                SecretAnswer::Resolved(Card::ID(id)) => reset_by_id(*old(game), *final(game), id, r),
                _ => r is Failed,
            },
            ({
                let player = old(self).phase->AwaitEnd_player;
                old(self).phase is AwaitEnd && player < 2 ==> match answer {
                    SecretAnswer::Counts(pointers, end) => if pointers >= old(game).state.player_cards@[player as int].pointers
                        && end >= old(game).state.instances@.len() {
                        &&& r is Done
                        &&& r->Done_effects@ == seq![Effect::<S>::Mutate { player, change: SecretChange::EndNewCards }]
                        &&& final(game).state.player_cards@[player as int].pointers == pointers
                        &&& final(game).state.instances@ == old(game).state.instances@ + Seq::new(
                            (end - old(game).state.instances@.len()) as nat,
                            |i: int| crate::InstanceOrPlayer::<S>::Player(player),
                        )
                    } else {
                        r is Failed
                    },
                    _ => r is Failed,
                }
            }),
    {
        match self.phase {
            ResetPhase::AwaitResolved => match (answer, self.card) {
                (SecretAnswer::Resolved(Card::Pointer(q)), Card::Pointer(p)) => self.secret_reset(
                    game,
                    p.player,
                    SecretChange::ResetPointed { index: q.index },
                ),
                (SecretAnswer::Resolved(Card::ID(id)), _) => self.with_id(game, id),
                _ => Step::Failed { effects: Vec::new() },
            },
            ResetPhase::AwaitEnd { player } => match answer {
                SecretAnswer::Counts(pointers, end) => {
                    if player >= 2 {
                        return Step::Failed { effects: Vec::new() };
                    }
                    match game.new_secret_cards(player, pointers, end) {
                        Some(_) => {
                            self.phase = ResetPhase::Finished;
                            let mut effects: Vec<Effect<S>> = Vec::new();
                            effects.push(Effect::Mutate { player, change: SecretChange::EndNewCards });
                            Step::Done { effects, result: () }
                        },
                        None => Step::Failed { effects: Vec::new() },
                    }
                },
                _ => Step::Failed { effects: Vec::new() },
            },
            ResetPhase::Finished => Step::Failed { effects: Vec::new() },
        }
    }
}

} // verus!
