//! A secret's side of creating cards: new instances made inside a player's secret, and the
//! views of a secret that game code is given while it creates them.

use vstd::prelude::*;

use crate::error::{SecretModifyCardError, SecretMoveCardError};
use crate::{BaseCard, Card, CardEvent, CardInfoMut, CardInstance, InstanceID, PlayerSecret, State};

verus! {

/// `attachment` is not the attachment of any instance in `instances`.
pub open spec fn unattached<S: State>(instances: Seq<CardInstance<S>>, attachment: InstanceID) -> bool {
    forall|j: int| 0 <= j < instances.len() ==> (#[trigger] instances[j]).attachment != Some(attachment)
}

impl<S: State> PlayerSecret<S> {
    /// Adds `instance`, whose ID is new to this secret, at the end; its attachment, if any,
    /// is an instance of this secret that is no other instance's attachment.
    pub fn push_instance(&mut self, instance: CardInstance<S>)
        requires
            old(self).wf(),
            !old(self).has(instance.id),
            instance.attachment matches Some(a) ==> old(self).has(a) && unattached(old(self).instances@, a),
        ensures
            final(self).wf(),
            final(self).instances@ == old(self).instances@.push(instance),
            final(self).ids() == old(self).ids().push(instance.id),
            *final(self) == (PlayerSecret { instances: final(self).instances, ..*old(self) }),
    {
        self.instances.push(instance);
        proof {
            let n = old(self).instances@.len() as int;
            assert(self.ids() =~= old(self).ids().push(instance.id));
            assert(self.attachments() =~= old(self).attachments().push(instance.attachment));
            assert forall|x: InstanceID| old(self).has(x) implies #[trigger] self.has(x) by {
                let j = choose|j: int| 0 <= j < old(self).ids().len() && old(self).ids()[j] == x;
                assert(self.ids()[j] == x);
            }
            assert(self.ids()[n] == instance.id);
            assert forall|k: int|
                0 <= k < self.instances.len() && (#[trigger] self.instances@[k]).attachment is Some
                    implies self.has(self.instances@[k].attachment.unwrap()) by {
                if k < n {
                    assert(self.instances@[k] == old(self).instances@[k]);
                }
            }
            assert forall|j: int, k: int|
                0 <= j < self.instances.len() && 0 <= k < self.instances.len() && (
                #[trigger] self.instances@[j]).attachment is Some && self.instances@[j].attachment
                    == (#[trigger] self.instances@[k]).attachment implies j == k by {
                if j < n && k < n {
                    assert(self.instances@[j] == old(self).instances@[j]);
                    assert(self.instances@[k] == old(self).instances@[k]);
                } else if j < n {
                    assert(self.instances@[j] == old(self).instances@[j]);
                } else if k < n {
                    assert(self.instances@[k] == old(self).instances@[k]);
                }
            }
        }
    }

    /// Runs the game's attach hook on the instance at position `k` with `attachment`, keeping
    /// its ID and attachment, and logs the change if there is one.
    fn run_attach_hook(&mut self, k: usize, attachment: &CardInstance<S>, log: &mut Vec<CardEvent<S>>)
        requires
            old(self).wf(),
            k < old(self).instances@.len(),
        ensures
            final(self).wf(),
            final(self).instances@.len() == old(self).instances@.len(),
            final(self).ids() == old(self).ids(),
            final(self).attachments() == old(self).attachments(),
            forall|j: int| 0 <= j < old(self).instances@.len() && j != k ==> final(self).instances@[j] == old(self).instances@[j],
            *final(self) == (PlayerSecret { instances: final(self).instances, ..*old(self) }),
            final(log)@.len() >= old(log)@.len(),
            final(log)@.subrange(0, old(log)@.len() as int) == old(log)@,
            exists|i: &mut CardInstance<S>|
                {
                    &&& *i == old(self).instances@[k as int]
                    &&& call_ensures(S::on_attach, (i, attachment), ())
                    &&& final(self).instances@[k as int] == (CardInstance {
                        id: old(self).instances@[k as int].id,
                        attachment: old(self).instances@[k as int].attachment,
                        ..*final(i)
                    })
                },
            final(log)@ == old(log)@ || (final(log)@.len() == old(log)@.len() + 1 && crate::modify_card::modify_event_of(
                final(log)@.last(),
                final(self).instances@[k as int],
            )),
    {
        let before = self.instances[k].clone();
        {
            let instance = &mut self.instances[k];
            let id = instance.id;
            let a = instance.attachment;
            S::on_attach(instance, attachment);
            instance.id = id;
            instance.attachment = a;
        }
        let ghost log0 = log@;
        if !before.eq(&self.instances[k]) {
            log.push(CardEvent::ModifyCard { instance: self.instances[k].clone() });
        }
        proof {
            assert(final(log)@.subrange(0, old(log)@.len() as int) =~= old(log)@);
            assert(self.ids() =~= old(self).ids());
            assert(self.attachments() =~= old(self).attachments());
            assert forall|j: int|
                0 <= j < self.instances.len() && (#[trigger] self.instances@[j]).attachment is Some implies self.has(
                self.instances@[j].attachment.unwrap(),
            ) by {
                assert(self.attachments()[j] == old(self).attachments()[j]);
                assert(old(self).instances@[j].attachment == self.instances@[j].attachment);
            }
            assert forall|j: int, l: int|
                0 <= j < self.instances.len() && 0 <= l < self.instances.len()
                    && (#[trigger] self.instances@[j]).attachment is Some && self.instances@[j].attachment
                    == (#[trigger] self.instances@[l]).attachment implies j == l by {
                assert(self.attachments()[j] == old(self).attachments()[j]);
                assert(self.attachments()[l] == old(self).attachments()[l]);
                assert(old(self).instances@[j].attachment == self.instances@[j].attachment);
                assert(old(self).instances@[l].attachment == self.instances@[l].attachment);
            }
        }
    }

    /// Creates a card of kind `base` in this secret's limbo, with a new pointer to it, and
    /// returns its ID. The card takes the second of the next two IDs; the first goes to the
    /// attachment its kind comes with, if any (and is skipped otherwise), which the attach
    /// hook then sees attached.
    pub fn new_card(&mut self, base: S::BaseCard, log: &mut Vec<CardEvent<S>>) -> (r: InstanceID)
        requires
            old(self).wf(),
            old(self).next_instance matches Some(n) && n.0 + 2 <= usize::MAX && !old(self).has(n)
                && !old(self).has(InstanceID((n.0 + 1) as usize)),
        ensures
            ({
                let n = old(self).next_instance.unwrap();
                &&& r == InstanceID((n.0 + 1) as usize)
                &&& final(self).next_instance == Some(InstanceID((n.0 + 2) as usize))
                &&& final(self).wf()
                &&& final(self).has(r)
                &&& final(self).get(r).id == r
                &&& (final(self).get(r).attachment matches Some(a) ==> a == n && final(self).has(n))
                &&& exists|a: Option<S::BaseCard>|
                    #[trigger] call_ensures(<S::BaseCard as BaseCard>::attachment, (&base,), a) && (a is Some
                        <==> final(self).get(r).attachment is Some) && (a matches Some(ab) ==> final(self).get(n).base == ab)
                &&& final(self).get(r).attachment is None ==> final(self).get(r).base == base && !final(self).has(n)
                &&& forall|x: InstanceID| #[trigger] final(self).has(x) ==> old(self).has(x) || x == n || x == r
                &&& forall|x: InstanceID| old(self).has(x) ==> #[trigger] final(self).has(x)
                &&& final(self).limbo@ == old(self).limbo@.push(r)
                &&& final(self).pointers@ == old(self).pointers@.push(r)
                &&& final(self).deck == old(self).deck && final(self).hand == old(self).hand
                &&& final(self).dust == old(self).dust && final(self).card_selection == old(self).card_selection
                &&& final(self).player == old(self).player && final(self).secret == old(self).secret
                &&& final(log)@.len() >= old(log)@.len()
                &&& final(log)@.subrange(0, old(log)@.len() as int) == old(log)@
            }),
    {
        let n = self.next_instance.unwrap();
        let card = InstanceID(n.0 + 1);
        let attachment = match base.attachment() {
            Some(attach_base) => {
                let state = attach_base.new_card_state(None);
                self.push_instance(CardInstance { id: n, base: attach_base, attachment: None, state });
                proof {
                    assert(self.ids()[self.instances@.len() - 1] == n);
                    assert(!self.has(card)) by {
                        if self.has(card) {
                            let j = choose|j: int| 0 <= j < self.ids().len() && self.ids()[j] == card;
                            if j < old(self).ids().len() {
                                assert(old(self).ids()[j] == card);
                            }
                        }
                    }
                    assert(unattached(self.instances@, n)) by {
                        assert forall|j: int| 0 <= j < self.instances@.len() implies (#[trigger] self.instances@[j]).attachment
                            != Some(n) by {
                            if j < old(self).instances@.len() {
                                assert(self.instances@[j] == old(self).instances@[j]);
                                if old(self).instances@[j].attachment == Some(n) {
                                    assert(old(self).has(n));
                                }
                            }
                        }
                    }
                }
                Some(n)
            },
            None => None,
        };
        let ghost mid = *self;
        let state = base.new_card_state(None);
        self.push_instance(CardInstance { id: card, base, attachment, state });
        let k = self.instances.len() - 1;
        proof {
            assert(self.ids()[k as int] == card);
        }
        self.next_instance = Some(InstanceID(n.0 + 2));
        self.limbo.push(card);
        self.pointers.push(card);
        let ghost pre_hook = *self;
        proof {
            assert(pre_hook.wf()) by {
                assert(pre_hook.ids() =~= mid.ids().push(card));
                assert(pre_hook.attachments() =~= self.attachments());
            }
        }
        match attachment {
            Some(a) => {
                let ak = self.slot_of(a).unwrap();
                let attached = self.instances[ak].clone();
                self.run_attach_hook(k, &attached, log);
            },
            None => {
                proof {
                    assert(log@.subrange(0, old(log)@.len() as int) =~= old(log)@);
                }
            },
        }
        proof {
            self.lemma_slot(card, k as int);
            assert(self.ids() == pre_hook.ids());
            assert(self.attachments()[k as int] == attachment);
            assert forall|x: InstanceID| old(self).has(x) implies #[trigger] self.has(x) by {
                let j = choose|j: int| 0 <= j < old(self).ids().len() && old(self).ids()[j] == x;
                assert(self.ids()[j] == x);
            }
            assert forall|x: InstanceID| #[trigger] self.has(x) implies old(self).has(x) || x == n || x == card by {
                let j = choose|j: int| 0 <= j < self.ids().len() && self.ids()[j] == x;
                if j < old(self).ids().len() {
                    assert(old(self).ids()[j] == x);
                }
            }
            if attachment is Some {
                assert(mid.ids()[mid.instances@.len() - 1] == n);
                assert(self.ids()[mid.instances@.len() - 1] == n);
                self.lemma_slot(n, mid.instances@.len() - 1);
                assert(self.instances@[mid.instances@.len() - 1] == mid.instances@[mid.instances@.len() - 1]);
            }
        }
        card
    }

    /// Skips the next instance ID, as a card that was created would have used it.
    pub fn new_fake_card(&mut self)
        requires
            old(self).next_instance matches Some(n) && n.0 < usize::MAX,
        ensures
            final(self).next_instance == Some(InstanceID((old(self).next_instance.unwrap().0 + 1) as usize)),
            *final(self) == (PlayerSecret { next_instance: final(self).next_instance, ..*old(self) }),
    {
        let n = self.next_instance.unwrap();
        self.next_instance = Some(InstanceID(n.0 + 1));
    }
}

/// The secret of a player whose game code is creating cards, and the log of what it sees.
pub struct SecretCardsInfo<'a, S: State> {
    pub secret: &'a mut PlayerSecret<S>,
    pub log: &'a mut Vec<CardEvent<S>>,
}

/// A `SecretCardsInfo` that may also skip instance IDs, so that the number of cards created
/// does not show.
pub struct SecretCardsWithFakesInfo<'a, S: State> {
    pub info: SecretCardsInfo<'a, S>,
}

/// The secret of a player whose game code is handing out pointers.
pub struct SecretPointersInfo<'a, S: State> {
    pub secret: &'a mut PlayerSecret<S>,
}

impl<'a, S: State> SecretCardsInfo<'a, S> {
    /// Creates a card of kind `base` in the secret's limbo; see `PlayerSecret::new_card`.
    pub fn new_card(&mut self, base: S::BaseCard) -> (r: InstanceID)
        requires
            old(self).secret.wf(),
            old(self).secret.next_instance matches Some(n) && n.0 + 2 <= usize::MAX && !old(self).secret.has(n)
                && !old(self).secret.has(InstanceID((n.0 + 1) as usize)),
        ensures
            r == InstanceID((old(self).secret.next_instance.unwrap().0 + 1) as usize),
            final(self).secret.wf(),
            final(self).secret.has(r),
            final(self).secret.limbo@ == old(self).secret.limbo@.push(r),
            final(self).secret.pointers@ == old(self).secret.pointers@.push(r),
            final(self).secret.next_instance == Some(InstanceID((old(self).secret.next_instance.unwrap().0 + 2) as usize)),
            final(self).secret.get(r).id == r,
            exists|a: Option<S::BaseCard>|
                #[trigger] call_ensures(<S::BaseCard as BaseCard>::attachment, (&base,), a) && (a is Some
                    <==> final(self).secret.get(r).attachment is Some) && (a matches Some(ab) ==> final(self).secret.get(
                    old(self).secret.next_instance.unwrap(),
                ).base == ab),
            final(self).secret.get(r).attachment matches Some(x) ==> x == old(self).secret.next_instance.unwrap(),
            final(self).secret.get(r).attachment is None ==> final(self).secret.get(r).base == base
                && !final(self).secret.has(old(self).secret.next_instance.unwrap()),
    {
        self.secret.new_card(base, self.log)
    }

    /// Moves `card` to the secret's dust.
    pub(crate) fn dust_card(&mut self, card: Card) -> (r: Result<(), SecretMoveCardError>)
        requires
            old(self).secret.wf(),
            old(self).secret.resolvable(card),
            old(self).secret.spec_id(card) matches Some(id) ==> old(self).secret.has(id),
        ensures
            r is Ok <==> old(self).secret.spec_id(card) is Some,
            final(self).secret.wf(),
    {
        self.secret.dust_card(card, self.log)
    }

    /// Attaches `attachment` to `card` within the secret.
    pub fn attach_card(&mut self, card: Card, attachment: Card) -> (r: Result<(), SecretMoveCardError>)
        requires
            old(self).secret.wf(),
            old(self).secret.resolvable(card),
            old(self).secret.resolvable(attachment),
            old(self).secret.spec_instance(card) is Some && old(self).secret.spec_id(attachment) is Some
                ==> old(self).secret.has(old(self).secret.spec_id(attachment).unwrap()),
        ensures
            r is Ok <==> old(self).secret.spec_id(attachment) is Some && old(self).secret.spec_instance(card) is Some,
            r is Ok ==> final(self).secret.get(old(self).secret.spec_id(card).unwrap()).attachment == Some(
                old(self).secret.spec_id(attachment).unwrap(),
            ),
            final(self).secret.wf(),
    {
        self.secret.attach_card(card, attachment, None, self.log)
    }

    /// Lets `f` change the instance of `card` in the secret.
    pub fn modify_card<F: FnOnce(CardInfoMut<S>)>(&mut self, card: Card, f: F) -> (r: Result<(), SecretModifyCardError>)
        requires
            old(self).secret.wf(),
            old(self).secret.resolvable(card),
            old(self).secret.zone_known(card),
            forall|i: CardInfoMut<S>| #[trigger] f.requires((i,)),
        ensures
            r is Ok <==> old(self).secret.spec_instance(card) is Some,
            final(self).secret.wf(),
    {
        self.secret.modify_card(card, self.log, f)
    }
}

impl<'a, S: State> SecretCardsWithFakesInfo<'a, S> {
    /// Skips the next instance ID.
    pub fn new_fake_card(&mut self)
        requires
            old(self).info.secret.next_instance matches Some(n) && n.0 < usize::MAX,
        ensures
            final(self).info.secret.next_instance == Some(
                InstanceID((old(self).info.secret.next_instance.unwrap().0 + 1) as usize),
            ),
    {
        self.info.secret.new_fake_card()
    }
}

impl<'a, S: State> SecretPointersInfo<'a, S> {
    /// Records a new pointer to `id` in the secret.
    pub fn new_pointer(&mut self, id: InstanceID)
        ensures
            final(self).secret.pointers@ == old(self).secret.pointers@.push(id),
    {
        self.secret.new_pointer(id)
    }
}

} // verus!
