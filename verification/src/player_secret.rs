use vstd::prelude::*;

use crate::player_cards::{position_of_id, position_of_some_id};
use crate::seq_util::{
    first_index, is_first_index, lemma_first_index_none, lemma_first_index_some, lemma_first_index_unique, lemma_remove_all_contains, lemma_remove_all_push,
    opt_index, remove_all,
};
use crate::error::{SecretModifyCardError, SecretMoveCardError};
use crate::random::shuffle_ids;
use crate::card_instance::copy_of;
use crate::{Card, CardEvent, CardInfo, CardInfoMut, CardInstance, CardLocation, ExactCardLocation, InstanceID, Player, State, Zone};

verus! {

/// One player's secret: the game's secret data, the instances only this player knows,
/// this player's opaque pointers, the secret zones, and what is held back until it can be
/// logged.
pub struct PlayerSecret<S: State> {
    pub secret: S::Secret,
    /// The instances in this secret, in the order they were inserted; IDs are unique.
    pub instances: Vec<CardInstance<S>>,
    pub next_instance: Option<InstanceID>,
    pub pointers: Vec<InstanceID>,
    pub deck: Vec<InstanceID>,
    pub hand: Vec<Option<InstanceID>>,
    pub dust: Vec<InstanceID>,
    pub limbo: Vec<InstanceID>,
    pub card_selection: Vec<InstanceID>,
    /// Used for deferred ModifyCard events when attachments are detached.
    pub deferred_logs: Vec<CardEvent<S>>,
    pub deferred_locations: Vec<(Zone, Option<usize>)>,
    pub player: Player,
}

impl<S: State> Clone for PlayerSecret<S> {
    fn clone(&self) -> (r: Self) {
        PlayerSecret {
            secret: self.secret.clone(),
            instances: self.instances.clone(),
            next_instance: self.next_instance,
            pointers: self.pointers.clone(),
            deck: self.deck.clone(),
            hand: self.hand.clone(),
            dust: self.dust.clone(),
            limbo: self.limbo.clone(),
            card_selection: self.card_selection.clone(),
            deferred_logs: self.deferred_logs.clone(),
            deferred_locations: self.deferred_locations.clone(),
            player: self.player,
        }
    }
}

/// A copy of `v`.
pub fn copy_ids(v: &Vec<InstanceID>) -> (r: Vec<InstanceID>)
    ensures
        r@ == v@,
{
    let mut r: Vec<InstanceID> = Vec::new();
    let mut i: usize = 0;
    while i < v.len()
        invariant
            0 <= i <= v.len(),
            r@ == v@.subrange(0, i as int),
        decreases v.len() - i,
    {
        r.push(v[i]);
        i = i + 1;
        proof {
            assert(r@ =~= v@.subrange(0, i as int));
        }
    }
    proof {
        assert(r@ =~= v@);
    }
    r
}

/// `v` without `id`, order kept.
pub fn without_id(v: &Vec<InstanceID>, id: InstanceID) -> (r: Vec<InstanceID>)
    ensures
        r@ == remove_all(v@, id),
{
    let mut r: Vec<InstanceID> = Vec::new();
    let mut i: usize = 0;
    while i < v.len()
        invariant
            0 <= i <= v.len(),
            r@ == remove_all(v@.subrange(0, i as int), id),
        decreases v.len() - i,
    {
        proof {
            assert(v@.subrange(0, i as int + 1) == v@.subrange(0, i as int).push(v@[i as int]));
            lemma_remove_all_push(v@.subrange(0, i as int), v@[i as int], id);
        }
        if v[i] != id {
            r.push(v[i]);
        }
        i = i + 1;
    }
    proof {
        assert(v@.subrange(0, v@.len() as int) == v@);
    }
    r
}

/// `v` without `Some(id)`, order kept.
pub fn without_some_id(v: &Vec<Option<InstanceID>>, id: InstanceID) -> (r: Vec<Option<InstanceID>>)
    ensures
        r@ == remove_all(v@, Some(id)),
{
    let mut r: Vec<Option<InstanceID>> = Vec::new();
    let mut i: usize = 0;
    while i < v.len()
        invariant
            0 <= i <= v.len(),
            r@ == remove_all(v@.subrange(0, i as int), Some(id)),
        decreases v.len() - i,
    {
        proof {
            assert(v@.subrange(0, i as int + 1) == v@.subrange(0, i as int).push(v@[i as int]));
            lemma_remove_all_push(v@.subrange(0, i as int), v@[i as int], Some(id));
        }
        let keep = match v[i] {
            Some(x) => x != id,
            None => true,
        };
        if keep {
            r.push(v[i]);
        }
        i = i + 1;
    }
    proof {
        assert(v@.subrange(0, v@.len() as int) == v@);
    }
    r
}

impl<S: State> PlayerSecret<S> {
    /// The IDs of the instances in this secret, in order.
    pub open spec fn ids(self) -> Seq<InstanceID> {
        self.instances@.map_values(|i: CardInstance<S>| i.id)
    }

    /// The attachments of the instances in this secret, in order.
    pub open spec fn attachments(self) -> Seq<Option<InstanceID>> {
        self.instances@.map_values(|i: CardInstance<S>| i.attachment)
    }

    /// This secret holds the instance for `id`.
    pub open spec fn has(self, id: InstanceID) -> bool {
        self.ids().contains(id)
    }

    /// The position of the instance for `id`.
    pub open spec fn slot(self, id: InstanceID) -> int {
        first_index(self.ids(), id).unwrap()
    }

    /// The instance for `id`.
    pub open spec fn get(self, id: InstanceID) -> CardInstance<S> {
        self.instances@[self.slot(id)]
    }

    /// The well-formedness of a secret: instance IDs are unique, every attachment has its
    /// instance here, and no instance is the attachment of two instances.
    pub open spec fn wf(self) -> bool {
        &&& self.ids().no_duplicates()
        &&& forall|k: int|
            0 <= k < self.instances.len() && (#[trigger] self.instances@[k]).attachment is Some
                ==> self.has(self.instances@[k].attachment.unwrap())
        &&& forall|j: int, k: int|
            0 <= j < self.instances.len() && 0 <= k < self.instances.len() && (
            #[trigger] self.instances@[j]).attachment is Some && self.instances@[j].attachment
                == (#[trigger] self.instances@[k]).attachment ==> j == k
    }

    /// `card` can be resolved against this secret without indexing past its pointers.
    pub open spec fn resolvable(self, card: Card) -> bool {
        match card {
            Card::ID(_) => true,
            Card::Pointer(p) => p.player == self.player ==> p.index < self.pointers.len(),
        }
    }

    /// The ID `card` stands for, as far as this secret can tell: an ID is itself, a pointer of
    /// this player is the ID it was created for, and another player's pointer is unknown.
    pub open spec fn spec_id(self, card: Card) -> Option<InstanceID> {
        match card {
            Card::ID(id) => Some(id),
            Card::Pointer(p) => if p.player == self.player {
                Some(self.pointers@[p.index as int])
            } else {
                None
            },
        }
    }

    /// The instance `card` stands for, if it is in this secret.
    pub open spec fn spec_instance(self, card: Card) -> Option<CardInstance<S>> {
        match self.spec_id(card) {
            Some(id) => if self.has(id) {
                Some(self.get(id))
            } else {
                None
            },
            None => None,
        }
    }

    /// The secret zone that holds `id`, and its index there; the attachment zone of its
    /// parent (with no index) when it is attached to an instance of this secret.
    pub open spec fn spec_zone_of(self, id: InstanceID) -> Option<(Zone, Option<usize>)> {
        if self.deck@.contains(id) {
            Some((Zone::Deck, Some(first_index(self.deck@, id).unwrap() as usize)))
        } else if self.hand@.contains(Some(id)) {
            Some(
                (
                    Zone::Hand { public: false },
                    Some(first_index(self.hand@, Some(id)).unwrap() as usize),
                ),
            )
        } else if self.dust@.contains(id) {
            Some((Zone::Dust { public: false }, Some(first_index(self.dust@, id).unwrap() as usize)))
        } else if self.limbo@.contains(id) {
            Some(
                (Zone::Limbo { public: false }, Some(first_index(self.limbo@, id).unwrap() as usize)),
            )
        } else if self.card_selection@.contains(id) {
            Some(
                (
                    Zone::CardSelection,
                    Some(first_index(self.card_selection@, id).unwrap() as usize),
                ),
            )
        } else if self.attachments().contains(Some(id)) {
            Some(
                (
                    Zone::Attachment {
                        parent: Card::ID(
                            self.instances@[first_index(self.attachments(), Some(id)).unwrap()].id,
                        ),
                    },
                    None,
                ),
            )
        } else {
            None
        }
    }

    /// Where `card` is, as this secret knows it.
    pub open spec fn spec_location(self, card: Card) -> CardLocation {
        CardLocation {
            player: self.player,
            location: match self.spec_id(card) {
                Some(id) => self.spec_zone_of(id),
                None => None,
            },
        }
    }

    /// `self` and `other` differ at most in their instances, zones and pointers.
    pub open spec fn same_frame(self, other: Self) -> bool {
        &&& self.secret == other.secret
        &&& self.next_instance == other.next_instance
        &&& self.deferred_logs == other.deferred_logs
        &&& self.deferred_locations == other.deferred_locations
        &&& self.player == other.player
    }

    pub proof fn lemma_get(self, id: InstanceID)
        requires
            self.has(id),
        ensures
            0 <= self.slot(id) < self.instances.len(),
            self.get(id).id == id,
            self.get(id) == self.instances@[self.slot(id)],
    {
        lemma_first_index_some(self.ids(), id);
    }

    pub proof fn lemma_slot(self, id: InstanceID, k: int)
        requires
            self.wf(),
            0 <= k < self.instances.len(),
            self.instances@[k].id == id,
        ensures
            self.has(id),
            self.slot(id) == k,
            is_first_index(self.ids(), id, k),
    {
        assert(self.ids()[k] == id);
        assert forall|j: int| 0 <= j < k implies self.ids()[j] != id by {
            assert(self.ids()[j] == self.instances@[j].id);
        }
        lemma_first_index_unique(self.ids(), id, k);
    }

    pub fn new(player: Player, secret: S::Secret) -> (r: Self)
        ensures
            r.player == player,
            r.secret == secret,
            r.instances@.len() == 0,
            r.next_instance is None,
            r.pointers@.len() == 0,
            r.deck@.len() == 0,
            r.hand@.len() == 0,
            r.dust@.len() == 0,
            r.limbo@.len() == 0,
            r.card_selection@.len() == 0,
            r.deferred_logs@.len() == 0,
            r.deferred_locations@.len() == 0,
            r.wf(),
    {
        PlayerSecret {
            secret,
            instances: Vec::new(),
            next_instance: None,
            pointers: Vec::new(),
            deck: Vec::new(),
            hand: Vec::new(),
            dust: Vec::new(),
            limbo: Vec::new(),
            card_selection: Vec::new(),
            deferred_logs: Vec::new(),
            deferred_locations: Vec::new(),
            player,
        }
    }

    pub fn player(&self) -> (r: Player)
        ensures
            r == self.player,
    {
        self.player
    }

    pub fn deck(&self) -> (r: &Vec<InstanceID>)
        ensures
            r == &self.deck,
    {
        &self.deck
    }

    pub fn hand(&self) -> (r: &Vec<Option<InstanceID>>)
        ensures
            r == &self.hand,
    {
        &self.hand
    }

    pub fn dust(&self) -> (r: &Vec<InstanceID>)
        ensures
            r == &self.dust,
    {
        &self.dust
    }

    pub fn limbo(&self) -> (r: &Vec<InstanceID>)
        ensures
            r == &self.limbo,
    {
        &self.limbo
    }

    pub fn card_selection(&self) -> (r: &Vec<InstanceID>)
        ensures
            r == &self.card_selection,
    {
        &self.card_selection
    }

    /// The ID `card` stands for, as far as this secret can tell.
    pub fn id(&self, card: Card) -> (r: Option<InstanceID>)
        requires
            self.resolvable(card),
        ensures
            r == self.spec_id(card),
    {
        match card {
            Card::ID(id) => Some(id),
            Card::Pointer(p) => {
                if p.player == self.player {
                    Some(self.pointers[p.index])
                } else {
                    None
                }
            },
        }
    }

    /// The position of the instance for `id` in this secret.
    pub fn slot_of(&self, id: InstanceID) -> (r: Option<usize>)
        ensures
            opt_index(r) == first_index(self.ids(), id),
            r matches Some(k) ==> k < self.instances.len() && self.instances@[k as int].id == id
                && self.slot(id) == k,
            r is None <==> !self.has(id),
    {
        let mut i: usize = 0;
        while i < self.instances.len()
            invariant
                0 <= i <= self.instances.len(),
                forall|j: int| 0 <= j < i ==> self.ids()[j] != id,
            decreases self.instances.len() - i,
        {
            if self.instances[i].id == id {
                proof {
                    assert(self.ids()[i as int] == id);
                    lemma_first_index_unique(self.ids(), id, i as int);
                }
                return Some(i);
            }
            i = i + 1;
        }
        proof {
            lemma_first_index_none(self.ids(), id);
        }
        None
    }

    pub fn instance(&self, card: Card) -> (r: Option<&CardInstance<S>>)
        requires
            self.resolvable(card),
        ensures
            r == (match self.spec_instance(card) {
                Some(i) => Some(&i),
                None => None,
            }),
    {
        match self.id(card) {
            Some(id) => match self.slot_of(id) {
                Some(k) => Some(&self.instances[k]),
                None => None,
            },
            None => None,
        }
    }

    /// The position of the first instance that has `id` as its attachment.
    pub(crate) fn parent_slot(&self, id: InstanceID) -> (r: Option<usize>)
        ensures
            opt_index(r) == first_index(self.attachments(), Some(id)),
            r matches Some(k) ==> k < self.instances.len() && is_first_index(
                self.attachments(),
                Some(id),
                k as int,
            ),
    {
        let mut i: usize = 0;
        while i < self.instances.len()
            invariant
                0 <= i <= self.instances.len(),
                forall|j: int| 0 <= j < i ==> self.attachments()[j] != Some(id),
            decreases self.instances.len() - i,
        {
            if self.instances[i].attachment == Some(id) {
                proof {
                    assert(self.attachments()[i as int] == Some(id));
                    lemma_first_index_unique(self.attachments(), Some(id), i as int);
                }
                return Some(i);
            }
            i = i + 1;
        }
        proof {
            lemma_first_index_none(self.attachments(), Some(id));
        }
        None
    }

    pub(crate) fn zone_of(&self, id: InstanceID) -> (r: Option<(Zone, Option<usize>)>)
        ensures
            r == self.spec_zone_of(id),
    {
        if let Some(i) = position_of_id(&self.deck, id) {
            return Some((Zone::Deck, Some(i)));
        }
        if let Some(i) = position_of_some_id(&self.hand, id) {
            return Some((Zone::Hand { public: false }, Some(i)));
        }
        if let Some(i) = position_of_id(&self.dust, id) {
            return Some((Zone::Dust { public: false }, Some(i)));
        }
        if let Some(i) = position_of_id(&self.limbo, id) {
            return Some((Zone::Limbo { public: false }, Some(i)));
        }
        if let Some(i) = position_of_id(&self.card_selection, id) {
            return Some((Zone::CardSelection, Some(i)));
        }
        match self.parent_slot(id) {
            Some(k) => Some(
                (Zone::Attachment { parent: Card::ID(self.instances[k].id) }, None),
            ),
            None => None,
        }
    }

    /// Where `card` is, as this secret knows it. A card this secret cannot resolve, or that
    /// is in none of its zones, has no location.
    pub fn location(&self, card: Card) -> (r: CardLocation)
        requires
            self.resolvable(card),
        ensures
            r == self.spec_location(card),
    {
        let location = match self.id(card) {
            Some(id) => self.zone_of(id),
            None => None,
        };
        CardLocation { player: self.player, location }
    }

    pub fn zone(&self, card: Card) -> (r: Option<Zone>)
        requires
            self.resolvable(card),
        ensures
            r == (match self.spec_location(card).location {
                Some((zone, _)) => Some(zone),
                None => None,
            }),
    {
        match self.location(card).location {
            Some((zone, _)) => Some(zone),
            None => None,
        }
    }

    /// Detaches the instance at position `k` from its attachment `attach`: runs the game's
    /// detach hook, clears the attachment, and logs the changed instance.
    fn detach_at(&mut self, k: usize, attach: &CardInstance<S>, log: &mut Vec<CardEvent<S>>)
        requires
            k < old(self).instances.len(),
            old(self).instances@[k as int].attachment is Some,
        ensures
            final(self).instances@.len() == old(self).instances@.len(),
            final(self).instances@[k as int].id == old(self).instances@[k as int].id,
            final(self).instances@[k as int].attachment is None,
            forall|j: int|
                0 <= j < old(self).instances@.len() && j != k ==> final(self).instances@[j]
                    == old(self).instances@[j],
            *final(self) == (PlayerSecret { instances: final(self).instances, ..*old(self) }),
            final(log)@.len() == old(log)@.len() + 1,
            final(log)@.subrange(0, old(log)@.len() as int) == old(log)@,
            is_modify_of(final(log)@.last(), final(self).instances@[k as int]),
    {
        let before = self.instances[k].clone();
        {
            let parent = &mut self.instances[k];
            let id = parent.id;
            parent.attachment = None;
            S::on_detach(parent, attach);
            parent.attachment = None;
            parent.id = id;
        }
        if !before.eq(&self.instances[k]) {
            log.push(CardEvent::ModifyCard { instance: self.instances[k].clone() });
        }
        proof {
            assert(final(log)@.subrange(0, old(log)@.len() as int) =~= old(log)@);
        }
    }

    /// Removes `id` from every zone of this secret, and detaches it from its parent if it has
    /// one here (logging the parent's change).
    pub(crate) fn remove_id(&mut self, log: &mut Vec<CardEvent<S>>, id: InstanceID)
        requires
            old(self).wf(),
        ensures
            final(self).wf(),
            final(self).deck@ == remove_all(old(self).deck@, id),
            final(self).hand@ == remove_all(old(self).hand@, Some(id)),
            final(self).dust@ == remove_all(old(self).dust@, id),
            final(self).limbo@ == remove_all(old(self).limbo@, id),
            final(self).card_selection@ == remove_all(old(self).card_selection@, id),
            final(self).pointers == old(self).pointers,
            final(self).same_frame(*old(self)),
            final(self).ids() == old(self).ids(),
            !final(self).attachments().contains(Some(id)),
            forall|k: int|
                0 <= k < old(self).instances@.len() && old(self).instances@[k].attachment != Some(id)
                    ==> final(self).instances@[k] == old(self).instances@[k],
            final(self).instances@.len() == old(self).instances@.len(),
            forall|k: int|
                0 <= k < old(self).instances@.len() && old(self).instances@[k].attachment == Some(id)
                    ==> final(self).instances@[k].attachment is None && final(self).instances@[k].id
                    == old(self).instances@[k].id,
            final(log)@.subrange(0, old(log)@.len() as int) == old(log)@,
            if old(self).attachments().contains(Some(id)) {
                let k = first_index(old(self).attachments(), Some(id)).unwrap();
                &&& final(log)@.len() == old(log)@.len() + 1
                &&& final(self).instances@[k].attachment is None
                &&& is_modify_of(final(log)@.last(), final(self).instances@[k])
            } else {
                final(log)@ == old(log)@
            },
    {
        self.deck = without_id(&self.deck, id);
        self.hand = without_some_id(&self.hand, id);
        self.dust = without_id(&self.dust, id);
        self.limbo = without_id(&self.limbo, id);
        self.card_selection = without_id(&self.card_selection, id);
        let ghost mid = *self;
        assert(mid.wf()) by {
            assert(mid.ids() =~= old(self).ids());
        }
        match self.parent_slot(id) {
            Some(k) => {
                proof {
                    assert(self.attachments()[k as int] == Some(id));
                    assert(self.instances@[k as int].attachment == Some(id));
                }
                let a = self.slot_of(id).unwrap();
                let attach = self.instances[a].clone();
                self.detach_at(k, &attach, log);
                proof {
                    assert(self.ids() =~= mid.ids());
                    assert forall|j: int| 0 <= j < self.instances.len() && j != k
                        implies self.instances@[j].attachment != Some(id) by {
                        if self.instances@[j].attachment == Some(id) {
                            assert(mid.instances@[j].attachment == mid.instances@[k as int].attachment);
                        }
                    }
                    assert forall|j: int| 0 <= j < self.instances.len() implies self.attachments()[j]
                        != Some(id) by {
                        assert(self.attachments()[j] == self.instances@[j].attachment);
                    }
                    assert(self.wf());
                    assert forall|j: int|
                        0 <= j < old(self).instances@.len() && old(self).instances@[j].attachment
                            == Some(id) implies j == k by {
                        assert(mid.instances@[j].attachment == mid.instances@[k as int].attachment);
                    }
                    assert forall|j: int| 0 <= j < old(self).instances@.len() implies self.ids()[j]
                        == old(self).ids()[j] by {}
                }
            },
            None => {
                proof {
                    assert forall|j: int| 0 <= j < self.instances.len() implies self.attachments()[j]
                        != Some(id) by {
                        if self.attachments()[j] == Some(id) {
                            assert(self.attachments().contains(Some(id)));
                        }
                    }
                    assert forall|j: int| 0 <= j < old(self).instances@.len() implies old(
                        self,
                    ).instances@[j].attachment != Some(id) by {
                        assert(old(self).attachments()[j] == old(self).instances@[j].attachment);
                        assert(self.attachments()[j] == self.instances@[j].attachment);
                    }
                }
            },
        }
    }

    /// Under well-formedness, an instance's attachment has no other parent.
    pub proof fn lemma_unique_parent(self, k: int)
        requires
            self.wf(),
            0 <= k < self.instances.len(),
            self.instances@[k].attachment is Some,
        ensures
            self.attachments().contains(self.instances@[k].attachment),
            first_index(self.attachments(), self.instances@[k].attachment) == Some(k),
    {
        let a = self.instances@[k].attachment;
        assert(self.attachments()[k] == a);
        assert forall|j: int| 0 <= j < k implies self.attachments()[j] != a by {
            assert(self.attachments()[j] == self.instances@[j].attachment);
        }
        lemma_first_index_unique(self.attachments(), a, k);
    }

    /// Moves `card` to this secret's dust, logging the move before it happens.
    pub(crate) fn dust_card(&mut self, card: Card, log: &mut Vec<CardEvent<S>>) -> (r: Result<
        (),
        SecretMoveCardError,
    >)
        requires
            old(self).wf(),
            old(self).resolvable(card),
            old(self).spec_id(card) matches Some(id) ==> old(self).has(id),
        ensures
            match old(self).spec_id(card) {
                None => r == Err::<(), _>(
                    SecretMoveCardError::MissingPointer { card, player: card->Pointer_0.player },
                ) && *final(self) == *old(self) && final(log)@ == old(log)@,
                Some(id) => {
                    &&& r is Ok
                    &&& final(self).wf()
                    &&& final(self).deck@ == remove_all(old(self).deck@, id)
                    &&& final(self).hand@ == remove_all(old(self).hand@, Some(id))
                    &&& final(self).dust@ == remove_all(old(self).dust@, id).push(id)
                    &&& final(self).limbo@ == remove_all(old(self).limbo@, id)
                    &&& final(self).card_selection@ == remove_all(old(self).card_selection@, id)
                    &&& final(self).pointers == old(self).pointers
                    &&& final(self).same_frame(*old(self))
                    &&& final(self).ids() == old(self).ids()
                    &&& !final(self).attachments().contains(Some(id))
                    &&& forall|k: int|
                        0 <= k < old(self).instances@.len() && old(self).instances@[k].attachment
                            != Some(id) ==> final(self).instances@[k] == old(self).instances@[k]
                    &&& final(self).instances@.len() == old(self).instances@.len()
                    &&& forall|k: int|
                        0 <= k < old(self).instances@.len() && old(self).instances@[k].attachment
                            == Some(id) ==> final(self).instances@[k].attachment is None
                            && final(self).instances@[k].id == old(self).instances@[k].id
                    &&& old(log)@.len() < final(log)@.len()
                    &&& final(log)@.subrange(0, old(log)@.len() as int) == old(log)@
                    &&& is_move_of(
                        final(log)@[old(log)@.len() as int],
                        id,
                        old(self).spec_location(Card::ID(id)),
                        ExactCardLocation {
                            player: old(self).player,
                            location: (Zone::Dust { public: false }, old(self).dust@.len() as usize),
                        },
                    )
                },
            },
    {
        let id = match card {
            Card::ID(id) => id,
            Card::Pointer(p) => {
                if p.player == self.player {
                    self.pointers[p.index]
                } else {
                    return Err(SecretMoveCardError::MissingPointer { card, player: p.player });
                }
            },
        };
        let from = self.location(Card::ID(id));
        let k = self.slot_of(id).unwrap();
        let instance = self.instances[k].clone();
        let attach = match instance.attachment {
            Some(a) => {
                let ak = self.slot_of(a).unwrap();
                Some(self.instances[ak].clone())
            },
            None => None,
        };
        let dust_len = self.dust.len();
        log.push(
            CardEvent::MoveCard {
                instance: Some((instance, attach)),
                from,
                to: ExactCardLocation {
                    player: self.player,
                    location: (Zone::Dust { public: false }, dust_len),
                },
            },
        );
        let ghost log1 = log@;
        self.remove_id(log, id);
        self.dust.push(id);
        proof {
            assert(log1.subrange(0, old(log)@.len() as int) =~= old(log)@);
            assert(final(log)@.subrange(0, log1.len() as int) == log1);
            assert(final(log)@[old(log)@.len() as int] == log1[old(log)@.len() as int]);
            assert(final(log)@.subrange(0, old(log)@.len() as int) =~= old(log)@);
            assert(self.ids() =~= old(self).ids());
        }
        Ok(())
    }

    /// Attaches `attachment` to `card`, both in this secret: a current attachment of `card` is
    /// dusted first, `attachment` leaves its zone or parent, and the move is logged from
    /// where it was (or `from_location` when this secret does not know).
    pub fn attach_card(
        &mut self,
        card: Card,
        attachment: Card,
        from_location: Option<(Zone, Option<usize>)>,
        log: &mut Vec<CardEvent<S>>,
    ) -> (r: Result<(), SecretMoveCardError>)
        requires
            old(self).wf(),
            old(self).resolvable(card),
            old(self).resolvable(attachment),
            old(self).spec_instance(card) is Some && old(self).spec_id(attachment) is Some
                ==> old(self).has(old(self).spec_id(attachment).unwrap()),
        ensures
            old(self).spec_id(attachment) is None ==> r == Err::<(), _>(
                SecretMoveCardError::MissingPointer { card: attachment, player: old(self).player },
            ) && *final(self) == *old(self) && final(log)@ == old(log)@,
            old(self).spec_id(attachment) is Some && old(self).spec_instance(card) is None ==> r
                == Err::<(), _>(
                SecretMoveCardError::MissingInstance { card, player: old(self).player },
            ) && *final(self) == *old(self) && final(log)@ == old(log)@,
            old(self).spec_id(attachment) is Some && old(self).spec_instance(card) is Some ==> {
                let pid = old(self).spec_id(card).unwrap();
                let aid = old(self).spec_id(attachment).unwrap();
                &&& r is Ok
                &&& final(self).wf()
                &&& final(self).ids() == old(self).ids()
                &&& final(self).get(pid).attachment == Some(aid)
                &&& !final(self).deck@.contains(aid)
                &&& !final(self).hand@.contains(Some(aid))
                &&& !final(self).dust@.contains(aid)
                &&& !final(self).limbo@.contains(aid)
                &&& !final(self).card_selection@.contains(aid)
                &&& (old(self).get(pid).attachment is Some && old(self).get(pid).attachment.unwrap()
                    != aid ==> final(self).dust@.contains(old(self).get(pid).attachment.unwrap()))
                &&& (old(self).get(pid).attachment is Some && old(self).get(pid).attachment.unwrap() != aid ==> final(self).dust@
                    == remove_all(remove_all(old(self).dust@, old(self).get(pid).attachment.unwrap()), aid).push(
                    old(self).get(pid).attachment.unwrap(),
                ))
                &&& (old(self).get(pid).attachment is None ==> final(self).dust@ == remove_all(old(self).dust@, aid))
                &&& final(self).pointers == old(self).pointers
                &&& final(self).same_frame(*old(self))
                &&& old(log)@.len() + 2 <= final(log)@.len()
                &&& final(log)@.subrange(0, old(log)@.len() as int) == old(log)@
                &&& is_move_to(
                    final(log)@[final(log)@.len() - 2],
                    aid,
                    ExactCardLocation {
                        player: old(self).player,
                        location: (Zone::Attachment { parent: Card::ID(pid) }, 0),
                    },
                )
                &&& old(self).get(pid).attachment is None ==> is_move_of(
                    final(log)@[final(log)@.len() - 2],
                    aid,
                    CardLocation {
                        player: old(self).player,
                        location: match old(self).spec_zone_of(aid) {
                            Some(l) => Some(l),
                            None => from_location,
                        },
                    },
                    ExactCardLocation {
                        player: old(self).player,
                        location: (Zone::Attachment { parent: Card::ID(pid) }, 0),
                    },
                )
                &&& is_modify_of(final(log)@.last(), final(self).get(pid))
                &&& forall|x: InstanceID|
                    old(self).has(x) && x != pid && old(self).get(x).attachment != Some(aid)
                        ==> #[trigger] final(self).get(x) == old(self).get(x)
            },
    {
        if let Card::Pointer(p) = attachment {
            if p.player != self.player {
                return Err(
                    SecretMoveCardError::MissingPointer { card: attachment, player: self.player },
                );
            }
        }
        let k = match self.id(card) {
            Some(id) => match self.slot_of(id) {
                Some(k) => k,
                None => {
                    return Err(
                        SecretMoveCardError::MissingInstance { card, player: self.player },
                    );
                },
            },
            None => {
                return Err(SecretMoveCardError::MissingInstance { card, player: self.player });
            },
        };
        let parent_id = self.instances[k].id;
        let ghost log0 = log@;
        if let Some(current) = self.instances[k].attachment {
            proof {
                assert(self.has(current));
                self.lemma_unique_parent(k as int);
            }
            let _ = self.dust_card(Card::ID(current), log);
        }
        let ghost mid = *self;
        let ghost log1 = log@;
        assert(mid.instances@[k as int].id == parent_id);
        assert(mid.instances@[k as int].attachment is None);
        let attachment_id = match attachment {
            Card::ID(id) => id,
            Card::Pointer(p) => self.pointers[p.index],
        };
        let from = self.location(Card::ID(attachment_id));
        self.remove_id(log, attachment_id);
        proof {
            if let Some(o) = old(self).instances@[k as int].attachment {
                if o != attachment_id {
                    crate::seq_util::lemma_remove_all_push(remove_all(old(self).dust@, o), o, attachment_id);
                }
            }
        }
        let ghost log2 = log@;
        let a = self.slot_of(attachment_id).unwrap();
        let new_attach = self.instances[a].clone();
        let player = self.player;
        let before = self.instances[k].clone();
        assert(before.attachment is None);
        {
            let parent = &mut self.instances[k];
            parent.attachment = Some(attachment_id);
            log.push(
                CardEvent::MoveCard {
                    instance: Some((new_attach.clone(), None)),
                    from: CardLocation {
                        player: from.player,
                        location: match from.location {
                            Some(l) => Some(l),
                            None => from_location,
                        },
                    },
                    to: ExactCardLocation {
                        player,
                        location: (Zone::Attachment { parent: Card::ID(parent_id) }, 0),
                    },
                },
            );
            S::on_attach(parent, &new_attach);
            parent.id = parent_id;
            parent.attachment = Some(attachment_id);
        }
        let ghost log3 = log@;
        if !before.eq(&self.instances[k]) {
            log.push(CardEvent::ModifyCard { instance: self.instances[k].clone() });
        }
        proof {
            assert(self.ids() =~= old(self).ids());
            self.lemma_slot(parent_id, k as int);
            old(self).lemma_slot(parent_id, k as int);
            assert(self.get(parent_id) == self.instances@[k as int]);
            assert forall|j: int|
                0 <= j < self.instances.len() && j != k implies self.instances@[j].attachment
                != Some(attachment_id) by {
                assert(self.instances@[j].attachment == self.attachments()[j]);
            }
            assert forall|j: int, l: int|
                0 <= j < self.instances.len() && 0 <= l < self.instances.len()
                    && self.instances@[j].attachment is Some && self.instances@[j].attachment
                    == self.instances@[l].attachment implies j == l by {
                if j != k && l != k {
                    assert(mid.instances@[j].attachment == self.instances@[j].attachment
                        || mid.instances@[j].attachment == Some(attachment_id));
                }
            }
            assert(self.wf());
            assert(final(log)@.subrange(0, old(log)@.len() as int) =~= old(log)@) by {
                assert(log1.subrange(0, log0.len() as int) == log0);
                assert(log2.subrange(0, log1.len() as int) == log1);
            }
            if old(self).instances@[k as int].attachment is None {
                assert(mid == *old(self));
            } else {
                let a = old(self).instances@[k as int].attachment.unwrap();
                assert(mid.dust@.contains(a)) by {
                    assert(mid.dust@.last() == a);
                }
                lemma_remove_all_contains(mid.dust@, attachment_id, a);
            }
            lemma_remove_all_contains(mid.deck@, attachment_id, attachment_id);
            lemma_remove_all_contains(mid.hand@, Some(attachment_id), Some(attachment_id));
            lemma_remove_all_contains(mid.dust@, attachment_id, attachment_id);
            lemma_remove_all_contains(mid.limbo@, attachment_id, attachment_id);
            lemma_remove_all_contains(mid.card_selection@, attachment_id, attachment_id);
            assert forall|x: InstanceID|
                old(self).has(x) && x != parent_id && old(self).get(x).attachment != Some(attachment_id)
                    implies #[trigger] self.get(x) == old(self).get(x) by {
                old(self).lemma_get(x);
                let j = old(self).slot(x);
                assert(self.ids() == old(self).ids());
                assert(self.slot(x) == j);
                assert(j != k);
                if let Some(c) = old(self).instances@[k as int].attachment {
                    if old(self).instances@[j].attachment == Some(c) {
                        assert(old(self).attachments()[j] == Some(c));
                        assert(old(self).attachments()[k as int] == Some(c));
                    }
                }
                assert(mid.instances@[j] == old(self).instances@[j]);
                assert(self.instances@[j] == mid.instances@[j]);
            }
        }
        Ok(())
    }

    /// The zone of the instance `card` stands for, when it has one.
    pub open spec fn zone_known(self, card: Card) -> bool {
        self.spec_instance(card) is Some ==> self.spec_zone_of(self.spec_id(card).unwrap()) is Some
    }

    /// The information given to game code about the instance of `card` in this secret.
    pub open spec fn spec_card_info(self, card: Card) -> CardInfo<'static, S> {
        let id = self.spec_id(card).unwrap();
        let instance = self.get(id);
        CardInfo {
            instance: &instance,
            owner: self.player,
            zone: self.spec_zone_of(id).unwrap().0,
            attachment: match instance.attachment {
                Some(a) => Some(&self.get(a)),
                None => None,
            },
        }
    }

    /// Applies `f` to what this secret knows of `card`, if its instance is here.
    pub fn reveal_from_card<T, F: Fn(CardInfo<S>) -> T>(&self, card: Card, f: F) -> (r: Option<T>)
        requires
            self.wf(),
            self.resolvable(card),
            self.zone_known(card),
            forall|i: CardInfo<S>| #[trigger] f.requires((i,)),
        ensures
            r is Some <==> self.spec_instance(card) is Some,
            r matches Some(t) ==> f.ensures((self.spec_card_info(card),), t),
    {
        let id = match self.id(card) {
            Some(id) => id,
            None => return None,
        };
        let k = match self.slot_of(id) {
            Some(k) => k,
            None => return None,
        };
        let zone = self.zone_of(id).unwrap().0;
        let instance = &self.instances[k];
        let attachment = match instance.attachment {
            Some(a) => {
                let ak = self.slot_of(a).unwrap();
                Some(&self.instances[ak])
            },
            None => None,
        };
        Some(f(CardInfo { instance, owner: self.player, zone, attachment }))
    }

    /// Lets `f` change the instance of `card` in this secret, and logs the change. `f` sees the
    /// owner, zone and attachment, and may log events, which follow what is already logged.
    /// The instance keeps its ID and attachment.
    pub fn modify_card<F: FnOnce(CardInfoMut<S>)>(
        &mut self,
        card: Card,
        log: &mut Vec<CardEvent<S>>,
        f: F,
    ) -> (r: Result<(), SecretModifyCardError>)
        requires
            old(self).wf(),
            old(self).resolvable(card),
            old(self).zone_known(card),
            forall|i: CardInfoMut<S>| #[trigger] f.requires((i,)),
        ensures
            old(self).spec_instance(card) is None ==> r == Err::<(), _>(
                SecretModifyCardError::MissingInstance { card, player: old(self).player },
            ) && *final(self) == *old(self) && final(log)@ == old(log)@,
            old(self).spec_instance(card) is Some ==> {
                let k = old(self).slot(old(self).spec_id(card).unwrap());
                &&& r is Ok
                &&& final(self).wf()
                &&& final(self).instances@.len() == old(self).instances@.len()
                &&& final(self).ids() == old(self).ids()
                &&& final(self).instances@[k].attachment == old(self).instances@[k].attachment
                &&& forall|j: int|
                    0 <= j < old(self).instances@.len() && j != k ==> final(self).instances@[j]
                        == old(self).instances@[j]
                &&& *final(self) == (PlayerSecret { instances: final(self).instances, ..*old(self) })
                &&& final(log)@.subrange(0, old(log)@.len() as int) == old(log)@
                &&& exists|c: CardInfoMut<S>|
                    {
                        let before = old(self).instances@[k];
                        &&& *c.instance == before
                        &&& c.owner == old(self).player
                        &&& c.zone == old(self).spec_zone_of(before.id).unwrap().0
                        &&& (c.attachment is Some) == (before.attachment is Some)
                        &&& (c.attachment matches Some(x) ==> copy_of(old(self).get(before.attachment.unwrap()), *x))
                        &&& c.log@.len() == 0
                        &&& #[trigger] f.ensures((c,), ())
                        &&& final(self).instances@[k] == (CardInstance {
                            id: before.id,
                            attachment: before.attachment,
                            ..*final(c.instance)
                        })
                    }
            },
    {
        let id = match self.id(card) {
            Some(id) => id,
            None => return Err(SecretModifyCardError::MissingInstance { card, player: self.player }),
        };
        let k = match self.slot_of(id) {
            Some(k) => k,
            None => return Err(SecretModifyCardError::MissingInstance { card, player: self.player }),
        };
        let owner = self.player;
        let zone = self.zone_of(id).unwrap().0;
        let attachment = match self.instances[k].attachment {
            Some(a) => {
                let ak = self.slot_of(a).unwrap();
                Some(self.instances[ak].clone())
            },
            None => None,
        };
        let before = self.instances[k].clone();
        let mut user_log: Vec<CardEvent<S>> = Vec::new();
        {
            let instance = &mut self.instances[k];
            let saved_id = instance.id;
            let saved_attachment = instance.attachment;
            f(
                CardInfoMut {
                    instance,
                    owner,
                    zone,
                    attachment: attachment.as_ref(),
                    log: &mut user_log,
                },
            );
            instance.id = saved_id;
            instance.attachment = saved_attachment;
        }
        let ghost log0 = log@;
        log.append(&mut user_log);
        let ghost log1 = log@;
        if !before.eq(&self.instances[k]) {
            log.push(CardEvent::ModifyCard { instance: self.instances[k].clone() });
        }
        proof {
            assert(log1.subrange(0, log0.len() as int) =~= log0);
            assert(final(log)@.subrange(0, old(log)@.len() as int) =~= old(log)@);
            assert(self.ids() =~= old(self).ids());
            assert(self.attachments() =~= old(self).attachments());
            assert forall|j: int|
                0 <= j < self.instances.len() && self.instances@[j].attachment is Some implies self.has(
                self.instances@[j].attachment.unwrap(),
            ) by {
                assert(self.attachments()[j] == old(self).attachments()[j]);
                assert(old(self).instances@[j].attachment == self.instances@[j].attachment);
            }
            assert forall|j: int, l: int|
                0 <= j < self.instances.len() && 0 <= l < self.instances.len()
                    && self.instances@[j].attachment is Some && self.instances@[j].attachment
                    == self.instances@[l].attachment implies j == l by {
                assert(self.attachments()[j] == old(self).attachments()[j]);
                assert(self.attachments()[l] == old(self).attachments()[l]);
                assert(old(self).instances@[j].attachment == self.instances@[j].attachment);
                assert(old(self).instances@[l].attachment == self.instances@[l].attachment);
            }
        }
        Ok(())
    }

    /// Shuffles the deck with `random`, and logs the new order.
    pub fn shuffle_deck(&mut self, random: &mut rand::rngs::StdRng, log: &mut Vec<CardEvent<S>>)
        ensures
            final(self).deck@.len() == old(self).deck@.len(),
            final(self).deck@.to_multiset() == old(self).deck@.to_multiset(),
            *final(self) == (PlayerSecret { deck: final(self).deck, ..*old(self) }),
            final(log)@.len() == old(log)@.len() + 1,
            final(log)@.subrange(0, old(log)@.len() as int) == old(log)@,
            (match final(log)@.last() {
                CardEvent::ShuffleDeck { player, deck } => player == old(self).player && deck@
                    == final(self).deck@,
                _ => false,
            }),
    {
        shuffle_ids(&mut self.deck, random);
        let deck = copy_ids(&self.deck);
        log.push(CardEvent::ShuffleDeck { player: self.player, deck });
        proof {
            assert(final(log)@.subrange(0, old(log)@.len() as int) =~= old(log)@);
        }
    }

    pub(crate) fn append_deck_to_pointers(&mut self)
        ensures
            final(self).pointers@ == old(self).pointers@ + old(self).deck@,
            *final(self) == (PlayerSecret { pointers: final(self).pointers, ..*old(self) }),
    {
        let mut i: usize = 0;
        let ghost start = self.pointers@;
        while i < self.deck.len()
            invariant
                0 <= i <= self.deck.len(),
                self.deck == old(self).deck,
                self.pointers@ == start + self.deck@.subrange(0, i as int),
                *self == (PlayerSecret { pointers: self.pointers, ..*old(self) }),
            decreases self.deck.len() - i,
        {
            let id = self.deck[i];
            self.pointers.push(id);
            proof {
                assert(self.deck@.subrange(0, i as int + 1) == self.deck@.subrange(0, i as int).push(
                    id,
                ));
            }
            i = i + 1;
        }
        proof {
            assert(self.deck@.subrange(0, self.deck@.len() as int) == self.deck@);
        }
    }

    pub(crate) fn append_card_selection_to_pointers(&mut self)
        ensures
            final(self).pointers@ == old(self).pointers@ + old(self).card_selection@,
            *final(self) == (PlayerSecret { pointers: final(self).pointers, ..*old(self) }),
    {
        let mut i: usize = 0;
        let ghost start = self.pointers@;
        while i < self.card_selection.len()
            invariant
                0 <= i <= self.card_selection.len(),
                self.card_selection == old(self).card_selection,
                self.pointers@ == start + self.card_selection@.subrange(0, i as int),
                *self == (PlayerSecret { pointers: self.pointers, ..*old(self) }),
            decreases self.card_selection.len() - i,
        {
            let id = self.card_selection[i];
            self.pointers.push(id);
            proof {
                assert(self.card_selection@.subrange(0, i as int + 1)
                    == self.card_selection@.subrange(0, i as int).push(id));
            }
            i = i + 1;
        }
        proof {
            assert(self.card_selection@.subrange(0, self.card_selection@.len() as int)
                == self.card_selection@);
        }
    }

    pub(crate) fn append_secret_hand_to_pointers(&mut self)
        ensures
            final(self).pointers@ == old(self).pointers@ + secret_hand_ids(old(self).hand@),
            *final(self) == (PlayerSecret { pointers: final(self).pointers, ..*old(self) }),
    {
        let mut i: usize = 0;
        let ghost start = self.pointers@;
        while i < self.hand.len()
            invariant
                0 <= i <= self.hand.len(),
                self.hand == old(self).hand,
                self.pointers@ == start + secret_hand_ids(self.hand@.subrange(0, i as int)),
                *self == (PlayerSecret { pointers: self.pointers, ..*old(self) }),
            decreases self.hand.len() - i,
        {
            proof {
                assert(self.hand@.subrange(0, i as int + 1) == self.hand@.subrange(0, i as int).push(
                    self.hand@[i as int],
                ));
                lemma_secret_hand_ids_push(self.hand@.subrange(0, i as int), self.hand@[i as int]);
            }
            match self.hand[i] {
                Some(id) => self.pointers.push(id),
                None => {},
            }
            i = i + 1;
        }
        proof {
            assert(self.hand@.subrange(0, self.hand@.len() as int) == self.hand@);
        }
    }
}

/// `e` logs the change of `instance`: a `ModifyCard` event with its ID and attachment.
pub open spec fn is_modify_of<S: State>(e: CardEvent<S>, instance: CardInstance<S>) -> bool {
    match e {
        CardEvent::ModifyCard { instance: i } => i.id == instance.id && i.attachment
            == instance.attachment,
        _ => false,
    }
}

/// `e` logs the move of `id` from `from` to `to`, together with its instance.
pub open spec fn is_move_of<S: State>(
    e: CardEvent<S>,
    id: InstanceID,
    from: CardLocation,
    to: ExactCardLocation,
) -> bool {
    match e {
        CardEvent::MoveCard { instance: Some((i, _)), from: f, to: t } => i.id == id && f == from
            && t == to,
        _ => false,
    }
}

/// `e` logs the move of `id` to `to`, together with its instance.
pub open spec fn is_move_to<S: State>(e: CardEvent<S>, id: InstanceID, to: ExactCardLocation) -> bool {
    match e {
        CardEvent::MoveCard { instance: Some((i, _)), from: _, to: t } => i.id == id && t == to,
        _ => false,
    }
}

/// The IDs of the present entries of a hand, in order.
pub open spec fn secret_hand_ids(hand: Seq<Option<InstanceID>>) -> Seq<InstanceID>
    decreases hand.len(),
{
    if hand.len() == 0 {
        Seq::empty()
    } else {
        let rest = secret_hand_ids(hand.drop_last());
        match hand.last() {
            Some(id) => rest.push(id),
            None => rest,
        }
    }
}

pub proof fn lemma_secret_hand_ids_push(hand: Seq<Option<InstanceID>>, x: Option<InstanceID>)
    ensures
        secret_hand_ids(hand.push(x)) == (match x {
            Some(id) => secret_hand_ids(hand).push(id),
            None => secret_hand_ids(hand),
        }),
{
    assert(hand.push(x).drop_last() == hand);
}

} // verus!
