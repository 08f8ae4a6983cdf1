use vstd::prelude::*;

use crate::game_state::{is_player, InstanceOrPlayer};
use crate::player_secret::copy_ids;
use crate::{CardEvent, CardInfo, CardInstance, GameState, InstanceID, Player, State, Zone};
use std::cmp::Ordering;

verus! {

/// Whether two ID sequences are equal.
pub fn same_ids(a: &Vec<InstanceID>, b: &Vec<InstanceID>) -> (r: bool)
    ensures
        r == (a@ == b@),
{
    if a.len() != b.len() {
        return false;
    }
    let mut i: usize = 0;
    while i < a.len()
        invariant
            0 <= i <= a.len(),
            a.len() == b.len(),
            forall|j: int| 0 <= j < i ==> a@[j] == b@[j],
        decreases a.len() - i,
    {
        if a[i] != b[i] {
            return false;
        }
        i = i + 1;
    }
    proof {
        assert(a@ =~= b@);
    }
    true
}

/// Whether the game's field order may put `a` after `b`.
pub open spec fn field_after<S: State>(a: CardInfo<S>, b: CardInfo<S>) -> bool {
    call_ensures(S::field_order, (a, b), Ordering::Greater)
}

/// The game's field order is a function of the two cards and a total preorder: of two cards
/// at most one goes after the other, and a card that goes after neither of a chain of two
/// goes after neither end.
pub open spec fn field_order_total<S: State>() -> bool {
    &&& forall|a: CardInfo<S>, b: CardInfo<S>, x: Ordering, y: Ordering|
        #![trigger call_ensures(S::field_order, (a, b), x), call_ensures(S::field_order, (a, b), y)]
        call_ensures(S::field_order, (a, b), x) && call_ensures(S::field_order, (a, b), y) ==> x == y
    &&& forall|a: CardInfo<S>, b: CardInfo<S>| #[trigger] field_after::<S>(a, b) ==> !field_after::<S>(b, a)
    &&& forall|a: CardInfo<S>, b: CardInfo<S>, c: CardInfo<S>|
        #![trigger field_after::<S>(a, b), field_after::<S>(b, c), field_after::<S>(a, c)]
        !field_after::<S>(a, b) && !field_after::<S>(b, c) ==> !field_after::<S>(a, c)
}

/// Whether the game puts `a` after `b` on the field.
fn goes_after<S: State>(a: CardInfo<S>, b: CardInfo<S>) -> (r: bool)
    ensures
        r ==> field_after::<S>(a, b),
        field_order_total::<S>() ==> r == field_after::<S>(a, b),
{
    match S::field_order(a, b) {
        Ordering::Greater => true,
        _ => false,
    }
}

/// Putting a card on a sorted field where `field_index` puts it (after the cards that do not
/// go after it, before the first that does) keeps the field sorted.
pub proof fn lemma_field_insert_sorted<S: State>(game: GameState<S>, ids: Seq<InstanceID>, owner: Player, j: int, x: InstanceID)
    requires
        field_order_total::<S>(),
        game.field_sorted(ids, owner),
        0 <= j <= ids.len(),
        forall|i: int| 0 <= i < j ==> !field_after::<S>(#[trigger] game.field_card(ids[i], owner), game.field_card(x, owner)),
        j < ids.len() ==> field_after::<S>(game.field_card(ids[j], owner), game.field_card(x, owner)),
    ensures
        game.field_sorted(ids.insert(j, x), owner),
{
    let n = ids.insert(j, x);
    let mine = game.field_card(x, owner);
    assert forall|a: int, b: int|
        #![trigger n[a], n[b]]
        0 <= a < b < n.len() implies !field_after::<S>(game.field_card(n[a], owner), game.field_card(n[b], owner)) by {
        if b < j {
            assert(n[a] == ids[a] && n[b] == ids[b]);
            assert(ids[a] == ids[a] && ids[b] == ids[b]);
        } else if a > j {
            assert(n[a] == ids[a - 1] && n[b] == ids[b - 1]);
            assert(ids[a - 1] == ids[a - 1] && ids[b - 1] == ids[b - 1]);
        } else if a < j && b > j {
            assert(n[a] == ids[a] && n[b] == ids[b - 1]);
            assert(ids[a] == ids[a] && ids[b - 1] == ids[b - 1]);
        } else if b == j {
            assert(n[a] == ids[a] && n[b] == x);
            assert(!field_after::<S>(game.field_card(ids[a], owner), mine));
        } else {
            assert(a == j && b > j);
            assert(n[a] == x && n[b] == ids[b - 1]);
            let cj = game.field_card(ids[j], owner);
            let cb = game.field_card(ids[b - 1], owner);
            assert(field_after::<S>(cj, mine));
            assert(!field_after::<S>(mine, cj));
            if b - 1 > j {
                assert(ids[j] == ids[j] && ids[b - 1] == ids[b - 1]);
                assert(!field_after::<S>(cj, cb));
                assert(!field_after::<S>(mine, cb));
            }
        }
    }
}

impl<S: State> GameState<S> {
    /// What game code sees of the public card `id` on `owner`'s field.
    pub open spec fn field_card(&self, id: InstanceID, owner: Player) -> CardInfo<'_, S> {
        CardInfo {
            instance: &self.spec_public(id).unwrap(),
            owner,
            zone: Zone::Field,
            attachment: match self.spec_public(id).unwrap().attachment {
                Some(a) => Some(&self.spec_public(a).unwrap()),
                None => None,
            },
        }
    }

    /// No card of `ids` goes after a later one, as cards of `owner`'s field.
    pub open spec fn field_sorted(&self, ids: Seq<InstanceID>, owner: Player) -> bool {
        forall|i: int, j: int|
            #![trigger ids[i], ids[j]]
            0 <= i < j < ids.len() ==> !field_after::<S>(self.field_card(ids[i], owner), self.field_card(ids[j], owner))
    }

    /// The public instance of `id`, when it is public.
    pub open spec fn spec_public(self, id: InstanceID) -> Option<CardInstance<S>> {
        if id.0 < self.instances.len() {
            match self.instances@[id.0 as int] {
                InstanceOrPlayer::Instance(i) => Some(i),
                InstanceOrPlayer::Player(_) => None,
            }
        } else {
            None
        }
    }

    /// `id` is public, and so is its attachment if it has one.
    pub open spec fn public_with_attachment(self, id: InstanceID) -> bool {
        &&& self.spec_public(id) is Some
        &&& (self.spec_public(id).unwrap().attachment matches Some(a) ==> self.spec_public(
            a,
        ) is Some)
    }

    /// Every card of `player`'s field is public, and so are their attachments.
    pub open spec fn field_public(self, player: Player) -> bool {
        is_player(player) && forall|i: int|
            0 <= i < self.player_cards@[player as int].field@.len()
                ==> #[trigger] self.public_with_attachment(
                self.player_cards@[player as int].field@[i],
            )
    }

    pub fn public_instance(&self, id: InstanceID) -> (r: Option<&CardInstance<S>>)
        ensures
            r == (match self.spec_public(id) {
                Some(i) => Some(&i),
                None => None,
            }),
    {
        if id.0 < self.instances.len() {
            self.instances[id.0].instance_ref()
        } else {
            None
        }
    }

    /// What game code sees of a public card on `owner`'s field.
    fn field_info(&self, id: InstanceID, owner: Player) -> (r: CardInfo<S>)
        requires
            self.public_with_attachment(id),
        ensures
            *r.instance == self.spec_public(id).unwrap(),
            r.owner == owner,
            r.zone == Zone::Field,
            r == self.field_card(id, owner),
    {
        let instance = self.public_instance(id).unwrap();
        let attachment = match instance.attachment {
            Some(a) => Some(self.public_instance(a).unwrap()),
            None => None,
        };
        CardInfo { instance, owner, zone: Zone::Field, attachment }
    }

    /// The first position of `ids` whose card the game orders after `me`, or the length of
    /// `ids` when there is none.
    fn first_greater(
        &self,
        ids: &Vec<InstanceID>,
        player: Player,
        me: &CardInstance<S>,
        my_attachment: Option<&CardInstance<S>>,
    ) -> (r: usize)
        requires
            forall|i: int| 0 <= i < ids@.len() ==> #[trigger] self.public_with_attachment(ids@[i]),
        ensures
            r <= ids@.len(),
            field_order_total::<S>() ==> forall|i: int| 0 <= i < r ==> !field_after::<S>(
                #[trigger] self.field_card(ids@[i], player),
                CardInfo { instance: me, owner: player, zone: Zone::Field, attachment: my_attachment },
            ),
            r < ids@.len() ==> field_after::<S>(
                self.field_card(ids@[r as int], player),
                CardInfo { instance: me, owner: player, zone: Zone::Field, attachment: my_attachment },
            ),
    {
        let mut j: usize = 0;
        while j < ids.len()
            invariant
                0 <= j <= ids.len(),
                forall|i: int|
                    0 <= i < ids@.len() ==> #[trigger] self.public_with_attachment(ids@[i]),
                field_order_total::<S>() ==> forall|i: int| 0 <= i < j ==> !field_after::<S>(
                    #[trigger] self.field_card(ids@[i], player),
                    CardInfo { instance: me, owner: player, zone: Zone::Field, attachment: my_attachment },
                ),
            decreases ids.len() - j,
        {
            let info = self.field_info(ids[j], player);
            let mine = CardInfo { instance: me, owner: player, zone: Zone::Field, attachment: my_attachment };
            if goes_after(info, mine) {
                return j;
            }
            j = j + 1;
        }
        j
    }

    /// Where a card goes when it is put on `player`'s field: before the first card the game
    /// orders after it, else at the end.
    pub fn field_index(
        &self,
        player: Player,
        me: &CardInstance<S>,
        my_attachment: Option<&CardInstance<S>>,
    ) -> (r: usize)
        requires
            self.field_public(player),
        ensures
            r <= self.player_cards@[player as int].field@.len(),
            field_order_total::<S>() ==> forall|i: int| 0 <= i < r ==> !field_after::<S>(
                #[trigger] self.field_card(self.player_cards@[player as int].field@[i], player),
                CardInfo { instance: me, owner: player, zone: Zone::Field, attachment: my_attachment },
            ),
            r < self.player_cards@[player as int].field@.len() ==> field_after::<S>(
                self.field_card(self.player_cards@[player as int].field@[r as int], player),
                CardInfo { instance: me, owner: player, zone: Zone::Field, attachment: my_attachment },
            ),
    {
        let field = &self.player_cards(player).field;
        self.first_greater(field, player, me, my_attachment)
    }

    /// `player`'s field in the order the game gives it (stable: cards the game does not order
    /// keep their order).
    fn sorted_field(&self, player: Player) -> (r: Vec<InstanceID>)
        requires
            self.field_public(player),
        ensures
            r@.to_multiset() == self.player_cards@[player as int].field@.to_multiset(),
            forall|i: int| 0 <= i < r@.len() ==> #[trigger] self.public_with_attachment(r@[i]),
            field_order_total::<S>() ==> self.field_sorted(r@, player),
    {
        let field = copy_ids(&self.player_cards(player).field);
        let mut sorted: Vec<InstanceID> = Vec::new();
        let mut i: usize = 0;
        proof {
            assert(sorted@ =~= field@.subrange(0, 0));
        }
        while i < field.len()
            invariant
                0 <= i <= field.len(),
                field@ == self.player_cards@[player as int].field@,
                self.field_public(player),
                sorted@.to_multiset() == field@.subrange(0, i as int).to_multiset(),
                forall|k: int| 0 <= k < sorted@.len() ==> #[trigger] self.public_with_attachment(sorted@[k]),
                field_order_total::<S>() ==> self.field_sorted(sorted@, player),
            decreases field.len() - i,
        {
            let x = field[i];
            assert(self.public_with_attachment(field@[i as int]));
            let me = self.public_instance(x).unwrap();
            let my_attachment = match me.attachment {
                Some(a) => Some(self.public_instance(a).unwrap()),
                None => None,
            };
            let j = self.first_greater(&sorted, player, me, my_attachment);
            proof {
                broadcast use vstd::seq_lib::group_to_multiset_ensures;
                vstd::seq_lib::to_multiset_insert(sorted@, j as int, x);
                assert(field@.subrange(0, i as int + 1) == field@.subrange(0, i as int).push(x));
            }
            let ghost old_sorted = sorted@;
            sorted.insert(j, x);
            proof {
                assert forall|k: int| 0 <= k < sorted@.len() implies #[trigger] self.public_with_attachment(sorted@[k]) by {
                    if k < j {
                        assert(sorted@[k] == old_sorted[k]);
                    } else if k > j {
                        assert(sorted@[k] == old_sorted[k - 1]);
                    }
                }
                let mine = CardInfo { instance: me, owner: player, zone: Zone::Field, attachment: my_attachment };
                assert(mine == self.field_card(x, player));
                if field_order_total::<S>() {
                    lemma_field_insert_sorted(*self, old_sorted, player, j as int, x);
                    assert(sorted@ == old_sorted.insert(j as int, x));
                }
            }
            i = i + 1;
        }
        proof {
            assert(field@.subrange(0, field@.len() as int) == field@);
        }
        sorted
    }

    /// Sorts `player`'s field in the order the game gives it. When the order differs from
    /// `old_field`, a `SortField` event tells the new order and whether it is `actually_update`d;
    /// the field itself changes only when `actually_update`.
    pub fn sort_field(
        &mut self,
        player: Player,
        old_field: &Vec<InstanceID>,
        actually_update: bool,
        log: &mut Vec<CardEvent<S>>,
    )
        requires
            old(self).field_public(player),
        ensures
            final(self).instances == old(self).instances,
            final(self).shuffle_deck_on_insert == old(self).shuffle_deck_on_insert,
            final(self).state == old(self).state,
            forall|p: int|
                0 <= p < 2 && p != player ==> final(self).player_cards@[p] == old(
                    self,
                ).player_cards@[p],
            ({
                let before = old(self).player_cards@[player as int];
                let after = final(self).player_cards@[player as int];
                &&& after == (crate::PlayerCards { field: after.field, ..before })
                &&& after.field@.to_multiset() == before.field@.to_multiset()
                &&& !actually_update ==> after.field == before.field
            }),
            final(self).field_public(player),
            (field_order_total::<S>() && actually_update) ==> final(self).field_sorted(
                final(self).player_cards@[player as int].field@,
                player,
            ),
            final(log)@.subrange(0, old(log)@.len() as int) == old(log)@,
            final(log)@ == old(log)@ ==> (actually_update
                ==> final(self).player_cards@[player as int].field@ == old_field@),
            final(log)@ != old(log)@ ==> {
                &&& final(log)@.len() == old(log)@.len() + 1
                &&& (match final(log)@.last() {
                    CardEvent::SortField { player: p, field, real: r } => p == player && r
                        == actually_update && field@ != old_field@ && field@.to_multiset()
                        == old(self).player_cards@[player as int].field@.to_multiset() && (
                    actually_update ==> field@ == final(self).player_cards@[player as int].field@),
                    _ => false,
                })
            },
    {
        let field = self.sorted_field(player);
        if !same_ids(&field, old_field) {
            let copy = copy_ids(&field);
            log.push(CardEvent::SortField { player, field: copy, real: actually_update });
        }
        if actually_update {
            let ghost sorted = field@;
            let cards = self.player_cards_mut(player);
            cards.field = field;
            proof {
                assert(self.player_cards@[player as int].field@ == sorted);
                assert forall|i: int|
                    0 <= i < self.player_cards@[player as int].field@.len() implies #[trigger] self.public_with_attachment(
                    self.player_cards@[player as int].field@[i],
                ) by {
                    assert(old(self).public_with_attachment(sorted[i]));
                }
            }
        }
        proof {
            assert(final(log)@.subrange(0, old(log)@.len() as int) =~= old(log)@);
        }
    }
}

} // verus!
