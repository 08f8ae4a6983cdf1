//! The game as the public side runs it: the public state, and the operations that hand out
//! pointers to cards, returning what must be done to the secrets and the logs.

use vstd::prelude::*;

use crate::card_game::{Effect, Step};
use crate::secret_protocol::{SecretAnswer, SecretChange, SecretQuery};
use crate::{Card, CardEvent, ExactCardLocation, GameState, InstanceID, OpaquePointer, Player, PlayerCards, State, Zone};

verus! {

/// A game in progress: its public state. Operations that reach into the players' secrets
/// return the effects that carry them out.
pub struct CardGame<S: State> {
    pub state: GameState<S>,
}

/// The pointer `player` gets as their `index`th.
pub open spec fn pointer_card(player: Player, index: int) -> Card {
    Card::Pointer(OpaquePointer { player, index: index as usize })
}

/// The log of a new pointer of `player` to position `index` of `zone`.
pub open spec fn new_pointer_log<S: State>(player: Player, pointer: int, zone: Zone, index: int) -> Effect<S> {
    Effect::Log {
        event: CardEvent::NewPointer {
            pointer: OpaquePointer { player, index: pointer as usize },
            location: ExactCardLocation { player, location: (zone, index as usize) },
        },
    }
}

/// The number of secret (`None`) entries of `hand`.
pub open spec fn count_secret(hand: Seq<Option<InstanceID>>) -> nat
    decreases hand.len(),
{
    if hand.len() == 0 {
        0
    } else {
        count_secret(hand.drop_last()) + if hand.last() is None {
            1nat
        } else {
            0nat
        }
    }
}

/// A secret entry before position `i` of `hand` is counted in the prefix up to `i`, after
/// those before it.
pub proof fn lemma_count_secret_prefix(hand: Seq<Option<InstanceID>>, k: int, i: int)
    requires
        0 <= k < i <= hand.len(),
        hand[k] is None,
    ensures
        count_secret(hand.subrange(0, k)) + 1 <= count_secret(hand.subrange(0, i)),
    decreases i - k,
{
    assert(hand.subrange(0, i).drop_last() =~= hand.subrange(0, i - 1));
    if i > k + 1 {
        lemma_count_secret_prefix(hand, k, i - 1);
    }
}

impl<S: State> CardGame<S> {
    pub fn new(state: GameState<S>) -> (r: Self)
        ensures
            r.state == state,
    {
        CardGame { state }
    }

    /// `self` differs from `old` at most in the pointer count of `player`, which grew by `n`.
    pub open spec fn pointers_grew(self, old: Self, player: Player, n: int) -> bool {
        &&& self.state.player_cards@[player as int] == (PlayerCards {
            pointers: (old.state.player_cards@[player as int].pointers + n) as usize,
            ..old.state.player_cards@[player as int]
        })
        &&& self.state.player_cards@[1 - player] == old.state.player_cards@[1 - player]
        &&& self.state.instances == old.state.instances
        &&& self.state.shuffle_deck_on_insert == old.state.shuffle_deck_on_insert
        &&& self.state.state == old.state.state
    }

    /// A new pointer of `player` to the card at position `index` of their secret `zone`.
    fn zone_card(&mut self, player: Player, zone: Zone, index: usize) -> (r: (Card, Vec<Effect<S>>))
        requires
            player < 2,
            old(self).state.player_cards@[player as int].pointers < usize::MAX,
        ensures
            final(self).pointers_grew(*old(self), player, 1),
            r.0 == pointer_card(player, old(self).state.player_cards@[player as int].pointers as int),
            r.1@ == seq![
                Effect::<S>::Mutate { player, change: SecretChange::PointToZone { zone, index } },
                new_pointer_log::<S>(player, old(self).state.player_cards@[player as int].pointers as int, zone, index as int),
            ],
    {
        let cards = self.state.player_cards_mut(player);
        cards.pointers = cards.pointers + 1;
        let pointer = OpaquePointer { player, index: cards.pointers - 1 };
        let mut effects: Vec<Effect<S>> = Vec::new();
        effects.push(Effect::Mutate { player, change: SecretChange::PointToZone { zone, index } });
        effects.push(
            Effect::Log {
                event: CardEvent::NewPointer {
                    pointer,
                    location: ExactCardLocation { player, location: (zone, index) },
                },
            },
        );
        proof {
            assert(final(self).state.player_cards@[1 - player] == old(self).state.player_cards@[1 - player]);
        }
        (Card::Pointer(pointer), effects)
    }

    /// A new pointer of `player` to the card at position `index` of their deck.
    pub fn deck_card(&mut self, player: Player, index: usize) -> (r: (Card, Vec<Effect<S>>))
        requires
            player < 2,
            index < old(self).state.player_cards@[player as int].deck,
            old(self).state.player_cards@[player as int].pointers < usize::MAX,
        ensures
            final(self).pointers_grew(*old(self), player, 1),
            r.0 == pointer_card(player, old(self).state.player_cards@[player as int].pointers as int),
            r.1@ == seq![
                Effect::<S>::Mutate { player, change: SecretChange::PointToZone { zone: Zone::Deck, index } },
                new_pointer_log::<S>(player, old(self).state.player_cards@[player as int].pointers as int, Zone::Deck, index as int),
            ],
    {
        self.zone_card(player, Zone::Deck, index)
    }

    /// The card at position `index` of `player`'s hand: its ID when the entry is public, else
    /// a new pointer of `player` to it.
    pub fn hand_card(&mut self, player: Player, index: usize) -> (r: (Card, Vec<Effect<S>>))
        requires
            player < 2,
            index < old(self).state.player_cards@[player as int].hand@.len(),
            old(self).state.player_cards@[player as int].pointers < usize::MAX,
        ensures
            match old(self).state.player_cards@[player as int].hand@[index as int] {
                Some(id) => r.0 == Card::ID(id) && r.1@.len() == 0 && *final(self) == *old(self),
                None => {
                    &&& final(self).pointers_grew(*old(self), player, 1)
                    &&& r.0 == pointer_card(player, old(self).state.player_cards@[player as int].pointers as int)
                    &&& r.1@ == seq![
                        Effect::<S>::Mutate {
                            player,
                            change: SecretChange::PointToZone { zone: Zone::Hand { public: false }, index },
                        },
                        new_pointer_log::<S>(
                            player,
                            old(self).state.player_cards@[player as int].pointers as int,
                            Zone::Hand { public: false },
                            index as int,
                        ),
                    ]
                },
            },
    {
        match self.state.player_cards(player).hand[index] {
            Some(id) => (Card::ID(id), Vec::new()),
            None => self.zone_card(player, Zone::Hand { public: false }, index),
        }
    }

    /// A new pointer of `player` to the card at position `index` of their secret dust.
    pub fn secret_dust_card(&mut self, player: Player, index: usize) -> (r: (Card, Vec<Effect<S>>))
        requires
            player < 2,
            old(self).state.player_cards@[player as int].pointers < usize::MAX,
        ensures
            final(self).pointers_grew(*old(self), player, 1),
            r.0 == pointer_card(player, old(self).state.player_cards@[player as int].pointers as int),
            r.1@ == seq![
                Effect::<S>::Mutate {
                    player,
                    change: SecretChange::PointToZone { zone: Zone::Dust { public: false }, index },
                },
                new_pointer_log::<S>(player, old(self).state.player_cards@[player as int].pointers as int, Zone::Dust { public: false }, index as int),
            ],
    {
        self.zone_card(player, Zone::Dust { public: false }, index)
    }

    /// A new pointer of `player` to the card at position `index` of their secret limbo.
    pub fn secret_limbo_card(&mut self, player: Player, index: usize) -> (r: (Card, Vec<Effect<S>>))
        requires
            player < 2,
            old(self).state.player_cards@[player as int].pointers < usize::MAX,
        ensures
            final(self).pointers_grew(*old(self), player, 1),
            r.0 == pointer_card(player, old(self).state.player_cards@[player as int].pointers as int),
            r.1@ == seq![
                Effect::<S>::Mutate {
                    player,
                    change: SecretChange::PointToZone { zone: Zone::Limbo { public: false }, index },
                },
                new_pointer_log::<S>(player, old(self).state.player_cards@[player as int].pointers as int, Zone::Limbo { public: false }, index as int),
            ],
    {
        self.zone_card(player, Zone::Limbo { public: false }, index)
    }

    /// A new pointer of `player` to the card at position `index` of their card selection.
    pub fn card_selection_card(&mut self, player: Player, index: usize) -> (r: (Card, Vec<Effect<S>>))
        requires
            player < 2,
            index < old(self).state.player_cards@[player as int].card_selection,
            old(self).state.player_cards@[player as int].pointers < usize::MAX,
        ensures
            final(self).pointers_grew(*old(self), player, 1),
            r.0 == pointer_card(player, old(self).state.player_cards@[player as int].pointers as int),
            r.1@ == seq![
                Effect::<S>::Mutate { player, change: SecretChange::PointToZone { zone: Zone::CardSelection, index } },
                new_pointer_log::<S>(player, old(self).state.player_cards@[player as int].pointers as int, Zone::CardSelection, index as int),
            ],
    {
        self.zone_card(player, Zone::CardSelection, index)
    }

    /// The card at position `index` of `player`'s field.
    pub fn field_card(&self, player: Player, index: usize) -> (r: InstanceID)
        requires
            player < 2,
            index < self.state.player_cards@[player as int].field@.len(),
        ensures
            r == self.state.player_cards@[player as int].field@[index as int],
    {
        self.state.player_cards(player).field[index]
    }

    /// The card at position `index` of `player`'s graveyard.
    pub fn graveyard_card(&self, player: Player, index: usize) -> (r: InstanceID)
        requires
            player < 2,
            index < self.state.player_cards@[player as int].graveyard@.len(),
        ensures
            r == self.state.player_cards@[player as int].graveyard@[index as int],
    {
        self.state.player_cards(player).graveyard[index]
    }

    /// The card at position `index` of `player`'s public dust.
    pub fn public_dust_card(&self, player: Player, index: usize) -> (r: InstanceID)
        requires
            player < 2,
            index < self.state.player_cards@[player as int].dust@.len(),
        ensures
            r == self.state.player_cards@[player as int].dust@[index as int],
    {
        self.state.player_cards(player).dust[index]
    }

    /// The card at position `index` of `player`'s public limbo.
    pub fn public_limbo_card(&self, player: Player, index: usize) -> (r: InstanceID)
        requires
            player < 2,
            index < self.state.player_cards@[player as int].limbo@.len(),
        ensures
            r == self.state.player_cards@[player as int].limbo@[index as int],
    {
        self.state.player_cards(player).limbo[index]
    }

    /// The card at position `index` of `player`'s casting zone.
    pub fn casting_card(&self, player: Player, index: usize) -> (r: InstanceID)
        requires
            player < 2,
            index < self.state.player_cards@[player as int].casting@.len(),
        ensures
            r == self.state.player_cards@[player as int].casting@[index as int],
    {
        self.state.player_cards(player).casting[index]
    }

    /// `player`'s field.
    pub fn field_cards(&self, player: Player) -> (r: &Vec<InstanceID>)
        requires
            player < 2,
        ensures
            *r == self.state.player_cards@[player as int].field,
    {
        &self.state.player_cards(player).field
    }

    /// `player`'s graveyard.
    pub fn graveyard_cards(&self, player: Player) -> (r: &Vec<InstanceID>)
        requires
            player < 2,
        ensures
            *r == self.state.player_cards@[player as int].graveyard,
    {
        &self.state.player_cards(player).graveyard
    }

    /// `player`'s public dust.
    pub fn public_dust_cards(&self, player: Player) -> (r: &Vec<InstanceID>)
        requires
            player < 2,
        ensures
            *r == self.state.player_cards@[player as int].dust,
    {
        &self.state.player_cards(player).dust
    }

    /// `player`'s public limbo.
    pub fn public_limbo_cards(&self, player: Player) -> (r: &Vec<InstanceID>)
        requires
            player < 2,
        ensures
            *r == self.state.player_cards@[player as int].limbo,
    {
        &self.state.player_cards(player).limbo
    }

    /// `player`'s casting zone.
    pub fn casting_cards(&self, player: Player) -> (r: &Vec<InstanceID>)
        requires
            player < 2,
        ensures
            *r == self.state.player_cards@[player as int].casting,
    {
        &self.state.player_cards(player).casting
    }

    /// New pointers of `player` to each of the `n` cards of their secret `zone`, in order.
    fn zone_cards(&mut self, player: Player, zone: Zone, n: usize) -> (r: (Vec<Card>, Vec<Effect<S>>))
        requires
            player < 2,
            old(self).state.player_cards@[player as int].pointers + n <= usize::MAX,
        ensures
            final(self).pointers_grew(*old(self), player, n as int),
            r.0@ == Seq::new(n as nat, |i: int| pointer_card(player, old(self).state.player_cards@[player as int].pointers + i)),
            r.1@ == seq![Effect::<S>::Mutate { player, change: SecretChange::PointToAll { zone } }] + Seq::new(
                n as nat,
                |i: int| new_pointer_log::<S>(player, old(self).state.player_cards@[player as int].pointers + i, zone, i),
            ),
    {
        let start = self.state.player_cards(player).pointers;
        let cards = self.state.player_cards_mut(player);
        cards.pointers = cards.pointers + n;
        proof {
            assert(self.state.player_cards@[1 - player] == old(self).state.player_cards@[1 - player]);
        }
        let mut result: Vec<Card> = Vec::new();
        let mut effects: Vec<Effect<S>> = Vec::new();
        effects.push(Effect::Mutate { player, change: SecretChange::PointToAll { zone } });
        let mut i: usize = 0;
        while i < n
            invariant
                0 <= i <= n,
                start + n <= usize::MAX,
                result@ == Seq::new(i as nat, |k: int| pointer_card(player, start + k)),
                effects@ == seq![Effect::<S>::Mutate { player, change: SecretChange::PointToAll { zone } }] + Seq::new(
                    i as nat,
                    |k: int| new_pointer_log::<S>(player, start + k, zone, k),
                ),
            decreases n - i,
        {
            let pointer = OpaquePointer { player, index: start + i };
            result.push(Card::Pointer(pointer));
            effects.push(
                Effect::Log {
                    event: CardEvent::NewPointer {
                        pointer,
                        location: ExactCardLocation { player, location: (zone, i) },
                    },
                },
            );
            proof {
                assert(result@ =~= Seq::new((i + 1) as nat, |k: int| pointer_card(player, start + k)));
                assert(effects@ =~= seq![Effect::<S>::Mutate { player, change: SecretChange::PointToAll { zone } }] + Seq::new(
                    (i + 1) as nat,
                    |k: int| new_pointer_log::<S>(player, start + k, zone, k),
                ));
            }
            i = i + 1;
        }
        (result, effects)
    }

    /// New pointers of `player` to each card of their deck, in order.
    pub fn deck_cards(&mut self, player: Player) -> (r: (Vec<Card>, Vec<Effect<S>>))
        requires
            player < 2,
            old(self).state.player_cards@[player as int].pointers + old(self).state.player_cards@[player as int].deck <= usize::MAX,
        ensures
            ({
                let n = old(self).state.player_cards@[player as int].deck;
                let start = old(self).state.player_cards@[player as int].pointers;
                &&& final(self).pointers_grew(*old(self), player, n as int)
                &&& r.0@ == Seq::new(n as nat, |i: int| pointer_card(player, start + i))
                &&& r.1@ == seq![Effect::<S>::Mutate { player, change: SecretChange::PointToAll { zone: Zone::Deck } }] + Seq::new(
                    n as nat,
                    |i: int| new_pointer_log::<S>(player, start + i, Zone::Deck, i),
                )
            }),
    {
        let n = self.state.player_cards(player).deck;
        self.zone_cards(player, Zone::Deck, n)
    }

    /// New pointers of `player` to each card of their card selection, in order.
    pub fn card_selection_cards(&mut self, player: Player) -> (r: (Vec<Card>, Vec<Effect<S>>))
        requires
            player < 2,
            old(self).state.player_cards@[player as int].pointers + old(self).state.player_cards@[player as int].card_selection <= usize::MAX,
        ensures
            ({
                let n = old(self).state.player_cards@[player as int].card_selection;
                let start = old(self).state.player_cards@[player as int].pointers;
                &&& final(self).pointers_grew(*old(self), player, n as int)
                &&& r.0@ == Seq::new(n as nat, |i: int| pointer_card(player, start + i))
                &&& r.1@ == seq![Effect::<S>::Mutate { player, change: SecretChange::PointToAll { zone: Zone::CardSelection } }] + Seq::new(
                    n as nat,
                    |i: int| new_pointer_log::<S>(player, start + i, Zone::CardSelection, i),
                )
            }),
    {
        let n = self.state.player_cards(player).card_selection;
        self.zone_cards(player, Zone::CardSelection, n)
    }

    /// The cards of `player`'s hand, in order: the ID of each public entry, and a new pointer
    /// of `player` for each secret one.
    #[verifier::rlimit(40)]
    pub fn hand_cards(&mut self, player: Player) -> (r: (Vec<Card>, Vec<Effect<S>>))
        requires
            player < 2,
            old(self).state.player_cards@[player as int].pointers + old(self).state.player_cards@[player as int].hand@.len() <= usize::MAX,
        ensures
            ({
                let hand = old(self).state.player_cards@[player as int].hand@;
                let start = old(self).state.player_cards@[player as int].pointers;
                &&& final(self).pointers_grew(*old(self), player, count_secret(hand) as int)
                &&& r.0@.len() == hand.len()
                &&& forall|i: int| 0 <= i < hand.len() ==> #[trigger] r.0@[i] == match hand[i] {
                    Some(id) => Card::ID(id),
                    None => pointer_card(player, start + count_secret(hand.subrange(0, i))),
                }
                &&& r.1@.len() == 1 + count_secret(hand)
                &&& r.1@[0] == (Effect::<S>::Mutate { player, change: SecretChange::PointToAll { zone: Zone::Hand { public: false } } })
                &&& forall|i: int| 0 <= i < hand.len() && hand[i] is None ==> r.1@[1 + count_secret(hand.subrange(0, i)) as int]
                    == new_pointer_log::<S>(player, start + count_secret(hand.subrange(0, i)), Zone::Hand { public: false }, i)
            }),
    {
        let ghost hand = self.state.player_cards@[player as int].hand@;
        let start = self.state.player_cards(player).pointers;
        let mut result: Vec<Card> = Vec::new();
        let mut effects: Vec<Effect<S>> = Vec::new();
        effects.push(Effect::Mutate { player, change: SecretChange::PointToAll { zone: Zone::Hand { public: false } } });
        let mut next: usize = start;
        let mut i: usize = 0;
        let n = self.state.player_cards(player).hand.len();
        while i < n
            invariant
                0 <= i <= n,
                n == hand.len(),
                hand == self.state.player_cards@[player as int].hand@,
                player < 2,
                start + n <= usize::MAX,
                next == start + count_secret(hand.subrange(0, i as int)),
                count_secret(hand.subrange(0, i as int)) <= i,
                result@.len() == i,
                forall|k: int| 0 <= k < i ==> #[trigger] result@[k] == match hand[k] {
                    Some(id) => Card::ID(id),
                    None => pointer_card(player, start + count_secret(hand.subrange(0, k))),
                },
                effects@.len() == 1 + count_secret(hand.subrange(0, i as int)),
                effects@[0] == (Effect::<S>::Mutate { player, change: SecretChange::PointToAll { zone: Zone::Hand { public: false } } }),
                forall|k: int| 0 <= k < i && hand[k] is None ==> effects@[1 + count_secret(hand.subrange(0, k)) as int]
                    == new_pointer_log::<S>(player, start + count_secret(hand.subrange(0, k)), Zone::Hand { public: false }, k),
            decreases n - i,
        {
            proof {
                assert(hand.subrange(0, i as int + 1).drop_last() =~= hand.subrange(0, i as int));
                assert forall|k: int| 0 <= k < i && hand[k] is None implies count_secret(hand.subrange(0, k)) + 1
                    <= count_secret(hand.subrange(0, i as int)) by {
                    lemma_count_secret_prefix(hand, k, i as int);
                }
            }
            match self.state.player_cards(player).hand[i] {
                Some(id) => {
                    result.push(Card::ID(id));
                },
                None => {
                    let pointer = OpaquePointer { player, index: next };
                    result.push(Card::Pointer(pointer));
                    effects.push(
                        Effect::Log {
                            event: CardEvent::NewPointer {
                                pointer,
                                location: ExactCardLocation { player, location: (Zone::Hand { public: false }, i) },
                            },
                        },
                    );
                    next = next + 1;
                },
            }
            i = i + 1;
        }
        proof {
            assert(hand.subrange(0, n as int) =~= hand);
        }
        let cards = self.state.player_cards_mut(player);
        cards.pointers = next;
        proof {
            assert(self.state.player_cards@[1 - player] == old(self).state.player_cards@[1 - player]);
        }
        (result, effects)
    }

    /// Hands `player` the pointers their secret recorded beyond the ones they already have,
    /// given the number `pointers` it now has; `None`, changing nothing, where that is fewer.
    pub fn new_secret_pointers(&mut self, player: Player, pointers: usize) -> (r: Option<Vec<Card>>)
        requires
            player < 2,
        ensures
            ({
                let start = old(self).state.player_cards@[player as int].pointers;
                &&& pointers >= start ==> (r matches Some(cards) && cards@ == Seq::new(
                    (pointers - start) as nat,
                    |i: int| pointer_card(player, start + i),
                ) && final(self).pointers_grew(*old(self), player, pointers - start))
                &&& pointers < start ==> r is None && *final(self) == *old(self)
            }),
    {
        let start = self.state.player_cards(player).pointers;
        if pointers < start {
            return None;
        }
        let cards = self.state.player_cards_mut(player);
        cards.pointers = pointers;
        proof {
            assert(self.state.player_cards@[1 - player] == old(self).state.player_cards@[1 - player]);
        }
        let mut result: Vec<Card> = Vec::new();
        let mut i: usize = start;
        while i < pointers
            invariant
                start <= i <= pointers,
                result@ == Seq::new((i - start) as nat, |k: int| pointer_card(player, start + k)),
            decreases pointers - i,
        {
            result.push(Card::Pointer(OpaquePointer { player, index: i }));
            proof {
                assert(result@ =~= Seq::new((i + 1 - start) as nat, |k: int| pointer_card(player, start + k)));
            }
            i = i + 1;
        }
        Some(result)
    }

    /// The change that lets `player`'s secret start creating cards: their IDs follow the
    /// instance table.
    pub fn start_new_cards(&self) -> (r: SecretChange<S>)
        ensures
            r == (SecretChange::<S>::StartNewCards { next: InstanceID(self.state.instances@.len() as usize) }),
    {
        SecretChange::StartNewCards { next: InstanceID(self.state.instances.len()) }
    }

    /// Records the cards `player`'s secret created, given the number `pointers` of pointers
    /// it now has and the next instance ID `end` it would give: the instance table gets an
    /// entry held by `player` for each ID used, and `player` gets the new pointers. `None`,
    /// changing nothing, where the secret has fewer pointers than `player`, or `end` is below
    /// the first ID it could use.
    pub fn new_secret_cards(&mut self, player: Player, pointers: usize, end: usize) -> (r: Option<Vec<Card>>)
        requires
            player < 2,
        ensures
            ({
                let start = old(self).state.player_cards@[player as int].pointers;
                let first = old(self).state.instances@.len();
                &&& (pointers >= start && end >= first) ==> (r matches Some(cards) && cards@ == Seq::new(
                    (pointers - start) as nat,
                    |i: int| pointer_card(player, start + i),
                ) && final(self).state.instances@ == old(self).state.instances@ + Seq::new(
                    (end - first) as nat,
                    |i: int| crate::InstanceOrPlayer::<S>::Player(player),
                ) && final(self).state.player_cards@[player as int].pointers == pointers
                    && final(self).state.player_cards@[1 - player] == old(self).state.player_cards@[1 - player])
                &&& !(pointers >= start && end >= first) ==> r is None && *final(self) == *old(self)
            }),
    {
        let start = self.state.player_cards(player).pointers;
        let first = self.state.instances.len();
        if pointers < start || end < first {
            return None;
        }
        let mut i: usize = first;
        while i < end
            invariant
                first <= i <= end,
                self.state.instances@ == old(self).state.instances@ + Seq::new(
                    (i - first) as nat,
                    |k: int| crate::InstanceOrPlayer::<S>::Player(player),
                ),
                self.state.player_cards == old(self).state.player_cards,
            decreases end - i,
        {
            self.state.instances.push(crate::InstanceOrPlayer::Player(player));
            proof {
                assert(self.state.instances@ =~= old(self).state.instances@ + Seq::new(
                    (i + 1 - first) as nat,
                    |k: int| crate::InstanceOrPlayer::<S>::Player(player),
                ));
            }
            i = i + 1;
        }
        self.new_secret_pointers(player, pointers)
    }

    /// As `new_secret_cards`, for a creation that hands out no pointers of its own.
    pub fn new_secret_cards_with_fakes(&mut self, player: Player, pointers: usize, end: usize) -> (ok: bool)
        requires
            player < 2,
        ensures
            ok == (pointers >= old(self).state.player_cards@[player as int].pointers && end >= old(self).state.instances@.len()),
            ok ==> final(self).state.instances@ == old(self).state.instances@ + Seq::new(
                (end - old(self).state.instances@.len()) as nat,
                |i: int| crate::InstanceOrPlayer::<S>::Player(player),
            ) && final(self).state.player_cards@[player as int].pointers == pointers,
            !ok ==> *final(self) == *old(self),
    {
        self.new_secret_cards(player, pointers, end).is_some()
    }

    /// Starts handing `player` a pointer to each card of their secret dust.
    pub fn secret_dust_cards(&self, player: Player) -> (r: Step<S, Vec<Card>>)
        ensures
            r == (Step::<S, Vec<Card>>::Reveal {
                effects: r->Reveal_effects,
                player,
                query: SecretQuery::PointerCount,
            }),
            r->Reveal_effects@ == seq![Effect::<S>::Mutate { player, change: SecretChange::PointToAll { zone: Zone::Dust { public: false } } }],
    {
        let mut effects: Vec<Effect<S>> = Vec::new();
        effects.push(Effect::Mutate { player, change: SecretChange::PointToAll { zone: Zone::Dust { public: false } } });
        Step::Reveal { effects, player, query: SecretQuery::PointerCount }
    }

    /// Starts handing `player` a pointer to each card of their secret limbo.
    pub fn secret_limbo_cards(&self, player: Player) -> (r: Step<S, Vec<Card>>)
        ensures
            r == (Step::<S, Vec<Card>>::Reveal {
                effects: r->Reveal_effects,
                player,
                query: SecretQuery::PointerCount,
            }),
            r->Reveal_effects@ == seq![Effect::<S>::Mutate { player, change: SecretChange::PointToAll { zone: Zone::Limbo { public: false } } }],
    {
        let mut effects: Vec<Effect<S>> = Vec::new();
        effects.push(Effect::Mutate { player, change: SecretChange::PointToAll { zone: Zone::Limbo { public: false } } });
        Step::Reveal { effects, player, query: SecretQuery::PointerCount }
    }

    /// Finishes `secret_dust_cards` or `secret_limbo_cards` with `player`'s answer: the number
    /// of pointers their secret now has.
    pub fn resume_new_pointers(&mut self, player: Player, answer: SecretAnswer<S>) -> (r: Step<S, Vec<Card>>)
        requires
            player < 2,
        ensures
            ({
                let start = old(self).state.player_cards@[player as int].pointers;
                match answer {
                    SecretAnswer::Count(n) => if n >= start {
                        r matches Step::Done { effects, result } && effects@.len() == 0 && result@ == Seq::new(
                            (n - start) as nat,
                            |i: int| pointer_card(player, start + i),
                        ) && final(self).pointers_grew(*old(self), player, n - start)
                    } else {
                        r is Failed && *final(self) == *old(self)
                    },
                    _ => r is Failed && *final(self) == *old(self),
                }
            }),
    {
        match answer {
            SecretAnswer::Count(n) => match self.new_secret_pointers(player, n) {
                Some(cards) => Step::Done { effects: Vec::new(), result: cards },
                None => Step::Failed { effects: Vec::new() },
            },
            _ => Step::Failed { effects: Vec::new() },
        }
    }
}

} // verus!
