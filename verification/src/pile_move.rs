//! Moves of a public card between the public piles of the players (field, graveyard, public
//! dust and limbo, casting): what they change of the public record, and that they keep the
//! game consistent.

use vstd::prelude::*;
use vstd::multiset::Multiset;

use crate::consistency::count_of;
use crate::game_state::InstanceOrPlayer;
use crate::{Card, CardLocation, GameState, InstanceID, Player, PlayerCards, PlayerSecret, State, Zone};

verus! {

/// The public zones that record their cards as a list of IDs.
pub open spec fn is_pile(zone: Zone) -> bool {
    ||| zone == Zone::Field
    ||| zone == Zone::Graveyard
    ||| zone == (Zone::Dust { public: true })
    ||| zone == (Zone::Limbo { public: true })
    ||| zone == Zone::Casting
}

/// The IDs in the pile `zone` of `cards`.
pub open spec fn pile(cards: PlayerCards, zone: Zone) -> Seq<InstanceID> {
    match zone {
        Zone::Field => cards.field@,
        Zone::Graveyard => cards.graveyard@,
        Zone::Dust { public: true } => cards.dust@,
        Zone::Limbo { public: true } => cards.limbo@,
        Zone::Casting => cards.casting@,
        _ => Seq::empty(),
    }
}

/// What the pile `zone` of player `p`, holding `before`, holds once `id` has left the pile
/// `from_zone` of `from` and joined the pile `to_zone` of `to`.
pub open spec fn moved_multiset(
    before: Multiset<InstanceID>,
    p: int,
    zone: Zone,
    id: InstanceID,
    from: Player,
    from_zone: Zone,
    to: Player,
    to_zone: Zone,
) -> Multiset<InstanceID> {
    let left = if p == from && zone == from_zone {
        before.remove(id)
    } else {
        before
    };
    if p == to && zone == to_zone {
        left.insert(id)
    } else {
        left
    }
}

/// `after` is `before` with `id` moved from the pile `from_zone` of `from` to the pile
/// `to_zone` of `to`: each pile holds what it held, but for `id`, in some order, and the
/// hands, decks and card selections are unchanged.
pub open spec fn pile_moved(
    before: Seq<PlayerCards>,
    after: Seq<PlayerCards>,
    id: InstanceID,
    from: Player,
    from_zone: Zone,
    to: Player,
    to_zone: Zone,
) -> bool {
    &&& forall|p: int, z: Zone|
        0 <= p < 2 && is_pile(z) ==> #[trigger] pile(after[p], z).to_multiset() == moved_multiset(
            pile(before[p], z).to_multiset(),
            p,
            z,
            id,
            from,
            from_zone,
            to,
            to_zone,
        )
    &&& forall|p: int|
        0 <= p < 2 ==> (#[trigger] after[p]).hand == before[p].hand && after[p].deck == before[p].deck
            && after[p].card_selection == before[p].card_selection
}

/// `after` is `before` with the card at position `i` of the pile `zone` taken out.
pub open spec fn pile_removed(before: PlayerCards, after: PlayerCards, zone: Zone, i: int) -> bool {
    &&& forall|z: Zone| is_pile(z) ==> #[trigger] pile(after, z) == if z == zone {
        pile(before, z).remove(i)
    } else {
        pile(before, z)
    }
    &&& after.hand == before.hand && after.deck == before.deck && after.card_selection == before.card_selection
}

/// `after` is `before` with `id` put into the pile `zone`, in some order.
pub open spec fn pile_added(before: PlayerCards, after: PlayerCards, zone: Zone, id: InstanceID) -> bool {
    &&& forall|z: Zone| is_pile(z) ==> #[trigger] pile(after, z).to_multiset() == if z == zone {
        pile(before, z).to_multiset().insert(id)
    } else {
        pile(before, z).to_multiset()
    }
    &&& after.hand == before.hand && after.deck == before.deck && after.card_selection == before.card_selection
}

/// Reordering the field keeps what `pile_added` says.
pub proof fn lemma_pile_added_reorder(before: PlayerCards, after: PlayerCards, reordered: PlayerCards, zone: Zone, id: InstanceID)
    requires
        pile_added(before, after, zone, id),
        reordered == (PlayerCards { field: reordered.field, ..after }),
        reordered.field@.to_multiset() == after.field@.to_multiset(),
    ensures
        pile_added(before, reordered, zone, id),
{
    assert forall|z: Zone| is_pile(z) implies #[trigger] pile(reordered, z).to_multiset() == if z == zone {
        pile(before, z).to_multiset().insert(id)
    } else {
        pile(before, z).to_multiset()
    } by {
        assert(pile(reordered, z).to_multiset() == pile(after, z).to_multiset());
    }
}

/// Taking `id` out of a pile of one player and adding it to a pile of a player is a move of
/// `id` between those piles.
pub proof fn lemma_pile_moved_steps(
    before: Seq<PlayerCards>,
    mid: Seq<PlayerCards>,
    after: Seq<PlayerCards>,
    id: InstanceID,
    from: Player,
    from_zone: Zone,
    i: int,
    to: Player,
    to_zone: Zone,
)
    requires
        before.len() == 2 && mid.len() == 2 && after.len() == 2,
        from < 2 && to < 2,
        0 <= i < pile(before[from as int], from_zone).len(),
        pile(before[from as int], from_zone)[i] == id,
        pile_removed(before[from as int], mid[from as int], from_zone, i),
        mid[1 - from] == before[1 - from],
        pile_added(mid[to as int], after[to as int], to_zone, id),
        after[1 - to] == mid[1 - to],
    ensures
        pile_moved(before, after, id, from, from_zone, to, to_zone),
{
    broadcast use vstd::seq_lib::group_to_multiset_ensures;

    assert forall|p: int, z: Zone| 0 <= p < 2 && is_pile(z) implies #[trigger] pile(after[p], z).to_multiset() == moved_multiset(
        pile(before[p], z).to_multiset(),
        p,
        z,
        id,
        from,
        from_zone,
        to,
        to_zone,
    ) by {
        let b = pile(before[p], z);
        let m = pile(mid[p], z);
        if p == from && z == from_zone {
            assert(m == b.remove(i));
            assert(m.to_multiset() =~= b.to_multiset().remove(id));
        } else if p == from {
            assert(m == b);
        } else {
            assert(mid[p] == before[p]);
        }
        if p == to {
            assert(pile(after[p], z).to_multiset() == if z == to_zone {
                m.to_multiset().insert(id)
            } else {
                m.to_multiset()
            });
        } else {
            assert(after[p] == mid[p]);
        }
    }
    assert forall|p: int| 0 <= p < 2 implies (#[trigger] after[p]).hand == before[p].hand && after[p].deck == before[p].deck
        && after[p].card_selection == before[p].card_selection by {
        if p == from {
        } else {
            assert(mid[p] == before[p]);
        }
        if p != to {
            assert(after[p] == mid[p]);
        }
    }
}

/// The owner, pile and position of the card `id` of `game`, when it is at a position of a
/// public pile.
pub open spec fn pile_location<S: State>(game: GameState<S>, id: InstanceID) -> Option<(Player, Zone, usize)> {
    match game.spec_location(id) {
        Some(l) => match l.location {
            Some((z, Some(i))) => if is_pile(z) {
                Some((l.player, z, i))
            } else {
                None
            },
            _ => None,
        },
        None => None,
    }
}

/// A finished move of the card `id` of `before` to the pile `to_zone` of `to_player`: the
/// card left the pile it was in for that one, and the instance table is unchanged.
pub open spec fn pile_move_done<S: State>(before: GameState<S>, after: GameState<S>, id: InstanceID, to_player: Player, to_zone: Zone) -> bool {
    let l = pile_location(before, id).unwrap();
    &&& after.instances == before.instances
    &&& pile_moved(before.player_cards@, after.player_cards@, id, l.0, l.1, to_player, to_zone)
}

/// Where `pile_location` finds a card, the card is.
pub proof fn lemma_pile_location<S: State>(game: GameState<S>, id: InstanceID)
    requires
        pile_location(game, id) is Some,
    ensures
        ({
            let (p, z, i) = pile_location(game, id).unwrap();
            &&& p < 2
            &&& i < pile(game.player_cards@[p as int], z).len()
            &&& pile(game.player_cards@[p as int], z)[i as int] == id
        }),
{
    let (p, z, i) = pile_location(game, id).unwrap();
    let c = game.player_cards@[p as int];
    assert(game.spec_zone_location(id) == Some((p, z, i)));
    assert(c.spec_location(id) == Some((z, i)));
    if c.hand@.contains(Some(id)) {
    } else if c.field@.contains(id) {
        crate::seq_util::lemma_first_index_some(c.field@, id);
        assert(c.field@.len() == c.field.len());
        assert(i as int == crate::seq_util::first_index(c.field@, id).unwrap());
    } else if c.graveyard@.contains(id) {
        crate::seq_util::lemma_first_index_some(c.graveyard@, id);
        assert(c.graveyard@.len() == c.graveyard.len());
        assert(i as int == crate::seq_util::first_index(c.graveyard@, id).unwrap());
    } else if c.dust@.contains(id) {
        crate::seq_util::lemma_first_index_some(c.dust@, id);
        assert(c.dust@.len() == c.dust.len());
        assert(i as int == crate::seq_util::first_index(c.dust@, id).unwrap());
    } else if c.limbo@.contains(id) {
        crate::seq_util::lemma_first_index_some(c.limbo@, id);
        assert(c.limbo@.len() == c.limbo.len());
        assert(i as int == crate::seq_util::first_index(c.limbo@, id).unwrap());
    } else if c.casting@.contains(id) {
        crate::seq_util::lemma_first_index_some(c.casting@, id);
        assert(c.casting@.len() == c.casting.len());
        assert(i as int == crate::seq_util::first_index(c.casting@, id).unwrap());
    }
}

/// How often `x` occurs in `s` is its count in the multiset of `s`.
pub proof fn lemma_count_of_multiset<T>(s: Seq<T>, x: T)
    ensures
        count_of(s, x) == s.to_multiset().count(x),
    decreases s.len(),
{
    broadcast use vstd::seq_lib::group_to_multiset_ensures;
    broadcast use vstd::multiset::group_multiset_axioms;

    if s.len() > 0 {
        lemma_count_of_multiset(s.drop_last(), x);
        assert(s =~= s.drop_last().push(s.last()));
    } else {
        assert(s.to_multiset() =~= Multiset::empty());
    }
}

/// A card other than `id` is in a pile after the move exactly when it was before.
proof fn lemma_pile_contains(
    before: Seq<PlayerCards>,
    after: Seq<PlayerCards>,
    id: InstanceID,
    from: Player,
    from_zone: Zone,
    to: Player,
    to_zone: Zone,
    p: int,
    z: Zone,
    x: InstanceID,
)
    requires
        pile_moved(before, after, id, from, from_zone, to, to_zone),
        0 <= p < 2,
        is_pile(z),
        x != id,
    ensures
        pile(after[p], z).contains(x) == pile(before[p], z).contains(x),
        pile(after[p], z).to_multiset().count(x) == pile(before[p], z).to_multiset().count(x),
{
    broadcast use vstd::seq_lib::group_to_multiset_ensures;
    broadcast use vstd::multiset::group_multiset_axioms;

    assert(pile(after[p], z).to_multiset() == moved_multiset(pile(before[p], z).to_multiset(), p, z, id, from, from_zone, to, to_zone));
    let a = pile(after[p], z);
    let b = pile(before[p], z);
    a.to_multiset_ensures();
    b.to_multiset_ensures();
    assert(a.to_multiset().count(x) == b.to_multiset().count(x));
    assert(a.contains(x) <==> a.to_multiset().count(x) > 0);
    assert(b.contains(x) <==> b.to_multiset().count(x) > 0);
}

/// Whether a card other than `id` is in a public zone of player `p` is the same after the
/// move.
proof fn lemma_zone_location_kept(
    before: Seq<PlayerCards>,
    after: Seq<PlayerCards>,
    id: InstanceID,
    from: Player,
    from_zone: Zone,
    to: Player,
    to_zone: Zone,
    p: int,
    x: InstanceID,
)
    requires
        pile_moved(before, after, id, from, from_zone, to, to_zone),
        0 <= p < 2,
        x != id,
    ensures
        (after[p].spec_location(x) is Some) == (before[p].spec_location(x) is Some),
{
    lemma_pile_contains(before, after, id, from, from_zone, to, to_zone, p, Zone::Field, x);
    lemma_pile_contains(before, after, id, from, from_zone, to, to_zone, p, Zone::Graveyard, x);
    lemma_pile_contains(before, after, id, from, from_zone, to, to_zone, p, Zone::Dust { public: true }, x);
    lemma_pile_contains(before, after, id, from, from_zone, to, to_zone, p, Zone::Limbo { public: true }, x);
    lemma_pile_contains(before, after, id, from, from_zone, to, to_zone, p, Zone::Casting, x);
    assert(after[p].hand == before[p].hand);
    if before[p].hand@.contains(Some(x)) {
        crate::seq_util::lemma_first_index_some(before[p].hand@, Some(x));
    }
    if before[p].field@.contains(x) {
        crate::seq_util::lemma_first_index_some(before[p].field@, x);
        crate::seq_util::lemma_first_index_some(after[p].field@, x);
    }
    if before[p].graveyard@.contains(x) {
        crate::seq_util::lemma_first_index_some(before[p].graveyard@, x);
        crate::seq_util::lemma_first_index_some(after[p].graveyard@, x);
    }
    if before[p].dust@.contains(x) {
        crate::seq_util::lemma_first_index_some(before[p].dust@, x);
        crate::seq_util::lemma_first_index_some(after[p].dust@, x);
    }
    if before[p].limbo@.contains(x) {
        crate::seq_util::lemma_first_index_some(before[p].limbo@, x);
        crate::seq_util::lemma_first_index_some(after[p].limbo@, x);
    }
    if before[p].casting@.contains(x) {
        crate::seq_util::lemma_first_index_some(before[p].casting@, x);
        crate::seq_util::lemma_first_index_some(after[p].casting@, x);
    }
}

/// How often `x` is in the pile `z` of player `p` after the move: once less where `id` left,
/// once more where it went.
proof fn lemma_pile_count(
    before: Seq<PlayerCards>,
    after: Seq<PlayerCards>,
    id: InstanceID,
    from: Player,
    from_zone: Zone,
    to: Player,
    to_zone: Zone,
    p: int,
    z: Zone,
    x: InstanceID,
)
    requires
        pile_moved(before, after, id, from, from_zone, to, to_zone),
        pile(before[from as int], from_zone).contains(id),
        0 <= p < 2,
        is_pile(z),
    ensures
        count_of(pile(after[p], z), x) == count_of(pile(before[p], z), x) - (if x == id && p == from && z == from_zone {
            1int
        } else {
            0int
        }) + (if x == id && p == to && z == to_zone {
            1int
        } else {
            0int
        }),
{
    broadcast use vstd::seq_lib::group_to_multiset_ensures;
    broadcast use vstd::multiset::group_multiset_axioms;

    lemma_count_of_multiset(pile(after[p], z), x);
    lemma_count_of_multiset(pile(before[p], z), x);
    assert(pile(after[p], z).to_multiset() == moved_multiset(pile(before[p], z).to_multiset(), p, z, id, from, from_zone, to, to_zone));
    if x == id && p == from && z == from_zone {
        pile(before[p], z).to_multiset_ensures();
        assert(pile(before[p], z).to_multiset().count(id) > 0);
    }
}

/// Whether a location is known, and if so whether it is a player's.
pub open spec fn location_kind(l: Option<CardLocation>) -> int {
    match l {
        None => 0,
        Some(l) => if l.player < 2 {
            1
        } else {
            2
        },
    }
}

/// `x` is in some public zone of `cards` exactly when it occurs there.
pub proof fn lemma_zone_presence(cards: PlayerCards, x: InstanceID)
    ensures
        (cards.spec_location(x) is Some) == (count_of(cards.hand@, Some(x)) + count_of(cards.field@, x) + count_of(cards.graveyard@, x)
            + count_of(cards.dust@, x) + count_of(cards.limbo@, x) + count_of(cards.casting@, x) > 0),
{
    broadcast use vstd::seq_lib::group_to_multiset_ensures;

    lemma_count_of_multiset(cards.hand@, Some(x));
    lemma_count_of_multiset(cards.field@, x);
    lemma_count_of_multiset(cards.graveyard@, x);
    lemma_count_of_multiset(cards.dust@, x);
    lemma_count_of_multiset(cards.limbo@, x);
    lemma_count_of_multiset(cards.casting@, x);
    cards.hand@.to_multiset_ensures();
    cards.field@.to_multiset_ensures();
    cards.graveyard@.to_multiset_ensures();
    cards.dust@.to_multiset_ensures();
    cards.limbo@.to_multiset_ensures();
    cards.casting@.to_multiset_ensures();
    if cards.hand@.contains(Some(x)) {
        crate::seq_util::lemma_first_index_some(cards.hand@, Some(x));
    } else if cards.field@.contains(x) {
        crate::seq_util::lemma_first_index_some(cards.field@, x);
    } else if cards.graveyard@.contains(x) {
        crate::seq_util::lemma_first_index_some(cards.graveyard@, x);
    } else if cards.dust@.contains(x) {
        crate::seq_util::lemma_first_index_some(cards.dust@, x);
    } else if cards.limbo@.contains(x) {
        crate::seq_util::lemma_first_index_some(cards.limbo@, x);
    } else if cards.casting@.contains(x) {
        crate::seq_util::lemma_first_index_some(cards.casting@, x);
    }
}

/// The moved card, which occurs once at most in a consistent game, is in the public zones of
/// `from` alone before the move and of `to` alone after it.
proof fn lemma_moved_card_alone<S: State>(
    g: GameState<S>,
    h: GameState<S>,
    secrets: Seq<Option<&PlayerSecret<S>>>,
    id: InstanceID,
    from: Player,
    from_zone: Zone,
    to: Player,
    to_zone: Zone,
)
    requires
        g.spec_ok(secrets),
        id.0 < g.instances@.len(),
        from < 2,
        to < 2,
        is_pile(from_zone),
        is_pile(to_zone),
        pile(g.player_cards@[from as int], from_zone).contains(id),
        pile_moved(g.player_cards@, h.player_cards@, id, from, from_zone, to, to_zone),
    ensures
        g.player_cards@[from as int].spec_location(id) is Some,
        g.player_cards@[1 - from].spec_location(id) is None,
        h.player_cards@[to as int].spec_location(id) is Some,
        h.player_cards@[1 - to].spec_location(id) is None,
{
    let (b, a) = (g.player_cards@, h.player_cards@);
    assert(g.occurrences(secrets, InstanceID(id.0 as usize)) <= 1);
    assert(InstanceID(id.0 as usize) == id);
    lemma_count_of_multiset(pile(b[from as int], from_zone), id);
    pile(b[from as int], from_zone).to_multiset_ensures();
    assert(count_of(pile(b[from as int], from_zone), id) >= 1);
    assert forall|p: int| 0 <= p < 2 implies a[p].hand == b[p].hand by {}
    lemma_pile_count(b, a, id, from, from_zone, to, to_zone, 0, Zone::Field, id);
    lemma_pile_count(b, a, id, from, from_zone, to, to_zone, 0, Zone::Graveyard, id);
    lemma_pile_count(b, a, id, from, from_zone, to, to_zone, 0, Zone::Dust { public: true }, id);
    lemma_pile_count(b, a, id, from, from_zone, to, to_zone, 0, Zone::Limbo { public: true }, id);
    lemma_pile_count(b, a, id, from, from_zone, to, to_zone, 0, Zone::Casting, id);
    lemma_pile_count(b, a, id, from, from_zone, to, to_zone, 1, Zone::Field, id);
    lemma_pile_count(b, a, id, from, from_zone, to, to_zone, 1, Zone::Graveyard, id);
    lemma_pile_count(b, a, id, from, from_zone, to, to_zone, 1, Zone::Dust { public: true }, id);
    lemma_pile_count(b, a, id, from, from_zone, to, to_zone, 1, Zone::Limbo { public: true }, id);
    lemma_pile_count(b, a, id, from, from_zone, to, to_zone, 1, Zone::Casting, id);
    lemma_zone_presence(b[0], id);
    lemma_zone_presence(b[1], id);
    lemma_zone_presence(a[0], id);
    lemma_zone_presence(a[1], id);
}

/// Whether a card's location is known, and whether it is a player's, is the same after the
/// move: the moved card goes from one player's zones to another's, and a card attached to it
/// goes with it.
proof fn lemma_location_kind_kept<S: State>(
    g: GameState<S>,
    h: GameState<S>,
    id: InstanceID,
    from: Player,
    from_zone: Zone,
    to: Player,
    to_zone: Zone,
    x: InstanceID,
    fuel: nat,
)
    requires
        h.instances == g.instances,
        from < 2,
        to < 2,
        pile_moved(g.player_cards@, h.player_cards@, id, from, from_zone, to, to_zone),
        g.player_cards@[from as int].spec_location(id) is Some,
        g.player_cards@[1 - from].spec_location(id) is None,
        h.player_cards@[to as int].spec_location(id) is Some,
        h.player_cards@[1 - to].spec_location(id) is None,
    ensures
        location_kind(g.spec_location_fuel(x, fuel)) == location_kind(h.spec_location_fuel(x, fuel)),
    decreases fuel,
{
    if x != id {
        lemma_zone_location_kept(g.player_cards@, h.player_cards@, id, from, from_zone, to, to_zone, 0, x);
        lemma_zone_location_kept(g.player_cards@, h.player_cards@, id, from, from_zone, to, to_zone, 1, x);
        if fuel > 0 {
            if let Some(parent) = g.spec_unique_parent(x) {
                lemma_location_kind_kept(g, h, id, from, from_zone, to, to_zone, parent, (fuel - 1) as nat);
            }
        }
    }
}

/// The public attachments of a card are counted alike, over both players, after the move.
proof fn lemma_attached_sum_kept<S: State>(
    g: GameState<S>,
    h: GameState<S>,
    id: InstanceID,
    from: Player,
    from_zone: Zone,
    to: Player,
    to_zone: Zone,
    y: InstanceID,
    upto: int,
)
    requires
        h.instances == g.instances,
        from < 2,
        to < 2,
        pile_moved(g.player_cards@, h.player_cards@, id, from, from_zone, to, to_zone),
        g.player_cards@[from as int].spec_location(id) is Some,
        g.player_cards@[1 - from].spec_location(id) is None,
        h.player_cards@[to as int].spec_location(id) is Some,
        h.player_cards@[1 - to].spec_location(id) is None,
        upto <= g.instances@.len(),
    ensures
        h.attached_count(y, 0, upto) + h.attached_count(y, 1, upto) == g.attached_count(y, 0, upto) + g.attached_count(y, 1, upto),
    decreases upto,
{
    if upto > 0 {
        lemma_attached_sum_kept(g, h, id, from, from_zone, to, to_zone, y, upto - 1);
        if let InstanceOrPlayer::Instance(inst) = g.instances@[upto - 1] {
            lemma_location_kind_kept(g, h, id, from, from_zone, to, to_zone, inst.id, g.instances@.len() as nat);
            if g.spec_location(inst.id) is None {
                assert(h.spec_location(inst.id) is None);
                assert(h.spec_location(inst.id) == g.spec_location(inst.id));
            }
        }
    }
}

/// Every card occurs as often after the move as before, over both players.
proof fn lemma_occurrences_kept<S: State>(
    g: GameState<S>,
    h: GameState<S>,
    secrets: Seq<Option<&PlayerSecret<S>>>,
    id: InstanceID,
    from: Player,
    from_zone: Zone,
    to: Player,
    to_zone: Zone,
    x: InstanceID,
)
    requires
        h.instances == g.instances,
        from < 2,
        to < 2,
        is_pile(from_zone),
        is_pile(to_zone),
        pile(g.player_cards@[from as int], from_zone).contains(id),
        pile_moved(g.player_cards@, h.player_cards@, id, from, from_zone, to, to_zone),
        g.player_cards@[from as int].spec_location(id) is Some,
        g.player_cards@[1 - from].spec_location(id) is None,
        h.player_cards@[to as int].spec_location(id) is Some,
        h.player_cards@[1 - to].spec_location(id) is None,
    ensures
        h.occurrences(secrets, x) == g.occurrences(secrets, x),
{
    let (b, a) = (g.player_cards@, h.player_cards@);
    assert forall|p: int| 0 <= p < 2 implies a[p].hand == b[p].hand by {}
    lemma_pile_count(b, a, id, from, from_zone, to, to_zone, 0, Zone::Field, x);
    lemma_pile_count(b, a, id, from, from_zone, to, to_zone, 0, Zone::Graveyard, x);
    lemma_pile_count(b, a, id, from, from_zone, to, to_zone, 0, Zone::Dust { public: true }, x);
    lemma_pile_count(b, a, id, from, from_zone, to, to_zone, 0, Zone::Limbo { public: true }, x);
    lemma_pile_count(b, a, id, from, from_zone, to, to_zone, 0, Zone::Casting, x);
    lemma_pile_count(b, a, id, from, from_zone, to, to_zone, 1, Zone::Field, x);
    lemma_pile_count(b, a, id, from, from_zone, to, to_zone, 1, Zone::Graveyard, x);
    lemma_pile_count(b, a, id, from, from_zone, to, to_zone, 1, Zone::Dust { public: true }, x);
    lemma_pile_count(b, a, id, from, from_zone, to, to_zone, 1, Zone::Limbo { public: true }, x);
    lemma_pile_count(b, a, id, from, from_zone, to, to_zone, 1, Zone::Casting, x);
    lemma_attached_sum_kept(g, h, id, from, from_zone, to, to_zone, x, g.instances@.len() as int);
}

/// Moving a public card from one public pile to another (as `move_card` does between the
/// field, the graveyard, and the public dust, limbo and casting zones; its attachment goes
/// with it) keeps the game consistent: when `GameState::ok` accepts a game and the players'
/// secrets, it accepts the game after the move with the same secrets.
pub proof fn pile_move_keeps_consistency<S: State>(
    g: GameState<S>,
    h: GameState<S>,
    secrets: Seq<Option<&PlayerSecret<S>>>,
    id: InstanceID,
    from: Player,
    from_zone: Zone,
    to: Player,
    to_zone: Zone,
)
    requires
        g.spec_ok(secrets),
        h.instances == g.instances,
        id.0 < g.instances@.len(),
        from < 2,
        to < 2,
        is_pile(from_zone),
        is_pile(to_zone),
        pile(g.player_cards@[from as int], from_zone).contains(id),
        pile_moved(g.player_cards@, h.player_cards@, id, from, from_zone, to, to_zone),
    ensures
        h.spec_ok(secrets),
{
    lemma_moved_card_alone(g, h, secrets, id, from, from_zone, to, to_zone);
    assert forall|x: InstanceID| #[trigger] h.occurrences(secrets, x) == g.occurrences(secrets, x) by {
        lemma_occurrences_kept(g, h, secrets, id, from, from_zone, to, to_zone, x);
    }
    assert(h.counts_ok(secrets)) by {
        assert forall|k: int| 0 <= k < h.instances@.len() implies #[trigger] h.occurrences(secrets, InstanceID(k as usize)) <= 1 by {
            assert(g.occurrences(secrets, InstanceID(k as usize)) <= 1);
        }
    }
    assert forall|p: int| 0 <= p < 2 implies h.player_cards@[p].hand == g.player_cards@[p].hand
        && h.player_cards@[p].deck == g.player_cards@[p].deck
        && h.player_cards@[p].card_selection == g.player_cards@[p].card_selection by {
        let _ = h.player_cards@[p];
    }
    assert(h.sizes_ok(secrets, 0) && h.sizes_ok(secrets, 1));
    assert(h.hands_ok(secrets, 0) && h.hands_ok(secrets, 1));
}

/// A finished `move_card` of a public card from a public pile to a public pile (field,
/// graveyard, public dust, public limbo, casting) keeps the game consistent: when
/// `GameState::ok` accepts the game before and the players' secrets, it accepts the game
/// after the move with the secrets once they have made the move's changes, which touch only
/// the logs and locations they hold back (`SecretChange::LogMove`,
/// `SecretChange::DrainDeferredLogs`).
pub proof fn move_between_piles_keeps_consistency<S: State>(
    g: GameState<S>,
    h: GameState<S>,
    secrets: Seq<Option<&PlayerSecret<S>>>,
    secrets2: Seq<Option<&PlayerSecret<S>>>,
    id: InstanceID,
    to_player: Player,
    to_zone: Zone,
)
    requires
        g.secrets_wf(secrets),
        g.spec_ok(secrets),
        same_secrets_but_held_logs(secrets, secrets2),
        pile_location(g, id) is Some,
        is_pile(to_zone),
        to_player < 2,
        pile_move_done(g, h, id, to_player, to_zone),
    ensures
        h.spec_ok(secrets2),
{
    lemma_pile_location(g, id);
    let (p, z, i) = pile_location(g, id).unwrap();
    assert(pile(g.player_cards@[p as int], z)[i as int] == id);
    consistency_ignores_held_logs(g, secrets, secrets2);
    pile_move_keeps_consistency(g, h, secrets2, id, p, z, to_player, to_zone);
}

/// `a` and `b` differ at most in the logs and locations they hold back for later.
pub open spec fn same_but_held_logs<S: State>(a: PlayerSecret<S>, b: PlayerSecret<S>) -> bool {
    a == (PlayerSecret { deferred_logs: a.deferred_logs, deferred_locations: a.deferred_locations, ..b })
}

/// Secrets that differ at most in the logs and locations they hold back agree on every
/// card: what they hold, where, and what they point to.
proof fn lemma_held_logs_agree<S: State>(a: PlayerSecret<S>, b: PlayerSecret<S>)
    requires
        same_but_held_logs(b, a),
    ensures
        b.instances == a.instances,
        b.pointers == a.pointers,
        b.deck == a.deck,
        b.hand == a.hand,
        b.dust == a.dust,
        b.limbo == a.limbo,
        b.card_selection == a.card_selection,
        b.player == a.player,
        forall|id: InstanceID| #[trigger] b.has(id) == a.has(id),
        forall|id: InstanceID| #[trigger] b.get(id) == a.get(id),
        b.attachments() == a.attachments(),
        forall|card: Card| #[trigger] b.spec_location(card) == a.spec_location(card),
{
    assert(b.ids() =~= a.ids());
    assert(b.attachments() =~= a.attachments());
}

/// The secrets of `secrets2` are those of `secrets` but for the logs and locations they hold
/// back.
pub open spec fn same_secrets_but_held_logs<S: State>(secrets: Seq<Option<&PlayerSecret<S>>>, secrets2: Seq<Option<&PlayerSecret<S>>>) -> bool {
    forall|p: int| 0 <= p < 2 ==> match (#[trigger] crate::consistency::secret_of(secrets, p), crate::consistency::secret_of(secrets2, p)) {
        (None, None) => true,
        (Some(a), Some(b)) => same_but_held_logs(b, a),
        _ => false,
    }
}

proof fn lemma_held_logs_secret<S: State>(secrets: Seq<Option<&PlayerSecret<S>>>, secrets2: Seq<Option<&PlayerSecret<S>>>, p: int)
    requires
        same_secrets_but_held_logs(secrets, secrets2),
        0 <= p < 2,
    ensures
        crate::consistency::secret_of(secrets, p) is Some == crate::consistency::secret_of(secrets2, p) is Some,
        crate::consistency::secret_of(secrets, p) is Some ==> same_but_held_logs(crate::consistency::secret_of(secrets2, p).unwrap(), crate::consistency::secret_of(secrets, p).unwrap()),
{
    let _ = crate::consistency::secret_of(secrets, p);
}

/// The same as `lemma_held_logs_agree`, for one card.
proof fn lemma_held_logs_agree_at<S: State>(a: PlayerSecret<S>, b: PlayerSecret<S>, x: InstanceID)
    requires
        same_but_held_logs(b, a),
    ensures
        b.has(x) == a.has(x),
        b.get(x) == a.get(x),
{
    assert(b.ids() =~= a.ids());
}

proof fn lemma_held_logs_id_agrees<S: State>(g: GameState<S>, secrets: Seq<Option<&PlayerSecret<S>>>, secrets2: Seq<Option<&PlayerSecret<S>>>, id: InstanceID)
    requires
        same_secrets_but_held_logs(secrets, secrets2),
        g.table_wf(),
        id.0 < g.instances@.len(),
    ensures
        g.id_agrees(secrets2, id) == g.id_agrees(secrets, id),
{
    lemma_held_logs_secret(secrets, secrets2, 0);
    lemma_held_logs_secret(secrets, secrets2, 1);
    let e = g.instances@[id.0 as int];
    assert(match e {
        InstanceOrPlayer::Player(q) => q < 2,
        _ => true,
    });
    if let Some(a) = crate::consistency::secret_of(secrets, 0) {
        let b = crate::consistency::secret_of(secrets2, 0).unwrap();
        lemma_held_logs_agree_at(a, b, id);
        if let Some(t) = a.get(id).attachment {
            lemma_held_logs_agree_at(a, b, t);
        }
    }
    if let Some(a) = crate::consistency::secret_of(secrets, 1) {
        let b = crate::consistency::secret_of(secrets2, 1).unwrap();
        lemma_held_logs_agree_at(a, b, id);
        if let Some(t) = a.get(id).attachment {
            lemma_held_logs_agree_at(a, b, t);
        }
    }
}

proof fn lemma_held_logs_occurrences<S: State>(g: GameState<S>, secrets: Seq<Option<&PlayerSecret<S>>>, secrets2: Seq<Option<&PlayerSecret<S>>>, id: InstanceID)
    requires
        same_secrets_but_held_logs(secrets, secrets2),
    ensures
        g.occurrences(secrets2, id) == g.occurrences(secrets, id),
{
    lemma_held_logs_secret(secrets, secrets2, 0);
    lemma_held_logs_secret(secrets, secrets2, 1);
    if let Some(a) = crate::consistency::secret_of(secrets, 0) {
        lemma_held_logs_agree(a, crate::consistency::secret_of(secrets2, 0).unwrap());
    }
    if let Some(a) = crate::consistency::secret_of(secrets, 1) {
        lemma_held_logs_agree(a, crate::consistency::secret_of(secrets2, 1).unwrap());
    }
}

proof fn lemma_held_logs_secret_parts<S: State>(g: GameState<S>, secrets: Seq<Option<&PlayerSecret<S>>>, secrets2: Seq<Option<&PlayerSecret<S>>>, p: int)
    requires
        same_secrets_but_held_logs(secrets, secrets2),
        g.secrets_wf(secrets),
        0 <= p < 2,
    ensures
        g.secret_ids_ok(secrets2, p) == g.secret_ids_ok(secrets, p),
        g.secret_zones_ok(secrets2, p) == g.secret_zones_ok(secrets, p),
        g.secret_pointers_ok(secrets2, p) == g.secret_pointers_ok(secrets, p),
        g.sizes_ok(secrets2, p) == g.sizes_ok(secrets, p),
        g.hands_ok(secrets2, p) == g.hands_ok(secrets, p),
{
    lemma_held_logs_secret(secrets, secrets2, 0);
    lemma_held_logs_secret(secrets, secrets2, 1);
    if let Some(a) = crate::consistency::secret_of(secrets, 0) {
        lemma_held_logs_agree(a, crate::consistency::secret_of(secrets2, 0).unwrap());
    }
    if let Some(a) = crate::consistency::secret_of(secrets, 1) {
        lemma_held_logs_agree(a, crate::consistency::secret_of(secrets2, 1).unwrap());
    }
    assert(g.secret_wf(secrets, p));
    if let Some(a) = crate::consistency::secret_of(secrets, p) {
        assert forall|j: int| 0 <= j < a.instances@.len() implies g.id_agrees(secrets2, (#[trigger] a.instances@[j]).id)
            == g.id_agrees(secrets, a.instances@[j].id) by {
            lemma_held_logs_id_agrees(g, secrets, secrets2, a.instances@[j].id);
        }
    }
}

/// What `GameState::ok` checks does not depend on the logs and locations the secrets hold
/// back for later (what `SecretChange::LogMove` and `SecretChange::DrainDeferredLogs`
/// change).
pub proof fn consistency_ignores_held_logs<S: State>(
    g: GameState<S>,
    secrets: Seq<Option<&PlayerSecret<S>>>,
    secrets2: Seq<Option<&PlayerSecret<S>>>,
)
    requires
        g.secrets_wf(secrets),
        same_secrets_but_held_logs(secrets, secrets2),
    ensures
        g.spec_ok(secrets2) == g.spec_ok(secrets),
{
    lemma_held_logs_public_ids(g, secrets, secrets2);
    lemma_held_logs_counts(g, secrets, secrets2);
    lemma_held_logs_secret_parts(g, secrets, secrets2, 0);
    lemma_held_logs_secret_parts(g, secrets, secrets2, 1);
}

proof fn lemma_held_logs_public_ids<S: State>(g: GameState<S>, secrets: Seq<Option<&PlayerSecret<S>>>, secrets2: Seq<Option<&PlayerSecret<S>>>)
    requires
        g.secrets_wf(secrets),
        same_secrets_but_held_logs(secrets, secrets2),
    ensures
        g.public_ids_ok(secrets2) == g.public_ids_ok(secrets),
{
    assert forall|k: int| 0 <= k < g.instances@.len() && g.instances@[k] is Instance implies g.id_agrees(
        secrets2,
        (#[trigger] g.instances@[k])->Instance_0.id,
    ) == g.id_agrees(secrets, g.instances@[k]->Instance_0.id) by {
        assert(g.table_wf());
        lemma_held_logs_id_agrees(g, secrets, secrets2, g.instances@[k]->Instance_0.id);
    }
}

proof fn lemma_held_logs_counts<S: State>(g: GameState<S>, secrets: Seq<Option<&PlayerSecret<S>>>, secrets2: Seq<Option<&PlayerSecret<S>>>)
    requires
        same_secrets_but_held_logs(secrets, secrets2),
    ensures
        g.counts_ok(secrets2) == g.counts_ok(secrets),
{
    assert forall|k: int| 0 <= k < g.instances@.len() implies #[trigger] g.occurrences(secrets2, InstanceID(k as usize))
        == g.occurrences(secrets, InstanceID(k as usize)) by {
        lemma_held_logs_occurrences(g, secrets, secrets2, InstanceID(k as usize));
    }
    if g.counts_ok(secrets) {
        assert forall|k: int| 0 <= k < g.instances@.len() implies #[trigger] g.occurrences(secrets2, InstanceID(k as usize)) <= 1 by {
            assert(g.occurrences(secrets, InstanceID(k as usize)) <= 1);
        }
    }
    if g.counts_ok(secrets2) {
        assert forall|k: int| 0 <= k < g.instances@.len() implies #[trigger] g.occurrences(secrets, InstanceID(k as usize)) <= 1 by {
            assert(g.occurrences(secrets2, InstanceID(k as usize)) <= 1);
        }
    }
}

} // verus!
