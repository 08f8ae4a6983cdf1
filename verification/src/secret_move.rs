//! Moves of a card within one player's secret (a draw from the deck to the secret hand, for
//! one): what they change of the public record, and that they keep the game consistent.

use vstd::prelude::*;

use crate::consistency::{count_of, secret_of};
use crate::game_state::InstanceOrPlayer;
use crate::secret_protocol::{is_secret_zone, moved_within};
use crate::seq_util::{lemma_remove_all_contains, lemma_remove_all_push, remove_all};
use crate::{CardLocation, GameState, InstanceID, Player, PlayerCards, PlayerSecret, State, Zone};

verus! {

/// 1 where `b` holds, else 0.
pub open spec fn one_if(b: bool) -> int {
    if b {
        1
    } else {
        0
    }
}

/// What the public record keeps of where a card of a secret is: nothing for the secret limbo
/// and attachments, its zone and position otherwise.
pub open spec fn reported(l: (Zone, Option<usize>)) -> Option<(Zone, Option<usize>)> {
    if l.0 == (Zone::Limbo { public: false }) || l.0 is Attachment {
        None
    } else {
        Some(l)
    }
}

/// `after` is the public record `before` of a player's zones once a card of their secret
/// has moved from `from` (as the public record keeps it) to the secret zone `to_zone`: the
/// deck and card selection are counts, the hand a list of positions (`None` for a secret
/// card), and the other zones do not change.
pub open spec fn within_public(before: PlayerCards, after: PlayerCards, from: Option<(Zone, Option<usize>)>, to_zone: Zone) -> bool {
    let from_zone = match from {
        Some((z, _)) => Some(z),
        None => None,
    };
    let index = match from {
        Some((_, Some(i))) => i as int,
        _ => 0,
    };
    let hand = if from_zone matches Some(Zone::Hand { .. }) {
        before.hand@.remove(index)
    } else {
        before.hand@
    };
    &&& after.deck == before.deck - one_if(from_zone == Some(Zone::Deck)) + one_if(to_zone == Zone::Deck)
    &&& after.card_selection == before.card_selection - one_if(from_zone == Some(Zone::CardSelection)) + one_if(
        to_zone == Zone::CardSelection,
    )
    &&& after.hand@ == if to_zone == (Zone::Hand { public: false }) {
        hand.push(None)
    } else {
        hand
    }
    &&& after.field == before.field
    &&& after.graveyard == before.graveyard
    &&& after.dust == before.dust
    &&& after.limbo == before.limbo
    &&& after.casting == before.casting
}

/// Counting in a sequence with one more element.
pub proof fn lemma_count_push<T>(s: Seq<T>, a: T, y: T)
    ensures
        count_of(s.push(a), y) == count_of(s, y) + one_if(a == y),
{
    assert(s.push(a).drop_last() =~= s);
}

/// Removing every `x` leaves no `x` and every other element as often.
proof fn lemma_count_remove_all<T>(s: Seq<T>, x: T, y: T)
    ensures
        count_of(remove_all(s, x), y) == if y == x {
            0
        } else {
            count_of(s, y)
        },
        remove_all(s, x).len() == s.len() - count_of(s, x),
    decreases s.len(),
{
    if s.len() > 0 {
        let t = s.drop_last();
        assert(s == t.push(s.last()));
        lemma_remove_all_push(t, s.last(), x);
        lemma_count_remove_all(t, x, y);
        lemma_count_push(remove_all(t, x), s.last(), y);
        lemma_count_push(t, s.last(), y);
        lemma_count_push(t, s.last(), x);
    } else {
        reveal(Seq::filter);
    }
}

/// An element at a position is counted.
proof fn lemma_count_at<T>(s: Seq<T>, i: int)
    requires
        0 <= i < s.len(),
    ensures
        count_of(s, s[i]) >= 1,
    decreases s.len(),
{
    if i < s.len() - 1 {
        lemma_count_at(s.drop_last(), i);
    }
}

/// Removing every `x` of a sequence that holds no `x` changes nothing.
proof fn lemma_remove_all_absent<T>(s: Seq<T>, x: T)
    requires
        count_of(s, x) == 0,
    ensures
        remove_all(s, x) == s,
    decreases s.len(),
{
    if s.len() > 0 {
        let t = s.drop_last();
        assert(s == t.push(s.last()));
        lemma_remove_all_push(t, s.last(), x);
        lemma_remove_all_absent(t, x);
    } else {
        reveal(Seq::filter);
        assert(remove_all(s, x) =~= s);
    }
}

/// Removing every `x` of a sequence that holds one `x`, at `i`, removes position `i`.
proof fn lemma_remove_all_single<T>(s: Seq<T>, x: T, i: int)
    requires
        count_of(s, x) == 1,
        0 <= i < s.len(),
        s[i] == x,
    ensures
        remove_all(s, x) == s.remove(i),
    decreases s.len(),
{
    let t = s.drop_last();
    assert(s == t.push(s.last()));
    lemma_remove_all_push(t, s.last(), x);
    if i == s.len() - 1 {
        lemma_remove_all_absent(t, x);
        assert(s.remove(i) =~= t);
    } else {
        lemma_count_at(t, i);
        assert(t[i] == x);
        assert(s.last() != x);
        lemma_remove_all_single(t, x, i);
        assert(s.remove(i) =~= t.remove(i).push(s.last()));
    }
}

/// Two sequences that agree, position by position, on where `v` is count it alike.
pub proof fn lemma_count_pointwise<T>(a: Seq<T>, b: Seq<T>, v: T)
    requires
        a.len() == b.len(),
        forall|j: int| 0 <= j < a.len() ==> (a[j] == v) == (b[j] == v),
    ensures
        count_of(a, v) == count_of(b, v),
    decreases a.len(),
{
    if a.len() > 0 {
        lemma_count_pointwise(a.drop_last(), b.drop_last(), v);
    }
}

/// A sequence without `v` counts no `v`.
pub proof fn lemma_count_absent<T>(s: Seq<T>, v: T)
    requires
        forall|j: int| 0 <= j < s.len() ==> s[j] != v,
    ensures
        count_of(s, v) == 0,
    decreases s.len(),
{
    if s.len() > 0 {
        lemma_count_absent(s.drop_last(), v);
    }
}

/// How often `y` is in the zones and attachments of the secret `s`.
pub open spec fn secret_count<S: State>(s: PlayerSecret<S>, y: InstanceID) -> int {
    (count_of(s.deck@, y) + count_of(s.hand@, Some(y)) + count_of(s.limbo@, y) + count_of(s.dust@, y)
        + count_of(s.card_selection@, y) + count_of(s.attachments(), Some(y))) as int
}

/// A move within a secret of a card that occurs there once keeps how often every card occurs
/// there.
proof fn lemma_secret_count_kept<S: State>(s: PlayerSecret<S>, s2: PlayerSecret<S>, id: InstanceID, to_zone: Zone, y: InstanceID)
    requires
        moved_within(s, s2, id, to_zone),
        is_secret_zone(to_zone),
        secret_count(s, id) == 1,
    ensures
        secret_count(s2, y) == secret_count(s, y),
{
    lemma_count_remove_all(s.deck@, id, y);
    lemma_count_remove_all(s.hand@, Some(id), Some(y));
    lemma_count_remove_all(s.limbo@, id, y);
    lemma_count_remove_all(s.dust@, id, y);
    lemma_count_remove_all(s.card_selection@, id, y);
    lemma_count_push(remove_all(s.deck@, id), id, y);
    lemma_count_push(remove_all(s.hand@, Some(id)), Some(id), Some(y));
    lemma_count_push(remove_all(s.limbo@, id), id, y);
    lemma_count_push(remove_all(s.dust@, id), id, y);
    lemma_count_push(remove_all(s.card_selection@, id), id, y);
    let a = s.attachments();
    let a2 = s2.attachments();
    assert(a2.len() == a.len());
    assert forall|j: int| 0 <= j < a.len() implies a2[j] == if a[j] == Some(id) {
        None
    } else {
        a[j]
    } by {
        let _ = s2.instances@[j];
    }
    if y == id {
        lemma_count_absent(a2, Some(id));
    } else {
        lemma_count_pointwise(a2, a, Some(y));
    }
}

/// A card with a place in a secret still has one after a move within it.
proof fn lemma_zone_kept<S: State>(s: PlayerSecret<S>, s2: PlayerSecret<S>, id: InstanceID, to_zone: Zone, y: InstanceID)
    requires
        moved_within(s, s2, id, to_zone),
        is_secret_zone(to_zone),
        s.spec_zone_of(y) is Some,
    ensures
        s2.spec_zone_of(y) is Some,
{
    if y == id {
        if to_zone == Zone::Deck {
            assert(s2.deck@.last() == id);
            assert(s2.deck@.contains(id));
        } else if to_zone == (Zone::Hand { public: false }) {
            assert(s2.hand@.last() == Some(id));
            assert(s2.hand@.contains(Some(id)));
        } else if to_zone == (Zone::Limbo { public: false }) {
            assert(s2.limbo@.last() == id);
            assert(s2.limbo@.contains(id));
        } else if to_zone == Zone::CardSelection {
            assert(s2.card_selection@.last() == id);
            assert(s2.card_selection@.contains(id));
        } else {
            assert(s2.dust@.last() == id);
            assert(s2.dust@.contains(id));
        }
    } else {
        lemma_remove_all_contains(s.deck@, id, y);
        lemma_remove_all_contains(s.hand@, Some(id), Some(y));
        lemma_remove_all_contains(s.limbo@, id, y);
        lemma_remove_all_contains(s.dust@, id, y);
        lemma_remove_all_contains(s.card_selection@, id, y);
        if s.deck@.contains(y) {
            assert(s2.deck@.contains(y)) by {
                let j = choose|j: int| 0 <= j < remove_all(s.deck@, id).len() && remove_all(s.deck@, id)[j] == y;
                assert(s2.deck@[j] == y);
            }
        } else if s.hand@.contains(Some(y)) {
            assert(s2.hand@.contains(Some(y))) by {
                let j = choose|j: int| 0 <= j < remove_all(s.hand@, Some(id)).len() && remove_all(s.hand@, Some(id))[j] == Some(y);
                assert(s2.hand@[j] == Some(y));
            }
        } else if s.dust@.contains(y) {
            assert(s2.dust@.contains(y)) by {
                let j = choose|j: int| 0 <= j < remove_all(s.dust@, id).len() && remove_all(s.dust@, id)[j] == y;
                assert(s2.dust@[j] == y);
            }
        } else if s.limbo@.contains(y) {
            assert(s2.limbo@.contains(y)) by {
                let j = choose|j: int| 0 <= j < remove_all(s.limbo@, id).len() && remove_all(s.limbo@, id)[j] == y;
                assert(s2.limbo@[j] == y);
            }
        } else if s.card_selection@.contains(y) {
            assert(s2.card_selection@.contains(y)) by {
                let j = choose|j: int| 0 <= j < remove_all(s.card_selection@, id).len() && remove_all(s.card_selection@, id)[j] == y;
                assert(s2.card_selection@[j] == y);
            }
        } else {
            assert(s.attachments().contains(Some(y)));
            let j = choose|j: int| 0 <= j < s.attachments().len() && s.attachments()[j] == Some(y);
            let _ = s2.instances@[j];
            assert(s2.attachments()[j] == Some(y));
        }
    }
}

/// The public hand after a move within the secret: the position the card left, if it was in
/// the hand, removed (a `None`), and a `None` added where it joins the hand.
proof fn lemma_public_hand_counts(before: PlayerCards, after: PlayerCards, from: Option<(Zone, Option<usize>)>, to_zone: Zone, y: InstanceID)
    requires
        within_public(before, after, from, to_zone),
        (from matches Some((Zone::Hand { .. }, _))) ==> ({
            let i = match from {
                Some((_, Some(i))) => i as int,
                _ => 0,
            };
            0 <= i < before.hand@.len() && before.hand@[i] is None
        }),
    ensures
        count_of(after.hand@, Some(y)) == count_of(before.hand@, Some(y)),
        after.hand@.contains(Some(y)) == before.hand@.contains(Some(y)),
{
    broadcast use vstd::seq_lib::group_to_multiset_ensures;

    let i = match from {
        Some((_, Some(i))) => i as int,
        _ => 0,
    };
    let hand = if from matches Some((Zone::Hand { .. }, _)) {
        before.hand@.remove(i)
    } else {
        before.hand@
    };
    crate::pile_move::lemma_count_of_multiset(hand, Some(y));
    crate::pile_move::lemma_count_of_multiset(before.hand@, Some(y));
    before.hand@.to_multiset_ensures();
    hand.to_multiset_ensures();
    after.hand@.to_multiset_ensures();
    if from matches Some((Zone::Hand { .. }, _)) {
        assert(hand.to_multiset() =~= before.hand@.to_multiset().remove(before.hand@[i]));
    }
    lemma_count_push(hand, None, Some(y));
    crate::pile_move::lemma_count_of_multiset(after.hand@, Some(y));
}

/// Where a card is in the public zones of a player is known alike after a move within a
/// secret.
proof fn lemma_public_presence(before: PlayerCards, after: PlayerCards, from: Option<(Zone, Option<usize>)>, to_zone: Zone, y: InstanceID)
    requires
        within_public(before, after, from, to_zone),
        (from matches Some((Zone::Hand { .. }, _))) ==> ({
            let i = match from {
                Some((_, Some(i))) => i as int,
                _ => 0,
            };
            0 <= i < before.hand@.len() && before.hand@[i] is None
        }),
    ensures
        (after.spec_location(y) is Some) == (before.spec_location(y) is Some),
{
    lemma_public_hand_counts(before, after, from, to_zone, y);
    if after.hand@.contains(Some(y)) {
        crate::seq_util::lemma_first_index_some(after.hand@, Some(y));
        crate::seq_util::lemma_first_index_some(before.hand@, Some(y));
    }
    if before.field@.contains(y) {
        crate::seq_util::lemma_first_index_some(before.field@, y);
    }
    if before.graveyard@.contains(y) {
        crate::seq_util::lemma_first_index_some(before.graveyard@, y);
    }
    if before.dust@.contains(y) {
        crate::seq_util::lemma_first_index_some(before.dust@, y);
    }
    if before.limbo@.contains(y) {
        crate::seq_util::lemma_first_index_some(before.limbo@, y);
    }
    if before.casting@.contains(y) {
        crate::seq_util::lemma_first_index_some(before.casting@, y);
    }
}

/// The player of a location, if there is one.
pub open spec fn location_owner(l: Option<CardLocation>) -> Option<Player> {
    match l {
        Some(l) => Some(l.player),
        None => None,
    }
}

/// Where every card is known alike in the public zones of each player, with the same
/// instance table, every card's location has the same player.
pub proof fn lemma_location_owner_kept<S: State>(g: GameState<S>, h: GameState<S>, x: InstanceID, fuel: nat)
    requires
        h.instances == g.instances,
        forall|p: int, y: InstanceID| 0 <= p < 2 ==> (#[trigger] h.player_cards@[p].spec_location(y) is Some) == (g.player_cards@[p].spec_location(y) is Some),
    ensures
        location_owner(g.spec_location_fuel(x, fuel)) == location_owner(h.spec_location_fuel(x, fuel)),
    decreases fuel,
{
    assert((h.player_cards@[0].spec_location(x) is Some) == (g.player_cards@[0].spec_location(x) is Some));
    assert((h.player_cards@[1].spec_location(x) is Some) == (g.player_cards@[1].spec_location(x) is Some));
    if fuel > 0 {
        if let Some(parent) = g.spec_unique_parent(x) {
            lemma_location_owner_kept(g, h, parent, (fuel - 1) as nat);
        }
    }
}

/// The public attachments of a card are counted alike when every card's location has the
/// same player.
pub proof fn lemma_attached_count_same<S: State>(g: GameState<S>, h: GameState<S>, y: InstanceID, player: int, upto: int)
    requires
        h.instances == g.instances,
        forall|p: int, z: InstanceID| 0 <= p < 2 ==> (#[trigger] h.player_cards@[p].spec_location(z) is Some) == (g.player_cards@[p].spec_location(z) is Some),
        upto <= g.instances@.len(),
    ensures
        h.attached_count(y, player, upto) == g.attached_count(y, player, upto),
    decreases upto,
{
    if upto > 0 {
        lemma_attached_count_same(g, h, y, player, upto - 1);
        if let InstanceOrPlayer::Instance(inst) = g.instances@[upto - 1] {
            lemma_location_owner_kept(g, h, inst.id, g.instances@.len() as nat);
            if g.spec_location(inst.id) is None {
                assert(h.spec_location(inst.id) == g.spec_location(inst.id));
            }
        }
    }
}

/// `x` is in `s` exactly when it is counted there.
pub proof fn lemma_count_contains<T>(s: Seq<T>, x: T)
    ensures
        s.contains(x) == (count_of(s, x) > 0),
{
    broadcast use vstd::seq_lib::group_to_multiset_ensures;

    crate::pile_move::lemma_count_of_multiset(s, x);
    s.to_multiset_ensures();
}

/// Where a card that occurs once in a secret is: each zone counts it once where the secret
/// says it is, and nowhere else.
proof fn lemma_secret_single<S: State>(s: PlayerSecret<S>, id: InstanceID)
    requires
        secret_count(s, id) == 1,
    ensures
        s.spec_zone_of(id) is Some,
        ({
            let l = s.spec_zone_of(id).unwrap();
            &&& count_of(s.deck@, id) == one_if(l.0 == Zone::Deck)
            &&& count_of(s.card_selection@, id) == one_if(l.0 == Zone::CardSelection)
            &&& count_of(s.hand@, Some(id)) == one_if(l.0 == (Zone::Hand { public: false }))
            &&& l.0 == (Zone::Hand { public: false }) ==> (l.1 matches Some(i) && i < s.hand@.len() && s.hand@[i as int] == Some(id))
            &&& is_secret_zone(l.0) || l.0 is Attachment
        }),
{
    lemma_count_contains(s.deck@, id);
    lemma_count_contains(s.hand@, Some(id));
    lemma_count_contains(s.dust@, id);
    lemma_count_contains(s.limbo@, id);
    lemma_count_contains(s.card_selection@, id);
    lemma_count_contains(s.attachments(), Some(id));
    if s.hand@.contains(Some(id)) {
        crate::seq_util::lemma_first_index_some(s.hand@, Some(id));
        assert(s.hand@.len() == s.hand.len());
    }
}

/// Two hands of the same length in which exactly one holds an ID at each position.
pub open spec fn hands_match(public: Seq<Option<InstanceID>>, secret: Seq<Option<InstanceID>>) -> bool {
    &&& public.len() == secret.len()
    &&& forall|j: int| 0 <= j < public.len() ==> (#[trigger] public[j] is Some) != (secret[j] is Some)
}

/// Removing the same position from two matching hands, and adding a secret card to the end
/// of both, keeps them matching.
pub proof fn lemma_hands_match_after(
    public: Seq<Option<InstanceID>>,
    secret: Seq<Option<InstanceID>>,
    from_hand: bool,
    i: int,
    to_hand: bool,
    id: InstanceID,
)
    requires
        hands_match(public, secret),
        from_hand ==> 0 <= i < public.len(),
    ensures
        ({
            let p1 = if from_hand {
                public.remove(i)
            } else {
                public
            };
            let s1 = if from_hand {
                secret.remove(i)
            } else {
                secret
            };
            hands_match(if to_hand {
                p1.push(None)
            } else {
                p1
            }, if to_hand {
                s1.push(Some(id))
            } else {
                s1
            })
        }),
{
    let p1 = if from_hand {
        public.remove(i)
    } else {
        public
    };
    let s1 = if from_hand {
        secret.remove(i)
    } else {
        secret
    };
    assert(hands_match(p1, s1)) by {
        assert forall|j: int| 0 <= j < p1.len() implies (#[trigger] p1[j] is Some) != (s1[j] is Some) by {
            if from_hand && j >= i {
                assert(p1[j] == public[j + 1]);
                assert(s1[j] == secret[j + 1]);
            } else {
                assert(p1[j] == public[j]);
                assert(s1[j] == secret[j]);
            }
        }
    }
    if to_hand {
        let p2 = p1.push(None);
        let s2 = s1.push(Some(id));
        assert forall|j: int| 0 <= j < p2.len() implies (#[trigger] p2[j] is Some) != (s2[j] is Some) by {
            if j < p1.len() {
                assert(p2[j] == p1[j]);
                assert(s2[j] == s1[j]);
            }
        }
    }
}

/// What `move_within_secret_keeps_consistency` assumes.
pub open spec fn within_setup<S: State>(
    g: GameState<S>,
    h: GameState<S>,
    secrets: Seq<Option<&PlayerSecret<S>>>,
    secrets2: Seq<Option<&PlayerSecret<S>>>,
    p: Player,
    id: InstanceID,
    to_zone: Zone,
) -> bool {
    &&& g.secrets_wf(secrets)
    &&& g.spec_ok(secrets)
    &&& p < 2
    &&& secrets2.len() == 2
    &&& secret_of(secrets, p as int) is Some
    &&& secret_of(secrets, p as int).unwrap().has(id)
    &&& secret_of(secrets, p as int).unwrap().spec_zone_of(id) is Some
    &&& is_secret_zone(to_zone)
    &&& g.player_cards@[p as int].hand@.len() == secret_of(secrets, p as int).unwrap().hand@.len()
    &&& secret_of(secrets2, 1 - p) == secret_of(secrets, 1 - p)
    &&& secret_of(secrets2, p as int) is Some
    &&& moved_within(secret_of(secrets, p as int).unwrap(), secret_of(secrets2, p as int).unwrap(), id, to_zone)
    &&& h.instances == g.instances
    &&& h.player_cards@[1 - p] == g.player_cards@[1 - p]
    &&& within_public(
        g.player_cards@[p as int],
        h.player_cards@[p as int],
        reported(secret_of(secrets, p as int).unwrap().spec_zone_of(id).unwrap()),
        to_zone,
    )
}

/// The moved card occurs once, in the player's secret, and where the secret says it is.
proof fn lemma_within_single<S: State>(
    g: GameState<S>,
    h: GameState<S>,
    secrets: Seq<Option<&PlayerSecret<S>>>,
    secrets2: Seq<Option<&PlayerSecret<S>>>,
    p: Player,
    id: InstanceID,
    to_zone: Zone,
)
    requires
        within_setup(g, h, secrets, secrets2, p, id, to_zone),
    ensures
        secret_count(secret_of(secrets, p as int).unwrap(), id) == 1,
{
    let s = secret_of(secrets, p as int).unwrap();
    assert(g.secret_wf(secrets, p as int));
    assert(id.0 < g.instances@.len()) by {
        let j = choose|j: int| 0 <= j < s.ids().len() && s.ids()[j] == id;
        assert(s.instances@[j].id == id);
    }
    assert(InstanceID(id.0 as usize) == id);
    assert(g.occurrences(secrets, id) <= 1);
    assert(secret_count(s, id) >= 1) by {
        lemma_count_contains(s.deck@, id);
        lemma_count_contains(s.hand@, Some(id));
        lemma_count_contains(s.dust@, id);
        lemma_count_contains(s.limbo@, id);
        lemma_count_contains(s.card_selection@, id);
        lemma_count_contains(s.attachments(), Some(id));
    }
    assert(g.secret_occurrences(secrets, id, p as int) == secret_count(s, id));
    assert(g.secret_occurrences(secrets, id, 0) >= 0);
    assert(g.secret_occurrences(secrets, id, 1) >= 0);
}

/// The position the card leaves in the public hand, if it leaves the hand, holds `None`.
proof fn lemma_within_hand_slot<S: State>(
    g: GameState<S>,
    h: GameState<S>,
    secrets: Seq<Option<&PlayerSecret<S>>>,
    secrets2: Seq<Option<&PlayerSecret<S>>>,
    p: Player,
    id: InstanceID,
    to_zone: Zone,
)
    requires
        within_setup(g, h, secrets, secrets2, p, id, to_zone),
        secret_count(secret_of(secrets, p as int).unwrap(), id) == 1,
    ensures
        ({
            let from = reported(secret_of(secrets, p as int).unwrap().spec_zone_of(id).unwrap());
            let gc = g.player_cards@[p as int];
            (from matches Some((Zone::Hand { .. }, _))) ==> ({
                let i = match from {
                    Some((_, Some(i))) => i as int,
                    _ => 0,
                };
                0 <= i < gc.hand@.len() && gc.hand@[i] is None
            })
        }),
{
    let s = secret_of(secrets, p as int).unwrap();
    lemma_secret_single(s, id);
    let l = s.spec_zone_of(id).unwrap();
    assert(g.hands_ok(secrets, p as int));
    if l.0 == (Zone::Hand { public: false }) {
        let i = l.1.unwrap() as int;
        let gc = g.player_cards@[p as int];
        assert((gc.hand@[i] is Some) != (s.hand@[i] is Some));
    }
}

/// Every card is known alike in the public zones after the move.
proof fn lemma_within_presence<S: State>(
    g: GameState<S>,
    h: GameState<S>,
    secrets: Seq<Option<&PlayerSecret<S>>>,
    secrets2: Seq<Option<&PlayerSecret<S>>>,
    p: Player,
    id: InstanceID,
    to_zone: Zone,
)
    requires
        within_setup(g, h, secrets, secrets2, p, id, to_zone),
        secret_count(secret_of(secrets, p as int).unwrap(), id) == 1,
    ensures
        forall|pl: int, y: InstanceID| 0 <= pl < 2 ==> (#[trigger] h.player_cards@[pl].spec_location(y) is Some)
            == (g.player_cards@[pl].spec_location(y) is Some),
{
    lemma_within_hand_slot(g, h, secrets, secrets2, p, id, to_zone);
    let from = reported(secret_of(secrets, p as int).unwrap().spec_zone_of(id).unwrap());
    assert forall|pl: int, y: InstanceID| 0 <= pl < 2 implies (#[trigger] h.player_cards@[pl].spec_location(y) is Some)
        == (g.player_cards@[pl].spec_location(y) is Some) by {
        if pl == p {
            lemma_public_presence(g.player_cards@[p as int], h.player_cards@[p as int], from, to_zone, y);
        }
    }
}

/// Every card occurs as often after the move.
proof fn lemma_within_counts<S: State>(
    g: GameState<S>,
    h: GameState<S>,
    secrets: Seq<Option<&PlayerSecret<S>>>,
    secrets2: Seq<Option<&PlayerSecret<S>>>,
    p: Player,
    id: InstanceID,
    to_zone: Zone,
)
    requires
        within_setup(g, h, secrets, secrets2, p, id, to_zone),
        secret_count(secret_of(secrets, p as int).unwrap(), id) == 1,
    ensures
        h.counts_ok(secrets2),
{
    let q = 1 - p;
    let s = secret_of(secrets, p as int).unwrap();
    let s2 = secret_of(secrets2, p as int).unwrap();
    let from = reported(s.spec_zone_of(id).unwrap());
    lemma_within_hand_slot(g, h, secrets, secrets2, p, id, to_zone);
    lemma_within_presence(g, h, secrets, secrets2, p, id, to_zone);
    assert forall|y: InstanceID| #[trigger] h.occurrences(secrets2, y) == g.occurrences(secrets, y) by {
        lemma_public_hand_counts(g.player_cards@[p as int], h.player_cards@[p as int], from, to_zone, y);
        lemma_attached_count_same(g, h, y, 0, g.instances@.len() as int);
        lemma_attached_count_same(g, h, y, 1, g.instances@.len() as int);
        lemma_secret_count_kept(s, s2, id, to_zone, y);
        assert(h.public_occurrences(y, p as int) == g.public_occurrences(y, p as int));
        assert(h.public_occurrences(y, q) == g.public_occurrences(y, q));
        assert(h.secret_occurrences(secrets2, y, p as int) == g.secret_occurrences(secrets, y, p as int));
        assert(h.secret_occurrences(secrets2, y, q) == g.secret_occurrences(secrets, y, q));
    }
    assert forall|k: int| 0 <= k < h.instances@.len() implies #[trigger] h.occurrences(secrets2, InstanceID(k as usize)) <= 1 by {
        assert(g.occurrences(secrets, InstanceID(k as usize)) <= 1);
    }
}

/// The public instances and the instances of the secrets agree after the move.
proof fn lemma_within_ids<S: State>(
    g: GameState<S>,
    h: GameState<S>,
    secrets: Seq<Option<&PlayerSecret<S>>>,
    secrets2: Seq<Option<&PlayerSecret<S>>>,
    p: Player,
    id: InstanceID,
    to_zone: Zone,
)
    requires
        within_setup(g, h, secrets, secrets2, p, id, to_zone),
    ensures
        h.public_ids_ok(secrets2),
        h.secret_ids_ok(secrets2, 0),
        h.secret_ids_ok(secrets2, 1),
{
    let q = 1 - p;
    let s = secret_of(secrets, p as int).unwrap();
    let s2 = secret_of(secrets2, p as int).unwrap();
    assert(s2.ids() == s.ids());
    assert forall|y: InstanceID| #[trigger] s2.has(y) == s.has(y) by {}
    assert forall|y: InstanceID| y.0 < g.instances@.len() && #[trigger] g.id_agrees(secrets, y) implies h.id_agrees(secrets2, y) by {
        assert(g.table_wf());
        let _ = g.instances@[y.0 as int];
        if s2.has(y) {
            s2.lemma_get(y);
        }
    }
    assert forall|k: int| 0 <= k < h.instances@.len() && h.instances@[k] is Instance implies h.id_agrees(
        secrets2,
        (#[trigger] h.instances@[k])->Instance_0.id,
    ) by {
        assert(g.table_wf());
        assert(g.id_agrees(secrets, g.instances@[k]->Instance_0.id));
    }
    assert(g.secret_wf(secrets, p as int));
    assert forall|j: int| 0 <= j < s2.instances@.len() implies h.id_agrees(secrets2, (#[trigger] s2.instances@[j]).id) by {
        let _ = s2.instances@[j];
        assert(s2.instances@[j].id == s.instances@[j].id);
        assert(g.id_agrees(secrets, s.instances@[j].id));
    }
    assert(g.secret_wf(secrets, q));
    if let Some(o) = secret_of(secrets, q) {
        assert forall|j: int| 0 <= j < o.instances@.len() implies h.id_agrees(secrets2, (#[trigger] o.instances@[j]).id) by {
            assert(g.id_agrees(secrets, o.instances@[j].id));
        }
    }
    assert(h.secret_ids_ok(secrets2, p as int));
    assert(h.secret_ids_ok(secrets2, q));
}

/// Every instance of a secret that is in a zone before the move is in one after it.
proof fn lemma_within_zones<S: State>(
    g: GameState<S>,
    h: GameState<S>,
    secrets: Seq<Option<&PlayerSecret<S>>>,
    secrets2: Seq<Option<&PlayerSecret<S>>>,
    p: Player,
    id: InstanceID,
    to_zone: Zone,
)
    requires
        within_setup(g, h, secrets, secrets2, p, id, to_zone),
    ensures
        h.secret_zones_ok(secrets2, 0),
        h.secret_zones_ok(secrets2, 1),
{
    let q = 1 - p;
    let s = secret_of(secrets, p as int).unwrap();
    let s2 = secret_of(secrets2, p as int).unwrap();
    assert forall|y: InstanceID| s.spec_zone_of(y) is Some implies #[trigger] s2.spec_zone_of(y) is Some by {
        lemma_zone_kept(s, s2, id, to_zone, y);
    }
    assert(g.table_wf());
    assert(g.secret_zones_ok(secrets, p as int));
    assert(g.secret_wf(secrets, p as int));
    assert forall|j: int| 0 <= j < s2.instances@.len() implies (match h.instances@[(#[trigger] s2.instances@[j]).id.0 as int] {
        InstanceOrPlayer::Player(owner) => secret_of(secrets2, owner as int) matches Some(o) ==> o.spec_location(
            crate::Card::ID(s2.instances@[j].id),
        ).location is Some,
        InstanceOrPlayer::Instance(_) => true,
    }) by {
        let _ = s2.instances@[j];
        assert(s2.instances@[j].id == s.instances@[j].id);
        let _ = s.instances@[j];
        let e = g.instances@[s.instances@[j].id.0 as int];
        assert(match e {
            InstanceOrPlayer::Player(o) => o < 2,
            _ => true,
        });
    }
    assert(h.secret_zones_ok(secrets2, p as int));
    assert(g.secret_zones_ok(secrets, q));
    assert(g.secret_wf(secrets, q));
    if let Some(o) = secret_of(secrets, q) {
        assert forall|j: int| 0 <= j < o.instances@.len() implies (match h.instances@[(#[trigger] o.instances@[j]).id.0 as int] {
            InstanceOrPlayer::Player(owner) => secret_of(secrets2, owner as int) matches Some(t) ==> t.spec_location(
                crate::Card::ID(o.instances@[j].id),
            ).location is Some,
            InstanceOrPlayer::Instance(_) => true,
        }) by {
            let e = g.instances@[o.instances@[j].id.0 as int];
            assert(match e {
                InstanceOrPlayer::Player(w) => w < 2,
                _ => true,
            });
        }
    }
    assert(h.secret_zones_ok(secrets2, q));
}

/// The player's deck and card selection sizes and hands agree after the move, and the hands
/// keep the same length.
proof fn lemma_within_sizes<S: State>(
    g: GameState<S>,
    h: GameState<S>,
    secrets: Seq<Option<&PlayerSecret<S>>>,
    secrets2: Seq<Option<&PlayerSecret<S>>>,
    p: Player,
    id: InstanceID,
    to_zone: Zone,
)
    requires
        within_setup(g, h, secrets, secrets2, p, id, to_zone),
        secret_count(secret_of(secrets, p as int).unwrap(), id) == 1,
    ensures
        h.sizes_ok(secrets2, p as int),
        h.hands_ok(secrets2, p as int),
        h.player_cards@[p as int].hand@.len() == secret_of(secrets2, p as int).unwrap().hand@.len(),
{
    let s = secret_of(secrets, p as int).unwrap();
    let s2 = secret_of(secrets2, p as int).unwrap();
    let gc = g.player_cards@[p as int];
    let l = s.spec_zone_of(id).unwrap();
    lemma_secret_single(s, id);
    lemma_within_hand_slot(g, h, secrets, secrets2, p, id, to_zone);
    lemma_count_remove_all(s.deck@, id, id);
    lemma_count_remove_all(s.card_selection@, id, id);
    assert(g.sizes_ok(secrets, p as int));
    let from_hand = l.0 == (Zone::Hand { public: false });
    let i: int = if from_hand {
        l.1.unwrap() as int
    } else {
        0
    };
    if from_hand {
        lemma_remove_all_single(s.hand@, Some(id), i);
    } else {
        lemma_remove_all_absent(s.hand@, Some(id));
    }
    assert(g.hands_ok(secrets, p as int));
    assert(hands_match(gc.hand@, s.hand@));
    lemma_hands_match_after(gc.hand@, s.hand@, from_hand, i, to_zone == (Zone::Hand { public: false }), id);
}

/// Moving a card within one player's secret (a draw from the deck to the secret hand, for
/// one) keeps the game consistent: when `GameState::ok` accepts a game and the players'
/// secrets, and the player's public and secret hands have the same length, it accepts the
/// game once the public record has changed as `move_card` changes it (`within_public`,
/// with the card's place as the secret reports it) and the player's secret has made the
/// move (`SecretChange::MoveWithin`); the two hands keep the same length.
pub proof fn move_within_secret_keeps_consistency<S: State>(
    g: GameState<S>,
    h: GameState<S>,
    secrets: Seq<Option<&PlayerSecret<S>>>,
    secrets2: Seq<Option<&PlayerSecret<S>>>,
    p: Player,
    id: InstanceID,
    to_zone: Zone,
)
    requires
        g.secrets_wf(secrets),
        g.spec_ok(secrets),
        p < 2,
        secrets2.len() == 2,
        secret_of(secrets, p as int) is Some,
        secret_of(secrets, p as int).unwrap().has(id),
        secret_of(secrets, p as int).unwrap().spec_zone_of(id) is Some,
        is_secret_zone(to_zone),
        g.player_cards@[p as int].hand@.len() == secret_of(secrets, p as int).unwrap().hand@.len(),
        secret_of(secrets2, 1 - p) == secret_of(secrets, 1 - p),
        secret_of(secrets2, p as int) is Some,
        moved_within(secret_of(secrets, p as int).unwrap(), secret_of(secrets2, p as int).unwrap(), id, to_zone),
        h.instances == g.instances,
        h.player_cards@[1 - p] == g.player_cards@[1 - p],
        within_public(
            g.player_cards@[p as int],
            h.player_cards@[p as int],
            reported(secret_of(secrets, p as int).unwrap().spec_zone_of(id).unwrap()),
            to_zone,
        ),
    ensures
        h.spec_ok(secrets2),
        h.player_cards@[p as int].hand@.len() == secret_of(secrets2, p as int).unwrap().hand@.len(),
{
    let q = 1 - p;
    lemma_within_single(g, h, secrets, secrets2, p, id, to_zone);
    lemma_within_counts(g, h, secrets, secrets2, p, id, to_zone);
    lemma_within_ids(g, h, secrets, secrets2, p, id, to_zone);
    lemma_within_zones(g, h, secrets, secrets2, p, id, to_zone);
    lemma_within_sizes(g, h, secrets, secrets2, p, id, to_zone);
    assert(h.secret_pointers_ok(secrets2, p as int)) by {
        assert(g.secret_pointers_ok(secrets, p as int));
    }
    assert(h.secret_pointers_ok(secrets2, q)) by {
        assert(g.secret_pointers_ok(secrets, q));
    }
    assert(h.sizes_ok(secrets2, q)) by {
        assert(g.sizes_ok(secrets, q));
    }
    assert(h.hands_ok(secrets2, q)) by {
        assert(g.hands_ok(secrets, q));
    }
}

} // verus!
