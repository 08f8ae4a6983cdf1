//! Properties that hold across the library's operations.

use vstd::prelude::*;

use crate::card::{card_eq_result, card_ne_result};
use crate::consistency::secret_of;
use crate::game_state::InstanceOrPlayer;
use crate::game::{pointer_card, CardGame};
use crate::zone::{zone_eq_result, zone_ne_result};
use crate::{Card, GameState, InstanceID, Player, PlayerCards, PlayerSecret, State, Zone};

verus! {

/// `Zone::ne` answers the negation of what `Zone::eq` answers, and fails exactly where it
/// fails.
pub proof fn zone_ne_negates_eq(a: Zone, b: Zone)
    ensures
        zone_ne_result(a, b) is Ok <==> zone_eq_result(a, b) is Ok,
        zone_eq_result(a, b) matches Ok(x) ==> zone_ne_result(a, b) == Ok::<bool, crate::error::ZoneEqualityError>(!x),
{
}

/// `Card::ne` answers the negation of what `Card::eq` answers, and fails exactly where it
/// fails.
pub proof fn card_ne_negates_eq(a: Card, b: Card)
    ensures
        card_ne_result(a, b) is Ok <==> card_eq_result(a, b) is Ok,
        card_eq_result(a, b) matches Ok(x) ==> card_ne_result(a, b) == Ok::<bool, crate::error::CardEqualityError>(!x),
{
}

/// Every card is equal to itself, publicly: an ID by value, a pointer as the same pointer.
pub proof fn card_eq_reflexive(c: Card)
    ensures
        card_eq_result(c, c) == Ok::<bool, crate::error::CardEqualityError>(true),
{
}

/// Comparing two cards gives the same answer either way round, where it gives one.
pub proof fn card_eq_symmetric(a: Card, b: Card)
    ensures
        card_eq_result(a, b) is Ok <==> card_eq_result(b, a) is Ok,
        card_eq_result(a, b) is Ok ==> card_eq_result(a, b) == card_eq_result(b, a),
{
}

/// Two zones, neither an attachment zone, are equal exactly when they are the same zone.
pub proof fn zone_eq_plain(a: Zone, b: Zone)
    requires
        !(a is Attachment),
    ensures
        zone_eq_result(a, b) == Ok::<bool, crate::error::ZoneEqualityError>(a == b),
{
}

/// A new game, with a new secret for each player, is consistent: `GameState::ok` accepts it.
pub proof fn new_game_is_consistent<S: State>(
    game: GameState<S>,
    first: PlayerSecret<S>,
    second: PlayerSecret<S>,
    secrets: Seq<Option<&PlayerSecret<S>>>,
)
    requires
        game.instances@.len() == 0,
        forall|p: int|
            0 <= p < 2 ==> {
                let c = #[trigger] game.player_cards@[p];
                &&& c.deck == 0
                &&& c.hand@.len() == 0
                &&& c.card_selection == 0
            },
        first.instances@.len() == 0 && first.pointers@.len() == 0 && first.deck@.len() == 0
            && first.hand@.len() == 0 && first.card_selection@.len() == 0,
        second.instances@.len() == 0 && second.pointers@.len() == 0 && second.deck@.len() == 0
            && second.hand@.len() == 0 && second.card_selection@.len() == 0,
        secrets == seq![Some(&first), Some(&second)],
    ensures
        game.spec_ok(secrets),
{
    assert(secret_of(secrets, 0) == Some(first));
    assert(secret_of(secrets, 1) == Some(second));
    assert(game.player_cards@[0].deck == 0);
    assert(game.player_cards@[1].deck == 0);
    assert(game.player_cards@[0].card_selection == 0);
    assert(game.player_cards@[1].card_selection == 0);
    assert(game.player_cards@[0].hand@.len() == 0);
    assert(game.player_cards@[1].hand@.len() == 0);
}

/// The pointers `new_secret_pointers` hands a player stand, in that player's secret, for the
/// instances the secret recorded: when the player's secret and the public pointer count
/// agree, the secret records `ids`, and the public side is told the secret's new pointer
/// count, the `i`th pointer handed out resolves to `ids[i]`.
pub proof fn new_pointers_resolve<S: State>(
    player: Player,
    public_count: usize,
    before: PlayerSecret<S>,
    after: PlayerSecret<S>,
    ids: Seq<InstanceID>,
    cards: Seq<Card>,
)
    requires
        before.player == player,
        before.pointers@.len() == public_count,
        after.player == player,
        after.pointers@ == before.pointers@ + ids,
        after.pointers@.len() <= usize::MAX,
        cards == Seq::new((after.pointers@.len() - public_count) as nat, |i: int| pointer_card(player, public_count + i)),
    ensures
        cards.len() == ids.len(),
        forall|i: int| 0 <= i < cards.len() ==> after.spec_id(#[trigger] cards[i]) == Some(ids[i]),
        forall|i: int| 0 <= i < cards.len() ==> after.resolvable(#[trigger] cards[i]),
{
    assert forall|i: int| 0 <= i < cards.len() implies after.spec_id(#[trigger] cards[i]) == Some(ids[i]) by {
        assert(cards[i] == pointer_card(player, public_count + i));
        assert(((public_count + i) as usize) as int == public_count + i);
        assert(after.pointers@[public_count + i] == ids[i]);
    }
}

/// A pointer to a card of a secret zone resolves to that card: when a player's secret and
/// the public pointer count agree, the pointer that `deck_card` (or `hand_card`,
/// `secret_dust_card`, `secret_limbo_card`, `card_selection_card`) hands out stands, once the
/// secret has made the change it was given, for the card at that position of the zone.
pub proof fn zone_pointer_resolves<S: State>(
    player: Player,
    public_count: usize,
    zone: Zone,
    index: usize,
    before: PlayerSecret<S>,
    after: PlayerSecret<S>,
    card: Card,
)
    requires
        before.player == player,
        before.pointers@.len() == public_count,
        before.zone_entry(zone, index) is Some,
        after.pointers@ == before.pointers@.push(before.zone_entry(zone, index).unwrap()),
        after == (PlayerSecret { pointers: after.pointers, ..before }),
        card == pointer_card(player, public_count as int),
    ensures
        after.resolvable(card),
        after.spec_id(card) == before.zone_entry(zone, index),
        after.pointers@.len() == public_count + 1,
{
}

/// Handing out pointers keeps the public pointer count of each player in step with their
/// secret: after `deck_cards` (or `card_selection_cards`) on the public side and the change it
/// gives on the secret side, both have grown by the size of the zone.
pub proof fn zone_pointers_stay_in_step<S: State>(
    player: Player,
    game_before: CardGame<S>,
    game_after: CardGame<S>,
    zone: Zone,
    n: usize,
    before: PlayerSecret<S>,
    after: PlayerSecret<S>,
)
    requires
        player < 2,
        before.pointers@.len() == game_before.state.player_cards@[player as int].pointers,
        before.zone_ids(zone).len() == n,
        game_before.state.player_cards@[player as int].pointers + n <= usize::MAX,
        game_after.pointers_grew(game_before, player, n as int),
        after.pointers@ == before.pointers@ + before.zone_ids(zone),
    ensures
        after.pointers@.len() == game_after.state.player_cards@[player as int].pointers,
{
}

/// `h` differs from `g` at most in the pointer counts of the players.
pub open spec fn same_but_pointer_counts<S: State>(g: GameState<S>, h: GameState<S>) -> bool {
    &&& h.instances == g.instances
    &&& forall|q: int| 0 <= q < 2 ==> #[trigger] h.player_cards@[q] == (PlayerCards {
        pointers: h.player_cards@[q].pointers,
        ..g.player_cards@[q]
    })
}

/// `b` is `a` with other pointers, or both are missing.
pub open spec fn same_but_pointers<S: State>(a: Option<PlayerSecret<S>>, b: Option<PlayerSecret<S>>) -> bool {
    match (a, b) {
        (None, None) => true,
        (Some(x), Some(y)) => y == (PlayerSecret { pointers: y.pointers, ..x }),
        _ => false,
    }
}

/// Where a card is does not depend on the pointer counts.
proof fn location_ignores_pointer_counts<S: State>(g: GameState<S>, h: GameState<S>, id: InstanceID, fuel: nat)
    requires
        same_but_pointer_counts(g, h),
    ensures
        h.spec_location_fuel(id, fuel) == g.spec_location_fuel(id, fuel),
    decreases fuel,
{
    assert(h.player_cards@[0] == (PlayerCards { pointers: h.player_cards@[0].pointers, ..g.player_cards@[0] }));
    assert(h.player_cards@[1] == (PlayerCards { pointers: h.player_cards@[1].pointers, ..g.player_cards@[1] }));
    assert(h.player_cards@[0].spec_location(id) == g.player_cards@[0].spec_location(id));
    assert(h.player_cards@[1].spec_location(id) == g.player_cards@[1].spec_location(id));
    assert(h.spec_unique_parent(id) == g.spec_unique_parent(id));
    if fuel > 0 {
        if let Some(parent) = g.spec_unique_parent(id) {
            location_ignores_pointer_counts(g, h, parent, (fuel - 1) as nat);
        }
    }
}

/// The count of public attachments does not depend on the pointer counts.
proof fn attached_count_ignores_pointer_counts<S: State>(g: GameState<S>, h: GameState<S>, id: InstanceID, player: int, upto: int)
    requires
        same_but_pointer_counts(g, h),
    ensures
        h.attached_count(id, player, upto) == g.attached_count(id, player, upto),
    decreases upto,
{
    if upto > 0 {
        attached_count_ignores_pointer_counts(g, h, id, player, upto - 1);
        if let InstanceOrPlayer::Instance(inst) = g.instances@[upto - 1] {
            location_ignores_pointer_counts(g, h, inst.id, g.instances@.len() as nat);
        }
    }
}

/// What `GameState::ok` checks, apart from the bounds of the secrets' pointers, does not
/// depend on the pointer counts of the public state nor on the pointers of the secrets.
proof fn consistency_ignores_pointers<S: State>(
    g: GameState<S>,
    h: GameState<S>,
    secrets: Seq<Option<&PlayerSecret<S>>>,
    secrets2: Seq<Option<&PlayerSecret<S>>>,
)
    requires
        g.secrets_wf(secrets),
        secrets2.len() == 2,
        same_but_pointer_counts(g, h),
        same_but_pointers(secret_of(secrets, 0), secret_of(secrets2, 0)),
        same_but_pointers(secret_of(secrets, 1), secret_of(secrets2, 1)),
    ensures
        h.public_ids_ok(secrets2) == g.public_ids_ok(secrets),
        h.secret_ids_ok(secrets2, 0) == g.secret_ids_ok(secrets, 0),
        h.secret_ids_ok(secrets2, 1) == g.secret_ids_ok(secrets, 1),
        h.counts_ok(secrets2) == g.counts_ok(secrets),
        h.secret_zones_ok(secrets2, 0) == g.secret_zones_ok(secrets, 0),
        h.secret_zones_ok(secrets2, 1) == g.secret_zones_ok(secrets, 1),
        h.sizes_ok(secrets2, 0) == g.sizes_ok(secrets, 0),
        h.sizes_ok(secrets2, 1) == g.sizes_ok(secrets, 1),
        h.hands_ok(secrets2, 0) == g.hands_ok(secrets, 0),
        h.hands_ok(secrets2, 1) == g.hands_ok(secrets, 1),
{
    assert(h.player_cards@[0] == (PlayerCards { pointers: h.player_cards@[0].pointers, ..g.player_cards@[0] }));
    assert(h.player_cards@[1] == (PlayerCards { pointers: h.player_cards@[1].pointers, ..g.player_cards@[1] }));
    assert forall|id: InstanceID| 0 <= id.0 < g.instances@.len() implies #[trigger] h.id_agrees(secrets2, id) == g.id_agrees(secrets, id) by {
        let e = g.instances@[id.0 as int];
        assert(g.table_wf());
        assert(match e {
            InstanceOrPlayer::Player(p) => p < 2,
            _ => true,
        });
    }
    assert forall|id: InstanceID| #[trigger] h.occurrences(secrets2, id) == g.occurrences(secrets, id) by {
        attached_count_ignores_pointer_counts(g, h, id, 0, g.instances@.len() as int);
        attached_count_ignores_pointer_counts(g, h, id, 1, g.instances@.len() as int);
    }
    assert(h.public_ids_ok(secrets2) == g.public_ids_ok(secrets)) by {
        if g.public_ids_ok(secrets) {
            assert forall|k: int| 0 <= k < h.instances@.len() && h.instances@[k] is Instance implies h.id_agrees(
                secrets2,
                (#[trigger] h.instances@[k])->Instance_0.id,
            ) by {
                assert(g.table_wf());
                assert(g.id_agrees(secrets, g.instances@[k]->Instance_0.id));
            }
        }
        if h.public_ids_ok(secrets2) {
            assert forall|k: int| 0 <= k < g.instances@.len() && g.instances@[k] is Instance implies g.id_agrees(
                secrets,
                (#[trigger] g.instances@[k])->Instance_0.id,
            ) by {
                assert(g.table_wf());
                assert(h.id_agrees(secrets2, h.instances@[k]->Instance_0.id));
            }
        }
    }
    assert forall|p: int| 0 <= p < 2 implies h.secret_ids_ok(secrets2, p) == g.secret_ids_ok(secrets, p) by {
        assert(g.secret_wf(secrets, p));
        if let Some(s) = secret_of(secrets, p) {
            let s2 = secret_of(secrets2, p).unwrap();
            assert(s2.instances == s.instances);
            if g.secret_ids_ok(secrets, p) {
                assert forall|j: int| 0 <= j < s2.instances@.len() implies h.id_agrees(secrets2, (#[trigger] s2.instances@[j]).id) by {
                    assert(g.id_agrees(secrets, s.instances@[j].id));
                }
            }
            if h.secret_ids_ok(secrets2, p) {
                assert forall|j: int| 0 <= j < s.instances@.len() implies g.id_agrees(secrets, (#[trigger] s.instances@[j]).id) by {
                    assert(h.id_agrees(secrets2, s2.instances@[j].id));
                }
            }
        }
    }
    assert(h.counts_ok(secrets2) == g.counts_ok(secrets)) by {
        if g.counts_ok(secrets) {
            assert forall|k: int| 0 <= k < h.instances@.len() implies #[trigger] h.occurrences(secrets2, InstanceID(k as usize)) <= 1 by {
                assert(g.occurrences(secrets, InstanceID(k as usize)) <= 1);
            }
        }
        if h.counts_ok(secrets2) {
            assert forall|k: int| 0 <= k < g.instances@.len() implies #[trigger] g.occurrences(secrets, InstanceID(k as usize)) <= 1 by {
                assert(h.occurrences(secrets2, InstanceID(k as usize)) <= 1);
            }
        }
    }
    assert forall|p: int| 0 <= p < 2 implies h.secret_zones_ok(secrets2, p) == g.secret_zones_ok(secrets, p) by {
        if let Some(s) = secret_of(secrets, p) {
            let s2 = secret_of(secrets2, p).unwrap();
            assert(s2.instances == s.instances);
            assert forall|j: int| 0 <= j < s.instances@.len() implies
                (match h.instances@[(#[trigger] s2.instances@[j]).id.0 as int] {
                    InstanceOrPlayer::Player(owner) => secret_of(secrets2, owner as int) matches Some(o) ==> o.spec_location(
                        Card::ID(s2.instances@[j].id),
                    ).location is Some,
                    InstanceOrPlayer::Instance(_) => true,
                }) == (match g.instances@[s.instances@[j].id.0 as int] {
                    InstanceOrPlayer::Player(owner) => secret_of(secrets, owner as int) matches Some(o) ==> o.spec_location(
                        Card::ID(s.instances@[j].id),
                    ).location is Some,
                    InstanceOrPlayer::Instance(_) => true,
                }) by {
                assert(g.secret_wf(secrets, p));
                let id = s.instances@[j].id;
                assert(id.0 < g.instances@.len());
                assert(g.table_wf());
                let e = g.instances@[id.0 as int];
                assert(match e {
                    InstanceOrPlayer::Player(q) => q < 2,
                    _ => true,
                });
            }
        }
    }
}

/// Handing out a pointer to a card of a secret zone keeps the game consistent: when
/// `GameState::ok` accepts a game and its secrets, and that card is in the instance table,
/// it still accepts them once the public pointer count has grown and the player's secret has
/// recorded the pointer (as `CardGame::deck_card` and `SecretChange::PointToZone` do).
pub proof fn zone_pointer_keeps_consistency<S: State>(
    g: GameState<S>,
    h: GameState<S>,
    secrets: Seq<Option<&PlayerSecret<S>>>,
    secrets2: Seq<Option<&PlayerSecret<S>>>,
    p: int,
    zone: Zone,
    index: usize,
)
    requires
        g.secrets_wf(secrets),
        g.spec_ok(secrets),
        0 <= p < 2,
        secret_of(secrets, p) is Some,
        secret_of(secrets, p).unwrap().zone_entry(zone, index) matches Some(id) && id.0 < g.instances@.len(),
        secrets2.len() == 2,
        secret_of(secrets2, p) == Some(PlayerSecret {
            pointers: secret_of(secrets2, p).unwrap().pointers,
            ..secret_of(secrets, p).unwrap()
        }),
        secret_of(secrets2, p).unwrap().pointers@ == secret_of(secrets, p).unwrap().pointers@.push(
            secret_of(secrets, p).unwrap().zone_entry(zone, index).unwrap(),
        ),
        secret_of(secrets2, 1 - p) == secret_of(secrets, 1 - p),
        same_but_pointer_counts(g, h),
    ensures
        h.spec_ok(secrets2),
{
    let q = 1 - p;
    assert(same_but_pointers(secret_of(secrets, p), secret_of(secrets2, p)));
    if let Some(o) = secret_of(secrets, q) {
        assert(o == (PlayerSecret { pointers: o.pointers, ..o }));
    }
    assert(same_but_pointers(secret_of(secrets, q), secret_of(secrets2, q)));
    if p == 0 {
        consistency_ignores_pointers(g, h, secrets, secrets2);
    } else {
        consistency_ignores_pointers(g, h, secrets, secrets2);
    }
    let s = secret_of(secrets, p).unwrap();
    let s2 = secret_of(secrets2, p).unwrap();
    assert(h.secret_pointers_ok(secrets2, p)) by {
        assert forall|i: int| 0 <= i < s2.pointers@.len() implies (#[trigger] s2.pointers@[i]).0 < h.instances@.len() by {
            if i < s.pointers@.len() {
                assert(g.secret_pointers_ok(secrets, p));
                assert(s2.pointers@[i] == s.pointers@[i]);
            }
        }
    }
    assert(h.secret_pointers_ok(secrets2, q)) by {
        assert(g.secret_pointers_ok(secrets, q));
    }
}

/// Handing a player pointers to instances of the instance table keeps the game consistent:
/// when `GameState::ok` accepts a game and its secrets, it still accepts them once the
/// player's secret has recorded pointers to `ids`, all in the table, and the public pointer
/// counts have changed (as `new_secret_pointers` and `SecretChange::PointToAll` do).
pub proof fn new_pointers_keep_consistency<S: State>(
    g: GameState<S>,
    h: GameState<S>,
    secrets: Seq<Option<&PlayerSecret<S>>>,
    secrets2: Seq<Option<&PlayerSecret<S>>>,
    p: int,
    ids: Seq<InstanceID>,
)
    requires
        g.secrets_wf(secrets),
        g.spec_ok(secrets),
        0 <= p < 2,
        secret_of(secrets, p) is Some,
        forall|i: int| 0 <= i < ids.len() ==> (#[trigger] ids[i]).0 < g.instances@.len(),
        secrets2.len() == 2,
        secret_of(secrets2, p) == Some(PlayerSecret {
            pointers: secret_of(secrets2, p).unwrap().pointers,
            ..secret_of(secrets, p).unwrap()
        }),
        secret_of(secrets2, p).unwrap().pointers@ == secret_of(secrets, p).unwrap().pointers@ + ids,
        secret_of(secrets2, 1 - p) == secret_of(secrets, 1 - p),
        same_but_pointer_counts(g, h),
    ensures
        h.spec_ok(secrets2),
{
    let q = 1 - p;
    assert(same_but_pointers(secret_of(secrets, p), secret_of(secrets2, p)));
    if let Some(o) = secret_of(secrets, q) {
        assert(o == (PlayerSecret { pointers: o.pointers, ..o }));
    }
    assert(same_but_pointers(secret_of(secrets, q), secret_of(secrets2, q)));
    consistency_ignores_pointers(g, h, secrets, secrets2);
    let s = secret_of(secrets, p).unwrap();
    let s2 = secret_of(secrets2, p).unwrap();
    assert(h.secret_pointers_ok(secrets2, p)) by {
        assert forall|i: int| 0 <= i < s2.pointers@.len() implies (#[trigger] s2.pointers@[i]).0 < h.instances@.len() by {
            if i < s.pointers@.len() {
                assert(g.secret_pointers_ok(secrets, p));
                assert(s2.pointers@[i] == s.pointers@[i]);
            } else {
                assert(s2.pointers@[i] == ids[i - s.pointers@.len()]);
            }
        }
    }
    assert(h.secret_pointers_ok(secrets2, q)) by {
        assert(g.secret_pointers_ok(secrets, q));
    }
}

} // verus!
