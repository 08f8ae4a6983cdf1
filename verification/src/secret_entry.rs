//! Moves of a public card into a player's secret (a public card shuffled into a deck, for
//! one): what they change of the public record and of the secret, and that they keep the
//! game consistent.

use vstd::prelude::*;

use crate::consistency::{count_of, secret_of};
use crate::game_state::{parent_slot_in, InstanceOrPlayer};
use crate::seq_util::{first_index, is_first_index};
use crate::pile_move::{is_pile, lemma_count_of_multiset, pile, pile_location, pile_removed};
use crate::secret_move::{lemma_count_contains, location_owner, one_if, secret_count};
use crate::secret_protocol::{pushed_zone, shuffled};
use crate::secret_protocol::is_secret_zone;
use crate::{Card, CardInstance, GameState, InstanceID, Player, PlayerCards, PlayerSecret, State, Zone};

verus! {

/// `after` is the public record `before` of a player's zones once a card joined their secret
/// zone `to_zone`: the deck and card selection counts grow, and the hand gets a `None` at its
/// end; the piles do not change.
pub open spec fn secret_added(before: PlayerCards, after: PlayerCards, to_zone: Zone) -> bool {
    &&& forall|z: Zone| is_pile(z) ==> #[trigger] pile(after, z) == pile(before, z)
    &&& after.hand@ == if to_zone == (Zone::Hand { public: false }) {
        before.hand@.push(None)
    } else {
        before.hand@
    }
    &&& after.deck == before.deck + one_if(to_zone == Zone::Deck)
    &&& after.card_selection == before.card_selection + one_if(to_zone == Zone::CardSelection)
}

/// `after` is `before` with `id` taken from the pile `from_zone` of `from` and put into the
/// secret zone `to_zone` of `to`, as the public record keeps it.
pub open spec fn pile_to_secret(
    before: Seq<PlayerCards>,
    after: Seq<PlayerCards>,
    id: InstanceID,
    from: Player,
    from_zone: Zone,
    to: Player,
    to_zone: Zone,
) -> bool {
    &&& forall|p: int, z: Zone|
        0 <= p < 2 && is_pile(z) ==> #[trigger] pile(after[p], z).to_multiset() == if p == from && z == from_zone {
            pile(before[p], z).to_multiset().remove(id)
        } else {
            pile(before[p], z).to_multiset()
        }
    &&& forall|p: int|
        0 <= p < 2 ==> {
            &&& (#[trigger] after[p]).hand@ == if p == to && to_zone == (Zone::Hand { public: false }) {
                before[p].hand@.push(None)
            } else {
                before[p].hand@
            }
            &&& after[p].deck == before[p].deck + one_if(p == to && to_zone == Zone::Deck)
            &&& after[p].card_selection == before[p].card_selection + one_if(p == to && to_zone == Zone::CardSelection)
        }
}

/// Taking `id` out of a pile of one player and adding it to a secret zone of a player is a
/// move of `id` into that secret.
pub proof fn lemma_pile_to_secret_steps(
    before: Seq<PlayerCards>,
    mid: Seq<PlayerCards>,
    after: Seq<PlayerCards>,
    id: InstanceID,
    from: Player,
    from_zone: Zone,
    i: int,
    to: Player,
    to_zone: Zone,
)
    requires
        before.len() == 2 && mid.len() == 2 && after.len() == 2,
        from < 2 && to < 2,
        0 <= i < pile(before[from as int], from_zone).len(),
        pile(before[from as int], from_zone)[i] == id,
        pile_removed(before[from as int], mid[from as int], from_zone, i),
        mid[1 - from] == before[1 - from],
        secret_added(mid[to as int], after[to as int], to_zone),
        after[1 - to] == mid[1 - to],
    ensures
        pile_to_secret(before, after, id, from, from_zone, to, to_zone),
{
    broadcast use vstd::seq_lib::group_to_multiset_ensures;

    assert forall|p: int, z: Zone| 0 <= p < 2 && is_pile(z) implies #[trigger] pile(after[p], z).to_multiset() == if p == from
        && z == from_zone {
        pile(before[p], z).to_multiset().remove(id)
    } else {
        pile(before[p], z).to_multiset()
    } by {
        let b = pile(before[p], z);
        let m = pile(mid[p], z);
        if p == from && z == from_zone {
            assert(m == b.remove(i));
            assert(m.to_multiset() =~= b.to_multiset().remove(id));
        } else if p == from {
            assert(m == b);
        } else {
            assert(mid[p] == before[p]);
        }
        if p == to {
            assert(pile(after[p], z) == m);
        } else {
            assert(after[p] == mid[p]);
        }
    }
    assert forall|p: int| 0 <= p < 2 implies {
        &&& (#[trigger] after[p]).hand@ == if p == to && to_zone == (Zone::Hand { public: false }) {
            before[p].hand@.push(None)
        } else {
            before[p].hand@
        }
        &&& after[p].deck == before[p].deck + one_if(p == to && to_zone == Zone::Deck)
        &&& after[p].card_selection == before[p].card_selection + one_if(p == to && to_zone == Zone::CardSelection)
    } by {
        if p != from {
            assert(mid[p] == before[p]);
        }
        if p != to {
            assert(after[p] == mid[p]);
        }
    }
}

/// The card `id` of `game` is a public instance that carries its own ID, has no attachment,
/// and is at a position of a public pile.
pub open spec fn enterable<S: State>(game: GameState<S>, id: InstanceID) -> bool {
    &&& pile_location(game, id) is Some
    &&& id.0 < game.instances@.len()
    &&& game.instances@[id.0 as int] matches InstanceOrPlayer::Instance(inst) && inst.id == id && inst.attachment is None
}

/// A finished move of the `enterable` card `id` of `before` into the secret zone `to_zone` of
/// `to_player`: the table gives the card to `to_player`, and it left its pile for that zone.
pub open spec fn move_in_done<S: State>(before: GameState<S>, after: GameState<S>, id: InstanceID, to_player: Player, to_zone: Zone) -> bool {
    let l = pile_location(before, id).unwrap();
    &&& after.instances@ == before.instances@.update(id.0 as int, InstanceOrPlayer::Player(to_player))
    &&& pile_to_secret(before.player_cards@, after.player_cards@, id, l.0, l.1, to_player, to_zone)
}

/// No public instance of `game` but the one at slot `id.0` carries the ID `id`.
pub open spec fn owns_id<S: State>(game: GameState<S>, id: InstanceID) -> bool {
    forall|k: int| 0 <= k < game.instances@.len() ==> match #[trigger] game.instances@[k] {
        InstanceOrPlayer::Instance(inst) => inst.id == id ==> k == id.0,
        InstanceOrPlayer::Player(_) => true,
    }
}

/// `after` is the secret `before` once the instance `inst` has joined it at the end of its
/// secret zone `zone` (`SecretChange::PushZone`, then `SecretChange::InsertInstance` of an
/// instance it did not hold).
pub open spec fn joined_secret<S: State>(before: PlayerSecret<S>, after: PlayerSecret<S>, zone: Zone, inst: CardInstance<S>) -> bool {
    &&& pushed_zone(before, PlayerSecret { instances: before.instances, ..after }, zone, inst.id)
    &&& after.instances@ == before.instances@.push(inst)
}

/// In a table whose public instances all have a location, that location is a player's.
proof fn lemma_location_player<S: State>(g: GameState<S>, x: InstanceID, fuel: nat)
    requires
        g.table_wf(),
    ensures
        g.spec_location_fuel(x, fuel) matches Some(l) ==> l.player < 2,
    decreases fuel,
{
    if x.0 < g.instances@.len() {
        let _ = g.instances@[x.0 as int];
    }
    if fuel > 0 {
        if let Some(parent) = g.spec_unique_parent(x) {
            lemma_location_player(g, parent, (fuel - 1) as nat);
        }
    }
}

/// A public instance with the attachment `y` is counted among the attachments of `y`.
proof fn lemma_attached_counted<S: State>(g: GameState<S>, y: InstanceID, upto: int, k: int)
    requires
        g.table_wf(),
        0 <= k < upto <= g.instances@.len(),
        g.instances@[k] matches InstanceOrPlayer::Instance(inst) && inst.attachment == Some(y),
    ensures
        g.attached_count(y, 0, upto) + g.attached_count(y, 1, upto) >= 1,
    decreases upto,
{
    if k < upto - 1 {
        lemma_attached_counted(g, y, upto - 1, k);
    } else {
        let inst = g.instances@[k]->Instance_0;
        lemma_location_player(g, inst.id, g.instances@.len() as nat);
    }
}

/// What `move_into_secret_keeps_consistency` assumes.
pub open spec fn entry_setup<S: State>(
    g: GameState<S>,
    h: GameState<S>,
    secrets: Seq<Option<&PlayerSecret<S>>>,
    secrets2: Seq<Option<&PlayerSecret<S>>>,
    id: InstanceID,
    to: Player,
    to_zone: Zone,
) -> bool {
    &&& g.secrets_wf(secrets)
    &&& g.spec_ok(secrets)
    &&& enterable(g, id)
    &&& owns_id(g, id)
    &&& is_secret_zone(to_zone)
    &&& to < 2
    &&& secrets2.len() == 2
    &&& secret_of(secrets, to as int) is Some
    &&& to_zone == (Zone::Hand { public: false }) ==> g.player_cards@[to as int].hand@.len() == secret_of(secrets, to as int).unwrap().hand@.len()
    &&& secret_of(secrets2, 1 - to) == secret_of(secrets, 1 - to)
    &&& secret_of(secrets2, to as int) is Some
    &&& joined_secret(secret_of(secrets, to as int).unwrap(), secret_of(secrets2, to as int).unwrap(), to_zone, g.instances@[id.0 as int]->Instance_0)
    &&& move_in_done(g, h, id, to, to_zone)
}

/// Before the move, the card is in its pile and nowhere else: no secret holds it, and no
/// public instance has it as its attachment.
proof fn lemma_entry_alone<S: State>(
    g: GameState<S>,
    h: GameState<S>,
    secrets: Seq<Option<&PlayerSecret<S>>>,
    secrets2: Seq<Option<&PlayerSecret<S>>>,
    id: InstanceID,
    to: Player,
    to_zone: Zone,
)
    requires
        entry_setup(g, h, secrets, secrets2, id, to, to_zone),
    ensures
        forall|pl: int| 0 <= pl < 2 ==> (#[trigger] secret_of(secrets, pl) matches Some(t) ==> !t.has(id)),
        forall|k: int| 0 <= k < g.instances@.len() ==> !(#[trigger] g.instances@[k] matches InstanceOrPlayer::Instance(inst)
            && inst.attachment == Some(id)),
        ({
            let l = pile_location(g, id).unwrap();
            &&& l.0 < 2
            &&& count_of(pile(g.player_cards@[l.0 as int], l.1), id) == 1
            &&& g.public_occurrences(id, 0) + g.public_occurrences(id, 1) == 1
            &&& g.secret_occurrences(secrets, id, 0) == 0
            &&& g.secret_occurrences(secrets, id, 1) == 0
        }),
{
    let l = pile_location(g, id).unwrap();
    crate::pile_move::lemma_pile_location(g, id);
    assert(g.table_wf());
    let inst = g.instances@[id.0 as int]->Instance_0;
    assert(g.id_agrees(secrets, inst.id));
    assert(InstanceID(id.0 as usize) == id);
    assert(g.occurrences(secrets, id) <= 1);
    lemma_count_contains(pile(g.player_cards@[l.0 as int], l.1), id);
    assert(pile(g.player_cards@[l.0 as int], l.1).contains(id)) by {
        assert(pile(g.player_cards@[l.0 as int], l.1)[l.2 as int] == id);
    }
    assert(g.public_occurrences(id, l.0 as int) >= count_of(pile(g.player_cards@[l.0 as int], l.1), id));
    assert(g.secret_occurrences(secrets, id, 0) >= 0);
    assert(g.secret_occurrences(secrets, id, 1) >= 0);
    assert(g.public_occurrences(id, 0) >= 0);
    assert(g.public_occurrences(id, 1) >= 0);
    assert forall|k: int| 0 <= k < g.instances@.len() implies !(#[trigger] g.instances@[k] matches InstanceOrPlayer::Instance(i2)
        && i2.attachment == Some(id)) by {
        if g.instances@[k] matches InstanceOrPlayer::Instance(i2) && i2.attachment == Some(id) {
            lemma_attached_counted(g, id, g.instances@.len() as int, k);
        }
    }
}

/// How often `y` is in the public zones of player `p` after the move, zone by zone.
proof fn lemma_entry_zone_counts<S: State>(
    g: GameState<S>,
    h: GameState<S>,
    secrets: Seq<Option<&PlayerSecret<S>>>,
    secrets2: Seq<Option<&PlayerSecret<S>>>,
    id: InstanceID,
    to: Player,
    to_zone: Zone,

    p: int,
    y: InstanceID,
)
    requires
        entry_setup(g, h, secrets, secrets2, id, to, to_zone),
        0 <= p < 2,
    ensures
        ({
            let l = pile_location(g, id).unwrap();
            let (b, a) = (g.player_cards@[p], h.player_cards@[p]);
            &&& count_of(a.hand@, Some(y)) == count_of(b.hand@, Some(y))
            &&& forall|z: Zone| is_pile(z) ==> #[trigger] count_of(pile(a, z), y) == count_of(pile(b, z), y)
                - one_if(y == id && p == l.0 && z == l.1 && count_of(pile(b, z), y) > 0)
        }),
{
    broadcast use vstd::seq_lib::group_to_multiset_ensures;
    broadcast use vstd::multiset::group_multiset_axioms;

    let l = pile_location(g, id).unwrap();
    let (b, a) = (g.player_cards@[p], h.player_cards@[p]);
    assert(a.hand@ == if p == to && to_zone == (Zone::Hand { public: false }) {
        b.hand@.push(None)
    } else {
        b.hand@
    });
    crate::secret_move::lemma_count_push(b.hand@, None, Some(y));
    assert forall|z: Zone| is_pile(z) implies #[trigger] count_of(pile(a, z), y) == count_of(pile(b, z), y)
        - one_if(y == id && p == l.0 && z == l.1 && count_of(pile(b, z), y) > 0) by {
        lemma_count_of_multiset(pile(a, z), y);
        lemma_count_of_multiset(pile(b, z), y);
        assert(pile(a, z).to_multiset() == if p == l.0 && z == l.1 {
            pile(b, z).to_multiset().remove(id)
        } else {
            pile(b, z).to_multiset()
        });
    }
}

/// Whether a card is in a public zone of each player is the same after the move, but for
/// the moved card.
proof fn lemma_entry_presence<S: State>(
    g: GameState<S>,
    h: GameState<S>,
    secrets: Seq<Option<&PlayerSecret<S>>>,
    secrets2: Seq<Option<&PlayerSecret<S>>>,
    id: InstanceID,
    to: Player,
    to_zone: Zone,
)
    requires
        entry_setup(g, h, secrets, secrets2, id, to, to_zone),
    ensures
        forall|pl: int, y: InstanceID| 0 <= pl < 2 && y != id ==> (#[trigger] h.player_cards@[pl].spec_location(y) is Some)
            == (g.player_cards@[pl].spec_location(y) is Some),
{
    assert forall|pl: int, y: InstanceID| 0 <= pl < 2 && y != id implies (#[trigger] h.player_cards@[pl].spec_location(y) is Some)
        == (g.player_cards@[pl].spec_location(y) is Some) by {
        lemma_entry_zone_counts(g, h, secrets, secrets2, id, to, to_zone, pl, y);
        crate::pile_move::lemma_zone_presence(g.player_cards@[pl], y);
        crate::pile_move::lemma_zone_presence(h.player_cards@[pl], y);
        assert(count_of(pile(h.player_cards@[pl], Zone::Field), y) == count_of(pile(g.player_cards@[pl], Zone::Field), y));
        assert(count_of(pile(h.player_cards@[pl], Zone::Graveyard), y) == count_of(pile(g.player_cards@[pl], Zone::Graveyard), y));
        assert(count_of(pile(h.player_cards@[pl], Zone::Dust { public: true }), y) == count_of(pile(g.player_cards@[pl], Zone::Dust { public: true }), y));
        assert(count_of(pile(h.player_cards@[pl], Zone::Limbo { public: true }), y) == count_of(pile(g.player_cards@[pl], Zone::Limbo { public: true }), y));
        assert(count_of(pile(h.player_cards@[pl], Zone::Casting), y) == count_of(pile(g.player_cards@[pl], Zone::Casting), y));
    }
}


/// No public instance has the moved card as its parent after the move, and every card has
/// the same parent in both tables, which is never the moved card.
proof fn lemma_entry_parents<S: State>(
    g: GameState<S>,
    h: GameState<S>,
    secrets: Seq<Option<&PlayerSecret<S>>>,
    secrets2: Seq<Option<&PlayerSecret<S>>>,
    id: InstanceID,
    to: Player,
    to_zone: Zone,
    y: InstanceID,
)
    requires
        entry_setup(g, h, secrets, secrets2, id, to, to_zone),
    ensures
        h.spec_unique_parent(y) == g.spec_unique_parent(y),
        g.spec_unique_parent(y) != Some(id),
{
    let (a, b) = (g.instances@, h.instances@);
    assert forall|k: int| parent_slot_in(a, k, y) == parent_slot_in(b, k, y) by {
        if 0 <= k < a.len() {
            let _ = a[k];
        }
    }
    assert((|k: int| parent_slot_in(a, k, y)) =~= (|k: int| parent_slot_in(b, k, y)));
    if exists|k: int| parent_slot_in(a, k, y) {
        let k = choose|k: int| parent_slot_in(a, k, y);
        assert(parent_slot_in(b, k, y));
        assert(k != id.0);
        assert(b[k] == a[k]);
        let _ = a[k];
    }
}

/// Every card but the moved one has its location with the same player in both games.
proof fn lemma_entry_owner<S: State>(
    g: GameState<S>,
    h: GameState<S>,
    secrets: Seq<Option<&PlayerSecret<S>>>,
    secrets2: Seq<Option<&PlayerSecret<S>>>,
    id: InstanceID,
    to: Player,
    to_zone: Zone,
    x: InstanceID,
    fuel: nat,
)
    requires
        entry_setup(g, h, secrets, secrets2, id, to, to_zone),
        x != id,
    ensures
        location_owner(g.spec_location_fuel(x, fuel)) == location_owner(h.spec_location_fuel(x, fuel)),
    decreases fuel,
{
    lemma_entry_presence(g, h, secrets, secrets2, id, to, to_zone);
    lemma_entry_parents(g, h, secrets, secrets2, id, to, to_zone, x);
    assert((h.player_cards@[0].spec_location(x) is Some) == (g.player_cards@[0].spec_location(x) is Some));
    assert((h.player_cards@[1].spec_location(x) is Some) == (g.player_cards@[1].spec_location(x) is Some));
    if x.0 < g.instances@.len() {
        assert(x.0 != id.0);
        assert(h.instances@[x.0 as int] == g.instances@[x.0 as int]);
    }
    if fuel > 0 {
        if let Some(parent) = g.spec_unique_parent(x) {
            lemma_entry_owner(g, h, secrets, secrets2, id, to, to_zone, parent, (fuel - 1) as nat);
        }
    }
}

/// The public attachments of a card are counted alike in both games.
proof fn lemma_entry_attached<S: State>(
    g: GameState<S>,
    h: GameState<S>,
    secrets: Seq<Option<&PlayerSecret<S>>>,
    secrets2: Seq<Option<&PlayerSecret<S>>>,
    id: InstanceID,
    to: Player,
    to_zone: Zone,
    y: InstanceID,
    player: int,
    upto: int,
)
    requires
        entry_setup(g, h, secrets, secrets2, id, to, to_zone),
        upto <= g.instances@.len(),
    ensures
        h.attached_count(y, player, upto) == g.attached_count(y, player, upto),
    decreases upto,
{
    if upto > 0 {
        lemma_entry_attached(g, h, secrets, secrets2, id, to, to_zone, y, player, upto - 1);
        let k = upto - 1;
        if k != id.0 {
            assert(h.instances@[k] == g.instances@[k]);
            if let InstanceOrPlayer::Instance(inst) = g.instances@[k] {
                assert(inst.id != id);
                lemma_entry_owner(g, h, secrets, secrets2, id, to, to_zone, inst.id, g.instances@.len() as nat);
                if g.spec_location(inst.id) is None {
                    assert(h.spec_location(inst.id) == g.spec_location(inst.id));
                }
            }
        }
    }
}


/// A card joining a secret with no attachment occurs there once more, and every other card as
/// often.
proof fn lemma_joined_count<S: State>(s: PlayerSecret<S>, s2: PlayerSecret<S>, zone: Zone, inst: CardInstance<S>, y: InstanceID)
    requires
        joined_secret(s, s2, zone, inst),
        is_secret_zone(zone),
        inst.attachment is None,
    ensures
        secret_count(s2, y) == secret_count(s, y) + one_if(y == inst.id),
{
    let id = inst.id;
    crate::secret_move::lemma_count_push(s.deck@, id, y);
    crate::secret_move::lemma_count_push(s.hand@, Some(id), Some(y));
    crate::secret_move::lemma_count_push(s.limbo@, id, y);
    crate::secret_move::lemma_count_push(s.dust@, id, y);
    crate::secret_move::lemma_count_push(s.card_selection@, id, y);
    crate::secret_move::lemma_count_push(s.attachments(), None, Some(y));
    assert(s2.attachments() =~= s.attachments().push(None));
}

/// A card with a place in a secret still has one once another card joined it, and the
/// joining card has one too.
proof fn lemma_joined_zone<S: State>(s: PlayerSecret<S>, s2: PlayerSecret<S>, zone: Zone, inst: CardInstance<S>, y: InstanceID)
    requires
        joined_secret(s, s2, zone, inst),
        is_secret_zone(zone),
        y == inst.id || s.spec_zone_of(y) is Some,
    ensures
        s2.spec_zone_of(y) is Some,
{
    if y == inst.id {
        if zone == Zone::Deck {
            assert(s2.deck@.last() == y);
        } else if zone == (Zone::Hand { public: false }) {
            assert(s2.hand@.last() == Some(y));
        } else if zone == (Zone::Limbo { public: false }) {
            assert(s2.limbo@.last() == y);
        } else if zone == Zone::CardSelection {
            assert(s2.card_selection@.last() == y);
        } else {
            assert(s2.dust@.last() == y);
        }
    } else if s.deck@.contains(y) {
        let j = choose|j: int| 0 <= j < s.deck@.len() && s.deck@[j] == y;
        assert(s2.deck@[j] == y);
    } else if s.hand@.contains(Some(y)) {
        let j = choose|j: int| 0 <= j < s.hand@.len() && s.hand@[j] == Some(y);
        assert(s2.hand@[j] == Some(y));
    } else if s.dust@.contains(y) {
        let j = choose|j: int| 0 <= j < s.dust@.len() && s.dust@[j] == y;
        assert(s2.dust@[j] == y);
    } else if s.limbo@.contains(y) {
        let j = choose|j: int| 0 <= j < s.limbo@.len() && s.limbo@[j] == y;
        assert(s2.limbo@[j] == y);
    } else if s.card_selection@.contains(y) {
        let j = choose|j: int| 0 <= j < s.card_selection@.len() && s.card_selection@[j] == y;
        assert(s2.card_selection@[j] == y);
    } else {
        assert(s.attachments().contains(Some(y)));
        let j = choose|j: int| 0 <= j < s.attachments().len() && s.attachments()[j] == Some(y);
        let _ = s2.instances@[j];
        assert(s2.attachments()[j] == Some(y));
    }
}

/// The IDs a secret holds once a card joined it, and the instance it gives for each.
proof fn lemma_joined_get<S: State>(s: PlayerSecret<S>, s2: PlayerSecret<S>, zone: Zone, inst: CardInstance<S>, y: InstanceID)
    requires
        joined_secret(s, s2, zone, inst),
        !s.has(inst.id),
    ensures
        s2.has(y) == (s.has(y) || y == inst.id),
        s2.has(y) ==> s2.get(y) == if y == inst.id {
            inst
        } else {
            s.get(y)
        },
{
    assert(s2.ids() =~= s.ids().push(inst.id));
    let n = s.ids().len() as int;
    if s.has(y) {
        crate::seq_util::lemma_first_index_some(s.ids(), y);
        let k = first_index(s.ids(), y).unwrap();
        assert(is_first_index(s2.ids(), y, k));
        crate::seq_util::lemma_first_index_unique(s2.ids(), y, k);
    } else if y == inst.id {
        assert forall|j: int| 0 <= j < n implies s2.ids()[j] != y by {
            assert(s2.ids()[j] == s.ids()[j]);
        }
        assert(is_first_index(s2.ids(), y, n));
        crate::seq_util::lemma_first_index_unique(s2.ids(), y, n);
    } else {
        assert(!s2.ids().contains(y)) by {
            if s2.ids().contains(y) {
                let j = choose|j: int| 0 <= j < s2.ids().len() && s2.ids()[j] == y;
                if j < n {
                    assert(s.ids()[j] == y);
                }
            }
        }
    }
}


/// Every card occurs as often after the move: the moved card leaves its pile and joins the
/// secret.
proof fn lemma_entry_counts<S: State>(
    g: GameState<S>,
    h: GameState<S>,
    secrets: Seq<Option<&PlayerSecret<S>>>,
    secrets2: Seq<Option<&PlayerSecret<S>>>,
    id: InstanceID,
    to: Player,
    to_zone: Zone,
)
    requires
        entry_setup(g, h, secrets, secrets2, id, to, to_zone),
    ensures
        forall|y: InstanceID| #[trigger] h.occurrences(secrets2, y) == g.occurrences(secrets, y),
        h.counts_ok(secrets2),
{
    let l = pile_location(g, id).unwrap();
    let t = to as int;
    let s = secret_of(secrets, t).unwrap();
    let s2 = secret_of(secrets2, t).unwrap();
    let inst = g.instances@[id.0 as int]->Instance_0;
    lemma_entry_alone(g, h, secrets, secrets2, id, to, to_zone);
    assert forall|y: InstanceID| #[trigger] h.occurrences(secrets2, y) == g.occurrences(secrets, y) by {
        assert forall|p: int| 0 <= p < 2 implies #[trigger] h.public_occurrences(y, p) == g.public_occurrences(y, p)
            - one_if(y == id && p == l.0) by {
            lemma_entry_zone_counts(g, h, secrets, secrets2, id, to, to_zone, p, y);
            lemma_entry_attached(g, h, secrets, secrets2, id, to, to_zone, y, p, g.instances@.len() as int);
            let (b, a) = (g.player_cards@[p], h.player_cards@[p]);
            assert(count_of(pile(a, Zone::Field), y) == count_of(pile(b, Zone::Field), y)
                - one_if(y == id && p == l.0 && Zone::Field == l.1 && count_of(pile(b, Zone::Field), y) > 0));
            assert(count_of(pile(a, Zone::Graveyard), y) == count_of(pile(b, Zone::Graveyard), y)
                - one_if(y == id && p == l.0 && Zone::Graveyard == l.1 && count_of(pile(b, Zone::Graveyard), y) > 0));
            assert(count_of(pile(a, Zone::Dust { public: true }), y) == count_of(pile(b, Zone::Dust { public: true }), y)
                - one_if(y == id && p == l.0 && (Zone::Dust { public: true }) == l.1
                && count_of(pile(b, Zone::Dust { public: true }), y) > 0));
            assert(count_of(pile(a, Zone::Limbo { public: true }), y) == count_of(pile(b, Zone::Limbo { public: true }), y)
                - one_if(y == id && p == l.0 && (Zone::Limbo { public: true }) == l.1
                && count_of(pile(b, Zone::Limbo { public: true }), y) > 0));
            assert(count_of(pile(a, Zone::Casting), y) == count_of(pile(b, Zone::Casting), y)
                - one_if(y == id && p == l.0 && Zone::Casting == l.1 && count_of(pile(b, Zone::Casting), y) > 0));
            crate::pile_move::lemma_pile_location(g, id);
        }
        assert(h.public_occurrences(y, 0) == g.public_occurrences(y, 0) - one_if(y == id && 0 == l.0));
        assert(h.public_occurrences(y, 1) == g.public_occurrences(y, 1) - one_if(y == id && 1 == l.0));
        lemma_joined_count(s, s2, to_zone, inst, y);
        assert(h.secret_occurrences(secrets2, y, t) == g.secret_occurrences(secrets, y, t) + one_if(y == id));
        assert(h.secret_occurrences(secrets2, y, 1 - t) == g.secret_occurrences(secrets, y, 1 - t));
        if t == 0 {
        } else {
        }
    }
    assert forall|k: int| 0 <= k < h.instances@.len() implies #[trigger] h.occurrences(secrets2, InstanceID(k as usize)) <= 1 by {
        assert(g.occurrences(secrets, InstanceID(k as usize)) <= 1);
    }
}


/// What the public table and the secrets say of each card agrees after the move as it did
/// before, and they agree of the moved card.
proof fn lemma_entry_agrees<S: State>(
    g: GameState<S>,
    h: GameState<S>,
    secrets: Seq<Option<&PlayerSecret<S>>>,
    secrets2: Seq<Option<&PlayerSecret<S>>>,
    id: InstanceID,
    to: Player,
    to_zone: Zone,
)
    requires
        entry_setup(g, h, secrets, secrets2, id, to, to_zone),
    ensures
        h.id_agrees(secrets2, id),
        forall|y: InstanceID| y != id && y.0 < g.instances@.len() && #[trigger] g.id_agrees(secrets, y) ==> h.id_agrees(secrets2, y),
{
    let t = to as int;
    let s = secret_of(secrets, t).unwrap();
    let s2 = secret_of(secrets2, t).unwrap();
    let inst = g.instances@[id.0 as int]->Instance_0;
    lemma_entry_alone(g, h, secrets, secrets2, id, to, to_zone);
    assert(!s.has(id));
    lemma_joined_get(s, s2, to_zone, inst, id);
    assert(h.instances@[id.0 as int] == InstanceOrPlayer::<S>::Player(to));
    assert(secret_of(secrets, 1 - t) matches Some(o) ==> !o.has(id));
    assert forall|y: InstanceID| y != id && y.0 < g.instances@.len() && #[trigger] g.id_agrees(secrets, y) implies h.id_agrees(secrets2, y) by {
        lemma_joined_get(s, s2, to_zone, inst, y);
        assert(y.0 != id.0);
        assert(h.instances@[y.0 as int] == g.instances@[y.0 as int]);
        assert(g.table_wf());
        let e = g.instances@[y.0 as int];
        match e {
            InstanceOrPlayer::Player(pl) => {
                assert(pl < 2);
                if pl as int == t {
                    if let Some(a) = s.get(y).attachment {
                        lemma_joined_get(s, s2, to_zone, inst, a);
                    }
                }
            },
            InstanceOrPlayer::Instance(i2) => {
                assert(i2.attachment != Some(id));
                assert forall|p: int| 0 <= p < 2 implies (#[trigger] secret_of(secrets2, p) matches Some(w) ==> !w.has(y)) by {
                    assert(secret_of(secrets, p) matches Some(w) ==> !w.has(y));
                    if p != t {
                        assert(p == 1 - t);
                    }
                }
            },
        }
    }
}

/// The public instances and the instances of the secrets agree after the move.
proof fn lemma_entry_ids<S: State>(
    g: GameState<S>,
    h: GameState<S>,
    secrets: Seq<Option<&PlayerSecret<S>>>,
    secrets2: Seq<Option<&PlayerSecret<S>>>,
    id: InstanceID,
    to: Player,
    to_zone: Zone,
)
    requires
        entry_setup(g, h, secrets, secrets2, id, to, to_zone),
    ensures
        h.public_ids_ok(secrets2),
        h.secret_ids_ok(secrets2, 0),
        h.secret_ids_ok(secrets2, 1),
{
    let t = to as int;
    let s = secret_of(secrets, t).unwrap();
    let s2 = secret_of(secrets2, t).unwrap();
    let inst = g.instances@[id.0 as int]->Instance_0;
    lemma_entry_alone(g, h, secrets, secrets2, id, to, to_zone);
    lemma_entry_agrees(g, h, secrets, secrets2, id, to, to_zone);
    assert(g.table_wf());
    assert forall|k: int| 0 <= k < h.instances@.len() && h.instances@[k] is Instance implies h.id_agrees(
        secrets2,
        (#[trigger] h.instances@[k])->Instance_0.id,
    ) by {
        assert(k != id.0);
        assert(h.instances@[k] == g.instances@[k]);
        let _ = g.instances@[k];
        assert(g.id_agrees(secrets, g.instances@[k]->Instance_0.id));
    }
    assert(g.secret_wf(secrets, t));
    assert(g.secret_ids_ok(secrets, t));
    assert forall|j: int| 0 <= j < s2.instances@.len() implies h.id_agrees(secrets2, (#[trigger] s2.instances@[j]).id) by {
        if j < s.instances@.len() {
            assert(s2.instances@[j] == s.instances@[j]);
            assert(g.id_agrees(secrets, s.instances@[j].id));
            assert(s.ids()[j] == s.instances@[j].id);
        } else {
            assert(s2.instances@[j] == inst);
        }
    }
    assert(h.secret_ids_ok(secrets2, t));
    assert(g.secret_wf(secrets, 1 - t));
    assert(g.secret_ids_ok(secrets, 1 - t));
    if let Some(o) = secret_of(secrets, 1 - t) {
        assert forall|j: int| 0 <= j < o.instances@.len() implies h.id_agrees(secrets2, (#[trigger] o.instances@[j]).id) by {
            assert(g.id_agrees(secrets, o.instances@[j].id));
            assert(o.ids()[j] == o.instances@[j].id);
        }
    }
    assert(h.secret_ids_ok(secrets2, 1 - t));
    if t == 0 {
    } else {
    }
}


/// Every card that the table gives to a player has a place in that player's secret after the
/// move, when it had one before; and the moved card has one.
proof fn lemma_entry_placed<S: State>(
    g: GameState<S>,
    h: GameState<S>,
    secrets: Seq<Option<&PlayerSecret<S>>>,
    secrets2: Seq<Option<&PlayerSecret<S>>>,
    id: InstanceID,
    to: Player,
    to_zone: Zone,
)
    requires
        entry_setup(g, h, secrets, secrets2, id, to, to_zone),
    ensures
        forall|y: InstanceID| y.0 < g.instances@.len() && (y == id || (y != id && match g.instances@[y.0 as int] {
            InstanceOrPlayer::Player(owner) => secret_of(secrets, owner as int) matches Some(o) ==> o.spec_location(
                Card::ID(y),
            ).location is Some,
            InstanceOrPlayer::Instance(_) => true,
        })) ==> (match #[trigger] h.instances@[y.0 as int] {
            InstanceOrPlayer::Player(owner) => secret_of(secrets2, owner as int) matches Some(o) ==> o.spec_location(
                Card::ID(y),
            ).location is Some,
            InstanceOrPlayer::Instance(_) => true,
        }),
{
    let t = to as int;
    let s = secret_of(secrets, t).unwrap();
    let s2 = secret_of(secrets2, t).unwrap();
    let inst = g.instances@[id.0 as int]->Instance_0;
    assert(g.table_wf());
    assert forall|y: InstanceID| y.0 < g.instances@.len() && (y == id || (y != id && match g.instances@[y.0 as int] {
        InstanceOrPlayer::Player(owner) => secret_of(secrets, owner as int) matches Some(o) ==> o.spec_location(
            Card::ID(y),
        ).location is Some,
        InstanceOrPlayer::Instance(_) => true,
    })) implies (match #[trigger] h.instances@[y.0 as int] {
        InstanceOrPlayer::Player(owner) => secret_of(secrets2, owner as int) matches Some(o) ==> o.spec_location(
            Card::ID(y),
        ).location is Some,
        InstanceOrPlayer::Instance(_) => true,
    }) by {
        if y == id {
            lemma_joined_zone(s, s2, to_zone, inst, y);
        } else {
            assert(y.0 != id.0);
            let e = g.instances@[y.0 as int];
            if let InstanceOrPlayer::Player(owner) = e {
                assert(owner < 2);
                if owner as int == t {
                    lemma_joined_zone(s, s2, to_zone, inst, y);
                } else {
                    assert(owner as int == 1 - t);
                }
            }
        }
    }
}

/// Every instance of a secret that the table gives to a player is in a zone of that player's
/// secret after the move.
proof fn lemma_entry_zones<S: State>(
    g: GameState<S>,
    h: GameState<S>,
    secrets: Seq<Option<&PlayerSecret<S>>>,
    secrets2: Seq<Option<&PlayerSecret<S>>>,
    id: InstanceID,
    to: Player,
    to_zone: Zone,
)
    requires
        entry_setup(g, h, secrets, secrets2, id, to, to_zone),
    ensures
        h.secret_zones_ok(secrets2, 0),
        h.secret_zones_ok(secrets2, 1),
{
    let t = to as int;
    let s = secret_of(secrets, t).unwrap();
    let s2 = secret_of(secrets2, t).unwrap();
    let inst = g.instances@[id.0 as int]->Instance_0;
    lemma_entry_alone(g, h, secrets, secrets2, id, to, to_zone);
    lemma_entry_placed(g, h, secrets, secrets2, id, to, to_zone);
    assert(g.secret_wf(secrets, t));
    assert(g.secret_zones_ok(secrets, t));
    assert forall|j: int| 0 <= j < s2.instances@.len() implies (match h.instances@[(#[trigger] s2.instances@[j]).id.0 as int] {
        InstanceOrPlayer::Player(owner) => secret_of(secrets2, owner as int) matches Some(o) ==> o.spec_location(
            Card::ID(s2.instances@[j].id),
        ).location is Some,
        InstanceOrPlayer::Instance(_) => true,
    }) by {
        if j < s.instances@.len() {
            assert(s2.instances@[j] == s.instances@[j]);
            let _ = s.instances@[j];
            assert(s.ids()[j] == s.instances@[j].id);
        } else {
            assert(s2.instances@[j] == inst);
        }
    }
    assert(h.secret_zones_ok(secrets2, t));
    assert(g.secret_wf(secrets, 1 - t));
    assert(g.secret_zones_ok(secrets, 1 - t));
    if let Some(o) = secret_of(secrets, 1 - t) {
        assert forall|j: int| 0 <= j < o.instances@.len() implies (match h.instances@[(#[trigger] o.instances@[j]).id.0 as int] {
            InstanceOrPlayer::Player(owner) => secret_of(secrets2, owner as int) matches Some(w) ==> w.spec_location(
                Card::ID(o.instances@[j].id),
            ).location is Some,
            InstanceOrPlayer::Instance(_) => true,
        }) by {
            let _ = o.instances@[j];
            assert(o.ids()[j] == o.instances@[j].id);
        }
    }
    assert(h.secret_zones_ok(secrets2, 1 - t));
    if t == 0 {
    } else {
    }
}


/// The receiving player's deck and card selection sizes and hands agree after the move, and
/// the hands keep the same length.
proof fn lemma_entry_sizes<S: State>(
    g: GameState<S>,
    h: GameState<S>,
    secrets: Seq<Option<&PlayerSecret<S>>>,
    secrets2: Seq<Option<&PlayerSecret<S>>>,
    id: InstanceID,
    to: Player,
    to_zone: Zone,
)
    requires
        entry_setup(g, h, secrets, secrets2, id, to, to_zone),
    ensures
        h.sizes_ok(secrets2, to as int),
        h.hands_ok(secrets2, to as int),
        to_zone == (Zone::Hand { public: false }) ==> h.player_cards@[to as int].hand@.len() == secret_of(
            secrets2,
            to as int,
        ).unwrap().hand@.len(),
{
    let t = to as int;
    let s = secret_of(secrets, t).unwrap();
    let s2 = secret_of(secrets2, t).unwrap();
    let (b, a) = (g.player_cards@[t], h.player_cards@[t]);
    assert(g.sizes_ok(secrets, t));
    assert(g.hands_ok(secrets, t));
    if to_zone == (Zone::Hand { public: false }) {
        assert(a.hand@ == b.hand@.push(None));
        assert(s2.hand@ == s.hand@.push(Some(id)));
        assert forall|i: int| 0 <= i < a.hand@.len() && i < s2.hand@.len() implies (#[trigger] a.hand@[i] is Some) != (
        s2.hand@[i] is Some) by {
            if i < b.hand@.len() {
                assert(a.hand@[i] == b.hand@[i]);
                assert(s2.hand@[i] == s.hand@[i]);
            }
        }
    } else {
        assert(a.hand@ == b.hand@);
        assert(s2.hand == s.hand);
    }
}

/// Moving a public card into a player's secret (a card shuffled into a deck, or put into the
/// secret hand, for one) keeps the game consistent: when `GameState::ok` accepts a game and
/// the players' secrets, the card is an instance at a position of a public pile that carries
/// its own ID, has no attachment and is the only public instance with that ID, and, where it
/// goes to the secret hand, that player's public and secret hands have the same length, then
/// `ok` accepts the game once the table gives the card to the player and the public record
/// has moved it out of its pile into the secret zone (`move_in_done`), and the player's
/// secret has taken in the card at the end of that zone (`joined_secret`); the hands keep
/// the same length.
pub proof fn move_into_secret_keeps_consistency<S: State>(
    g: GameState<S>,
    h: GameState<S>,
    secrets: Seq<Option<&PlayerSecret<S>>>,
    secrets2: Seq<Option<&PlayerSecret<S>>>,
    id: InstanceID,
    to: Player,
    to_zone: Zone,
)
    requires
        g.secrets_wf(secrets),
        g.spec_ok(secrets),
        enterable(g, id),
        owns_id(g, id),
        is_secret_zone(to_zone),
        to < 2,
        secrets2.len() == 2,
        secret_of(secrets, to as int) is Some,
        to_zone == (Zone::Hand { public: false }) ==> g.player_cards@[to as int].hand@.len() == secret_of(
            secrets,
            to as int,
        ).unwrap().hand@.len(),
        secret_of(secrets2, 1 - to) == secret_of(secrets, 1 - to),
        secret_of(secrets2, to as int) is Some,
        joined_secret(
            secret_of(secrets, to as int).unwrap(),
            secret_of(secrets2, to as int).unwrap(),
            to_zone,
            g.instances@[id.0 as int]->Instance_0,
        ),
        move_in_done(g, h, id, to, to_zone),
    ensures
        h.spec_ok(secrets2),
        to_zone == (Zone::Hand { public: false }) ==> h.player_cards@[to as int].hand@.len() == secret_of(
            secrets2,
            to as int,
        ).unwrap().hand@.len(),
{
    let t = to as int;
    let q = 1 - t;
    lemma_entry_counts(g, h, secrets, secrets2, id, to, to_zone);
    lemma_entry_ids(g, h, secrets, secrets2, id, to, to_zone);
    lemma_entry_zones(g, h, secrets, secrets2, id, to, to_zone);
    lemma_entry_sizes(g, h, secrets, secrets2, id, to, to_zone);
    assert(h.secret_pointers_ok(secrets2, t)) by {
        assert(g.secret_pointers_ok(secrets, t));
    }
    assert(h.secret_pointers_ok(secrets2, q)) by {
        assert(g.secret_pointers_ok(secrets, q));
    }
    assert(h.sizes_ok(secrets2, q)) by {
        assert(g.sizes_ok(secrets, q));
    }
    assert(h.hands_ok(secrets2, q)) by {
        assert(g.hands_ok(secrets, q));
    }
    if t == 0 {
    } else {
    }
}


/// A secret whose deck was shuffled has the same cards in each of its zones, as often.
proof fn lemma_shuffled_same<S: State>(s: PlayerSecret<S>, s2: PlayerSecret<S>, y: InstanceID)
    requires
        shuffled(s, s2),
    ensures
        secret_count(s2, y) == secret_count(s, y),
        (s2.spec_zone_of(y) is Some) == (s.spec_zone_of(y) is Some),
        s2.deck@.len() == s.deck@.len(),
        s2.has(y) == s.has(y),
        s2.get(y) == s.get(y),
{
    broadcast use vstd::seq_lib::group_to_multiset_ensures;

    lemma_count_of_multiset(s.deck@, y);
    lemma_count_of_multiset(s2.deck@, y);
    lemma_count_contains(s.deck@, y);
    lemma_count_contains(s2.deck@, y);
    s.deck@.to_multiset_ensures();
    s2.deck@.to_multiset_ensures();
    assert(s2.instances == s.instances);
    assert(s2.attachments() == s.attachments());
    assert(s2.ids() == s.ids());
}

/// What `deck_shuffle_keeps_consistency` assumes.
pub open spec fn shuffle_setup<S: State>(
    g: GameState<S>,
    secrets: Seq<Option<&PlayerSecret<S>>>,
    secrets2: Seq<Option<&PlayerSecret<S>>>,
    p: Player,
) -> bool {
    &&& g.secrets_wf(secrets)
    &&& g.spec_ok(secrets)
    &&& p < 2
    &&& secrets2.len() == 2
    &&& secret_of(secrets2, 1 - p) == secret_of(secrets, 1 - p)
    &&& secret_of(secrets, p as int) is Some
    &&& secret_of(secrets2, p as int) is Some
    &&& shuffled(secret_of(secrets, p as int).unwrap(), secret_of(secrets2, p as int).unwrap())
}

/// The table and the secrets agree about each card after a shuffle as they did before.
proof fn lemma_shuffle_agrees<S: State>(
    g: GameState<S>,
    secrets: Seq<Option<&PlayerSecret<S>>>,
    secrets2: Seq<Option<&PlayerSecret<S>>>,
    p: Player,
    y: InstanceID,
)
    requires
        p < 2,
        secret_of(secrets2, 1 - p) == secret_of(secrets, 1 - p),
        secret_of(secrets, p as int) is Some,
        secret_of(secrets2, p as int) is Some,
        shuffled(secret_of(secrets, p as int).unwrap(), secret_of(secrets2, p as int).unwrap()),
        y.0 < g.instances@.len(),
        g.instances@[y.0 as int] matches InstanceOrPlayer::Player(pl) ==> pl < 2,
    ensures
        g.id_agrees(secrets2, y) == g.id_agrees(secrets, y),
{
    let t = p as int;
    let s = secret_of(secrets, t).unwrap();
    let s2 = secret_of(secrets2, t).unwrap();
    lemma_shuffled_same(s, s2, y);
    if s.has(y) {
        if let Some(a) = s.get(y).attachment {
            lemma_shuffled_same(s, s2, a);
        }
    }
    let a0 = secret_of(secrets, 0);
    let a1 = secret_of(secrets, 1);
    let b0 = secret_of(secrets2, 0);
    let b1 = secret_of(secrets2, 1);
    assert((a0 matches Some(w) ==> !w.has(y)) == (b0 matches Some(w) ==> !w.has(y)));
    assert((a1 matches Some(w) ==> !w.has(y)) == (b1 matches Some(w) ==> !w.has(y)));
}

/// What `ok` checks of one player's secret holds after a shuffle as before.
proof fn lemma_shuffle_secret_parts<S: State>(
    g: GameState<S>,
    secrets: Seq<Option<&PlayerSecret<S>>>,
    secrets2: Seq<Option<&PlayerSecret<S>>>,
    p: Player,
    r: int,
)
    requires
        shuffle_setup(g, secrets, secrets2, p),
        0 <= r < 2,
    ensures
        g.secret_ids_ok(secrets2, r),
        g.secret_zones_ok(secrets2, r),
        g.secret_pointers_ok(secrets2, r),
        g.sizes_ok(secrets2, r),
        g.hands_ok(secrets2, r),
{
    let t = p as int;
    let s = secret_of(secrets, t).unwrap();
    let s2 = secret_of(secrets2, t).unwrap();
    assert(g.secret_wf(secrets, r));
    assert(g.secret_ids_ok(secrets, r));
    assert(g.secret_zones_ok(secrets, r));
    assert(g.secret_pointers_ok(secrets, r));
    assert(g.sizes_ok(secrets, r));
    assert(g.hands_ok(secrets, r));
    assert(g.table_wf());
    lemma_shuffled_same(s, s2, InstanceID(0));
    if r != t {
        assert(r == 1 - t);
    }
    if let Some(o) = secret_of(secrets2, r) {
        assert forall|j: int| 0 <= j < o.instances@.len() implies g.id_agrees(secrets2, (#[trigger] o.instances@[j]).id) && (
        match g.instances@[o.instances@[j].id.0 as int] {
            InstanceOrPlayer::Player(owner) => secret_of(secrets2, owner as int) matches Some(w) ==> w.spec_location(
                Card::ID(o.instances@[j].id),
            ).location is Some,
            InstanceOrPlayer::Instance(_) => true,
        }) by {
            let y = o.instances@[j].id;
            if r == t {
                assert(o.instances@[j] == s.instances@[j]);
            }
            lemma_shuffled_same(s, s2, y);
            lemma_shuffle_agrees(g, secrets, secrets2, p, y);
            let e = g.instances@[y.0 as int];
            if let InstanceOrPlayer::Player(w) = e {
                assert(w < 2);
                if w as int != t {
                    assert(w as int == 1 - t);
                }
            }
        }
    }
}

/// Shuffling a player's deck (as `move_card` does when a card joins a deck of a game that
/// shuffles decks on insert) keeps the game consistent: when `GameState::ok` accepts a game
/// and the players' secrets, it accepts the game with the same public state once one
/// player's secret has its deck in another order and nothing else changed.
pub proof fn deck_shuffle_keeps_consistency<S: State>(
    g: GameState<S>,
    secrets: Seq<Option<&PlayerSecret<S>>>,
    secrets2: Seq<Option<&PlayerSecret<S>>>,
    p: Player,
)
    requires
        g.secrets_wf(secrets),
        g.spec_ok(secrets),
        p < 2,
        secrets2.len() == 2,
        secret_of(secrets2, 1 - p) == secret_of(secrets, 1 - p),
        secret_of(secrets, p as int) is Some,
        secret_of(secrets2, p as int) is Some,
        shuffled(secret_of(secrets, p as int).unwrap(), secret_of(secrets2, p as int).unwrap()),
    ensures
        g.spec_ok(secrets2),
{
    let t = p as int;
    let q = 1 - t;
    let s = secret_of(secrets, t).unwrap();
    let s2 = secret_of(secrets2, t).unwrap();
    assert(g.table_wf());
    assert(g.public_ids_ok(secrets2)) by {
        assert forall|k: int| 0 <= k < g.instances@.len() && g.instances@[k] is Instance implies g.id_agrees(
            secrets2,
            (#[trigger] g.instances@[k])->Instance_0.id,
        ) by {
            let _ = g.instances@[k];
            lemma_shuffle_agrees(g, secrets, secrets2, p, g.instances@[k]->Instance_0.id);
        }
    }
    lemma_shuffle_secret_parts(g, secrets, secrets2, p, 0);
    lemma_shuffle_secret_parts(g, secrets, secrets2, p, 1);
    assert(g.counts_ok(secrets2)) by {
        assert forall|k: int| 0 <= k < g.instances@.len() implies #[trigger] g.occurrences(secrets2, InstanceID(k as usize)) <= 1 by {
            let y = InstanceID(k as usize);
            lemma_shuffled_same(s, s2, y);
            assert(g.occurrences(secrets, y) <= 1);
            assert(g.secret_occurrences(secrets2, y, t) == g.secret_occurrences(secrets, y, t));
            assert(g.secret_occurrences(secrets2, y, q) == g.secret_occurrences(secrets, y, q));
            if t == 0 {
            } else {
            }
        }
    }
}

} // verus!
