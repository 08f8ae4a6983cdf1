//! Creating a public card, as `CardGame::new_card` and a public copy do, keeps the game
//! consistent.

use vstd::prelude::*;

use crate::consistency::{count_of, secret_of};
use crate::copy_card::zones_in_range;
use crate::game_state::{parent_slot_in, unique_parent_in, InstanceOrPlayer};
use crate::secret_move::{lemma_count_contains, lemma_count_push};
use crate::seq_util::{first_index, lemma_first_index_some, lemma_first_index_unique};
use crate::{CardInstance, GameState, InstanceID, Player, PlayerCards, PlayerSecret, State};

verus! {

/// A new instance without an attachment is nobody's parent: the parents in the table are
/// those before.
proof fn lemma_unique_parent_pushed<S: State>(a: Seq<InstanceOrPlayer<S>>, inst: CardInstance<S>, x: InstanceID)
    requires
        inst.attachment is None,
    ensures
        unique_parent_in(a.push(InstanceOrPlayer::Instance(inst)), x) == unique_parent_in(a, x),
{
    let b = a.push(InstanceOrPlayer::Instance(inst));
    assert forall|k: int| parent_slot_in(b, k, x) == parent_slot_in(a, k, x) by {
        if 0 <= k < a.len() {
            assert(b[k] == a[k]);
        }
    }
    assert((|k: int| parent_slot_in(b, k, x)) =~= (|k: int| parent_slot_in(a, k, x)));
    if exists|k: int| parent_slot_in(a, k, x) {
        let k = choose|k: int| parent_slot_in(a, k, x);
        assert(parent_slot_in(b, k, x));
        assert(b[k] == a[k]);
    }
}

/// Putting `n` at the end of a limbo leaves where every other card is.
proof fn lemma_cards_location_pushed(c: PlayerCards, d: PlayerCards, n: InstanceID, x: InstanceID)
    requires
        d == (PlayerCards { limbo: d.limbo, ..c }),
        d.limbo@ == c.limbo@.push(n),
        x != n,
    ensures
        d.spec_location(x) == c.spec_location(x),
{
    assert(d.limbo@.contains(x) == c.limbo@.contains(x)) by {
        if d.limbo@.contains(x) {
            let j = choose|j: int| 0 <= j < d.limbo@.len() && d.limbo@[j] == x;
            assert(c.limbo@[j] == x);
        }
        if c.limbo@.contains(x) {
            let j = choose|j: int| 0 <= j < c.limbo@.len() && c.limbo@[j] == x;
            assert(d.limbo@[j] == x);
        }
    }
    if c.limbo@.contains(x) {
        lemma_first_index_some(c.limbo@, x);
        let i = first_index(c.limbo@, x).unwrap();
        assert forall|j: int| 0 <= j < i implies d.limbo@[j] != x by {
            assert(d.limbo@[j] == c.limbo@[j]);
        }
        lemma_first_index_unique(d.limbo@, x, i);
    }
}

/// `h` is `g` with the new public instance `inst`, numbered next and without an attachment,
/// at the end of the instance table and of `player`'s public limbo.
pub open spec fn card_created<S: State>(g: GameState<S>, h: GameState<S>, player: Player, inst: CardInstance<S>) -> bool {
    let n = InstanceID(g.instances@.len() as usize);
    let cards = g.player_cards@[player as int];
    &&& player < 2
    &&& inst.id == n
    &&& inst.attachment is None
    &&& h.instances@ == g.instances@.push(InstanceOrPlayer::Instance(inst))
    &&& h.player_cards@ == g.player_cards@.update(player as int, PlayerCards { limbo: h.player_cards@[player as int].limbo, ..cards })
    &&& h.player_cards@[player as int].limbo@ == cards.limbo@.push(n)
}

/// Every card but the new one is where it was, following at least as many attachment links.
proof fn lemma_location_created<S: State>(
    g: GameState<S>,
    h: GameState<S>,
    player: Player,
    inst: CardInstance<S>,
    x: InstanceID,
    fuel: nat,
    more: nat,
)
    requires
        card_created(g, h, player, inst),
        g.table_wf(),
        x.0 < g.instances@.len(),
        g.spec_location_fuel(x, fuel) is Some,
        fuel <= more,
    ensures
        h.spec_location_fuel(x, more) == g.spec_location_fuel(x, fuel),
    decreases fuel,
{
    let n = InstanceID(g.instances@.len() as usize);
    assert(h.instances@[x.0 as int] == g.instances@[x.0 as int]);
    assert forall|p: int| 0 <= p < 2 implies #[trigger] h.player_cards@[p].spec_location(x) == g.player_cards@[p].spec_location(x) by {
        if p == player {
            lemma_cards_location_pushed(g.player_cards@[p], h.player_cards@[p], n, x);
        } else {
            assert(h.player_cards@[p] == g.player_cards@[p]);
        }
    }
    assert(h.player_cards@[0].spec_location(x) == g.player_cards@[0].spec_location(x));
    assert(h.player_cards@[1].spec_location(x) == g.player_cards@[1].spec_location(x));
    lemma_unique_parent_pushed(g.instances@, inst, x);
    assert(h.spec_unique_parent(x) == g.spec_unique_parent(x));
    if fuel > 0 {
        if let InstanceOrPlayer::Instance(_) = g.instances@[x.0 as int] {
            if g.spec_zone_location(x) is None {
                if let Some(parent) = g.spec_unique_parent(x) {
                    let k = choose|k: int| parent_slot_in(g.instances@, k, x);
                    assert(parent_slot_in(g.instances@, k, x));
                    lemma_parent_in_table(g, x);
                    lemma_location_created(g, h, player, inst, parent, (fuel - 1) as nat, (more - 1) as nat);
                }
            }
        }
    }
}

/// A public parent found in the table is, in a readable table, numbered within it.
proof fn lemma_parent_in_table<S: State>(g: GameState<S>, x: InstanceID)
    requires
        g.table_wf(),
        g.spec_unique_parent(x) is Some,
    ensures
        g.spec_unique_parent(x).unwrap().0 < g.instances@.len(),
{
    let k = choose|k: int| parent_slot_in(g.instances@, k, x);
    let _ = g.instances@[k];
}

/// Public attachments are counted alike before and after a card is created, the new one
/// having none.
proof fn lemma_attached_count_created<S: State>(
    g: GameState<S>,
    h: GameState<S>,
    player: Player,
    inst: CardInstance<S>,
    y: InstanceID,
    owner: int,
    upto: int,
)
    requires
        card_created(g, h, player, inst),
        g.table_wf(),
        upto <= g.instances@.len(),
    ensures
        h.attached_count(y, owner, upto) == g.attached_count(y, owner, upto),
    decreases upto,
{
    if upto > 0 {
        lemma_attached_count_created(g, h, player, inst, y, owner, upto - 1);
        assert(h.instances@[upto - 1] == g.instances@[upto - 1]);
        let _ = g.instances@[upto - 1];
        if let InstanceOrPlayer::Instance(i) = g.instances@[upto - 1] {
            let n = g.instances@.len() as nat;
            lemma_location_created(g, h, player, inst, i.id, n, n + 1);
        }
    }
}

/// No public instance of a readable table has the next new number as its attachment.
proof fn lemma_attached_count_fresh<S: State>(g: GameState<S>, owner: int, upto: int)
    requires
        g.table_wf(),
        upto <= g.instances@.len(),
    ensures
        g.attached_count(InstanceID(g.instances@.len() as usize), owner, upto) == 0,
    decreases upto,
{
    if upto > 0 {
        lemma_attached_count_fresh(g, owner, upto - 1);
        let _ = g.instances@[upto - 1];
    }
}

/// An ID below `n` is not `x`, where `x` is at least `n`: `x` is not in `s`.
proof fn lemma_count_fresh(s: Seq<InstanceID>, x: InstanceID)
    requires
        forall|i: int| 0 <= i < s.len() ==> (#[trigger] s[i]).0 < x.0,
    ensures
        count_of(s, x) == 0,
{
    lemma_count_contains(s, x);
    if s.contains(x) {
        let j = choose|j: int| 0 <= j < s.len() && s[j] == x;
        assert(s[j].0 < x.0);
    }
}

/// Creating a public card keeps the game consistent: when `GameState::ok` accepts a game and
/// the players' secrets, the public zones name only cards of the table, and the secrets hold
/// no card numbered as the next new one, `ok` accepts them after the new public card, without
/// an attachment, is put at the end of the instance table and of a player's public limbo (as
/// `CardGame::new_card` does for a kind without an attachment, and a public copy of a card
/// without one).
pub proof fn create_keeps_consistency<S: State>(
    g: GameState<S>,
    h: GameState<S>,
    secrets: Seq<Option<&PlayerSecret<S>>>,
    player: Player,
    inst: CardInstance<S>,
)
    requires
        g.secrets_wf(secrets),
        g.spec_ok(secrets),
        zones_in_range(g),
        g.secret_occurrences(secrets, InstanceID(g.instances@.len() as usize), 0) == 0,
        g.secret_occurrences(secrets, InstanceID(g.instances@.len() as usize), 1) == 0,
        card_created(g, h, player, inst),
    ensures
        h.spec_ok(secrets),
{
    let len = g.instances@.len();
    let n = InstanceID(len as usize);
    assert(h.instances@[len as int] == InstanceOrPlayer::Instance(inst));
    assert forall|p: int| 0 <= p < 2 implies {
        let a = #[trigger] h.player_cards@[p];
        let b = g.player_cards@[p];
        &&& a.hand == b.hand && a.field == b.field && a.graveyard == b.graveyard && a.dust == b.dust
        &&& a.casting == b.casting && a.deck == b.deck && a.card_selection == b.card_selection
        &&& (p != player ==> a.limbo == b.limbo)
    } by {
        let _ = h.player_cards@[p];
    }
    // The secrets do not hold the new card.
    assert forall|p: int| 0 <= p < 2 implies (#[trigger] secret_of(secrets, p) matches Some(s) ==> !s.has(n)) by {
        if let Some(s) = secret_of(secrets, p) {
            assert(g.secret_wf(secrets, p));
            if s.has(n) {
                let j = choose|j: int| 0 <= j < s.ids().len() && s.ids()[j] == n;
                assert(s.ids()[j] == s.instances@[j].id);
            }
        }
    }
    assert forall|id: InstanceID| id.0 < len implies #[trigger] h.id_agrees(secrets, id) == g.id_agrees(secrets, id) by {
        assert(g.table_wf());
        let _ = g.instances@[id.0 as int];
        assert(h.instances@[id.0 as int] == g.instances@[id.0 as int]);
        if let InstanceOrPlayer::Instance(i) = g.instances@[id.0 as int] {
            if let Some(a) = i.attachment {
                let _ = g.instances@[a.0 as int];
                assert(h.instances@[a.0 as int] == g.instances@[a.0 as int]);
            }
        }
    }
    assert(h.id_agrees(secrets, n));
    assert(h.public_ids_ok(secrets)) by {
        assert forall|k: int| 0 <= k < h.instances@.len() && h.instances@[k] is Instance implies h.id_agrees(
            secrets,
            (#[trigger] h.instances@[k])->Instance_0.id,
        ) by {
            if k < len {
                assert(h.instances@[k] == g.instances@[k]);
                let _ = g.instances@[k];
                assert(g.id_agrees(secrets, g.instances@[k]->Instance_0.id));
            }
        }
    }
    assert forall|p: int| 0 <= p < 2 implies h.secret_ids_ok(secrets, p) && h.secret_zones_ok(secrets, p)
        && h.secret_pointers_ok(secrets, p) by {
        if let Some(s) = secret_of(secrets, p) {
            assert(g.secret_wf(secrets, p));
            assert(g.secret_pointers_ok(secrets, p));
            assert forall|j: int| 0 <= j < s.instances@.len() implies h.id_agrees(secrets, (#[trigger] s.instances@[j]).id) by {
                assert(g.id_agrees(secrets, s.instances@[j].id));
            }
            assert forall|j: int| 0 <= j < s.instances@.len() implies (match h.instances@[(#[trigger] s.instances@[j]).id.0 as int] {
                InstanceOrPlayer::Player(owner) => secret_of(secrets, owner as int) matches Some(o)
                    ==> o.spec_location(crate::Card::ID(s.instances@[j].id)).location is Some,
                InstanceOrPlayer::Instance(_) => true,
            }) by {
                assert(h.instances@[s.instances@[j].id.0 as int] == g.instances@[s.instances@[j].id.0 as int]);
            }
        }
    }
    assert(h.counts_ok(secrets)) by {
        assert forall|k: int| 0 <= k < h.instances@.len() implies #[trigger] h.occurrences(secrets, InstanceID(k as usize)) <= 1 by {
            let y = InstanceID(k as usize);
            let c = g.player_cards@[player as int];
            lemma_count_push(c.limbo@, n, y);
            lemma_attached_count_created(g, h, player, inst, y, 0, len as int);
            lemma_attached_count_created(g, h, player, inst, y, 1, len as int);
            assert(h.attached_count(y, 0, len as int + 1) == h.attached_count(y, 0, len as int));
            assert(h.attached_count(y, 1, len as int + 1) == h.attached_count(y, 1, len as int));
            if k < len {
                assert(g.occurrences(secrets, y) <= 1);
            } else {
                lemma_attached_count_fresh(g, 0, len as int);
                lemma_attached_count_fresh(g, 1, len as int);
                assert forall|p: int| 0 <= p < 2 implies {
                    let b = #[trigger] g.player_cards@[p];
                    &&& count_of(b.field@, n) == 0 && count_of(b.graveyard@, n) == 0 && count_of(b.dust@, n) == 0
                    &&& count_of(b.limbo@, n) == 0 && count_of(b.casting@, n) == 0 && count_of(b.hand@, Some(n)) == 0
                } by {
                    let b = g.player_cards@[p];
                    lemma_count_fresh(b.field@, n);
                    lemma_count_fresh(b.graveyard@, n);
                    lemma_count_fresh(b.dust@, n);
                    lemma_count_fresh(b.limbo@, n);
                    lemma_count_fresh(b.casting@, n);
                    lemma_count_contains(b.hand@, Some(n));
                    if b.hand@.contains(Some(n)) {
                        let j = choose|j: int| 0 <= j < b.hand@.len() && b.hand@[j] == Some(n);
                        assert(b.hand@[j] matches Some(x) ==> x.0 < len);
                    }
                }
                let _ = g.player_cards@[0];
                let _ = g.player_cards@[1];
            }
        }
    }
    assert(h.sizes_ok(secrets, 0) && h.sizes_ok(secrets, 1));
    assert(h.hands_ok(secrets, 0) && h.hands_ok(secrets, 1));
}

} // verus!
