//! Changing a public card in place keeps the game consistent.

use vstd::prelude::*;

use crate::consistency::count_of;
use crate::game_state::{lemma_location_same_shape, same_shape, InstanceOrPlayer};
use crate::modify_card::resorted;
use crate::pile_move::lemma_count_of_multiset;
use crate::secret_move::{lemma_attached_count_same, lemma_count_contains};
use crate::{GameState, InstanceID, Player, PlayerCards, PlayerSecret, State};

verus! {

/// The public attachments of a card are counted alike in two games with the same public
/// zones whose instance tables have the same shape.
proof fn lemma_attached_count_same_shape<S: State>(g: GameState<S>, h: GameState<S>, y: InstanceID, player: int, upto: int)
    requires
        g.player_cards == h.player_cards,
        same_shape(g.instances@, h.instances@),
        upto <= g.instances@.len(),
    ensures
        g.attached_count(y, player, upto) == h.attached_count(y, player, upto),
    decreases upto,
{
    if upto > 0 {
        lemma_attached_count_same_shape(g, h, y, player, upto - 1);
        let _ = g.instances@[upto - 1];
        if let InstanceOrPlayer::Instance(inst) = g.instances@[upto - 1] {
            lemma_location_same_shape(g, h, inst.id);
        }
    }
}

/// What `GameState::ok` checks holds alike of two games with the same public zones whose
/// instance tables have the same shape.
proof fn lemma_ok_same_shape<S: State>(g: GameState<S>, h: GameState<S>, secrets: Seq<Option<&PlayerSecret<S>>>)
    requires
        g.secrets_wf(secrets),
        g.spec_ok(secrets),
        g.player_cards == h.player_cards,
        same_shape(g.instances@, h.instances@),
    ensures
        h.spec_ok(secrets),
{
    let n = g.instances@.len();
    assert forall|id: InstanceID| id.0 < n implies #[trigger] h.id_agrees(secrets, id) == g.id_agrees(secrets, id) by {
        let _ = g.instances@[id.0 as int];
        assert(g.table_wf());
        let _ = g.instances@[id.0 as int];
        if let InstanceOrPlayer::Instance(inst) = g.instances@[id.0 as int] {
            if let Some(a) = inst.attachment {
                let _ = g.instances@[a.0 as int];
            }
        }
    }
    assert(h.public_ids_ok(secrets)) by {
        assert forall|k: int| 0 <= k < h.instances@.len() && h.instances@[k] is Instance implies h.id_agrees(
            secrets,
            (#[trigger] h.instances@[k])->Instance_0.id,
        ) by {
            let _ = g.instances@[k];
            let _ = g.instances@[k];
            assert(g.id_agrees(secrets, g.instances@[k]->Instance_0.id));
        }
    }
    assert forall|p: int| 0 <= p < 2 implies h.secret_ids_ok(secrets, p) && h.secret_zones_ok(secrets, p) by {
        if let Some(s) = crate::consistency::secret_of(secrets, p) {
            assert(g.secret_wf(secrets, p));
            assert forall|j: int| 0 <= j < s.instances@.len() implies h.id_agrees(secrets, (#[trigger] s.instances@[j]).id) by {
                assert(g.id_agrees(secrets, s.instances@[j].id));
            }
            assert forall|j: int| 0 <= j < s.instances@.len() implies (match h.instances@[(#[trigger] s.instances@[j]).id.0 as int] {
                InstanceOrPlayer::Player(owner) => crate::consistency::secret_of(secrets, owner as int) matches Some(o)
                    ==> o.spec_location(crate::Card::ID(s.instances@[j].id)).location is Some,
                InstanceOrPlayer::Instance(_) => true,
            }) by {
                let _ = g.instances@[s.instances@[j].id.0 as int];
            }
        }
    }
    assert(h.counts_ok(secrets)) by {
        assert forall|k: int| 0 <= k < h.instances@.len() implies #[trigger] h.occurrences(secrets, InstanceID(k as usize)) <= 1 by {
            let y = InstanceID(k as usize);
            lemma_attached_count_same_shape(g, h, y, 0, n as int);
            lemma_attached_count_same_shape(g, h, y, 1, n as int);
            assert(g.occurrences(secrets, y) <= 1);
        }
    }
}

/// Whether `y` has a position in `after`'s public zones is the same as in `before`'s, where
/// `after` is `before` with its field reordered.
proof fn lemma_presence_field_permuted(before: PlayerCards, after: PlayerCards, y: InstanceID)
    requires
        after == (PlayerCards { field: after.field, ..before }),
        after.field@.to_multiset() == before.field@.to_multiset(),
    ensures
        (after.spec_location(y) is Some) == (before.spec_location(y) is Some),
        count_of(after.field@, y) == count_of(before.field@, y),
{
    lemma_count_of_multiset(after.field@, y);
    lemma_count_of_multiset(before.field@, y);
    lemma_count_contains(after.field@, y);
    lemma_count_contains(before.field@, y);
    if before.hand@.contains(Some(y)) {
        crate::seq_util::lemma_first_index_some(before.hand@, Some(y));
    }
    if before.field@.contains(y) {
        crate::seq_util::lemma_first_index_some(before.field@, y);
        crate::seq_util::lemma_first_index_some(after.field@, y);
    }
    if before.graveyard@.contains(y) {
        crate::seq_util::lemma_first_index_some(before.graveyard@, y);
    }
    if before.dust@.contains(y) {
        crate::seq_util::lemma_first_index_some(before.dust@, y);
    }
    if before.limbo@.contains(y) {
        crate::seq_util::lemma_first_index_some(before.limbo@, y);
    }
    if before.casting@.contains(y) {
        crate::seq_util::lemma_first_index_some(before.casting@, y);
    }
}

/// What `GameState::ok` checks holds alike of two games with the same instance table whose
/// public zones differ at most in the order of each field.
proof fn lemma_ok_fields_permuted<S: State>(g: GameState<S>, h: GameState<S>, secrets: Seq<Option<&PlayerSecret<S>>>)
    requires
        g.spec_ok(secrets),
        g.instances == h.instances,
        forall|p: int|
            0 <= p < 2 ==> {
                let a = #[trigger] h.player_cards@[p];
                let b = g.player_cards@[p];
                &&& a == (PlayerCards { field: a.field, ..b })
                &&& a.field@.to_multiset() == b.field@.to_multiset()
            },
    ensures
        h.spec_ok(secrets),
{
    let n = g.instances@.len();
    assert forall|p: int, z: InstanceID| 0 <= p < 2 implies (#[trigger] h.player_cards@[p].spec_location(z) is Some) == (
    g.player_cards@[p].spec_location(z) is Some) by {
        lemma_presence_field_permuted(g.player_cards@[p], h.player_cards@[p], z);
    }
    assert forall|p: int| 0 <= p < 2 implies h.player_cards@[p].hand == g.player_cards@[p].hand
        && h.player_cards@[p].deck == g.player_cards@[p].deck
        && h.player_cards@[p].card_selection == g.player_cards@[p].card_selection by {
        let _ = h.player_cards@[p];
    }
    assert(h.counts_ok(secrets)) by {
        assert forall|k: int| 0 <= k < h.instances@.len() implies #[trigger] h.occurrences(secrets, InstanceID(k as usize)) <= 1 by {
            let y = InstanceID(k as usize);
            lemma_attached_count_same(g, h, y, 0, n as int);
            lemma_attached_count_same(g, h, y, 1, n as int);
            let _ = h.player_cards@[0];
            let _ = h.player_cards@[1];
            lemma_presence_field_permuted(g.player_cards@[0], h.player_cards@[0], y);
            lemma_presence_field_permuted(g.player_cards@[1], h.player_cards@[1], y);
            assert(g.occurrences(secrets, y) <= 1);
        }
    }
    assert(h.sizes_ok(secrets, 0) && h.sizes_ok(secrets, 1));
    assert(h.hands_ok(secrets, 0) && h.hands_ok(secrets, 1));
}

/// Changing a public card in place keeps the game consistent: when `GameState::ok` accepts
/// a game and the players' secrets, it accepts them after a change such as
/// `CardGame::modify_card` and `CardGame::modify_card_internal` make, where the card keeps its
/// ID and attachment, the rest of the instance table is unchanged, and the public zones are
/// unchanged but for `owner`'s field, re-sorted.
pub proof fn modify_keeps_consistency<S: State>(
    g: GameState<S>,
    h: GameState<S>,
    secrets: Seq<Option<&PlayerSecret<S>>>,
    id: InstanceID,
    owner: Player,
)
    requires
        g.secrets_wf(secrets),
        g.spec_ok(secrets),
        g.spec_public(id) is Some,
        h.spec_public(id) is Some,
        h.spec_public(id).unwrap().id == g.spec_public(id).unwrap().id,
        h.spec_public(id).unwrap().attachment == g.spec_public(id).unwrap().attachment,
        h.instances@.len() == g.instances@.len(),
        forall|j: int| 0 <= j < g.instances@.len() && j != id.0 ==> h.instances@[j] == g.instances@[j],
        resorted(g, h, owner) || h.player_cards == g.player_cards,
    ensures
        h.spec_ok(secrets),
{
    let mid = GameState { instances: h.instances, ..g };
    assert(same_shape(g.instances@, mid.instances@)) by {
        assert forall|k: int| 0 <= k < g.instances@.len() implies match (#[trigger] g.instances@[k], mid.instances@[k]) {
            (InstanceOrPlayer::Instance(x), InstanceOrPlayer::Instance(y)) => x.id == y.id && x.attachment == y.attachment,
            (InstanceOrPlayer::Player(p), InstanceOrPlayer::Player(q)) => p == q,
            _ => false,
        } by {
            if k != id.0 {
                assert(mid.instances@[k] == g.instances@[k]);
            }
        }
    }
    lemma_ok_same_shape(g, mid, secrets);
    assert forall|p: int| 0 <= p < 2 implies {
        let a = #[trigger] h.player_cards@[p];
        let b = mid.player_cards@[p];
        &&& a == (PlayerCards { field: a.field, ..b })
        &&& a.field@.to_multiset() == b.field@.to_multiset()
    } by {
        if h.player_cards == g.player_cards || p != owner {
            assert(h.player_cards@[p] == g.player_cards@[p]);
        }
    }
    lemma_ok_fields_permuted(mid, h, secrets);
}

} // verus!
