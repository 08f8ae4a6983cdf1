//! Attaching a card to a parent card: the public side, step by step.

use vstd::prelude::*;

use crate::card_game::{Effect, MoveCard, MoveResult, Step};
use crate::game_state::InstanceOrPlayer;
use crate::move_card::{push_logs, spec_target};
use crate::pile_move::{is_pile, pile, pile_location, pile_removed};
use crate::PlayerCards;
use crate::secret_protocol::{SecretAnswer, SecretChange, SecretQuery};
use crate::{Card, CardEvent, CardInstance, CardLocation, ExactCardLocation, GameState, InstanceID, Player, State, Zone};

verus! {

/// How far an `AttachCard` has got.
pub enum AttachPhase {
    AwaitCardBucket,
    AwaitParentBucket,
    AwaitParentId,
    DustingOldAttachment,
    AwaitParentTarget,
    AwaitCardId,
    AwaitLocation,
    AwaitTransferId,
    AwaitCardInstance,
    AwaitLateId,
    AwaitPublicParentCardId,
    Finished,
}

/// An `attach_card` in progress: attaching `card` to `parent`.
pub struct AttachCard<S: State> {
    pub card: Card,
    pub parent: Card,
    pub buckets: Vec<Option<Player>>,
    pub card_bucket: Option<Player>,
    pub parent_bucket: Option<Player>,
    pub parent_id: Option<InstanceID>,
    pub parent_owner: Player,
    pub card_id: Option<InstanceID>,
    pub owner: Player,
    pub location: Option<(Zone, Option<usize>)>,
    pub deferred_logs: Vec<CardEvent<S>>,
    pub dusting: Option<MoveCard>,
    pub phase: AttachPhase,
}

fn target(card: Card, id: Option<InstanceID>) -> (r: Card)
    ensures
        r == spec_target(card, id),
{
    match id {
        Some(i) => Card::ID(i),
        None => card,
    }
}

/// The bucket of each instance: `None` when public, else the player whose secret holds it.
pub fn placements<S: State>(game: &GameState<S>) -> (r: Vec<Option<Player>>)
    ensures
        r@.len() == game.instances@.len(),
        forall|i: int| 0 <= i < r@.len() ==> #[trigger] r@[i] == match game.instances@[i] {
            InstanceOrPlayer::Instance(_) => None,
            InstanceOrPlayer::Player(p) => Some(p),
        },
{
    let mut r: Vec<Option<Player>> = Vec::new();
    let mut i: usize = 0;
    while i < game.instances.len()
        invariant
            0 <= i <= game.instances.len(),
            r@.len() == i,
            forall|j: int| 0 <= j < i ==> #[trigger] r@[j] == match game.instances@[j] {
                InstanceOrPlayer::Instance(_) => None,
                InstanceOrPlayer::Player(p) => Some(p),
            },
        decreases game.instances.len() - i,
    {
        r.push(game.instances[i].player());
        i = i + 1;
    }
    r
}

fn copy_placements(v: &Vec<Option<Player>>) -> (r: Vec<Option<Player>>)
    ensures
        r@ == v@,
{
    let mut r: Vec<Option<Player>> = Vec::new();
    let mut i: usize = 0;
    while i < v.len()
        invariant
            0 <= i <= v.len(),
            r@ == v@.subrange(0, i as int),
        decreases v.len() - i,
    {
        r.push(v[i]);
        i = i + 1;
        proof {
            assert(r@ =~= v@.subrange(0, i as int));
        }
    }
    proof {
        assert(r@ =~= v@);
    }
    r
}

/// Appends `step`'s effects to `effects` when it is a `Done`, returning its result; a
/// `Reveal` or `Failed` step is handed back unchanged.
fn take_done<S: State>(effects: &mut Vec<Effect<S>>, step: Step<S, MoveResult>) -> (r: Result<MoveResult, Step<S, MoveResult>>)
    ensures
        match step {
            Step::Done { effects: e, result } => r == Ok::<MoveResult, Step<S, MoveResult>>(result) && final(effects)@
                == old(effects)@ + e@,
            _ => r == Err::<MoveResult, Step<S, MoveResult>>(step) && final(effects)@ == old(effects)@,
        },
{
    match step {
        Step::Done { effects: mut e, result } => {
            effects.append(&mut e);
            Ok(result)
        },
        other => Err(other),
    }
}

/// The card `p` of `game` can take an attachment publicly with nothing re-sorted: it is public,
/// at a position of a public pile other than the field.
pub open spec fn attach_target_ok<S: State>(game: GameState<S>, p: InstanceID) -> bool {
    &&& game.spec_public(p) is Some
    &&& pile_location(game, p) is Some
    &&& pile_location(game, p).unwrap().1 != Zone::Field
}

/// Taking another card out of a pile leaves `p` in the same zone of the same player's cards.
proof fn lemma_cards_location_kept(b: PlayerCards, a: PlayerCards, zone: Zone, i: int, c: InstanceID, p: InstanceID)
    requires
        is_pile(zone),
        0 <= i < pile(b, zone).len(),
        pile(b, zone)[i] == c,
        c != p,
        pile_removed(b, a, zone, i),
    ensures
        (a.spec_location(p) is Some) == (b.spec_location(p) is Some),
        b.spec_location(p) is Some ==> a.spec_location(p).unwrap().0 == b.spec_location(p).unwrap().0,
{
    assert forall|z: Zone| is_pile(z) implies #[trigger] pile(a, z).contains(p) == pile(b, z).contains(p) by {
        if z == zone {
            let s = pile(b, z);
            assert(pile(a, z) == s.remove(i));
            if s.contains(p) {
                let j = choose|j: int| 0 <= j < s.len() && s[j] == p;
                if j < i {
                    assert(s.remove(i)[j] == p);
                } else {
                    assert(j != i);
                    assert(s.remove(i)[j - 1] == p);
                }
            }
            if s.remove(i).contains(p) {
                let j = choose|j: int| 0 <= j < s.remove(i).len() && s.remove(i)[j] == p;
                if j < i {
                    assert(s[j] == p);
                } else {
                    assert(s[j + 1] == p);
                }
            }
        }
    }
    assert(pile(a, Zone::Field).contains(p) == pile(b, Zone::Field).contains(p));
    assert(pile(a, Zone::Graveyard).contains(p) == pile(b, Zone::Graveyard).contains(p));
    assert(pile(a, Zone::Dust { public: true }).contains(p) == pile(b, Zone::Dust { public: true }).contains(p));
    assert(pile(a, Zone::Limbo { public: true }).contains(p) == pile(b, Zone::Limbo { public: true }).contains(p));
    assert(pile(a, Zone::Casting).contains(p) == pile(b, Zone::Casting).contains(p));
}

/// Taking another card out of a pile keeps `p` ready to take an attachment.
proof fn lemma_target_kept<S: State>(g: GameState<S>, h: GameState<S>, owner: Player, zone: Zone, i: int, c: InstanceID, p: InstanceID)
    requires
        owner < 2,
        is_pile(zone),
        0 <= i < pile(g.player_cards@[owner as int], zone).len(),
        pile(g.player_cards@[owner as int], zone)[i] == c,
        c != p,
        h.instances == g.instances,
        pile_removed(g.player_cards@[owner as int], h.player_cards@[owner as int], zone, i),
        h.player_cards@[1 - owner] == g.player_cards@[1 - owner],
        attach_target_ok(g, p),
    ensures
        attach_target_ok(h, p),
{
    lemma_cards_location_kept(g.player_cards@[owner as int], h.player_cards@[owner as int], zone, i, c, p);
    let q = 1 - owner;
    assert(h.player_cards@[q] == g.player_cards@[q]);
    assert((h.player_cards@[0].spec_location(p) is Some) == (g.player_cards@[0].spec_location(p) is Some));
    assert((h.player_cards@[1].spec_location(p) is Some) == (g.player_cards@[1].spec_location(p) is Some));
    assert(g.spec_zone_location(p) is Some);
    let _ = g.instances@[p.0 as int];
}

/// What a resumed attachment owes for an answer of the kind its phase asks for: a pointer
/// parent is asked about next; a card whose ID or instance is learnt in a secret is asked
/// about or attached there; a card learnt late, or a card put in the parent's secret, is
/// attached; a public card is attached to a public parent that can take it.
pub open spec fn attach_resumed<S: State>(m: AttachCard<S>, before: GameState<S>, answer: SecretAnswer<S>, r: Step<S, MoveResult>) -> bool {
    let id = answer->Id_0;
    let i = answer->Instances_0;
    &&& (m.phase is AwaitCardBucket && answer is Placement && m.parent is Pointer) ==> r is Reveal
    &&& (m.phase is AwaitCardId && answer is Id && m.card_bucket is Some) ==> r is Reveal
    &&& (m.phase is AwaitTransferId && answer is Id && m.card_bucket is Some) ==> r is Reveal
    &&& (m.phase is AwaitLateId && answer is Id && m.parent_bucket is Some) ==> r is Done
    &&& (m.phase is AwaitCardInstance && answer is Instances && i is Some && m.card_bucket is Some && m.parent_bucket is Some
        && i.unwrap().id.0 < before.instances@.len()) ==> r is Done
    &&& (m.phase is AwaitPublicParentCardId && answer is Id && m.parent_id is Some && before.spec_public(id) is Some
        && attach_target_ok(before, m.parent_id.unwrap())) ==> r is Done
    &&& (m.phase is AwaitParentId && answer is Id && m.card is ID && m.card_bucket is None && m.parent_bucket is None
        && m.card->ID_0 != id && pile_location(before, m.card->ID_0) is Some && before.spec_public(m.card->ID_0) is Some
        && attach_target_ok(before, id) && before.spec_public(id).unwrap().attachment is None) ==> r is Done
    &&& ((m.phase is AwaitCardBucket || m.phase is AwaitParentBucket) && !(answer is Placement)) ==> r is Failed
    &&& ((m.phase is AwaitParentId || m.phase is AwaitParentTarget || m.phase is AwaitCardId || m.phase is AwaitTransferId
        || m.phase is AwaitLateId || m.phase is AwaitPublicParentCardId) && !(answer is Id)) ==> r is Failed
    &&& (m.phase is AwaitLocation && !(answer is Location)) ==> r is Failed
    &&& (m.phase is AwaitCardInstance && !(answer is Instances && answer->Instances_0 is Some)) ==> r is Failed
    &&& m.phase is Finished ==> r is Failed
}

/// A finished attachment of a card that a secret handed over to a public parent puts in the
/// instance table the very instance the secret handed over.
pub open spec fn attach_revealed<S: State>(m: AttachCard<S>, answer: SecretAnswer<S>, r: Step<S, MoveResult>, after: GameState<S>) -> bool {
    let i = answer->Instances_0;
    (m.phase is AwaitCardInstance && answer is Instances && i is Some && m.card_bucket is Some && m.parent_bucket is None
        && r is Done && (m.parent_id is None || m.parent_id.unwrap() != i.unwrap().id))
        ==> after.instances@[i.unwrap().id.0 as int] == InstanceOrPlayer::Instance(i.unwrap())
}

impl<S: State> AttachCard<S> {
    /// An attachment that finished with its card named and its parent public leaves that
    /// card as the parent's attachment.
    pub open spec fn attached_publicly(self, r: Step<S, MoveResult>, game: GameState<S>) -> bool {
        r matches Step::Done { result: Ok((_, Some(c))), .. } ==> (self.parent_bucket is None ==> (
            self.parent_id matches Some(p) && game.spec_public(p) matches Some(i) && i.attachment == Some(c)))
    }

    /// An attachment that finished with its card named and its parent public attached the
    /// card and to the parent it was asked to, where it was asked by their IDs.
    pub open spec fn attached_as_named(self, r: Step<S, MoveResult>, game: GameState<S>) -> bool {
        &&& r matches Step::Done { result, .. } ==> result is Ok
        &&& r matches Step::Done { result: Ok((_, c)), .. } ==> (self.parent_bucket is None ==> (
            (self.card is ID ==> c == Some(self.card->ID_0)) && (self.parent is ID ==> self.parent_id == Some(self.parent->ID_0))))
    }

    /// The IDs this attachment has learnt are those of its card and parent, where they were
    /// named by ID.
    pub open spec fn names_kept(self) -> bool {
        &&& (self.parent is ID && self.parent_id is Some ==> self.parent_id == Some(self.parent->ID_0))
        &&& (self.card is ID && self.card_id is Some ==> self.card_id == Some(self.card->ID_0))
    }

    /// Starts attaching `card` to `parent`.
    pub fn start(game: &mut GameState<S>, card: Card, parent: Card) -> (r: (AttachCard<S>, Step<S, MoveResult>))
        ensures
            final(game).instances@.len() == old(game).instances@.len(),
            r.0.card == card,
            r.0.parent == parent,
            (card matches Card::ID(c) && parent matches Card::ID(p) && c.0 < old(game).instances@.len()
                && p.0 < old(game).instances@.len() && old(game).instances@[c.0 as int] is Instance
                && old(game).instances@[p.0 as int] is Player) ==> !(r.1 is Reveal),
            r.0.attached_publicly(r.1, *final(game)),
            r.0.attached_as_named(r.1, *final(game)),
            (card is ID && parent is ID && parent->ID_0.0 < old(game).instances@.len()
                && old(game).instances@[parent->ID_0.0 as int] is Instance) ==> r.0.parent_bucket is None,
            (card is ID && parent is ID && card->ID_0 != parent->ID_0 && pile_location(*old(game), card->ID_0) is Some
                && old(game).spec_public(card->ID_0) is Some && attach_target_ok(*old(game), parent->ID_0)
                && old(game).spec_public(parent->ID_0).unwrap().attachment is None) ==> r.1 is Done,
            (card is ID && parent is ID && old(game).spec_public(parent->ID_0) is Some && r.1 is Done) ==> (final(game).spec_public(
                parent->ID_0,
            ) matches Some(i) && i.attachment == Some(card->ID_0)),
            ({
                let c = card->ID_0;
                (card is ID && parent is ID && parent->ID_0.0 < old(game).instances@.len()
                    && old(game).instances@[parent->ID_0.0 as int] is Player && pile_location(*old(game), c) is Some
                    && c.0 < old(game).instances@.len() && old(game).instances@[c.0 as int] is Instance && old(game).instances@[c.0 as int]->Instance_0.id.0 < old(game).instances@.len()) ==> r.1 is Done
            }),
    {
        let buckets = placements(game);
        let mut machine = AttachCard {
            card,
            parent,
            buckets,
            card_bucket: None,
            parent_bucket: None,
            parent_id: None,
            parent_owner: 0,
            card_id: None,
            owner: 0,
            location: None,
            deferred_logs: Vec::new(),
            dusting: None,
            phase: AttachPhase::Finished,
        };
        match card {
            Card::ID(id) => {
                if id.0 >= machine.buckets.len() {
                    return (machine, Step::Failed { effects: Vec::new() });
                }
                machine.card_bucket = machine.buckets[id.0];
                proof {
                    if let Card::ID(p) = parent {
                        if p.0 < game.instances@.len() {
                            assert(machine.buckets@[p.0 as int] == match game.instances@[p.0 as int] {
                                InstanceOrPlayer::Instance(_) => None,
                                InstanceOrPlayer::Player(q) => Some(q),
                            });
                        }
                    }
                }
                let step = machine.after_card_bucket(game, Vec::new());
                (machine, step)
            },
            Card::Pointer(p) => {
                machine.phase = AttachPhase::AwaitCardBucket;
                let buckets = copy_placements(&machine.buckets);
                (
                    machine,
                    Step::Reveal {
                        effects: Vec::new(),
                        player: p.player,
                        query: SecretQuery::PointerPlacement { index: p.index, buckets },
                    },
                )
            },
        }
    }

    /// Resumes with the answer to the last question.
    pub fn resume(&mut self, game: &mut GameState<S>, answer: SecretAnswer<S>) -> (r: Step<S, MoveResult>)
        ensures
            final(game).instances@.len() == old(game).instances@.len(),
            final(self).card == old(self).card,
            final(self).parent == old(self).parent,
            final(self).attached_publicly(r, *final(game)),
            attach_resumed(*old(self), *old(game), answer, r),
            attach_revealed(*old(self), answer, r, *final(game)),
    {
        match self.phase {
            AttachPhase::AwaitCardBucket => match answer {
                SecretAnswer::Placement(b) => {
                    self.card_bucket = b;
                    self.after_card_bucket(game, Vec::new())
                },
                _ => Step::Failed { effects: Vec::new() },
            },
            AttachPhase::AwaitParentBucket => match answer {
                SecretAnswer::Placement(b) => {
                    self.parent_bucket = b;
                    self.after_parent_bucket(game, Vec::new())
                },
                _ => Step::Failed { effects: Vec::new() },
            },
            AttachPhase::AwaitParentId => match answer {
                SecretAnswer::Id(id) => self.with_public_parent(game, Vec::new(), id),
                _ => Step::Failed { effects: Vec::new() },
            },
            AttachPhase::DustingOldAttachment => {
                let step = match &mut self.dusting {
                    Some(m) => m.resume(game, answer),
                    None => {
                        return Step::Failed { effects: Vec::new() };
                    },
                };
                self.after_dusting(game, Vec::new(), step)
            },
            AttachPhase::AwaitParentTarget => match answer {
                SecretAnswer::Id(id) => {
                    self.parent_id = Some(id);
                    self.after_parent_id(game, Vec::new())
                },
                _ => Step::Failed { effects: Vec::new() },
            },
            AttachPhase::AwaitCardId => match answer {
                SecretAnswer::Id(id) => {
                    self.card_id = Some(id);
                    self.after_card_id(game, Vec::new())
                },
                _ => Step::Failed { effects: Vec::new() },
            },
            AttachPhase::AwaitLocation => match answer {
                SecretAnswer::Location(l) => {
                    self.location = l;
                    self.after_location(game, Vec::new())
                },
                _ => Step::Failed { effects: Vec::new() },
            },
            AttachPhase::AwaitTransferId => match answer {
                SecretAnswer::Id(id) => self.transfer(game, Vec::new(), id),
                _ => Step::Failed { effects: Vec::new() },
            },
            AttachPhase::AwaitCardInstance => match answer {
                SecretAnswer::Instances(Some(instance), _) => {
                    let mut effects: Vec<Effect<S>> = Vec::new();
                    let cbp = match self.card_bucket {
                        Some(p) => p,
                        None => {
                            return Step::Failed { effects };
                        },
                    };
                    let id = instance.id;
                    effects.push(Effect::Mutate { player: cbp, change: SecretChange::RemoveInstance { id } });
                    self.place(game, effects, instance)
                },
                _ => Step::Failed { effects: Vec::new() },
            },
            AttachPhase::AwaitLateId => match answer {
                SecretAnswer::Id(id) => {
                    self.card_id = Some(id);
                    self.attach_step(game, Vec::new())
                },
                _ => Step::Failed { effects: Vec::new() },
            },
            AttachPhase::AwaitPublicParentCardId => match answer {
                SecretAnswer::Id(id) => {
                    self.card_id = Some(id);
                    self.public_attach(game, Vec::new())
                },
                _ => Step::Failed { effects: Vec::new() },
            },
            AttachPhase::Finished => Step::Failed { effects: Vec::new() },
        }
    }

    fn after_card_bucket(&mut self, game: &mut GameState<S>, effects: Vec<Effect<S>>) -> (r: Step<S, MoveResult>)
        ensures
            final(game).instances@.len() == old(game).instances@.len(),
            old(self).card is ID && old(self).parent is ID && old(self).card_bucket is None
                && old(self).parent->ID_0.0 < old(self).buckets@.len()
                && old(self).buckets@[old(self).parent->ID_0.0 as int] is Some ==> !(r is Reveal),
            final(self).card == old(self).card,
            final(self).parent == old(self).parent,
            final(self).attached_publicly(r, *final(game)),
            old(self).names_kept() ==> final(self).attached_as_named(r, *final(game)),
            (old(self).parent is ID && old(self).parent->ID_0.0 < old(self).buckets@.len()) ==> final(self).parent_bucket
                == old(self).buckets@[old(self).parent->ID_0.0 as int],
            (old(self).card is ID && old(self).parent is ID && old(self).card_bucket is None
                && old(self).parent->ID_0.0 < old(self).buckets@.len() && old(self).buckets@[old(self).parent->ID_0.0 as int] is None
                && old(self).card->ID_0 != old(self).parent->ID_0 && pile_location(*old(game), old(self).card->ID_0) is Some
                && old(game).spec_public(old(self).card->ID_0) is Some && attach_target_ok(*old(game), old(self).parent->ID_0)
                && old(game).spec_public(old(self).parent->ID_0).unwrap().attachment is None) ==> r is Done,
            ({
                let c = old(self).card->ID_0;
                (old(self).card is ID && old(self).parent is ID && old(self).card_bucket is None
                    && old(self).parent->ID_0.0 < old(self).buckets@.len() && old(self).buckets@[old(self).parent->ID_0.0 as int] is Some
                    && pile_location(*old(game), c) is Some && c.0 < old(game).instances@.len() && old(game).instances@[c.0 as int] is Instance && old(game).instances@[c.0 as int]->Instance_0.id.0 < old(game).instances@.len())
                    ==> r is Done
            }),
            old(self).parent is Pointer ==> r is Reveal,
    {
        match self.parent {
            Card::ID(id) => {
                if id.0 >= self.buckets.len() {
                    return Step::Failed { effects };
                }
                self.parent_bucket = self.buckets[id.0];
                self.after_parent_bucket(game, effects)
            },
            Card::Pointer(p) => {
                self.phase = AttachPhase::AwaitParentBucket;
                let buckets = copy_placements(&self.buckets);
                Step::Reveal {
                    effects,
                    player: p.player,
                    query: SecretQuery::PointerPlacement { index: p.index, buckets },
                }
            },
        }
    }

    fn after_parent_bucket(&mut self, game: &mut GameState<S>, effects: Vec<Effect<S>>) -> (r: Step<S, MoveResult>)
        ensures
            final(game).instances@.len() == old(game).instances@.len(),
            old(self).card is ID && old(self).parent is ID && old(self).card_bucket is None
                && old(self).parent_bucket is Some ==> !(r is Reveal),
            final(self).card == old(self).card,
            final(self).parent == old(self).parent,
            final(self).attached_publicly(r, *final(game)),
            final(self).parent_bucket == old(self).parent_bucket,
            old(self).names_kept() ==> final(self).attached_as_named(r, *final(game)),
            (old(self).card is ID && old(self).parent is ID && old(self).card_bucket is None && old(self).parent_bucket is None
                && old(self).card->ID_0 != old(self).parent->ID_0 && pile_location(*old(game), old(self).card->ID_0) is Some
                && old(game).spec_public(old(self).card->ID_0) is Some && attach_target_ok(*old(game), old(self).parent->ID_0)
                && old(game).spec_public(old(self).parent->ID_0).unwrap().attachment is None) ==> r is Done,
            ({
                let c = old(self).card->ID_0;
                (old(self).card is ID && old(self).parent is ID && old(self).card_bucket is None && old(self).parent_bucket is Some
                    && pile_location(*old(game), c) is Some && c.0 < old(game).instances@.len() && old(game).instances@[c.0 as int] is Instance && old(game).instances@[c.0 as int]->Instance_0.id.0 < old(game).instances@.len())
                    ==> r is Done
            }),
    {
        match self.parent_bucket {
            None => match self.parent {
                Card::ID(id) => self.with_public_parent(game, effects, id),
                Card::Pointer(p) => {
                    self.phase = AttachPhase::AwaitParentId;
                    Step::Reveal { effects, player: p.player, query: SecretQuery::PointerTarget { index: p.index } }
                },
            },
            Some(pcp) => match self.parent {
                Card::Pointer(p) => {
                    if p.player == pcp {
                        self.parent_id = None;
                        self.after_parent_id(game, effects)
                    } else {
                        self.phase = AttachPhase::AwaitParentTarget;
                        Step::Reveal { effects, player: p.player, query: SecretQuery::PointerTarget { index: p.index } }
                    }
                },
                Card::ID(id) => {
                    self.parent_id = Some(id);
                    self.after_parent_id(game, effects)
                },
            },
        }
    }

    /// The parent is public: its current attachment, if any, is moved to its owner's public
    /// dust first.
    fn with_public_parent(&mut self, game: &mut GameState<S>, effects: Vec<Effect<S>>, id: InstanceID) -> (r: Step<S, MoveResult>)
        ensures
            final(game).instances@.len() == old(game).instances@.len(),
            final(self).card == old(self).card,
            final(self).parent == old(self).parent,
            final(self).attached_publicly(r, *final(game)),
            final(self).parent_bucket == old(self).parent_bucket,
            old(self).names_kept() && (old(self).parent is ID ==> id == old(self).parent->ID_0) ==> final(self).attached_as_named(r, *final(game)),
            (old(self).card is ID && old(self).card_bucket is None && old(self).parent_bucket is None && old(self).card->ID_0 != id
                && pile_location(*old(game), old(self).card->ID_0) is Some && old(game).spec_public(old(self).card->ID_0) is Some
                && attach_target_ok(*old(game), id) && old(game).spec_public(id).unwrap().attachment is None) ==> r is Done,
    {
        let attachment = match game.public_instance(id) {
            Some(i) => i.attachment,
            None => {
                return Step::Failed { effects };
            },
        };
        let owner = match game.try_location(id) {
            Some(l) => match l.location {
                Some(_) => l.player,
                None => {
                    return Step::Failed { effects };
                },
            },
            None => {
                return Step::Failed { effects };
            },
        };
        self.parent_id = Some(id);
        self.parent_owner = owner;
        match attachment {
            Some(a) => {
                let (m, step) = MoveCard::start(game, Card::ID(a), owner, Zone::Dust { public: true });
                self.dusting = Some(m);
                self.phase = AttachPhase::DustingOldAttachment;
                self.after_dusting(game, effects, step)
            },
            None => self.after_parent_id(game, effects),
        }
    }

    /// Follows the move of the parent's old attachment to dust.
    fn after_dusting(&mut self, game: &mut GameState<S>, effects: Vec<Effect<S>>, step: Step<S, MoveResult>) -> (r: Step<S, MoveResult>)
        ensures
            final(game).instances@.len() == old(game).instances@.len(),
            final(self).card == old(self).card,
            final(self).parent == old(self).parent,
            final(self).attached_publicly(r, *final(game)),
            final(self).parent_bucket == old(self).parent_bucket,
            old(self).names_kept() ==> final(self).attached_as_named(r, *final(game)),
    {
        let mut effects = effects;
        match take_done(&mut effects, step) {
            Ok(result) => match result {
                Ok(_) => {
                    self.dusting = None;
                    self.after_parent_id(game, effects)
                },
                Err(_) => Step::Failed { effects },
            },
            Err(step) => match step {
                Step::Reveal { effects: e, player, query } => {
                    let mut e = e;
                    effects.append(&mut e);
                    Step::Reveal { effects, player, query }
                },
                Step::Failed { effects: e } => {
                    let mut e = e;
                    effects.append(&mut e);
                    Step::Failed { effects }
                },
                Step::Done { effects: e, .. } => {
                    let mut e = e;
                    effects.append(&mut e);
                    Step::Failed { effects }
                },
            },
        }
    }

    fn after_parent_id(&mut self, game: &mut GameState<S>, effects: Vec<Effect<S>>) -> (r: Step<S, MoveResult>)
        ensures
            final(game).instances@.len() == old(game).instances@.len(),
            old(self).card is ID && old(self).card_bucket is None && old(self).parent_id is Some
                && old(self).parent_bucket is Some ==> !(r is Reveal),
            final(self).card == old(self).card,
            final(self).parent == old(self).parent,
            final(self).attached_publicly(r, *final(game)),
            final(self).parent_bucket == old(self).parent_bucket,
            old(self).names_kept() ==> final(self).attached_as_named(r, *final(game)),
            (old(self).card is ID && old(self).card_bucket is None && old(self).parent_id is Some && old(self).parent_bucket is None
                && old(self).card->ID_0 != old(self).parent_id.unwrap() && pile_location(*old(game), old(self).card->ID_0) is Some
                && old(game).spec_public(old(self).card->ID_0) is Some && attach_target_ok(*old(game), old(self).parent_id.unwrap()))
                ==> r is Done,
            ({
                let c = old(self).card->ID_0;
                (old(self).card is ID && old(self).card_bucket is None && old(self).parent_bucket is Some
                    && pile_location(*old(game), c) is Some && c.0 < old(game).instances@.len() && old(game).instances@[c.0 as int] is Instance && old(game).instances@[c.0 as int]->Instance_0.id.0 < old(game).instances@.len())
                    ==> r is Done
            }),
    {
        match self.card {
            Card::Pointer(p) => {
                if Some(p.player) == self.card_bucket {
                    self.card_id = None;
                    self.after_card_id(game, effects)
                } else {
                    self.phase = AttachPhase::AwaitCardId;
                    Step::Reveal { effects, player: p.player, query: SecretQuery::PointerTarget { index: p.index } }
                }
            },
            Card::ID(id) => {
                self.card_id = Some(id);
                self.after_card_id(game, effects)
            },
        }
    }

    fn after_card_id(&mut self, game: &mut GameState<S>, effects: Vec<Effect<S>>) -> (r: Step<S, MoveResult>)
        ensures
            final(game).instances@.len() == old(game).instances@.len(),
            old(self).card_bucket is None && old(self).card_id is Some && old(self).parent_id is Some
                && old(self).parent_bucket is Some ==> !(r is Reveal),
            final(self).card == old(self).card,
            final(self).parent == old(self).parent,
            final(self).attached_publicly(r, *final(game)),
            final(self).parent_bucket == old(self).parent_bucket,
            old(self).names_kept() && (old(self).card is ID ==> old(self).card_id is Some) ==> final(self).attached_as_named(r, *final(game)),
            (old(self).card_bucket is None && old(self).card_id is Some && old(self).parent_id is Some && old(self).parent_bucket is None
                && old(self).card_id.unwrap() != old(self).parent_id.unwrap() && pile_location(*old(game), old(self).card_id.unwrap()) is Some
                && old(game).spec_public(old(self).card_id.unwrap()) is Some && attach_target_ok(*old(game), old(self).parent_id.unwrap()))
                ==> r is Done,
            ({
                let c = old(self).card_id.unwrap();
                (old(self).card_bucket is None && old(self).card_id is Some && old(self).parent_bucket is Some
                    && pile_location(*old(game), c) is Some && c.0 < old(game).instances@.len() && old(game).instances@[c.0 as int] is Instance && old(game).instances@[c.0 as int]->Instance_0.id.0 < old(game).instances@.len())
                    ==> r is Done
            }),
            old(self).card_bucket is Some ==> r is Reveal,
    {
        let mut effects = effects;
        match self.card_bucket {
            None => {
                let id = match self.card_id {
                    Some(id) => id,
                    None => {
                        return Step::Failed { effects };
                    },
                };
                proof {
                    if pile_location(*game, id) is Some {
                        crate::pile_move::lemma_pile_location(*game, id);
                    }
                }
                match game.try_location(id) {
                    Some(l) => match l.location {
                        Some(location) => {
                            self.owner = l.player;
                            self.location = Some(location);
                            self.after_location(game, effects)
                        },
                        None => Step::Failed { effects },
                    },
                    None => Step::Failed { effects },
                }
            },
            Some(player) => {
                self.owner = player;
                let t = target(self.card, self.card_id);
                effects.push(Effect::Mutate { player, change: SecretChange::DeferLocation { card: t } });
                self.phase = AttachPhase::AwaitLocation;
                Step::Reveal { effects, player, query: SecretQuery::MoveLocation { card: t } }
            },
        }
    }

    /// Takes the card out of where it was, publicly and in its owner's secret.
    fn after_location(&mut self, game: &mut GameState<S>, effects: Vec<Effect<S>>) -> (r: Step<S, MoveResult>)
        ensures
            final(game).instances@.len() == old(game).instances@.len(),
            old(self).card_bucket is None && old(self).card_id is Some && old(self).parent_id is Some
                && old(self).parent_bucket is Some ==> !(r is Reveal),
            final(self).card == old(self).card,
            final(self).parent == old(self).parent,
            final(self).attached_publicly(r, *final(game)),
            final(self).parent_bucket == old(self).parent_bucket,
            old(self).names_kept() && (old(self).card is ID ==> old(self).card_id is Some) ==> final(self).attached_as_named(r, *final(game)),
            ({
                let c = old(self).card_id.unwrap();
                let l = old(self).location.unwrap();
                (old(self).card_bucket is None && old(self).parent_bucket is None && old(self).card_id is Some
                    && old(self).parent_id is Some && c != old(self).parent_id.unwrap() && old(self).owner < 2
                    && old(self).location is Some && l.1 is Some && is_pile(l.0)
                    && l.1.unwrap() < pile(old(game).player_cards@[old(self).owner as int], l.0).len()
                    && pile(old(game).player_cards@[old(self).owner as int], l.0)[l.1.unwrap() as int] == c
                    && old(game).spec_public(c) is Some && attach_target_ok(*old(game), old(self).parent_id.unwrap())) ==> r is Done
            }),
            ({
                let c = old(self).card_id.unwrap();
                let l = old(self).location.unwrap();
                (old(self).card_bucket is None && old(self).parent_bucket is Some && old(self).card_id is Some && old(self).owner < 2
                    && old(self).location is Some && l.1 is Some && is_pile(l.0)
                    && l.1.unwrap() < pile(old(game).player_cards@[old(self).owner as int], l.0).len()
                    && c.0 < old(game).instances@.len() && old(game).instances@[c.0 as int] is Instance && old(game).instances@[c.0 as int]->Instance_0.id.0 < old(game).instances@.len()) ==> r is Done
            }),
    {
        let mut effects = effects;
        if let Some((zone, index)) = self.location {
            match zone {
                Zone::Attachment { parent: Card::ID(p) } => {
                    let id = match self.card_id {
                        Some(id) => id,
                        None => {
                            return Step::Failed { effects };
                        },
                    };
                    let attach_clone = match game.public_instance(id) {
                        Some(i) => i.clone(),
                        None => {
                            return Step::Failed { effects };
                        },
                    };
                    if !game.detach_public(p, &attach_clone, &mut self.deferred_logs) {
                        return Step::Failed { effects };
                    }
                },
                Zone::Attachment { .. } => {
                    return Step::Failed { effects };
                },
                _ => {
                    let i = match index {
                        Some(i) => i,
                        None => 0,
                    };
                    if self.owner >= 2 || !game.player_cards(self.owner).can_remove(zone, i) {
                        return Step::Failed { effects };
                    }
                    let ghost before = *game;
                    game.player_cards_mut(self.owner).remove_from(zone, i);
                    proof {
                        let owner = self.owner;
                        if is_pile(zone) && old(self).card_id is Some && old(self).parent_id is Some
                            && index is Some && i < pile(before.player_cards@[owner as int], zone).len()
                            && pile(before.player_cards@[owner as int], zone)[i as int] == old(self).card_id.unwrap()
                            && old(self).card_id.unwrap() != old(self).parent_id.unwrap()
                            && attach_target_ok(before, old(self).parent_id.unwrap()) {
                            let b = before.player_cards@[owner as int];
                            let m = game.player_cards@[owner as int];
                            assert(pile_removed(b, m, zone, i as int)) by {
                                assert forall|z2: Zone| is_pile(z2) implies #[trigger] pile(m, z2) == if z2 == zone {
                                    pile(b, z2).remove(i as int)
                                } else {
                                    pile(b, z2)
                                } by {}
                            }
                            assert(game.player_cards@[1 - owner] == before.player_cards@[1 - owner]);
                            lemma_target_kept(before, *game, owner, zone, i as int, old(self).card_id.unwrap(), old(self).parent_id.unwrap());
                        }
                    }
                },
            }
        }
        effects.push(Effect::Mutate {
            player: self.owner,
            change: SecretChange::RemoveIdDeferred { card: target(self.card, self.card_id) },
        });
        if self.card_bucket != self.parent_bucket {
            match self.card_id {
                Some(id) => self.transfer(game, effects, id),
                None => match self.card {
                    Card::Pointer(p) => {
                        self.phase = AttachPhase::AwaitTransferId;
                        Step::Reveal { effects, player: p.player, query: SecretQuery::PointerTarget { index: p.index } }
                    },
                    Card::ID(_) => Step::Failed { effects },
                },
            }
        } else {
            self.attach_step(game, effects)
        }
    }

    /// Moves the card's instance to the parent's bucket.
    fn transfer(&mut self, game: &mut GameState<S>, effects: Vec<Effect<S>>, card_id: InstanceID) -> (r: Step<S, MoveResult>)
        ensures
            final(game).instances@.len() == old(game).instances@.len(),
            old(self).card_bucket is None && old(self).parent_id is Some && old(self).parent_bucket is Some ==> !(r is Reveal),
            final(self).card == old(self).card,
            final(self).parent == old(self).parent,
            final(self).attached_publicly(r, *final(game)),
            final(self).parent_bucket == old(self).parent_bucket,
            old(self).names_kept() && (old(self).card is ID ==> old(self).card_id is Some) && old(self).card_id == Some(card_id) ==> final(self).attached_as_named(r, *final(game)),
            (old(self).card_bucket is None && old(self).parent_bucket is Some && card_id.0 < old(game).instances@.len()
                && old(game).instances@[card_id.0 as int] is Instance && old(game).instances@[card_id.0 as int]->Instance_0.id.0 < old(game).instances@.len()) ==> r is Done,
            old(self).card_bucket is Some ==> r is Reveal,
    {
        match self.card_bucket {
            None => {
                let pbp = match self.parent_bucket {
                    Some(p) => p,
                    None => {
                        return Step::Failed { effects };
                    },
                };
                if card_id.0 >= game.instances.len() {
                    return Step::Failed { effects };
                }
                let mut entry = InstanceOrPlayer::Player(pbp);
                std::mem::swap(&mut game.instances[card_id.0], &mut entry);
                match entry.instance() {
                    Some(instance) => self.place(game, effects, instance),
                    None => Step::Failed { effects },
                }
            },
            Some(cbp) => {
                self.phase = AttachPhase::AwaitCardInstance;
                Step::Reveal { effects, player: cbp, query: SecretQuery::InstanceOf { id: card_id } }
            },
        }
    }

    /// Puts the card's instance in the parent's bucket.
    fn place(&mut self, game: &mut GameState<S>, effects: Vec<Effect<S>>, instance: CardInstance<S>) -> (r: Step<S, MoveResult>)
        ensures
            (old(self).parent_bucket is None && r is Done && (old(self).parent_id is None || old(self).parent_id.unwrap()
                != instance.id)) ==> final(game).instances@[instance.id.0 as int] == InstanceOrPlayer::Instance(instance),
            final(game).instances@.len() == old(game).instances@.len(),
            old(self).parent_id is Some && old(self).parent_bucket is Some ==> !(r is Reveal),
            final(self).card == old(self).card,
            final(self).parent == old(self).parent,
            final(self).attached_publicly(r, *final(game)),
            final(self).parent_bucket == old(self).parent_bucket,
            old(self).names_kept() && (old(self).card is ID ==> old(self).card_id is Some) ==> final(self).attached_as_named(r, *final(game)),
            (old(self).parent_bucket is Some && instance.id.0 < old(game).instances@.len()) ==> r is Done,
    {
        let mut effects = effects;
        let card_id = instance.id;
        if card_id.0 >= game.instances.len() {
            return Step::Failed { effects };
        }
        match self.parent_bucket {
            None => {
                game.instances.set(card_id.0, InstanceOrPlayer::Instance(instance));
            },
            Some(pbp) => {
                game.instances.set(card_id.0, InstanceOrPlayer::Player(pbp));
                effects.push(Effect::Mutate { player: pbp, change: SecretChange::InsertInstance { instance } });
            },
        }
        if self.card_id.is_none() {
            self.card_id = Some(card_id);
        }
        self.attach_step(game, effects)
    }

    /// Attaches the card to the parent, in the parent's bucket.
    fn attach_step(&mut self, game: &mut GameState<S>, effects: Vec<Effect<S>>) -> (r: Step<S, MoveResult>)
        ensures
            forall|j: int|
                0 <= j < old(game).instances@.len() && (old(self).parent_id is None || j != old(self).parent_id.unwrap().0)
                    ==> final(game).instances@[j] == old(game).instances@[j],
            final(game).instances@.len() == old(game).instances@.len(),
            old(self).card_id is Some && old(self).parent_id is Some && old(self).parent_bucket is Some ==> r is Done,
            old(self).card_id is Some && old(self).parent_bucket is Some ==> r is Done,
            final(self).card == old(self).card,
            final(self).parent == old(self).parent,
            final(self).attached_publicly(r, *final(game)),
            final(self).parent_bucket == old(self).parent_bucket,
            old(self).names_kept() ==> final(self).attached_as_named(r, *final(game)),
            (old(self).card_id is Some && old(self).parent_id is Some && old(self).parent_bucket is None
                && old(game).spec_public(old(self).card_id.unwrap()) is Some && attach_target_ok(*old(game), old(self).parent_id.unwrap()))
                ==> r is Done,
    {
        let mut effects = effects;
        if self.card_id.is_none() {
            if let Some(pbp) = self.parent_bucket {
                if self.card_bucket != Some(pbp) {
                    match (self.card_bucket, self.card) {
                        (Some(cbp), Card::Pointer(p)) => {
                            self.phase = AttachPhase::AwaitLateId;
                            return Step::Reveal { effects, player: cbp, query: SecretQuery::PointerTarget { index: p.index } };
                        },
                        _ => {
                            return Step::Failed { effects };
                        },
                    }
                }
            }
        }
        let location = self.location;
        match self.parent_id {
            None => {
                let pbp = match self.parent_bucket {
                    Some(p) => p,
                    None => {
                        return Step::Failed { effects };
                    },
                };
                effects.push(Effect::MutateOrLog {
                    player: pbp,
                    change: SecretChange::AttachWithin {
                        card: target(self.card, self.card_id),
                        parent: self.parent,
                        location,
                        same_bucket: self.card_bucket == Some(pbp),
                    },
                    event: CardEvent::MoveCard {
                        instance: None,
                        from: CardLocation { player: self.owner, location },
                        to: ExactCardLocation { player: pbp, location: (Zone::Attachment { parent: self.parent }, 0) },
                    },
                });
                self.finish(effects)
            },
            Some(pid) => match self.parent_bucket {
                None => {
                    if self.card_id.is_none() {
                        match self.card {
                            Card::ID(id) => {
                                self.card_id = Some(id);
                            },
                            Card::Pointer(p) => {
                                self.phase = AttachPhase::AwaitPublicParentCardId;
                                return Step::Reveal { effects, player: p.player, query: SecretQuery::PointerTarget { index: p.index } };
                            },
                        }
                    }
                    self.public_attach(game, effects)
                },
                Some(pbp) => {
                    effects.push(Effect::MutateOrLog {
                        player: pbp,
                        change: SecretChange::AttachWithin {
                            card: target(self.card, self.card_id),
                            parent: Card::ID(pid),
                            location,
                            same_bucket: self.card_bucket == Some(pbp),
                        },
                        event: CardEvent::MoveCard {
                            instance: None,
                            from: CardLocation { player: self.owner, location },
                            to: ExactCardLocation {
                                player: pbp,
                                location: (Zone::Attachment { parent: Card::ID(pid) }, 0),
                            },
                        },
                    });
                    self.finish(effects)
                },
            },
        }
    }

    /// Attaches the card to the public parent.
    fn public_attach(&mut self, game: &mut GameState<S>, effects: Vec<Effect<S>>) -> (r: Step<S, MoveResult>)
        ensures
            forall|j: int|
                0 <= j < old(game).instances@.len() && (old(self).parent_id is None || j != old(self).parent_id.unwrap().0)
                    ==> final(game).instances@[j] == old(game).instances@[j],
            final(game).instances@.len() == old(game).instances@.len(),
            final(self).card == old(self).card,
            final(self).parent == old(self).parent,
            final(self).attached_publicly(r, *final(game)),
            final(self).parent_bucket == old(self).parent_bucket,
            old(self).names_kept() ==> final(self).attached_as_named(r, *final(game)),
            (old(self).parent_id is Some && old(self).card_id is Some && old(game).spec_public(old(self).card_id.unwrap()) is Some
                && attach_target_ok(*old(game), old(self).parent_id.unwrap())) ==> r is Done,
    {
        let mut effects = effects;
        let (pid, card_id) = match (self.parent_id, self.card_id) {
            (Some(p), Some(c)) => (p, c),
            _ => {
                return Step::Failed { effects };
            },
        };
        let new_attach = match game.public_instance(card_id) {
            Some(i) => i.clone(),
            None => {
                return Step::Failed { effects };
            },
        };
        let parent_owner = match game.try_location(pid) {
            Some(l) => l.player,
            None => {
                return Step::Failed { effects };
            },
        };
        let from = CardLocation { player: self.owner, location: self.location };
        let to = ExactCardLocation { player: parent_owner, location: (Zone::Attachment { parent: Card::ID(pid) }, 0) };
        let mut logs: Vec<CardEvent<S>> = Vec::new();
        if !game.attach_public(pid, card_id, &new_attach, from, to, &mut logs) {
            return Step::Failed { effects };
        }
        while logs.len() > 0
            invariant
                self.card == old(self).card,
                self.parent == old(self).parent,
                self.parent_id == Some(pid),
                self.card_id == Some(card_id),
                self.parent_bucket == old(self).parent_bucket,
                game.spec_public(pid) matches Some(i) && i.attachment == Some(card_id),
            decreases logs@.len(),
        {
            let msg = logs.remove(0);
            match msg {
                CardEvent::MoveCard { instance, from, to } => {
                    let public_instance = match &instance {
                        Some((a, b)) => Some((a.clone(), match b {
                            Some(x) => Some(x.clone()),
                            None => None,
                        })),
                        None => None,
                    };
                    effects.push(Effect::MutateOrLog {
                        player: from.player,
                        change: SecretChange::LogMove { instance, from, to },
                        event: CardEvent::MoveCard { instance: public_instance, from, to },
                    });
                },
                other => self.deferred_logs.push(other),
            }
        }
        self.finish(effects)
    }

    /// Logs what was held back and finishes.
    fn finish(&mut self, effects: Vec<Effect<S>>) -> (r: Step<S, MoveResult>)
        ensures
            final(self).card == old(self).card,
            final(self).parent == old(self).parent,
            final(self).parent_id == old(self).parent_id,
            final(self).parent_bucket == old(self).parent_bucket,
            r matches Step::Done { result, .. } && result matches Ok((_, c)) && c == old(self).card_id,
    {
        let mut effects = effects;
        self.phase = AttachPhase::Finished;
        let mut deferred: Vec<CardEvent<S>> = Vec::new();
        std::mem::swap(&mut deferred, &mut self.deferred_logs);
        push_logs(&mut effects, deferred);
        effects.push(Effect::Mutate { player: 0, change: SecretChange::DrainDeferredLogs });
        effects.push(Effect::Mutate { player: 1, change: SecretChange::DrainDeferredLogs });
        Step::Done {
            effects,
            result: Ok((CardLocation { player: self.owner, location: self.location }, self.card_id)),
        }
    }
}

} // verus!
