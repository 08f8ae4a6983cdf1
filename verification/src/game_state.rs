use vstd::prelude::*;

use crate::{Card, CardInstance, CardLocation, InstanceID, OpaquePointer, Player, PlayerCards, State, Zone};

verus! {

/// An entry of the public instance table: either the instance itself, when it is public, or
/// the player in whose secret it is.
pub enum InstanceOrPlayer<S: State> {
    Instance(CardInstance<S>),
    Player(Player),
}

impl<S: State> InstanceOrPlayer<S> {
    pub fn instance(self) -> (r: Option<CardInstance<S>>)
        ensures
            r == (match self {
                InstanceOrPlayer::Instance(i) => Some(i),
                InstanceOrPlayer::Player(_) => None,
            }),
    {
        match self {
            InstanceOrPlayer::Instance(instance) => Some(instance),
            _ => None,
        }
    }

    pub fn instance_ref(&self) -> (r: Option<&CardInstance<S>>)
        ensures
            r == (match *self {
                InstanceOrPlayer::Instance(i) => Some(&i),
                InstanceOrPlayer::Player(_) => None,
            }),
    {
        match self {
            InstanceOrPlayer::Instance(instance) => Some(instance),
            _ => None,
        }
    }

    pub fn instance_mut(&mut self) -> (r: Option<&mut CardInstance<S>>)
        ensures
            match *old(self) {
                InstanceOrPlayer::Instance(i) => r matches Some(x) && *x == i && *final(self) == InstanceOrPlayer::<S>::Instance(*final(x)),
                InstanceOrPlayer::Player(_) => r is None && *final(self) == *old(self),
            },
    {
        match self {
            InstanceOrPlayer::Instance(instance) => Some(instance),
            _ => None,
        }
    }

    pub fn player(&self) -> (r: Option<Player>)
        ensures
            r == (match *self {
                InstanceOrPlayer::Instance(_) => None,
                InstanceOrPlayer::Player(p) => Some(p),
            }),
    {
        match self {
            InstanceOrPlayer::Player(player) => Some(*player),
            _ => None,
        }
    }
}

/// The public state of a game: the instance table, each player's public cards, whether decks
/// are shuffled when a card is put into them, and the game's own state.
pub struct GameState<S: State> {
    pub instances: Vec<InstanceOrPlayer<S>>,
    pub player_cards: [PlayerCards; 2],
    pub shuffle_deck_on_insert: bool,
    pub state: S,
}

/// Entry `k` of `instances` is a public instance whose attachment is `id`.
pub open spec fn parent_slot_in<S: State>(instances: Seq<InstanceOrPlayer<S>>, k: int, id: InstanceID) -> bool {
    0 <= k < instances.len() && (match instances[k] {
        InstanceOrPlayer::Instance(inst) => inst.attachment == Some(id),
        InstanceOrPlayer::Player(_) => false,
    })
}

/// The ID of the public instance of `instances` that `id` is attached to, when exactly one
/// has it as its attachment.
pub open spec fn unique_parent_in<S: State>(instances: Seq<InstanceOrPlayer<S>>, id: InstanceID) -> Option<InstanceID> {
    if exists|k: int| parent_slot_in(instances, k, id) {
        let k = choose|k: int| parent_slot_in(instances, k, id);
        if forall|j: int| parent_slot_in(instances, j, id) ==> j == k {
            match instances[k] {
                InstanceOrPlayer::Instance(inst) => Some(inst.id),
                InstanceOrPlayer::Player(_) => None,
            }
        } else {
            None
        }
    } else {
        None
    }
}

/// Whether a machine value names one of the two players.
pub open spec fn is_player(p: Player) -> bool {
    p < 2
}

/// `a` and `b` differ at most in what their public instances hold besides their IDs and
/// attachments: the same entries are public, with the same IDs and attachments, and the
/// same players hold the others.
pub open spec fn same_shape<S: State>(a: Seq<InstanceOrPlayer<S>>, b: Seq<InstanceOrPlayer<S>>) -> bool {
    &&& a.len() == b.len()
    &&& forall|k: int| 0 <= k < a.len() ==> match (#[trigger] a[k], b[k]) {
        (InstanceOrPlayer::Instance(x), InstanceOrPlayer::Instance(y)) => x.id == y.id && x.attachment == y.attachment,
        (InstanceOrPlayer::Player(p), InstanceOrPlayer::Player(q)) => p == q,
        _ => false,
    }
}

/// The parent of a card depends only on the shape of the instance table.
pub proof fn lemma_unique_parent_same_shape<S: State>(a: Seq<InstanceOrPlayer<S>>, b: Seq<InstanceOrPlayer<S>>, id: InstanceID)
    requires
        same_shape(a, b),
    ensures
        unique_parent_in(a, id) == unique_parent_in(b, id),
{
    assert forall|k: int| parent_slot_in(a, k, id) == parent_slot_in(b, k, id) by {
        if 0 <= k < a.len() {
            let _ = a[k];
        }
    }
    assert((|k: int| parent_slot_in(a, k, id)) =~= (|k: int| parent_slot_in(b, k, id)));
    if exists|k: int| parent_slot_in(a, k, id) {
        let k = choose|k: int| parent_slot_in(a, k, id);
        assert(parent_slot_in(b, k, id));
        let _ = a[k];
    }
}

/// Where a card is, following at most `fuel` attachment links, depends only on the public
/// zones and the shape of the instance table.
pub proof fn lemma_location_fuel_same_shape<S: State>(g: GameState<S>, h: GameState<S>, id: InstanceID, fuel: nat)
    requires
        g.player_cards == h.player_cards,
        same_shape(g.instances@, h.instances@),
    ensures
        g.spec_location_fuel(id, fuel) == h.spec_location_fuel(id, fuel),
    decreases fuel,
{
    lemma_unique_parent_same_shape(g.instances@, h.instances@, id);
    if id.0 < g.instances@.len() {
        let _ = g.instances@[id.0 as int];
    }
    if fuel > 0 {
        if let Some(parent) = g.spec_unique_parent(id) {
            lemma_location_fuel_same_shape(g, h, parent, (fuel - 1) as nat);
        }
    }
}

/// Where a card is depends only on the public zones and the shape of the instance table.
/// Whether a card has at most one public parent depends on the instance table alone.
pub proof fn lemma_parent_known_same_table<S: State>(g: GameState<S>, h: GameState<S>, card: Card)
    requires
        g.instances@ == h.instances@,
    ensures
        g.parent_known_for(card) == h.parent_known_for(card),
{
    if let Card::ID(id) = card {
        assert forall|j: int| #[trigger] g.is_parent_slot(j, id) == h.is_parent_slot(j, id) by {}
        if g.parent_known(id) {
            assert forall|j: int, k: int| h.is_parent_slot(j, id) && h.is_parent_slot(k, id) implies j == k by {
                assert(g.is_parent_slot(j, id) && g.is_parent_slot(k, id));
            }
        }
        if h.parent_known(id) {
            assert forall|j: int, k: int| g.is_parent_slot(j, id) && g.is_parent_slot(k, id) implies j == k by {
                assert(h.is_parent_slot(j, id) && h.is_parent_slot(k, id));
            }
        }
        assert(g.parent_known(id) == h.parent_known(id));
        assert(g.instances@.len() == h.instances@.len());
    }
}

pub proof fn lemma_location_same_shape<S: State>(g: GameState<S>, h: GameState<S>, id: InstanceID)
    requires
        g.player_cards == h.player_cards,
        same_shape(g.instances@, h.instances@),
    ensures
        g.spec_location(id) == h.spec_location(id),
{
    lemma_location_fuel_same_shape(g, h, id, g.instances@.len() as nat);
}

impl<S: State> GameState<S> {
    /// The public zone that holds `id`, with its owner and index: the first player's if the
    /// first player has it.
    pub open spec fn spec_zone_location(self, id: InstanceID) -> Option<(Player, Zone, usize)> {
        match self.player_cards@[0].spec_location(id) {
            Some((z, i)) => Some((0, z, i)),
            None => match self.player_cards@[1].spec_location(id) {
                Some((z, i)) => Some((1, z, i)),
                None => None,
            },
        }
    }

    /// At most one player holds `id` in a public zone.
    pub open spec fn zone_location_unambiguous(self, id: InstanceID) -> bool {
        !(self.player_cards@[0].spec_location(id) is Some && self.player_cards@[1].spec_location(
            id,
        ) is Some)
    }

    /// Entry `k` of the instance table is a public instance whose attachment is `id`.
    pub open spec fn is_parent_slot(self, k: int, id: InstanceID) -> bool {
        parent_slot_in(self.instances@, k, id)
    }

    /// At most one public instance has `id` as its attachment.
    pub open spec fn parent_known(self, id: InstanceID) -> bool {
        forall|j: int, k: int| self.is_parent_slot(j, id) && self.is_parent_slot(k, id) ==> j == k
    }

    /// `card`, where it is the ID of a public instance, has at most one public parent.
    pub open spec fn parent_known_for(self, card: Card) -> bool {
        match card {
            Card::ID(id) => (id.0 < self.instances@.len() && self.instances@[id.0 as int] is Instance) ==> self.parent_known(id),
            Card::Pointer(_) => true,
        }
    }

    /// The ID of the public instance that `id` is attached to, when exactly one public
    /// instance has it as its attachment.
    pub open spec fn spec_unique_parent(self, id: InstanceID) -> Option<InstanceID> {
        unique_parent_in(self.instances@, id)
    }

    /// Where `id` is, following at most `fuel` attachment links; `None` where the location is
    /// not determined (an ID out of range, a card held publicly by both players, or an
    /// attachment without exactly one public parent).
    pub open spec fn spec_location_fuel(self, id: InstanceID, fuel: nat) -> Option<CardLocation>
        decreases fuel,
    {
        if id.0 >= self.instances.len() {
            None
        } else {
            match self.instances@[id.0 as int] {
                InstanceOrPlayer::Player(owner) => Some(CardLocation { player: owner, location: None }),
                InstanceOrPlayer::Instance(_) => {
                    if !self.zone_location_unambiguous(id) {
                        None
                    } else {
                        match self.spec_zone_location(id) {
                            Some((p, z, i)) => Some(
                                CardLocation { player: p, location: Some((z, Some(i))) },
                            ),
                            None => match self.spec_unique_parent(id) {
                                Some(parent) => if fuel == 0 {
                                    None
                                } else {
                                    match self.spec_location_fuel(parent, (fuel - 1) as nat) {
                                        Some(l) => Some(
                                            CardLocation {
                                                player: l.player,
                                                location: Some(
                                                    (
                                                        Zone::Attachment { parent: Card::ID(parent) },
                                                        None,
                                                    ),
                                                ),
                                            },
                                        ),
                                        None => None,
                                    }
                                },
                                None => None,
                            },
                        }
                    }
                },
            }
        }
    }

    /// Where `id` is, if that is determined.
    pub open spec fn spec_location(self, id: InstanceID) -> Option<CardLocation> {
        self.spec_location_fuel(id, self.instances.len() as nat)
    }

    pub fn new(state: S, shuffle_deck_on_insert: bool) -> (r: Self)
        ensures
            r.instances@.len() == 0,
            r.shuffle_deck_on_insert == shuffle_deck_on_insert,
            r.state == state,
            forall|p: int|
                0 <= p < 2 ==> {
                    let c = #[trigger] r.player_cards@[p];
                    &&& c.deck == 0
                    &&& c.hand@.len() == 0
                    &&& c.field@.len() == 0
                    &&& c.graveyard@.len() == 0
                    &&& c.dust@.len() == 0
                    &&& c.limbo@.len() == 0
                    &&& c.casting@.len() == 0
                    &&& c.card_selection == 0
                    &&& c.pointers == 0
                },
    {
        GameState {
            instances: Vec::new(),
            player_cards: [PlayerCards::default(), PlayerCards::default()],
            shuffle_deck_on_insert,
            state,
        }
    }

    pub fn all_player_cards(&self) -> (r: &[PlayerCards])
        ensures
            r@ == self.player_cards@,
    {
        self.player_cards.as_slice()
    }

    pub fn player_cards(&self, player: Player) -> (r: &PlayerCards)
        requires
            is_player(player),
        ensures
            *r == self.player_cards@[player as int],
    {
        &self.player_cards[player as usize]
    }

    /// Both players' public cards, to change in place.
    pub fn all_player_cards_mut(&mut self) -> (r: &mut [PlayerCards; 2])
        ensures
            *r == old(self).player_cards,
            *final(self) == (GameState { player_cards: *final(r), ..*old(self) }),
    {
        &mut self.player_cards
    }

    pub fn player_cards_mut(&mut self, player: Player) -> (r: &mut PlayerCards)
        requires
            is_player(player),
        ensures
            *r == old(self).player_cards@[player as int],
            final(self).player_cards@ == old(self).player_cards@.update(player as int, *final(r)),
            final(self).instances == old(self).instances,
            final(self).shuffle_deck_on_insert == old(self).shuffle_deck_on_insert,
            final(self).state == old(self).state,
    {
        &mut self.player_cards[player as usize]
    }

    /// Whether `card` names an instance of this game, or a pointer that was handed out.
    pub fn card_exists(&self, card: Card) -> (r: bool)
        ensures
            r == (match card {
                Card::ID(id) => id.0 < self.instances.len(),
                Card::Pointer(p) => is_player(p.player) && p.index
                    < self.player_cards@[p.player as int].pointers,
            }),
    {
        match card {
            Card::ID(id) => id.0 < self.instances.len(),
            Card::Pointer(OpaquePointer { player, index }) => {
                (player as usize) < 2 && index < self.player_cards(player).pointers
            },
        }
    }

    /// The number of entries of the instance table.
    pub fn instances(&self) -> (r: usize)
        ensures
            r == self.instances.len(),
    {
        self.instances.len()
    }

    /// The public zone that holds `id`, as `spec_zone_location` defines it.
    fn zone_location(&self, id: InstanceID) -> (r: (Option<(Zone, usize)>, Option<(Zone, usize)>))
        ensures
            r.0 == self.player_cards@[0].spec_location(id),
            r.1 == self.player_cards@[1].spec_location(id),
    {
        (self.player_cards[0].location(id), self.player_cards[1].location(id))
    }

    /// The ID of the unique public parent of `id`.
    fn unique_parent(&self, id: InstanceID) -> (r: Option<InstanceID>)
        ensures
            r == self.spec_unique_parent(id),
    {
        let mut found: Option<(usize, InstanceID)> = None;
        let mut i: usize = 0;
        while i < self.instances.len()
            invariant
                0 <= i <= self.instances.len(),
                match found {
                    None => forall|j: int| 0 <= j < i ==> !self.is_parent_slot(j, id),
                    Some((k, pid)) => {
                        &&& k < i
                        &&& self.is_parent_slot(k as int, id)
                        &&& (match self.instances@[k as int] {
                            InstanceOrPlayer::Instance(inst) => inst.id == pid,
                            _ => false,
                        })
                        &&& forall|j: int| 0 <= j < i && self.is_parent_slot(j, id) ==> j == k
                    },
                },
            decreases self.instances.len() - i,
        {
            match &self.instances[i] {
                InstanceOrPlayer::Instance(inst) => {
                    if inst.attachment == Some(id) {
                        match found {
                            None => {
                                found = Some((i, inst.id));
                            },
                            Some((k, _)) => {
                                proof {
                                    assert(parent_slot_in(self.instances@, k as int, id));
                                    assert(parent_slot_in(self.instances@, i as int, id));
                                    let c = choose|c: int| parent_slot_in(self.instances@, c, id);
                                    if c == k as int {
                                        assert(!(parent_slot_in(self.instances@, i as int, id) ==> i as int == c));
                                    } else {
                                        assert(!(parent_slot_in(self.instances@, k as int, id) ==> k as int == c));
                                    }
                                }
                                return None;
                            },
                        }
                    }
                },
                InstanceOrPlayer::Player(_) => {},
            }
            i = i + 1;
        }
        match found {
            None => {
                proof {
                    assert forall|k: int| !parent_slot_in(self.instances@, k, id) by {
                        if 0 <= k < self.instances@.len() {
                            assert(!self.is_parent_slot(k, id));
                        }
                    }
                }
                None
            },
            Some((k, pid)) => {
                proof {
                    assert(self.is_parent_slot(k as int, id));
                    let c = choose|c: int| parent_slot_in(self.instances@, c, id);
                    assert(self.is_parent_slot(c, id));
                    assert(c == k);
                    assert forall|j: int| parent_slot_in(self.instances@, j, id) implies j == c by {
                        assert(self.is_parent_slot(j, id));
                    }
                }
                Some(pid)
            },
        }
    }

    /// Whether some public instance has `id` as its attachment.
    fn any_parent(&self, id: InstanceID) -> (r: bool)
        ensures
            r == exists|k: int| self.is_parent_slot(k, id),
    {
        let mut i: usize = 0;
        while i < self.instances.len()
            invariant
                0 <= i <= self.instances.len(),
                forall|j: int| 0 <= j < i ==> !self.is_parent_slot(j, id),
            decreases self.instances.len() - i,
        {
            if let InstanceOrPlayer::Instance(inst) = &self.instances[i] {
                if inst.attachment == Some(id) {
                    proof {
                        assert(self.is_parent_slot(i as int, id));
                    }
                    return true;
                }
            }
            i = i + 1;
        }
        false
    }

    /// The public instance that `id` is attached to: `Ok(None)` when there is none, and
    /// `Err(())` when there are several.
    pub fn public_parent(&self, id: InstanceID) -> (r: Result<Option<InstanceID>, ()>)
        ensures
            r == Ok::<Option<InstanceID>, ()>(None) <==> !exists|k: int| self.is_parent_slot(k, id),
            r == Ok::<Option<InstanceID>, ()>(None) ==> self.spec_unique_parent(id) is None,
            r matches Ok(Some(p)) ==> self.spec_unique_parent(id) == Some(p),
            r is Err ==> exists|j: int, k: int| j != k && self.is_parent_slot(j, id) && self.is_parent_slot(k, id),
    {
        if !self.any_parent(id) {
            proof {
                assert forall|k: int| !parent_slot_in(self.instances@, k, id) by {
                    assert(!self.is_parent_slot(k, id));
                }
            }
            return Ok(None);
        }
        match self.unique_parent(id) {
            Some(p) => Ok(Some(p)),
            None => {
                proof {
                    let k = choose|k: int| parent_slot_in(self.instances@, k, id);
                    assert(!(forall|j: int| parent_slot_in(self.instances@, j, id) ==> j == k));
                    let j = choose|j: int| !(parent_slot_in(self.instances@, j, id) ==> j == k);
                    assert(j != k && self.is_parent_slot(j, id) && self.is_parent_slot(k, id));
                }
                Err(())
            },
        }
    }

    fn location_fuel(&self, id: InstanceID, fuel: usize) -> (r: Option<CardLocation>)
        ensures
            r == self.spec_location_fuel(id, fuel as nat),
        decreases fuel,
    {
        if id.0 >= self.instances.len() {
            return None;
        }
        match &self.instances[id.0] {
            InstanceOrPlayer::Player(owner) => Some(CardLocation { player: *owner, location: None }),
            InstanceOrPlayer::Instance(_) => {
                let (l0, l1) = self.zone_location(id);
                if l0.is_some() && l1.is_some() {
                    return None;
                }
                match l0 {
                    Some((z, i)) => Some(CardLocation { player: 0, location: Some((z, Some(i))) }),
                    None => match l1 {
                        Some((z, i)) => Some(CardLocation { player: 1, location: Some((z, Some(i))) }),
                        None => match self.unique_parent(id) {
                            Some(parent) => {
                                if fuel == 0 {
                                    return None;
                                }
                                match self.location_fuel(parent, fuel - 1) {
                                    Some(l) => Some(
                                        CardLocation {
                                            player: l.player,
                                            location: Some(
                                                (Zone::Attachment { parent: Card::ID(parent) }, None),
                                            ),
                                        },
                                    ),
                                    None => None,
                                }
                            },
                            None => None,
                        },
                    },
                }
            },
        }
    }

    /// Where `id` is, when that is determined.
    pub fn try_location(&self, id: InstanceID) -> (r: Option<CardLocation>)
        ensures
            r == self.spec_location(id),
    {
        self.location_fuel(id, self.instances.len())
    }

    /// Where `id` is: the player whose secret holds it, the player's public zone and index,
    /// or the attachment zone of its public parent (owned by the parent's owner).
    pub fn location(&self, id: InstanceID) -> (r: CardLocation)
        requires
            self.spec_location(id) is Some,
        ensures
            Some(r) == self.spec_location(id),
    {
        self.try_location(id).unwrap()
    }

    /// The player who owns `id`.
    pub fn owner(&self, id: InstanceID) -> (r: Player)
        requires
            self.spec_location(id) is Some,
        ensures
            r == self.spec_location(id).unwrap().player,
    {
        self.location(id).player
    }
}

} // verus!
