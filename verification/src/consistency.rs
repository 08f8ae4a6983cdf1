//! The consistency of the public state with the players' secrets.

use vstd::prelude::*;

use crate::game_state::InstanceOrPlayer;
use crate::error::RevealOkError;
use crate::{Card, CardInstance, GameState, InstanceID, Player, PlayerSecret, State};

verus! {

/// The number of occurrences of `x` in `s`.
pub open spec fn count_of<T>(s: Seq<T>, x: T) -> nat
    decreases s.len(),
{
    if s.len() == 0 {
        0
    } else {
        count_of(s.drop_last(), x) + if s.last() == x {
            1nat
        } else {
            0nat
        }
    }
}

/// The number of occurrences of `id` in `v`.
pub fn count_id(v: &Vec<InstanceID>, id: InstanceID) -> (r: usize)
    ensures
        r == count_of(v@, id),
{
    let mut c: usize = 0;
    let mut i: usize = 0;
    while i < v.len()
        invariant
            0 <= i <= v.len(),
            c == count_of(v@.subrange(0, i as int), id),
            c <= i,
        decreases v.len() - i,
    {
        proof {
            assert(v@.subrange(0, i as int + 1).drop_last() =~= v@.subrange(0, i as int));
        }
        if v[i] == id {
            c = c + 1;
        }
        i = i + 1;
    }
    proof {
        assert(v@.subrange(0, v@.len() as int) =~= v@);
    }
    c
}

/// The number of occurrences of `Some(id)` in `v`.
pub fn count_some_id(v: &Vec<Option<InstanceID>>, id: InstanceID) -> (r: usize)
    ensures
        r == count_of(v@, Some(id)),
{
    let mut c: usize = 0;
    let mut i: usize = 0;
    while i < v.len()
        invariant
            0 <= i <= v.len(),
            c == count_of(v@.subrange(0, i as int), Some(id)),
            c <= i,
        decreases v.len() - i,
    {
        proof {
            assert(v@.subrange(0, i as int + 1).drop_last() =~= v@.subrange(0, i as int));
        }
        if v[i] == Some(id) {
            c = c + 1;
        }
        i = i + 1;
    }
    proof {
        assert(v@.subrange(0, v@.len() as int) =~= v@);
    }
    c
}

/// A sum that stops growing at `usize::MAX`.
fn add_sat(a: usize, b: usize) -> (r: usize)
    ensures
        r == if a + b > usize::MAX {
            usize::MAX as int
        } else {
            a + b
        },
{
    if a > usize::MAX - b {
        usize::MAX
    } else {
        a + b
    }
}

/// `x`, or `usize::MAX` where `x` is larger.
pub open spec fn sat(x: int) -> int {
    if x > usize::MAX {
        usize::MAX as int
    } else {
        x
    }
}

/// The number of instances of `v` whose attachment is `id`.
fn count_attached<S: State>(v: &Vec<CardInstance<S>>, id: InstanceID) -> (r: usize)
    ensures
        r == count_of(v@.map_values(|i: CardInstance<S>| i.attachment), Some(id)),
{
    let ghost a = v@.map_values(|i: CardInstance<S>| i.attachment);
    let mut c: usize = 0;
    let mut i: usize = 0;
    while i < v.len()
        invariant
            0 <= i <= v.len(),
            a == v@.map_values(|i: CardInstance<S>| i.attachment),
            c == count_of(a.subrange(0, i as int), Some(id)),
            c <= i,
        decreases v.len() - i,
    {
        proof {
            assert(a.subrange(0, i as int + 1).drop_last() =~= a.subrange(0, i as int));
        }
        if v[i].attachment == Some(id) {
            c = c + 1;
        }
        i = i + 1;
    }
    proof {
        assert(a.subrange(0, a.len() as int) =~= a);
    }
    c
}

/// The secret of player `p`, when it is given.
pub open spec fn secret_of<S: State>(secrets: Seq<Option<&PlayerSecret<S>>>, p: int) -> Option<PlayerSecret<S>> {
    match secrets[p] {
        Some(s) => Some(*s),
        None => None,
    }
}

impl<S: State> GameState<S> {
    /// Whether the secrets and the public state agree about `id`, an instance that is real
    /// (public, or held in a secret).
    pub open spec fn id_agrees(self, secrets: Seq<Option<&PlayerSecret<S>>>, id: InstanceID) -> bool {
        match self.instances@[id.0 as int] {
            InstanceOrPlayer::Player(player) => {
                &&& (secret_of(secrets, player as int) matches Some(s) ==> s.has(id))
                &&& (secret_of(secrets, 1 - player) matches Some(s) ==> !s.has(id))
                &&& (secret_of(secrets, player as int) matches Some(s) ==> (s.get(id).attachment matches Some(a) ==> s.has(a)))
            },
            InstanceOrPlayer::Instance(instance) => {
                &&& forall|p: int| 0 <= p < 2 ==> (#[trigger] secret_of(secrets, p) matches Some(s) ==> !s.has(id))
                &&& (instance.attachment matches Some(a) ==> self.instances@[a.0 as int] is Instance)
            },
        }
    }

    /// The number of places `id` is in, in public and secret state: the public zones, the
    /// attachments of public instances, and the secret zones and attachments.
    pub open spec fn occurrences(self, secrets: Seq<Option<&PlayerSecret<S>>>, id: InstanceID) -> int {
        self.public_occurrences(id, 0) + self.public_occurrences(id, 1) + self.secret_occurrences(
            secrets,
            id,
            0,
        ) + self.secret_occurrences(secrets, id, 1)
    }

    /// The public instances owned by `player` that have `id` as their attachment.
    pub open spec fn attached_count(self, id: InstanceID, player: int, upto: int) -> nat
        decreases upto,
    {
        if upto <= 0 {
            0
        } else {
            self.attached_count(id, player, upto - 1) + match self.instances@[upto - 1] {
                InstanceOrPlayer::Instance(inst) => if inst.attachment == Some(id)
                    && self.spec_location(inst.id).unwrap().player == player {
                    1nat
                } else {
                    0nat
                },
                InstanceOrPlayer::Player(_) => 0nat,
            }
        }
    }

    pub open spec fn public_occurrences(self, id: InstanceID, player: int) -> int {
        let c = self.player_cards@[player];
        (count_of(c.hand@, Some(id)) + count_of(c.field@, id) + count_of(c.graveyard@, id)
            + count_of(c.limbo@, id) + count_of(c.casting@, id) + count_of(c.dust@, id)
            + self.attached_count(id, player, self.instances@.len() as int)) as int
    }

    pub open spec fn secret_occurrences(self, secrets: Seq<Option<&PlayerSecret<S>>>, id: InstanceID, p: int) -> int {
        match secret_of(secrets, p) {
            Some(s) => (count_of(s.deck@, id) + count_of(s.hand@, Some(id)) + count_of(s.limbo@, id)
                + count_of(s.dust@, id) + count_of(s.card_selection@, id) + count_of(
                s.attachments(),
                Some(id),
            )) as int,
            None => 0,
        }
    }

    /// Whether a public and a secret hand agree at every position they share: exactly one of
    /// them holds an ID there.
    pub open spec fn hands_agree(public: Seq<Option<InstanceID>>, secret: Seq<Option<InstanceID>>) -> bool {
        forall|i: int| 0 <= i < public.len() && i < secret.len() ==> (#[trigger] public[i] is Some) != (secret[i] is Some)
    }

    /// No pointer of player `p`'s secret, when it is given, is out of bounds.
    pub open spec fn secret_pointers_ok(self, secrets: Seq<Option<&PlayerSecret<S>>>, p: int) -> bool {
        secret_of(secrets, p) matches Some(s) ==> forall|i: int|
            0 <= i < s.pointers@.len() ==> (#[trigger] s.pointers@[i]).0 < self.instances@.len()
    }

    /// Every public instance agrees with the secrets.
    pub open spec fn public_ids_ok(self, secrets: Seq<Option<&PlayerSecret<S>>>) -> bool {
        forall|k: int|
            0 <= k < self.instances@.len() && self.instances@[k] is Instance ==> self.id_agrees(
                secrets,
                (#[trigger] self.instances@[k])->Instance_0.id,
            )
    }

    /// Every instance of player `p`'s secret, when it is given, agrees with the public state.
    pub open spec fn secret_ids_ok(self, secrets: Seq<Option<&PlayerSecret<S>>>, p: int) -> bool {
        secret_of(secrets, p) matches Some(s) ==> forall|j: int|
            0 <= j < s.instances@.len() ==> self.id_agrees(secrets, (#[trigger] s.instances@[j]).id)
    }

    /// An ID occurs at most once in all zones and attachments combined.
    pub open spec fn counts_ok(self, secrets: Seq<Option<&PlayerSecret<S>>>) -> bool {
        forall|k: int| 0 <= k < self.instances@.len() ==> #[trigger] self.occurrences(secrets, InstanceID(k as usize)) <= 1
    }

    /// Every instance of player `p`'s secret that the table gives to a player whose secret is
    /// given is in a zone of that secret.
    pub open spec fn secret_zones_ok(self, secrets: Seq<Option<&PlayerSecret<S>>>, p: int) -> bool {
        secret_of(secrets, p) matches Some(s) ==> forall|j: int|
            0 <= j < s.instances@.len() ==> (match self.instances@[(#[trigger] s.instances@[j]).id.0 as int] {
                InstanceOrPlayer::Player(owner) => secret_of(secrets, owner as int) matches Some(o) ==> o.spec_location(
                    Card::ID(s.instances@[j].id),
                ).location is Some,
                InstanceOrPlayer::Instance(_) => true,
            })
    }

    /// The sizes of player `p`'s public deck and card selection match the secret ones, and the
    /// public and secret hands agree, when the secret is given.
    pub open spec fn sizes_ok(self, secrets: Seq<Option<&PlayerSecret<S>>>, p: int) -> bool {
        secret_of(secrets, p) matches Some(s) ==> {
            &&& s.deck@.len() == self.player_cards@[p].deck
            &&& s.card_selection@.len() == self.player_cards@[p].card_selection
        }
    }

    pub open spec fn hands_ok(self, secrets: Seq<Option<&PlayerSecret<S>>>, p: int) -> bool {
        secret_of(secrets, p) matches Some(s) ==> Self::hands_agree(self.player_cards@[p].hand@, s.hand@)
    }

    /// What `ok` checks: the public state and the given secrets agree.
    pub open spec fn spec_ok(self, secrets: Seq<Option<&PlayerSecret<S>>>) -> bool {
        &&& self.secret_pointers_ok(secrets, 0)
        &&& self.secret_pointers_ok(secrets, 1)
        &&& self.public_ids_ok(secrets)
        &&& self.secret_ids_ok(secrets, 0)
        &&& self.secret_ids_ok(secrets, 1)
        &&& self.counts_ok(secrets)
        &&& self.secret_zones_ok(secrets, 0)
        &&& self.secret_zones_ok(secrets, 1)
        &&& self.sizes_ok(secrets, 0)
        &&& self.sizes_ok(secrets, 1)
        &&& self.hands_ok(secrets, 0)
        &&& self.hands_ok(secrets, 1)
    }

    /// The instance table can be read: players in range, IDs and attachments in range, and a
    /// determined location for every public instance.
    pub open spec fn table_wf(self) -> bool {
        forall|k: int|
            0 <= k < self.instances@.len() ==> match #[trigger] self.instances@[k] {
                InstanceOrPlayer::Player(p) => p < 2,
                InstanceOrPlayer::Instance(inst) => {
                    &&& inst.id.0 < self.instances@.len()
                    &&& self.spec_location(inst.id) is Some
                    &&& (inst.attachment matches Some(a) ==> a.0 < self.instances@.len())
                },
            }
    }

    /// Player `p`'s secret, when it is given, is well-formed and its IDs are in range.
    pub open spec fn secret_wf(self, secrets: Seq<Option<&PlayerSecret<S>>>, p: int) -> bool {
        secret_of(secrets, p) matches Some(s) ==> {
            &&& s.wf()
            &&& forall|j: int| 0 <= j < s.instances@.len() ==> (#[trigger] s.instances@[j]).id.0 < self.instances@.len()
        }
    }

    /// The instance IDs of player `p`'s secret, when it is given, are in range.
    pub open spec fn secret_ids_in_range(self, secrets: Seq<Option<&PlayerSecret<S>>>, p: int) -> bool {
        secret_of(secrets, p) matches Some(s) ==> forall|j: int|
            0 <= j < s.instances@.len() ==> (#[trigger] s.instances@[j]).id.0 < self.instances@.len()
    }

    /// What `ok` needs to be able to look at its arguments at all: the instance table can be
    /// read, and the secrets' IDs index it.
    pub open spec fn ok_requires(self, secrets: Seq<Option<&PlayerSecret<S>>>) -> bool {
        &&& secrets.len() == 2
        &&& self.table_wf()
        &&& self.secret_ids_in_range(secrets, 0)
        &&& self.secret_ids_in_range(secrets, 1)
    }

    /// The given secrets are well-formed, and `ok` can look at them.
    pub open spec fn secrets_wf(self, secrets: Seq<Option<&PlayerSecret<S>>>) -> bool {
        &&& self.ok_requires(secrets)
        &&& self.secret_wf(secrets, 0)
        &&& self.secret_wf(secrets, 1)
    }
}

/// A `RevealOkError` with `msg`.
fn fail(msg: &str) -> (r: Result<(), RevealOkError>)
    ensures
        r matches Err(RevealOkError::Error { err }) && err@ == msg@,
{
    Err(RevealOkError::Error { err: msg.to_owned() })
}

impl<S: State> GameState<S> {
    /// Whether the secrets and the public state agree about `id`.
    fn check_id(&self, secrets: &[Option<&PlayerSecret<S>>], id: InstanceID) -> (r: bool)
        requires
            secrets@.len() == 2,
            id.0 < self.instances@.len(),
            self.instances@[id.0 as int] matches InstanceOrPlayer::Player(p) ==> p < 2,
            self.instances@[id.0 as int] matches InstanceOrPlayer::Instance(inst) ==> (
            inst.attachment matches Some(a) ==> a.0 < self.instances@.len()),
        ensures
            r == self.id_agrees(secrets@, id),
    {
        match &self.instances[id.0] {
            InstanceOrPlayer::Player(player) => {
                let player = *player;
                if let Some(secret) = secrets[player as usize] {
                    if secret.slot_of(id).is_none() {
                        return false;
                    }
                }
                if let Some(secret) = secrets[(1 - player) as usize] {
                    if secret.slot_of(id).is_some() {
                        return false;
                    }
                }
                if let Some(secret) = secrets[player as usize] {
                    let k = secret.slot_of(id).unwrap();
                    if let Some(a) = secret.instances[k].attachment {
                        if secret.slot_of(a).is_none() {
                            return false;
                        }
                    }
                }
                true
            },
            InstanceOrPlayer::Instance(instance) => {
                if let Some(secret) = secrets[0] {
                    if secret.slot_of(id).is_some() {
                        proof {
                            assert(secret_of(secrets@, 0) == Some(*secret));
                        }
                        return false;
                    }
                }
                if let Some(secret) = secrets[1] {
                    if secret.slot_of(id).is_some() {
                        proof {
                            assert(secret_of(secrets@, 1) == Some(*secret));
                        }
                        return false;
                    }
                }
                proof {
                    assert forall|q: int| 0 <= q < 2 implies (#[trigger] secret_of(secrets@, q) matches Some(s) ==> !s.has(id)) by {
                        if q == 0 {} else {}
                    }
                }
                if let Some(a) = instance.attachment {
                    if self.instances[a.0].player().is_some() {
                        return false;
                    }
                }
                true
            },
        }
    }

    /// No pointer of player `p`'s secret is out of bounds.
    fn check_secret_pointers(&self, secrets: &[Option<&PlayerSecret<S>>], p: usize) -> (r: bool)
        requires
            secrets@.len() == 2,
            p < 2,
        ensures
            r == self.secret_pointers_ok(secrets@, p as int),
    {
        if let Some(secret) = secrets[p] {
            proof {
                assert(secret_of(secrets@, p as int) == Some(*secret));
            }
            let mut i: usize = 0;
            while i < secret.pointers.len()
                invariant
                    0 <= i <= secret.pointers@.len(),
                    secret_of(secrets@, p as int) == Some(*secret),
                    forall|k: int| 0 <= k < i ==> (#[trigger] secret.pointers@[k]).0 < self.instances@.len(),
                decreases secret.pointers.len() - i,
            {
                if secret.pointers[i].0 >= self.instances.len() {
                    return false;
                }
                i = i + 1;
            }
        }
        true
    }

    /// Every public instance agrees with the secrets.
    fn check_public_ids(&self, secrets: &[Option<&PlayerSecret<S>>]) -> (r: bool)
        requires
            secrets@.len() == 2,
            self.table_wf(),
        ensures
            r == self.public_ids_ok(secrets@),
    {
        let mut i: usize = 0;
        while i < self.instances.len()
            invariant
                0 <= i <= self.instances@.len(),
                secrets@.len() == 2,
                self.table_wf(),
                forall|k: int|
                    0 <= k < i && self.instances@[k] is Instance ==> self.id_agrees(
                        secrets@,
                        (#[trigger] self.instances@[k])->Instance_0.id,
                    ),
            decreases self.instances.len() - i,
        {
            if let InstanceOrPlayer::Instance(inst) = &self.instances[i] {
                let id = inst.id;
                proof {
                    let _ = self.instances@[id.0 as int];
                }
                if !self.check_id(secrets, id) {
                    return false;
                }
            }
            i = i + 1;
        }
        true
    }

    /// Every instance of player `p`'s secret agrees with the public state.
    fn check_secret_ids(&self, secrets: &[Option<&PlayerSecret<S>>], p: usize) -> (r: bool)
        requires
            secrets@.len() == 2,
            p < 2,
            self.table_wf(),
            self.secret_ids_in_range(secrets@, p as int),
        ensures
            r == self.secret_ids_ok(secrets@, p as int),
    {
        if let Some(secret) = secrets[p] {
            proof {
                assert(secret_of(secrets@, p as int) == Some(*secret));
            }
            let mut j: usize = 0;
            while j < secret.instances.len()
                invariant
                    0 <= j <= secret.instances@.len(),
                    secrets@.len() == 2,
                    secret_of(secrets@, p as int) == Some(*secret),
                    self.table_wf(),
                    forall|k: int| 0 <= k < secret.instances@.len() ==> (#[trigger] secret.instances@[k]).id.0 < self.instances@.len(),
                    forall|k: int| 0 <= k < j ==> self.id_agrees(secrets@, (#[trigger] secret.instances@[k]).id),
                decreases secret.instances.len() - j,
            {
                let id = secret.instances[j].id;
                proof {
                    let _ = self.instances@[id.0 as int];
                }
                if !self.check_id(secrets, id) {
                    return false;
                }
                j = j + 1;
            }
        }
        true
    }

    /// The number of public instances owned by `player` that have `id` as their attachment.
    #[verifier::rlimit(40)]
    fn public_attached(&self, id: InstanceID, player: Player) -> (r: usize)
        requires
            self.table_wf(),
        ensures
            r == self.attached_count(id, player as int, self.instances@.len() as int),
    {
        let mut c: usize = 0;
        let mut i: usize = 0;
        while i < self.instances.len()
            invariant
                0 <= i <= self.instances@.len(),
                self.table_wf(),
                c == self.attached_count(id, player as int, i as int),
                c <= i,
            decreases self.instances.len() - i,
        {
            if let InstanceOrPlayer::Instance(inst) = &self.instances[i] {
                if inst.attachment == Some(id) && self.owner(inst.id) == player {
                    c = c + 1;
                }
            }
            i = i + 1;
        }
        c
    }

    /// How often `id` occurs in player `player`'s public zones and public attachments.
    fn public_count(&self, id: InstanceID, player: Player) -> (r: usize)
        requires
            self.table_wf(),
            player < 2,
        ensures
            r == sat(self.public_occurrences(id, player as int)),
    {
        let cards = &self.player_cards[player as usize];
        let mut c = count_some_id(&cards.hand, id);
        c = add_sat(c, count_id(&cards.field, id));
        c = add_sat(c, count_id(&cards.graveyard, id));
        c = add_sat(c, count_id(&cards.limbo, id));
        c = add_sat(c, count_id(&cards.casting, id));
        c = add_sat(c, count_id(&cards.dust, id));
        add_sat(c, self.public_attached(id, player))
    }

    /// How often `id` occurs in the zones and attachments of player `p`'s secret.
    fn secret_count(&self, secrets: &[Option<&PlayerSecret<S>>], id: InstanceID, p: usize) -> (r: usize)
        requires
            secrets@.len() == 2,
            p < 2,
        ensures
            r == sat(self.secret_occurrences(secrets@, id, p as int)),
    {
        match secrets[p] {
            Some(secret) => {
                proof {
                    assert(secret_of(secrets@, p as int) == Some(*secret));
                }
                let mut c = count_id(&secret.deck, id);
                c = add_sat(c, count_some_id(&secret.hand, id));
                c = add_sat(c, count_id(&secret.limbo, id));
                c = add_sat(c, count_id(&secret.dust, id));
                c = add_sat(c, count_id(&secret.card_selection, id));
                add_sat(c, count_attached(&secret.instances, id))
            },
            None => 0,
        }
    }

    /// How often `id` occurs in public and secret state, up to `usize::MAX`.
    fn occurrence_count(&self, secrets: &[Option<&PlayerSecret<S>>], id: InstanceID) -> (r: usize)
        requires
            secrets@.len() == 2,
            self.table_wf(),
        ensures
            r == sat(self.occurrences(secrets@, id)),
    {
        let c = add_sat(self.public_count(id, 0), self.public_count(id, 1));
        let c = add_sat(c, self.secret_count(secrets, id, 0));
        add_sat(c, self.secret_count(secrets, id, 1))
    }

    /// No ID occurs twice in all zones and attachments combined.
    fn check_counts(&self, secrets: &[Option<&PlayerSecret<S>>]) -> (r: bool)
        requires
            secrets@.len() == 2,
            self.table_wf(),
        ensures
            r == self.counts_ok(secrets@),
    {
        let mut k: usize = 0;
        while k < self.instances.len()
            invariant
                0 <= k <= self.instances@.len(),
                secrets@.len() == 2,
                self.table_wf(),
                forall|j: int| 0 <= j < k ==> #[trigger] self.occurrences(secrets@, InstanceID(j as usize)) <= 1,
            decreases self.instances.len() - k,
        {
            if self.occurrence_count(secrets, InstanceID(k)) > 1 {
                proof {
                    assert(InstanceID(k as int as usize) == InstanceID(k));
                }
                return false;
            }
            k = k + 1;
        }
        true
    }

    /// Every instance of player `p`'s secret that belongs to a player whose secret is given
    /// is in one of that secret's zones.
    fn check_secret_zones(&self, secrets: &[Option<&PlayerSecret<S>>], p: usize) -> (r: bool)
        requires
            secrets@.len() == 2,
            p < 2,
            self.table_wf(),
            self.secret_ids_in_range(secrets@, p as int),
        ensures
            r == self.secret_zones_ok(secrets@, p as int),
    {
        if let Some(secret) = secrets[p] {
            proof {
                assert(secret_of(secrets@, p as int) == Some(*secret));
            }
            let mut j: usize = 0;
            while j < secret.instances.len()
                invariant
                    0 <= j <= secret.instances@.len(),
                    secrets@.len() == 2,
                    secret_of(secrets@, p as int) == Some(*secret),
                    self.table_wf(),
                    forall|k: int| 0 <= k < secret.instances@.len() ==> (#[trigger] secret.instances@[k]).id.0 < self.instances@.len(),
                    forall|k: int|
                        0 <= k < j ==> (match self.instances@[(#[trigger] secret.instances@[k]).id.0 as int] {
                            InstanceOrPlayer::Player(owner) => secret_of(secrets@, owner as int) matches Some(o) ==> o.spec_location(
                                Card::ID(secret.instances@[k].id),
                            ).location is Some,
                            InstanceOrPlayer::Instance(_) => true,
                        }),
                decreases secret.instances.len() - j,
            {
                let id = secret.instances[j].id;
                if let InstanceOrPlayer::Player(owner) = &self.instances[id.0] {
                    let owner = *owner;
                    proof {
                        let _ = self.instances@[id.0 as int];
                    }
                    if let Some(o) = secrets[owner as usize] {
                        proof {
                            assert(secret_of(secrets@, owner as int) == Some(*o));
                        }
                        if o.location(Card::ID(id)).location.is_none() {
                            return false;
                        }
                    }
                }
                j = j + 1;
            }
        }
        true
    }

    /// Player `p`'s public deck and card selection sizes match the secret ones.
    fn check_sizes(&self, secrets: &[Option<&PlayerSecret<S>>], p: usize) -> (r: bool)
        requires
            secrets@.len() == 2,
            p < 2,
        ensures
            r == self.sizes_ok(secrets@, p as int),
    {
        if let Some(secret) = secrets[p] {
            proof {
                assert(secret_of(secrets@, p as int) == Some(*secret));
            }
            secret.deck.len() == self.player_cards[p].deck && secret.card_selection.len()
                == self.player_cards[p].card_selection
        } else {
            true
        }
    }

    /// Player `p`'s public and secret hands agree.
    fn check_hands(&self, secrets: &[Option<&PlayerSecret<S>>], p: usize) -> (r: bool)
        requires
            secrets@.len() == 2,
            p < 2,
        ensures
            r == self.hands_ok(secrets@, p as int),
    {
        if let Some(secret) = secrets[p] {
            proof {
                assert(secret_of(secrets@, p as int) == Some(*secret));
            }
            let public = &self.player_cards[p].hand;
            let mut i: usize = 0;
            while i < public.len() && i < secret.hand.len()
                invariant
                    0 <= i <= public@.len(),
                    secret_of(secrets@, p as int) == Some(*secret),
                    public@ == self.player_cards@[p as int].hand@,
                    forall|k: int| 0 <= k < i && k < secret.hand@.len() ==> (#[trigger] public@[k] is Some) != (secret.hand@[k] is Some),
                decreases public.len() - i,
            {
                if public[i].is_some() == secret.hand[i].is_some() {
                    return false;
                }
                i = i + 1;
            }
        }
        true
    }

    /// Whether `ok` can look at `secrets` against this state (`ok_requires`): two secrets,
    /// a readable instance table, and secret IDs in its range.
    pub fn ok_ready(&self, secrets: &[Option<&PlayerSecret<S>>]) -> (r: bool)
        ensures
            r == self.ok_requires(secrets@),
    {
        if secrets.len() != 2 {
            return false;
        }
        let n = self.instances.len();
        let mut k: usize = 0;
        while k < n
            invariant
                0 <= k <= n,
                n == self.instances@.len(),
                forall|j: int|
                    0 <= j < k ==> match #[trigger] self.instances@[j] {
                        InstanceOrPlayer::Player(p) => p < 2,
                        InstanceOrPlayer::Instance(inst) => {
                            &&& inst.id.0 < self.instances@.len()
                            &&& self.spec_location(inst.id) is Some
                            &&& (inst.attachment matches Some(a) ==> a.0 < self.instances@.len())
                        },
                    },
            decreases n - k,
        {
            let good = match &self.instances[k] {
                InstanceOrPlayer::Player(p) => *p < 2,
                InstanceOrPlayer::Instance(inst) => {
                    inst.id.0 < n && self.try_location(inst.id).is_some() && match inst.attachment {
                        Some(a) => a.0 < n,
                        None => true,
                    }
                },
            };
            if !good {
                return false;
            }
            k = k + 1;
        }
        let mut p: usize = 0;
        while p < 2
            invariant
                0 <= p <= 2,
                secrets@.len() == 2,
                n == self.instances@.len(),
                self.table_wf(),
                forall|q: int| 0 <= q < p ==> self.secret_ids_in_range(secrets@, q),
            decreases 2 - p,
        {
            if let Some(secret) = secrets[p] {
                proof {
                    assert(secret_of(secrets@, p as int) == Some(*secret));
                }
                let mut j: usize = 0;
                while j < secret.instances.len()
                    invariant
                        0 <= j <= secret.instances@.len(),
                        n == self.instances@.len(),
                        p < 2,
                        secrets@.len() == 2,
                        self.table_wf(),
                        secret_of(secrets@, p as int) == Some(*secret),
                        forall|q: int| 0 <= q < p ==> self.secret_ids_in_range(secrets@, q),
                        forall|i: int| 0 <= i < j ==> (#[trigger] secret.instances@[i]).id.0 < n,
                    decreases secret.instances.len() - j,
                {
                    if secret.instances[j].id.0 >= n {
                        proof {
                            let _ = secret.instances@[j as int];
                            assert(!self.secret_ids_in_range(secrets@, p as int));
                        }
                        return false;
                    }
                    j = j + 1;
                }
            } else {
                proof {
                    assert(secret_of(secrets@, p as int) is None);
                }
            }
            p = p + 1;
        }
        true
    }

    /// Checks that the public state and the given secrets (indexed by player; `None` for a
    /// secret that is not known) agree: no secret pointer is out of bounds; every instance is
    /// held in exactly one place, with its attachment; no ID occurs twice in all zones and
    /// attachments; secret instances are in secret zones; and the public deck, card selection
    /// and hand match the secret ones.
    pub fn ok(&self, secrets: &[Option<&PlayerSecret<S>>]) -> (r: Result<(), RevealOkError>)
        requires
            self.ok_requires(secrets@),
        ensures
            r is Ok <==> self.spec_ok(secrets@),
    {
        if !self.check_secret_pointers(secrets, 0) || !self.check_secret_pointers(secrets, 1) {
            return fail("pointer out of bounds");
        }
        if !self.check_public_ids(secrets) || !self.check_secret_ids(secrets, 0)
            || !self.check_secret_ids(secrets, 1) {
            return fail("an instance is not held in exactly one place with its attachment");
        }
        if !self.check_counts(secrets) {
            return fail("an instance ID occurs more than once in public and secret state");
        }
        if !self.check_secret_zones(secrets, 0) || !self.check_secret_zones(secrets, 1) {
            return fail("a secret instance is not in any of its owner's zones");
        }
        if !self.check_sizes(secrets, 0) || !self.check_sizes(secrets, 1) {
            return fail("public and secret deck or card selection sizes differ");
        }
        if !self.check_hands(secrets, 0) || !self.check_hands(secrets, 1) {
            return fail("public and secret hands disagree");
        }
        Ok(())
    }
}

} // verus!
