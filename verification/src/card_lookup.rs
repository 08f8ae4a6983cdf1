//! Looking up the instance behind an ID or a pointer, from the public state and, where it is
//! known, one player's secret.

use vstd::prelude::*;

use crate::game_state::InstanceOrPlayer;
use crate::{Card, CardInstance, GameState, InstanceID, OpaquePointer, PlayerSecret, State};

verus! {

/// The instance for `id`: the public one, or the one in `secret` when `secret` belongs to the
/// player who holds it.
pub open spec fn spec_instance_of<S: State>(
    id: InstanceID,
    state: GameState<S>,
    secret: Option<PlayerSecret<S>>,
) -> Option<CardInstance<S>> {
    match state.instances@[id.0 as int] {
        InstanceOrPlayer::Instance(instance) => Some(instance),
        InstanceOrPlayer::Player(owner) => match secret {
            Some(s) => if s.player == owner {
                Some(s.get(id))
            } else {
                None
            },
            None => None,
        },
    }
}

/// `secret`, read through its reference.
pub open spec fn deref_secret<S: State>(secret: Option<&PlayerSecret<S>>) -> Option<PlayerSecret<S>> {
    match secret {
        Some(s) => Some(*s),
        None => None,
    }
}

/// The instance `secret`, when given, can tell for `pointer`.
pub open spec fn spec_pointer_id<S: State>(pointer: OpaquePointer, secret: Option<PlayerSecret<S>>) -> Option<InstanceID> {
    match secret {
        Some(s) => s.spec_id(Card::Pointer(pointer)),
        None => None,
    }
}

impl InstanceID {
    /// The instance for this ID: the public one, or the one in `secret` when `secret` belongs
    /// to the player whose secret holds it; `None` when it is in the other player's secret.
    pub fn instance<'a, S: State>(
        &self,
        state: &'a GameState<S>,
        secret: Option<&'a PlayerSecret<S>>,
    ) -> (r: Option<&'a CardInstance<S>>)
        requires
            self.0 < state.instances@.len(),
            state.instances@[self.0 as int] matches InstanceOrPlayer::Player(owner) ==> (
            secret matches Some(s) ==> (s.player == owner <==> s.has(*self))),
        ensures
            r == (match spec_instance_of(*self, *state, deref_secret(secret)) {
                Some(i) => Some(&i),
                None => None,
            }),
    {
        match &state.instances[self.0] {
            InstanceOrPlayer::Instance(instance) => Some(instance),
            InstanceOrPlayer::Player(owner) => match secret {
                Some(secret) => {
                    if secret.player() == *owner {
                        let k = secret.slot_of(*self).unwrap();
                        Some(&secret.instances[k])
                    } else {
                        None
                    }
                },
                None => None,
            },
        }
    }
}

impl OpaquePointer {
    /// The ID of the instance this pointer points to, as far as `secret` can tell: only the
    /// secret of the pointer's player knows it.
    pub fn id<S: State>(&self, state: &GameState<S>, secret: Option<&PlayerSecret<S>>) -> (r: Option<InstanceID>)
        requires
            secret matches Some(s) ==> s.resolvable(Card::Pointer(*self)),
        ensures
            r == spec_pointer_id(*self, deref_secret(secret)),
    {
        match secret {
            Some(secret) => secret.id(Card::Pointer(*self)),
            None => None,
        }
    }

    /// The instance this pointer points to, as far as the public state and `secret` can tell.
    pub fn instance<'a, S: State>(
        &self,
        state: &'a GameState<S>,
        secret: Option<&'a PlayerSecret<S>>,
    ) -> (r: Option<&'a CardInstance<S>>)
        requires
            secret matches Some(s) ==> s.resolvable(Card::Pointer(*self)),
            spec_pointer_id(*self, deref_secret(secret)) matches Some(id) ==> {
                &&& id.0 < state.instances@.len()
                &&& state.instances@[id.0 as int] matches InstanceOrPlayer::Player(owner) ==> (
                secret matches Some(s) ==> (s.player == owner <==> s.has(id)))
            },
        ensures
            r == (match spec_pointer_id(*self, deref_secret(secret)) {
                Some(id) => match spec_instance_of(id, *state, deref_secret(secret)) {
                    Some(i) => Some(&i),
                    None => None,
                },
                None => None,
            }),
    {
        match self.id(state, secret) {
            Some(id) => id.instance(state, secret),
            None => None,
        }
    }
}

} // verus!
