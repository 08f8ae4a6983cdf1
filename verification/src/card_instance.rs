use vstd::prelude::*;

use crate::{BaseCard, CardState, InstanceID, State};

verus! {

/// A card instance: its ID, its kind, the ID of its attachment if it has one, and its state.
pub struct CardInstance<S: State> {
    pub id: InstanceID,
    pub base: S::BaseCard,
    pub attachment: Option<InstanceID>,
    pub state: <S::BaseCard as BaseCard>::CardState,
}

impl<S: State> Clone for CardInstance<S> {
    fn clone(&self) -> (r: Self)
        ensures
            r.id == self.id,
            r.attachment == self.attachment,
            cloned(self.base, r.base),
            cloned(self.state, r.state),
    {
        CardInstance {
            id: self.id,
            base: self.base.clone(),
            attachment: self.attachment,
            state: self.state.clone(),
        }
    }
}

/// `b` is a copy of `a`, as `clone` makes one: the same ID and attachment, with the kind and
/// the state cloned.
pub open spec fn copy_of<S: State>(a: CardInstance<S>, b: CardInstance<S>) -> bool {
    &&& b.id == a.id
    &&& b.attachment == a.attachment
    &&& cloned(a.base, b.base)
    &&& cloned(a.state, b.state)
}

impl<S: State> CardInstance<S> {
    /// Internal-only API.
    pub fn from_raw(
        id: InstanceID,
        base: S::BaseCard,
        attachment: Option<InstanceID>,
        state: <S::BaseCard as BaseCard>::CardState,
    ) -> (r: Self)
        ensures
            r.id == id,
            r.base == base,
            r.attachment == attachment,
            r.state == state,
    {
        CardInstance { id, base, attachment, state }
    }

    pub fn id(&self) -> (r: InstanceID)
        ensures
            r == self.id,
    {
        self.id
    }

    pub fn base(&self) -> (r: &S::BaseCard)
        ensures
            *r == self.base,
    {
        &self.base
    }

    pub fn attachment(&self) -> (r: Option<InstanceID>)
        ensures
            r == self.attachment,
    {
        self.attachment
    }

    /// Whether two instances are the same: same ID, kind, attachment and state. Instances
    /// with different IDs or attachments are never the same.
    pub fn eq(&self, other: &Self) -> (r: bool)
        ensures
            (self.id != other.id || self.attachment != other.attachment) ==> !r,
    {
        self.id == other.id && self.attachment == other.attachment && self.base == other.base
            && self.state.eq(&other.state)
    }

    /// The state of this card.
    pub fn state(&self) -> (r: &<S::BaseCard as BaseCard>::CardState)
        ensures
            *r == self.state,
    {
        &self.state
    }

    /// The state of this card, for changing it.
    pub fn state_mut(&mut self) -> (r: &mut <S::BaseCard as BaseCard>::CardState)
        ensures
            *r == old(self).state,
            *final(self) == (CardInstance::<S> { state: *final(r), ..*old(self) }),
    {
        &mut self.state
    }
}

} // verus!
