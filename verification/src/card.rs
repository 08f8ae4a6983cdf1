use vstd::prelude::*;

use crate::{error, InstanceID, OpaquePointer};

verus! {

/// A card as game code refers to it: either by its public instance ID, or by a player's
/// opaque pointer.
#[derive(Clone, Copy, Debug)]
pub enum Card {
    ID(InstanceID),
    Pointer(OpaquePointer),
}

/// What `Card::eq` answers: IDs compare by value, a pointer only equals itself, and any
/// other pair cannot be decided without revealing secrets.
pub open spec fn card_eq_result(a: Card, b: Card) -> Result<bool, error::CardEqualityError> {
    match (a, b) {
        (Card::ID(x), Card::ID(y)) => Ok(x == y),
        (Card::Pointer(p), Card::Pointer(q)) => if p == q {
            Ok(true)
        } else {
            Err(error::CardEqualityError::IncomparableCards { a, b })
        },
        _ => Err(error::CardEqualityError::IncomparableCards { a, b }),
    }
}

/// What `Card::ne` answers: the negation of `card_eq_result`, with the same error.
pub open spec fn card_ne_result(a: Card, b: Card) -> Result<bool, error::CardEqualityError> {
    match card_eq_result(a, b) {
        Ok(r) => Ok(!r),
        Err(e) => Err(e),
    }
}

impl Card {
    pub fn eq(&self, other: Card) -> (r: Result<bool, error::CardEqualityError>)
        ensures
            r == card_eq_result(*self, other),
    {
        match self {
            Card::ID(id) => match other {
                Card::ID(other_id) => Ok(other_id == *id),
                Card::Pointer(..) => Err(
                    error::CardEqualityError::IncomparableCards { a: *self, b: other },
                ),
            },
            Card::Pointer(ptr) => match other {
                Card::ID(..) => Err(
                    error::CardEqualityError::IncomparableCards { a: *self, b: other },
                ),
                Card::Pointer(other_ptr) => {
                    if other_ptr.player == ptr.player && other_ptr.index == ptr.index {
                        Ok(true)
                    } else {
                        Err(error::CardEqualityError::IncomparableCards { a: *self, b: other })
                    }
                },
            },
        }
    }

    pub fn ne(&self, other: Card) -> (r: Result<bool, error::CardEqualityError>)
        ensures
            r == card_ne_result(*self, other),
    {
        match self.eq(other) {
            Ok(b) => Ok(!b),
            Err(e) => Err(e),
        }
    }

    /// The instance ID, if this card is referred to by ID.
    pub fn id(&self) -> (r: Option<InstanceID>)
        ensures
            r == (match *self {
                Card::ID(id) => Some(id),
                Card::Pointer(_) => None,
            }),
    {
        match self {
            Card::ID(id) => Some(*id),
            Card::Pointer(_) => None,
        }
    }

    /// The opaque pointer, if this card is referred to by pointer.
    pub fn pointer(&self) -> (r: Option<OpaquePointer>)
        ensures
            r == (match *self {
                Card::ID(_) => None,
                Card::Pointer(p) => Some(p),
            }),
    {
        match self {
            Card::ID(_) => None,
            Card::Pointer(p) => Some(*p),
        }
    }
}

impl From<InstanceID> for Card {
    fn from(id: InstanceID) -> (c: Self) {
        Card::ID(id)
    }
}

impl vstd::std_specs::convert::FromSpecImpl<InstanceID> for Card {
    open spec fn obeys_from_spec() -> bool {
        true
    }

    open spec fn from_spec(id: InstanceID) -> Card {
        Card::ID(id)
    }
}

impl From<OpaquePointer> for Card {
    fn from(ptr: OpaquePointer) -> (c: Self) {
        Card::Pointer(ptr)
    }
}

impl vstd::std_specs::convert::FromSpecImpl<OpaquePointer> for Card {
    open spec fn obeys_from_spec() -> bool {
        true
    }

    open spec fn from_spec(ptr: OpaquePointer) -> Card {
        Card::Pointer(ptr)
    }
}

} // verus!
