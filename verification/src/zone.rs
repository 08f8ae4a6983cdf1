use vstd::prelude::*;

use crate::card::{card_eq_result, Card};
use crate::error;

verus! {

/// Where a card can be. Zones with a `public` flag exist both in public state and in each
/// player's secret; an attachment sits on its `parent`.
#[derive(Clone, Copy, Debug)]
pub enum Zone {
    Deck,
    Hand { public: bool },
    Field,
    Graveyard,
    Dust { public: bool },
    Attachment { parent: Card },
    Limbo { public: bool },
    Casting,
    CardSelection,
}

/// What `Zone::eq` answers: zones other than attachments compare by value; two attachment
/// zones compare by their parents, and are incomparable when their parents are.
pub open spec fn zone_eq_result(a: Zone, b: Zone) -> Result<bool, error::ZoneEqualityError> {
    match a {
        Zone::Attachment { parent } => match b {
            Zone::Attachment { parent: other_parent } => match card_eq_result(other_parent, parent) {
                Ok(r) => Ok(r),
                Err(_) => Err(error::ZoneEqualityError::IncomparableZones { a, b }),
            },
            _ => Ok(false),
        },
        _ => Ok(a == b),
    }
}

/// What `Zone::ne` answers: the negation of `zone_eq_result`, with the same error.
pub open spec fn zone_ne_result(a: Zone, b: Zone) -> Result<bool, error::ZoneEqualityError> {
    match zone_eq_result(a, b) {
        Ok(r) => Ok(!r),
        Err(e) => Err(e),
    }
}

impl Zone {
    pub fn is_deck(&self) -> (r: bool)
        ensures
            r == (*self is Deck),
    {
        match self {
            Zone::Deck => true,
            _ => false,
        }
    }

    pub fn is_hand(&self) -> (r: bool)
        ensures
            r == (*self is Hand),
    {
        match self {
            Zone::Hand { .. } => true,
            _ => false,
        }
    }

    pub fn is_public_hand(&self) -> (r: bool)
        ensures
            r == (*self == Zone::Hand { public: true }),
    {
        match self {
            Zone::Hand { public: true } => true,
            _ => false,
        }
    }

    pub fn is_secret_hand(&self) -> (r: bool)
        ensures
            r == (*self == Zone::Hand { public: false }),
    {
        match self {
            Zone::Hand { public: false } => true,
            _ => false,
        }
    }

    pub fn is_field(&self) -> (r: bool)
        ensures
            r == (*self is Field),
    {
        match self {
            Zone::Field => true,
            _ => false,
        }
    }

    pub fn is_graveyard(&self) -> (r: bool)
        ensures
            r == (*self is Graveyard),
    {
        match self {
            Zone::Graveyard => true,
            _ => false,
        }
    }

    pub fn is_dust(&self) -> (r: bool)
        ensures
            r == (*self is Dust),
    {
        match self {
            Zone::Dust { .. } => true,
            _ => false,
        }
    }

    pub fn is_public_dust(&self) -> (r: bool)
        ensures
            r == (*self == Zone::Dust { public: true }),
    {
        match self {
            Zone::Dust { public: true } => true,
            _ => false,
        }
    }

    pub fn is_secret_dust(&self) -> (r: bool)
        ensures
            r == (*self == Zone::Dust { public: false }),
    {
        match self {
            Zone::Dust { public: false } => true,
            _ => false,
        }
    }

    pub fn is_attachment(&self) -> (r: bool)
        ensures
            r == (*self is Attachment),
    {
        match self {
            Zone::Attachment { .. } => true,
            _ => false,
        }
    }

    pub fn is_limbo(&self) -> (r: bool)
        ensures
            r == (*self is Limbo),
    {
        match self {
            Zone::Limbo { .. } => true,
            _ => false,
        }
    }

    pub fn is_public_limbo(&self) -> (r: bool)
        ensures
            r == (*self == Zone::Limbo { public: true }),
    {
        match self {
            Zone::Limbo { public: true } => true,
            _ => false,
        }
    }

    pub fn is_secret_limbo(&self) -> (r: bool)
        ensures
            r == (*self == Zone::Limbo { public: false }),
    {
        match self {
            Zone::Limbo { public: false } => true,
            _ => false,
        }
    }

    pub fn is_casting(&self) -> (r: bool)
        ensures
            r == (*self is Casting),
    {
        match self {
            Zone::Casting => true,
            _ => false,
        }
    }

    pub fn is_card_selection(&self) -> (r: bool)
        ensures
            r == (*self is CardSelection),
    {
        match self {
            Zone::CardSelection => true,
            _ => false,
        }
    }

    pub fn eq(&self, other: Zone) -> (r: Result<bool, error::ZoneEqualityError>)
        ensures
            r == zone_eq_result(*self, other),
    {
        match self {
            Zone::Deck => Ok(other.is_deck()),
            Zone::Hand { public: true } => Ok(other.is_public_hand()),
            Zone::Hand { public: false } => Ok(other.is_secret_hand()),
            Zone::Field => Ok(other.is_field()),
            Zone::Graveyard => Ok(other.is_graveyard()),
            Zone::Dust { public: true } => Ok(other.is_public_dust()),
            Zone::Dust { public: false } => Ok(other.is_secret_dust()),
            Zone::Attachment { parent } => {
                match other {
                    Zone::Attachment { parent: other_parent } => match other_parent.eq(*parent) {
                        Ok(r) => Ok(r),
                        Err(_) => Err(
                            error::ZoneEqualityError::IncomparableZones { a: *self, b: other },
                        ),
                    },
                    _ => Ok(false),
                }
            },
            Zone::Limbo { public: true } => Ok(other.is_public_limbo()),
            Zone::Limbo { public: false } => Ok(other.is_secret_limbo()),
            Zone::Casting => Ok(other.is_casting()),
            Zone::CardSelection => Ok(other.is_card_selection()),
        }
    }

    pub fn ne(&self, other: Zone) -> (r: Result<bool, error::ZoneEqualityError>)
        ensures
            r == zone_ne_result(*self, other),
    {
        match self.eq(other) {
            Ok(b) => Ok(!b),
            Err(e) => Err(e),
        }
    }
}

} // verus!
