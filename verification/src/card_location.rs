use vstd::prelude::*;

use crate::zone::zone_eq_result;
use crate::{Player, Zone};

verus! {

/// Where a card is, as far as the observer can tell: `location` is `None` when the card is in
/// a secret zone of `player`; the index is `None` for attachments.
#[derive(Clone, Copy, Debug)]
pub struct CardLocation {
    pub player: Player,
    pub location: Option<(Zone, Option<usize>)>,
}

/// An exact position: a zone of `player` and an index in it.
#[derive(Clone, Copy, Debug)]
pub struct ExactCardLocation {
    pub player: Player,
    pub location: (Zone, usize),
}

/// Whether two locations are the same: the same player, and either both secret or the same
/// zone (zones that cannot be compared count as different) and index.
pub open spec fn same_location(a: CardLocation, b: CardLocation) -> bool {
    a.player == b.player && match (a.location, b.location) {
        (Some((z, i)), Some((y, j))) => zone_eq_result(z, y) == Ok::<bool, crate::error::ZoneEqualityError>(true) && i == j,
        (None, None) => true,
        _ => false,
    }
}

impl CardLocation {
    /// Whether `self` and `other` are the same location (see `same_location`).
    pub fn eq(&self, other: &CardLocation) -> (r: bool)
        ensures
            r == same_location(*self, *other),
    {
        self.player == other.player && match (self.location, other.location) {
            (Some((zone, index)), Some((other_zone, other_index))) => {
                let same_zone = match zone.eq(other_zone) {
                    Ok(b) => b,
                    Err(_) => false,
                };
                same_zone && index == other_index
            },
            (None, None) => true,
            _ => false,
        }
    }
}

impl ExactCardLocation {
    /// Whether `self` and `other` are the same position; their zones must be comparable.
    pub fn eq(&self, other: &ExactCardLocation) -> (r: bool)
        requires
            zone_eq_result(self.location.0, other.location.0) is Ok,
        ensures
            r == (self.player == other.player && zone_eq_result(self.location.0, other.location.0) == Ok::<
                bool,
                crate::error::ZoneEqualityError,
            >(true) && self.location.1 == other.location.1),
    {
        let same_zone = match self.location.0.eq(other.location.0) {
            Ok(b) => b,
            Err(_) => false,
        };
        self.player == other.player && same_zone && self.location.1 == other.location.1
    }
}

} // verus!
