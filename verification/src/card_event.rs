use vstd::prelude::*;

use crate::card_location::same_location;
use crate::game_public::same_ids;
use crate::zone::zone_eq_result;
use crate::{CardInstance, CardLocation, ExactCardLocation, InstanceID, OpaquePointer, Player, State};

verus! {

/// What observers are told about a change of the game.
#[allow(inconsistent_fields)]
pub enum CardEvent<S: State> {
    /// Emitted when an OpaquePointer to an exact location is created.
    /// *not* emitted when new cards (and their associated pointers) are created in secret state.
    NewPointer { pointer: OpaquePointer, location: ExactCardLocation },
    /// Emitted when a card in public state or in the client's secret state changes.
    ModifyCard { instance: CardInstance<S> },
    /// Emitted when a card moves zones.
    /// `instance` is Some(..) if the card is in public state or in the client's secret state,
    /// together with its attachment if it has one.
    MoveCard {
        instance: Option<(CardInstance<S>, Option<CardInstance<S>>)>,
        from: CardLocation,
        to: ExactCardLocation,
    },
    /// Emitted when a deck is shuffled.
    ShuffleDeck { player: Player, deck: Vec<InstanceID> },
    /// Emitted when the field is re-ordered.
    SortField { player: Player, field: Vec<InstanceID>, real: bool },
    /// Game-specific event.
    GameEvent { event: S::Event },
}

/// Two optional instances that `CardInstance::eq` may call equal: both missing, or both
/// present with the same ID and attachment.
pub open spec fn may_equal_instances<S: State>(a: Option<CardInstance<S>>, b: Option<CardInstance<S>>) -> bool {
    match (a, b) {
        (None, None) => true,
        (Some(x), Some(y)) => x.id == y.id && x.attachment == y.attachment,
        _ => false,
    }
}

/// Whether two positions are the same, where their zones can be compared.
pub open spec fn same_exact(a: ExactCardLocation, b: ExactCardLocation) -> bool {
    a.player == b.player && zone_eq_result(a.location.0, b.location.0) == Ok::<bool, crate::error::ZoneEqualityError>(true)
        && a.location.1 == b.location.1
}

/// Two optional instances, each with an optional attachment.
fn eq_moved<S: State>(a: &Option<(CardInstance<S>, Option<CardInstance<S>>)>, b: &Option<(CardInstance<S>, Option<CardInstance<S>>)>) -> (r: bool)
    ensures
        r ==> match (*a, *b) {
            (None, None) => true,
            (Some((x, xa)), Some((y, ya))) => may_equal_instances(Some(x), Some(y)) && may_equal_instances(xa, ya),
            _ => false,
        },
{
    match (a, b) {
        (None, None) => true,
        (Some((x, xa)), Some((y, ya))) => {
            if !x.eq(y) {
                return false;
            }
            match (xa, ya) {
                (None, None) => true,
                (Some(p), Some(q)) => p.eq(q),
                _ => false,
            }
        },
        _ => false,
    }
}

impl<S: State> CardEvent<S> {
    /// Whether two events are the same. New pointers, moves and field sorts compare their
    /// fields (instances as `CardInstance::eq` does, positions whose zones cannot be compared
    /// only where the zones can be); deck shuffles and game events are never the same.
    pub fn eq(&self, other: &CardEvent<S>) -> (r: bool)
        requires
            (*self, *other) matches (CardEvent::NewPointer { location: a, .. }, CardEvent::NewPointer { location: b, .. })
                ==> zone_eq_result(a.location.0, b.location.0) is Ok,
            (*self, *other) matches (CardEvent::MoveCard { to: a, .. }, CardEvent::MoveCard { to: b, .. })
                ==> zone_eq_result(a.location.0, b.location.0) is Ok,
        ensures
            match (*self, *other) {
                (CardEvent::NewPointer { pointer: p, location: l }, CardEvent::NewPointer { pointer: q, location: m }) =>
                    r == (p == q && same_exact(l, m)),
                (CardEvent::ModifyCard { instance: x }, CardEvent::ModifyCard { instance: y }) =>
                    r ==> may_equal_instances(Some(x), Some(y)),
                (CardEvent::MoveCard { from: f, to: t, .. }, CardEvent::MoveCard { from: g, to: u, .. }) =>
                    r ==> same_location(f, g) && same_exact(t, u),
                (CardEvent::SortField { player: p, field: f, real: x }, CardEvent::SortField { player: q, field: g, real: y }) =>
                    r == (p == q && f@ == g@ && x == y),
                _ => !r,
            },
    {
        match (self, other) {
            (CardEvent::NewPointer { pointer, location }, CardEvent::NewPointer { pointer: other_pointer, location: other_location }) => {
                pointer.player == other_pointer.player && pointer.index == other_pointer.index && location.eq(other_location)
            },
            (CardEvent::ModifyCard { instance }, CardEvent::ModifyCard { instance: other_instance }) => instance.eq(other_instance),
            (CardEvent::MoveCard { instance, from, to }, CardEvent::MoveCard { instance: other_instance, from: other_from, to: other_to }) => {
                eq_moved(instance, other_instance) && from.eq(other_from) && to.eq(other_to)
            },
            (CardEvent::SortField { player, field, real: was_real }, CardEvent::SortField { player: other_player, field: other_field, real: other_real }) => {
                *player == *other_player && same_ids(field, other_field) && *was_real == *other_real
            },
            _ => false,
        }
    }
}

impl<S: State> Clone for CardEvent<S> {
    fn clone(&self) -> (r: Self) {
        match self {
            CardEvent::NewPointer { pointer, location } => CardEvent::NewPointer { pointer: *pointer, location: *location },
            CardEvent::ModifyCard { instance } => CardEvent::ModifyCard { instance: instance.clone() },
            CardEvent::MoveCard { instance, from, to } => CardEvent::MoveCard {
                instance: match instance {
                    Some((i, a)) => Some((i.clone(), match a {
                        Some(x) => Some(x.clone()),
                        None => None,
                    })),
                    None => None,
                },
                from: *from,
                to: *to,
            },
            CardEvent::ShuffleDeck { player, deck } => CardEvent::ShuffleDeck { player: *player, deck: deck.clone() },
            CardEvent::SortField { player, field, real: was_real } => CardEvent::SortField {
                player: *player,
                field: field.clone(),
                real: *was_real,
            },
            CardEvent::GameEvent { event } => CardEvent::GameEvent { event: event.clone() },
        }
    }
}

} // verus!
