use vstd::prelude::*;

use crate::card_info::CardInfo;
use crate::card_instance::CardInstance;
use std::cmp::Ordering;

verus! {

/// A player of a two-player game, numbered `0` or `1`.
pub type Player = u8;

/// The mutable state of a card, supplied by the game.
pub trait CardState: Sized + Clone {
    /// Whether two card states are the same.
    fn eq(&self, other: &Self) -> bool;

    /// This is called to create a copy of this card.
    /// It should return a valid state for this card as if it was standalone - no attachments.
    fn copy_card(&self) -> (r: Self)
        default_ensures
            cloned(*self, r),
    {
        self.clone()
    }
}

/// The immutable kind of a card, supplied by the game.
pub trait BaseCard: Sized + Clone + PartialEq {
    type CardState: CardState;

    /// The state a fresh card of this kind starts with; `parent` is the state of the card it
    /// is attached to, if it is created as an attachment.
    fn new_card_state(&self, parent: Option<&Self::CardState>) -> Self::CardState;

    /// The kind of attachment a card of this kind comes with, if any.
    fn attachment(&self) -> Option<Self>;

    /// The state this card returns to when it is reset.
    fn reset_card(&self, state: &Self::CardState) -> Self::CardState;
}

/// A player action of the game.
pub trait Action: std::fmt::Debug {}

impl<T: std::fmt::Debug> Action for T {}

/// Secret data that can be copied.
pub trait AnySecretData: Clone {}

impl<T: Clone> AnySecretData for T {}

/// Game-specific secret data.
pub trait Secret<T: BaseCard>: Clone {
    fn attachment(&self, id: &crate::InstanceID, base: T) -> Option<T>;

    fn reset_card(&self, id: &crate::InstanceID, parent: T) -> T::CardState;
}

/// The game: its secret data, card kinds, events, and the hooks it runs when cards are
/// attached, detached and ordered on the field.
pub trait State: Sized {
    /// Secret type
    type Secret: Clone;

    /// Base card type
    type BaseCard: BaseCard;

    /// Game-specific event type
    type Event: Clone;

    /// Called on a card when `attachment` is attached to it.
    fn on_attach(parent: &mut CardInstance<Self>, attachment: &CardInstance<Self>);

    /// Called on a card when `attachment` is detached from it.
    fn on_detach(parent: &mut CardInstance<Self>, attachment: &CardInstance<Self>);

    /// The order of cards on the field.
    fn field_order(a: CardInfo<Self>, b: CardInfo<Self>) -> Ordering;
}

} // verus!
