//! Errors of card movement and comparison.

use vstd::prelude::*;

use crate::{Card, Player, Zone};

verus! {

#[derive(Debug)]
pub enum MoveCardError {
    DustedCard { card: Card },
}

#[derive(Debug)]
pub enum SecretMoveCardError {
    MissingPointer { card: Card, player: Player },
    MissingInstance { card: Card, player: Player },
    DustedCard { card: Card },
}

#[derive(Debug)]
pub enum SecretModifyCardError {
    MissingInstance { card: Card, player: Player },
}

#[derive(Debug)]
pub enum CardEqualityError {
    IncomparableCards { a: Card, b: Card },
}

#[derive(Debug)]
pub enum ZoneEqualityError {
    IncomparableZones { a: Zone, b: Zone },
}

#[derive(Eq, PartialEq, Debug)]
pub enum RevealOkError {
    Error { err: String },
}

} // verus!
