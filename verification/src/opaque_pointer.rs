use vstd::prelude::*;

use crate::Player;

verus! {

/// A player's opaque handle on a card: the `index`th entry of that player's secret pointer
/// list. Only the player who holds it can tell which instance it points to.
#[derive(Clone, Copy, PartialEq, Eq, Structural, Debug)]
pub struct OpaquePointer {
    pub player: Player,
    pub index: usize,
}

impl OpaquePointer {
    /// Constructs an opaque pointer from a player and a raw index
    pub fn from_raw(player: Player, index: usize) -> (p: Self)
        ensures
            p.player == player,
            p.index == index,
    {
        OpaquePointer { player, index }
    }

    /// The player whose secret resolves this pointer.
    pub fn player(&self) -> (r: Player)
        ensures
            r == self.player,
    {
        self.player
    }

    /// The position of this pointer in its player's secret pointer list.
    pub fn index(&self) -> (r: usize)
        ensures
            r == self.index,
    {
        self.index
    }
}

} // verus!
