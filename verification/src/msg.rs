//! Observable effects of a turn: user-facing notifications and the closed
//! set of reactions handed to the caller.

use vstd::prelude::*;
use crate::coord::Direction;
use crate::item::ItemKind;

verus! {

/// A user-facing notification payload.
#[derive(Clone, Debug, PartialEq, Eq)]
pub enum GameMsg {
    /// there is no downstair at the player's cell
    NoDownStair,
    /// the player cannot move in that direction
    CantMove(Direction),
    /// a search revealed a secret door
    SecretDoor,
    /// the player picked an item up; the resulting stack
    GotItem { kind: ItemKind, num: u32 },
}

/// An effect the caller must react to.
#[derive(Clone, Debug, PartialEq, Eq)]
pub enum Reaction {
    /// the map must be redrawn
    Redraw,
    /// the status bar must be redrawn
    StatusUpdated,
    /// a notification must reach the player
    Notify(GameMsg),
}

} // verus!
