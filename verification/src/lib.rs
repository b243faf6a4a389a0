//! Simulation core of a turn-based dungeon crawler.
//!
//! The crate generates a dungeon floor's spatial layout (rooms, passages,
//! doors, hidden and locked variants) and resolves the effects of player
//! actions (movement, searching, item pickup, level transition) against that
//! layout, while maintaining derived state such as visibility and room
//! occupancy.

pub mod actions;
pub mod candidates;
pub mod character;
pub mod config;
pub mod coord;
pub mod dungeon;
pub mod error;
pub mod fight;
pub mod floor;
pub mod grid;
pub mod item;
pub mod msg;
pub mod passages;
pub mod rect;
pub mod rng;
pub mod rooms;
pub mod weapon;

use vstd::prelude::*;

verus! {

/// Global flags of one game session that generation consults.
#[derive(Clone, Copy, Debug, PartialEq, Eq, Structural)]
pub struct GameInfo {
    /// whether the player has already retrieved the amulet
    pub is_cleared: bool,
}

impl GameInfo {
    pub fn new() -> (g: GameInfo)
        ensures
            !g.is_cleared,
    {
        GameInfo { is_cleared: false }
    }
}

} // verus!
