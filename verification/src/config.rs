//! Configuration of floor generation: room grid dimensions, minimum room
//! size, the dark-level threshold, and the inverse rates of the rare
//! features (mazes, hidden passages, locked doors).

use vstd::prelude::*;
use crate::coord::Coord;
use crate::coord::X;
use crate::coord::Y;

verus! {

/// Immutable value object passed into floor generation.
#[derive(Clone, Copy, Debug, PartialEq, Eq, Structural)]
pub struct Config {
    /// number of room slots along the column axis
    pub room_num_x: i32,
    /// number of room slots along the row axis
    pub room_num_y: i32,
    /// smallest extent a normal room may take
    pub min_room_size: Coord,
    /// upper bound on the number of empty placeholder slots
    pub max_empty_rooms: u32,
    /// level from which the dungeon holds the amulet
    pub amulet_level: u32,
    /// a hidden passage happens about 1 in this many eligible rolls
    pub hidden_passage_rate_inv: u32,
    /// a locked door happens about 1 in this many eligible rolls
    pub locked_door_rate_inv: u32,
    /// a maze room happens about 1 in this many eligible dark rooms
    pub maze_rate_inv: u32,
    /// depth scaling bound: deeper levels pass the darkness roll more often
    pub dark_level: u32,
    /// extra corridor edges beyond the spanning connection
    pub max_extra_edges: u32,
}

impl Config {
    /// Configuration-time contract: every rate is usable and the room grid
    /// is small enough for the arithmetic of slot placement.
    pub open spec fn wf(self) -> bool {
        &&& 1 <= self.room_num_x <= 16
        &&& 1 <= self.room_num_y <= 16
        &&& 3 <= self.min_room_size.x.0 <= 4096
        &&& 3 <= self.min_room_size.y.0 <= 4096
        &&& 1 <= self.dark_level <= 1000
        &&& 1 <= self.hidden_passage_rate_inv
        &&& 1 <= self.locked_door_rate_inv
        &&& 1 <= self.maze_rate_inv
        &&& self.max_empty_rooms <= 64
        &&& self.max_extra_edges <= 16
    }

    /// The slot width of the room grid on a floor `width` columns wide.
    pub open spec fn spec_slot_w(self, width: int) -> int {
        width / self.room_num_x as int
    }

    /// The slot height of the room grid on a floor `height` rows tall.
    pub open spec fn spec_slot_h(self, height: int) -> int {
        height / self.room_num_y as int
    }

    /// Whether a floor of the given dimensions leaves every slot room for a
    /// normal room of at least the minimum size plus its surrounding gap.
    pub open spec fn fits(self, width: int, height: int) -> bool {
        &&& 0 < width <= 4096
        &&& 0 < height <= 4096
        &&& self.min_room_size.x.0 < self.spec_slot_w(width)
        &&& self.min_room_size.y.0 < self.spec_slot_h(height)
    }

    /// Runtime check of `fits` for callers that take the dimensions from
    /// outside input.
    pub fn check_fits(&self, width: X, height: Y) -> (r: bool)
        requires
            self.wf(),
        ensures
            r == self.fits(width.0 as int, height.0 as int),
    {
        0 < width.0 && width.0 <= 4096 && 0 < height.0 && height.0 <= 4096
            && self.min_room_size.x.0 < width.0 / self.room_num_x
            && self.min_room_size.y.0 < height.0 / self.room_num_y
    }
}

impl Default for Config {
    /// The stock configuration: a 3 by 3 room grid with rooms of at least
    /// 4 by 4 cells.
    fn default() -> (c: Config)
        ensures
            c.wf(),
    {
        Config {
            room_num_x: 3,
            room_num_y: 3,
            min_room_size: Coord { x: X(4), y: Y(4) },
            max_empty_rooms: 4,
            amulet_level: 25,
            hidden_passage_rate_inv: 15,
            locked_door_rate_inv: 5,
            maze_rate_inv: 2,
            dark_level: 10,
            max_extra_edges: 5,
        }
    }
}

} // verus!
