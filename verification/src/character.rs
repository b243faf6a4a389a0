//! Characters: the player, enemies, their stat value types, and the intent
//! actions a turn can carry.

use vstd::prelude::*;
use crate::coord::Coord;
use crate::coord::Direction;
use crate::coord::X;
use crate::coord::Y;
use crate::item::ItemBox;

verus! {

/// Hit points.
#[derive(Clone, Copy, Debug, PartialEq, Eq, Structural)]
pub struct HitPoint(pub i64);

/// A strength score.
#[derive(Clone, Copy, Debug, PartialEq, Eq, Structural)]
pub struct Strength(pub i64);

/// An experience level.
#[derive(Clone, Copy, Debug, PartialEq, Eq, Structural)]
pub struct Level(pub i64);

/// A defense (armor) value.
#[derive(Clone, Copy, Debug, PartialEq, Eq, Structural)]
pub struct Defense(pub i64);

impl Defense {
    /// The best reachable armor class.
    pub fn max() -> (d: Defense)
        ensures
            d.0 == 10,
    {
        Defense(10)
    }
}

/// A dice roll shape: `times` throws of a `face`-sided die.
#[derive(Clone, Copy, Debug, PartialEq, Eq, Structural)]
pub struct Dice {
    pub times: i64,
    pub face: HitPoint,
}

impl Dice {
    pub fn new(times: i64, face: HitPoint) -> (d: Dice)
        ensures
            d.times == times,
            d.face == face,
    {
        Dice { times, face }
    }
}

/// A current value next to its maximum.
#[derive(Clone, Copy, Debug, PartialEq, Eq, Structural)]
pub struct StrengthPair {
    pub current: Strength,
    pub max: Strength,
}

/// The player's mutable state.
#[derive(Clone, Debug)]
pub struct Player {
    pub pos: Coord,
    pub strength: StrengthPair,
    pub level: Level,
    pub arm: Defense,
    pub itembox: ItemBox,
    pub running: bool,
}

/// Stat bounds that keep the combat arithmetic inside machine limits.
pub open spec fn player_stats_wf(p: Player) -> bool {
    &&& -1000000 <= p.strength.current.0 <= 1000000
    &&& -1000000 <= p.level.0 <= 1000000
    &&& -1000000 <= p.arm.0 <= 1000000
}

impl Player {
    /// A fresh adventurer at the origin with stock stats.
    pub fn new() -> (p: Player)
        ensures
            player_stats_wf(p),
            p.pos == (Coord { x: X(0), y: Y(0) }),
            !p.running,
            p.itembox.items@.len() == 0,
    {
        Player {
            pos: Coord { x: X(0), y: Y(0) },
            strength: StrengthPair { current: Strength(16), max: Strength(16) },
            level: Level(1),
            arm: Defense(5),
            itembox: ItemBox::new(),
            running: false,
        }
    }

    pub fn strength(&self) -> (s: StrengthPair)
        ensures
            s == self.strength,
    {
        self.strength
    }

    pub fn level(&self) -> (l: Level)
        ensures
            l == self.level,
    {
        self.level
    }

    pub fn arm(&self) -> (d: Defense)
        ensures
            d == self.arm,
    {
        self.arm
    }

    /// Record whether a move just occurred.
    pub fn run(&mut self, b: bool)
        ensures
            *final(self) == (Player { running: b, ..*old(self) }),
    {
        self.running = b;
    }
}

/// One enemy's state, as far as combat resolution reads it.
#[derive(Clone, Copy, Debug, PartialEq, Eq, Structural)]
pub struct Enemy {
    pub level: Level,
    pub defense: Defense,
    pub hp: HitPoint,
    pub running: bool,
}

/// Stat bounds that keep the combat arithmetic inside machine limits.
pub open spec fn enemy_stats_wf(e: Enemy) -> bool {
    &&& -1000000 <= e.level.0 <= 1000000
    &&& -1000000 <= e.defense.0 <= 1000000
}

impl Enemy {
    pub fn new(level: Level, defense: Defense, hp: HitPoint) -> (e: Enemy)
        ensures
            e.level == level,
            e.defense == defense,
            e.hp == hp,
            !e.running,
    {
        Enemy { level, defense, hp, running: false }
    }

    pub fn is_running(&self) -> (r: bool)
        ensures
            r == self.running,
    {
        self.running
    }

    pub fn level(&self) -> (l: Level)
        ensures
            l == self.level,
    {
        self.level
    }

    pub fn defense(&self) -> (d: Defense)
        ensures
            d == self.defense,
    {
        self.defense
    }
}

/// The enemy collaborator: owns all active enemies. Combat scheduling and
/// pathing beyond the single move-toward/away primitive are outside this
/// core, so moving the actives is a bookkeeping step at this boundary.
#[derive(Clone, Debug)]
pub struct EnemyHandler {
    pub enemies: Vec<Enemy>,
}

impl EnemyHandler {
    pub fn new() -> (h: EnemyHandler)
        ensures
            h.enemies@.len() == 0,
    {
        EnemyHandler { enemies: Vec::new() }
    }

    /// Move all active enemies given the player position.
    pub fn move_actives(&mut self, _player_pos: Coord)
        ensures
            *final(self) == *old(self),
    {
    }
}

/// A player-intent action, one per turn.
#[derive(Clone, Copy, Debug, PartialEq, Eq, Structural)]
pub enum Action {
    DownStair,
    UpStair,
    Move(Direction),
    MoveUntil(Direction),
    Search,
}

} // verus!
