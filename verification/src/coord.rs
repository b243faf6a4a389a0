//! Signed 2-D coordinates and the eight compass directions.

use vstd::prelude::*;

verus! {

/// A column index on the floor grid.
#[derive(Clone, Copy, Debug, PartialEq, Eq, Structural, Hash)]
pub struct X(pub i32);

/// A row index on the floor grid.
#[derive(Clone, Copy, Debug, PartialEq, Eq, Structural, Hash)]
pub struct Y(pub i32);

/// A pair of signed integers (column, row); an immutable value type.
#[derive(Clone, Copy, Debug, PartialEq, Eq, Structural, Hash)]
pub struct Coord {
    pub x: X,
    pub y: Y,
}

impl Coord {
    pub fn new(x: i32, y: i32) -> (c: Coord)
        ensures
            c.x.0 == x,
            c.y.0 == y,
    {
        Coord { x: X(x), y: Y(y) }
    }

    /// Componentwise scaling.
    pub fn scale(self, x: i32, y: i32) -> (c: Coord)
        requires
            i32::MIN <= self.x.0 * x <= i32::MAX,
            i32::MIN <= self.y.0 * y <= i32::MAX,
        ensures
            c.x.0 == self.x.0 * x,
            c.y.0 == self.y.0 * y,
    {
        Coord { x: X(self.x.0 * x), y: Y(self.y.0 * y) }
    }

    /// Slide along the column axis.
    pub fn slide_x(self, x: i32) -> (c: Coord)
        requires
            i32::MIN <= self.x.0 + x <= i32::MAX,
        ensures
            c.x.0 == self.x.0 + x,
            c.y == self.y,
    {
        Coord { x: X(self.x.0 + x), y: self.y }
    }

    /// Slide along the row axis.
    pub fn slide_y(self, y: i32) -> (c: Coord)
        requires
            i32::MIN <= self.y.0 + y <= i32::MAX,
        ensures
            c.x == self.x,
            c.y.0 == self.y.0 + y,
    {
        Coord { x: self.x, y: Y(self.y.0 + y) }
    }

    /// The coordinate one step away in the given direction.
    pub fn moved(self, d: Direction) -> (c: Coord)
        requires
            i32::MIN <= self.x.0 + dir_dx(d) <= i32::MAX,
            i32::MIN <= self.y.0 + dir_dy(d) <= i32::MAX,
        ensures
            c.x.0 == self.x.0 + dir_dx(d),
            c.y.0 == self.y.0 + dir_dy(d),
    {
        let delta = d.to_cd();
        Coord { x: X(self.x.0 + delta.x.0), y: Y(self.y.0 + delta.y.0) }
    }
}

/// One of 8 compass directions plus "none".
#[derive(Clone, Copy, Debug, PartialEq, Eq, Structural)]
pub enum Direction {
    Up,
    Down,
    Left,
    Right,
    LeftUp,
    RightUp,
    LeftDown,
    RightDown,
    Stay,
}

/// Column delta of one step in direction `d`.
pub open spec fn dir_dx(d: Direction) -> int {
    match d {
        Direction::Up => 0,
        Direction::Down => 0,
        Direction::Left => -1,
        Direction::Right => 1,
        Direction::LeftUp => -1,
        Direction::RightUp => 1,
        Direction::LeftDown => -1,
        Direction::RightDown => 1,
        Direction::Stay => 0,
    }
}

/// Row delta of one step in direction `d`.
pub open spec fn dir_dy(d: Direction) -> int {
    match d {
        Direction::Up => -1,
        Direction::Down => 1,
        Direction::Left => 0,
        Direction::Right => 0,
        Direction::LeftUp => -1,
        Direction::RightUp => -1,
        Direction::LeftDown => 1,
        Direction::RightDown => 1,
        Direction::Stay => 0,
    }
}

/// A direction is diagonal when it changes both axes.
pub open spec fn spec_is_diag(d: Direction) -> bool {
    dir_dx(d) != 0 && dir_dy(d) != 0
}

impl Direction {
    /// The coordinate delta of one step in this direction.
    pub fn to_cd(self) -> (c: Coord)
        ensures
            c.x.0 == dir_dx(self),
            c.y.0 == dir_dy(self),
    {
        match self {
            Direction::Up => Coord { x: X(0), y: Y(-1) },
            Direction::Down => Coord { x: X(0), y: Y(1) },
            Direction::Left => Coord { x: X(-1), y: Y(0) },
            Direction::Right => Coord { x: X(1), y: Y(0) },
            Direction::LeftUp => Coord { x: X(-1), y: Y(-1) },
            Direction::RightUp => Coord { x: X(1), y: Y(-1) },
            Direction::LeftDown => Coord { x: X(-1), y: Y(1) },
            Direction::RightDown => Coord { x: X(1), y: Y(1) },
            Direction::Stay => Coord { x: X(0), y: Y(0) },
        }
    }

    /// Whether this direction is diagonal.
    pub fn is_diag(self) -> (r: bool)
        ensures
            r == spec_is_diag(self),
    {
        match self {
            Direction::LeftUp => true,
            Direction::RightUp => true,
            Direction::LeftDown => true,
            Direction::RightDown => true,
            _ => false,
        }
    }
}

/// A surface placement emitted by room rasterization and passage digging.
#[derive(Clone, Copy, Debug, PartialEq, Eq, Structural)]
pub struct Positioned<T>(pub Coord, pub T);

} // verus!
