//! Axis-aligned half-open rectangles of grid coordinates.

use vstd::prelude::*;
use crate::coord::Coord;

verus! {

/// The rectangle of coordinates with `x0 <= x < x1` and `y0 <= y < y1`.
#[derive(Clone, Copy, Debug, PartialEq, Eq, Structural)]
pub struct RectRange {
    pub x0: i32,
    pub y0: i32,
    pub x1: i32,
    pub y1: i32,
}

impl RectRange {
    /// A proper rectangle holds at least one coordinate.
    pub open spec fn wf(self) -> bool {
        self.x0 < self.x1 && self.y0 < self.y1
    }

    pub open spec fn spec_contains(self, x: int, y: int) -> bool {
        self.x0 <= x < self.x1 && self.y0 <= y < self.y1
    }

    /// Containment on the boundary ring of the rectangle.
    pub open spec fn spec_is_edge(self, x: int, y: int) -> bool {
        self.spec_contains(x, y) && (x == self.x0 || x == self.x1 - 1 || y == self.y0 || y
            == self.y1 - 1)
    }

    /// The rectangle spanned by an upper-left and a lower-right corner.
    pub fn from_corners(upper_left: Coord, lower_right: Coord) -> (r: RectRange)
        requires
            upper_left.x.0 < lower_right.x.0,
            upper_left.y.0 < lower_right.y.0,
        ensures
            r.x0 == upper_left.x.0,
            r.y0 == upper_left.y.0,
            r.x1 == lower_right.x.0,
            r.y1 == lower_right.y.0,
            r.wf(),
    {
        RectRange { x0: upper_left.x.0, y0: upper_left.y.0, x1: lower_right.x.0, y1: lower_right.y.0 }
    }

    pub fn contains(&self, cd: Coord) -> (r: bool)
        ensures
            r == self.spec_contains(cd.x.0 as int, cd.y.0 as int),
    {
        self.x0 <= cd.x.0 && cd.x.0 < self.x1 && self.y0 <= cd.y.0 && cd.y.0 < self.y1
    }

    pub fn is_edge(&self, cd: Coord) -> (r: bool)
        ensures
            r == self.spec_is_edge(cd.x.0 as int, cd.y.0 as int),
    {
        self.contains(cd) && (cd.x.0 == self.x0 || cd.x.0 == self.x1 - 1 || cd.y.0 == self.y0
            || cd.y.0 == self.y1 - 1)
    }

    /// Whether this rectangle lies entirely inside `outer`.
    pub open spec fn spec_inside(self, outer: RectRange) -> bool {
        outer.x0 <= self.x0 && self.x1 <= outer.x1 && outer.y0 <= self.y0 && self.y1 <= outer.y1
    }

    /// Two rectangles with no common coordinate.
    pub open spec fn spec_disjoint(self, other: RectRange) -> bool {
        forall|x: int, y: int|
            !(self.spec_contains(x, y) && other.spec_contains(x, y))
    }
}

} // verus!
