//! Rooms: the three room kinds, their rasterization, and their per-cell
//! occupancy bookkeeping.

use vstd::prelude::*;
use crate::config::Config;
use crate::coord::Coord;
use crate::coord::Positioned;
use crate::coord::X;
use crate::coord::Y;
use crate::grid::Surface;
use crate::grid::lemma_row_major;
use crate::grid::lemma_row_major_injective;
use crate::rect::RectRange;
use crate::rng::RngHandle;

verus! {

/// The three room kinds.
#[derive(Clone, Copy, Debug, PartialEq, Eq, Structural)]
pub enum RoomKind {
    /// a rectangular walkable area ringed by walls
    Normal { range: RectRange },
    /// an irregular region rendered as open passage cells
    Maze { range: RectRange },
    /// a single-point placeholder used only as a corridor anchor
    Empty { up_left: Coord },
}

/// Geometry a kind must satisfy before a room can be built of it.
pub open spec fn kind_wf(kind: RoomKind) -> bool {
    match kind {
        RoomKind::Normal { range } => {
            &&& 0 <= range.x0
            &&& range.x1 <= 4096
            &&& 0 <= range.y0
            &&& range.y1 <= 4096
            &&& range.x1 - range.x0 >= 3
            &&& range.y1 - range.y0 >= 3
        },
        RoomKind::Maze { range } => {
            &&& 0 <= range.x0
            &&& range.x1 <= 4096
            &&& 0 <= range.y0
            &&& range.y1 <= 4096
            &&& range.x1 - range.x0 >= 3
            &&& range.y1 - range.y0 >= 3
        },
        RoomKind::Empty { up_left } => {
            &&& 0 <= up_left.x.0 < 4096
            &&& 0 <= up_left.y.0 < 4096
        },
    }
}

/// One room of the floor. A room owns its bounds and occupancy bookkeeping;
/// it does not own grid cells — its cell association is a bounds test.
#[derive(Clone, Debug)]
pub struct Room {
    pub kind: RoomKind,
    /// cells inside start invisible until lit
    pub is_dark: bool,
    /// identifier; equals the room's position in the floor's room list
    pub id: usize,
    /// whether the player has entered this room
    pub is_visited: bool,
    /// the slot-anchored area used to resolve a coordinate to its room
    pub assigned_area: RectRange,
    /// the area whose cells can hold objects
    pub floor_area: RectRange,
    /// per cell of `floor_area`: an item occupies it
    pub item_filled: Vec<bool>,
    /// per cell of `floor_area`: a character occupies it
    pub char_filled: Vec<bool>,
}

impl Room {
    pub open spec fn wf(self) -> bool {
        &&& kind_wf(self.kind)
        &&& self.assigned_area == spec_assigned_area(self.kind)
        &&& self.floor_area == spec_floor_area(self.kind)
        &&& self.item_filled@.len() == spec_area(self.floor_area)
        &&& self.char_filled@.len() == spec_area(self.floor_area)
    }

    /// A coordinate is selectable when it lies in the room's floor area.
    pub open spec fn spec_contains(self, x: int, y: int) -> bool {
        self.floor_area.spec_contains(x, y)
    }

    /// The occupancy slot of an in-area coordinate.
    pub open spec fn spec_off(self, x: int, y: int) -> int {
        (y - self.floor_area.y0) * (self.floor_area.x1 - self.floor_area.x0) + (x
            - self.floor_area.x0)
    }

    /// Whether the given category occupies the cell.
    pub open spec fn spec_filled(self, x: int, y: int, is_character: bool) -> bool {
        if is_character {
            self.char_filled@[self.spec_off(x, y)]
        } else {
            self.item_filled@[self.spec_off(x, y)]
        }
    }

    /// Build a room of the given kind with empty occupancy.
    pub fn new(kind: RoomKind, is_dark: bool, id: usize) -> (room: Room)
        requires
            kind_wf(kind),
        ensures
            room.wf(),
            room.kind == kind,
            room.is_dark == is_dark,
            room.id == id,
            !room.is_visited,
            forall|x: int, y: int, b: bool|
                room.spec_contains(x, y) ==> !room.spec_filled(x, y, b),
    {
        let assigned_area = assigned_area_of(kind);
        let floor_area = floor_area_of(kind);
        let fw: i32 = floor_area.x1 - floor_area.x0;
        let fh: i32 = floor_area.y1 - floor_area.y0;
        proof {
            assert(fw * fh <= 4096 * 4096 && 0 <= fw * fh) by (nonlinear_arith)
                requires
                    0 <= fw <= 4096,
                    0 <= fh <= 4096,
            ;
        }
        let area: usize = (fw as usize) * (fh as usize);
        let item_filled = falses(area);
        let char_filled = falses(area);
        let room = Room { kind, is_dark, id, is_visited: false, assigned_area, floor_area, item_filled, char_filled };
        proof {
            assert forall|x: int, y: int, b: bool|
                room.spec_contains(x, y) implies !room.spec_filled(x, y, b) by {
                lemma_off_range(room, x, y);
            }
        }
        room
    }

    /// A room is empty when it is a placeholder with no floor area.
    pub fn is_empty(&self) -> (r: bool)
        ensures
            r == self.kind is Empty,
    {
        match self.kind {
            RoomKind::Empty { .. } => true,
            _ => false,
        }
    }

    pub fn is_normal(&self) -> (r: bool)
        ensures
            r == self.kind is Normal,
    {
        match self.kind {
            RoomKind::Normal { .. } => true,
            _ => false,
        }
    }

    /// The drawable range of a real room; a placeholder has none.
    pub fn range(&self) -> (r: Option<RectRange>)
        ensures
            match self.kind {
                RoomKind::Normal { range } => r == Some(range),
                RoomKind::Maze { range } => r == Some(range),
                RoomKind::Empty { .. } => r.is_none(),
            },
    {
        match self.kind {
            RoomKind::Normal { range } => Some(range),
            RoomKind::Maze { range } => Some(range),
            RoomKind::Empty { .. } => None,
        }
    }

    /// Whether the room's floor area holds the coordinate.
    pub fn contains(&self, cd: Coord) -> (r: bool)
        ensures
            r == self.spec_contains(cd.x.0 as int, cd.y.0 as int),
    {
        self.floor_area.contains(cd)
    }

    /// Mark the cell as occupied by the category; reports whether the cell
    /// was inside the room and free before.
    pub fn fill_cell(&mut self, cd: Coord, is_character: bool) -> (r: bool)
        requires
            old(self).wf(),
        ensures
            final(self).wf(),
            r == (old(self).spec_contains(cd.x.0 as int, cd.y.0 as int) && !old(self).spec_filled(
                cd.x.0 as int,
                cd.y.0 as int,
                is_character,
            )),
            final(self).kind == old(self).kind,
            final(self).is_dark == old(self).is_dark,
            final(self).id == old(self).id,
            final(self).is_visited == old(self).is_visited,
            final(self).assigned_area == old(self).assigned_area,
            final(self).floor_area == old(self).floor_area,
            old(self).spec_contains(cd.x.0 as int, cd.y.0 as int) ==> final(self).spec_filled(
                cd.x.0 as int,
                cd.y.0 as int,
                is_character,
            ),
            forall|x: int, y: int, b: bool|
                old(self).spec_contains(x, y) && !(x == cd.x.0 as int && y == cd.y.0 as int && b
                    == is_character) ==> final(self).spec_filled(x, y, b) == old(self).spec_filled(
                    x,
                    y,
                    b,
                ),
    {
        self.set_filled(cd, is_character, true)
    }

    /// Clear the cell's occupancy for the category; reports whether the cell
    /// was inside the room and occupied before.
    pub fn unfill_cell(&mut self, cd: Coord, is_character: bool) -> (r: bool)
        requires
            old(self).wf(),
        ensures
            final(self).wf(),
            r == (old(self).spec_contains(cd.x.0 as int, cd.y.0 as int) && old(self).spec_filled(
                cd.x.0 as int,
                cd.y.0 as int,
                is_character,
            )),
            final(self).kind == old(self).kind,
            final(self).is_dark == old(self).is_dark,
            final(self).id == old(self).id,
            final(self).is_visited == old(self).is_visited,
            final(self).assigned_area == old(self).assigned_area,
            final(self).floor_area == old(self).floor_area,
            old(self).spec_contains(cd.x.0 as int, cd.y.0 as int) ==> !final(self).spec_filled(
                cd.x.0 as int,
                cd.y.0 as int,
                is_character,
            ),
            forall|x: int, y: int, b: bool|
                old(self).spec_contains(x, y) && !(x == cd.x.0 as int && y == cd.y.0 as int && b
                    == is_character) ==> final(self).spec_filled(x, y, b) == old(self).spec_filled(
                    x,
                    y,
                    b,
                ),
    {
        let was = self.set_filled(cd, is_character, false);
        !was && self.contains(cd)
    }

    /// Shared occupancy update; reports the previous occupancy of an
    /// in-area cell, and `false` for a coordinate outside the room.
    fn set_filled(&mut self, cd: Coord, is_character: bool, value: bool) -> (was_free: bool)
        requires
            old(self).wf(),
        ensures
            final(self).wf(),
            was_free == (old(self).spec_contains(cd.x.0 as int, cd.y.0 as int) && !old(
                self,
            ).spec_filled(cd.x.0 as int, cd.y.0 as int, is_character)),
            final(self).kind == old(self).kind,
            final(self).is_dark == old(self).is_dark,
            final(self).id == old(self).id,
            final(self).is_visited == old(self).is_visited,
            final(self).assigned_area == old(self).assigned_area,
            final(self).floor_area == old(self).floor_area,
            old(self).spec_contains(cd.x.0 as int, cd.y.0 as int) ==> final(self).spec_filled(
                cd.x.0 as int,
                cd.y.0 as int,
                is_character,
            ) == value,
            !old(self).spec_contains(cd.x.0 as int, cd.y.0 as int) ==> *final(self) == *old(self),
            forall|x: int, y: int, b: bool|
                old(self).spec_contains(x, y) && !(x == cd.x.0 as int && y == cd.y.0 as int && b
                    == is_character) ==> final(self).spec_filled(x, y, b) == old(self).spec_filled(
                    x,
                    y,
                    b,
                ),
    {
        if !self.floor_area.contains(cd) {
            return false;
        }
        proof {
            lemma_off_range(*self, cd.x.0 as int, cd.y.0 as int);
        }
        let fw: i32 = self.floor_area.x1 - self.floor_area.x0;
        let off: usize = ((cd.y.0 - self.floor_area.y0) as usize) * (fw as usize) + ((cd.x.0
            - self.floor_area.x0) as usize);
        let before: bool;
        if is_character {
            before = self.char_filled[off];
            self.char_filled.set(off, value);
        } else {
            before = self.item_filled[off];
            self.item_filled.set(off, value);
        }
        proof {
            let fa = self.floor_area;
            assert forall|x: int, y: int, b: bool|
                old(self).spec_contains(x, y) && !(x == cd.x.0 as int && y == cd.y.0 as int && b
                    == is_character) implies self.spec_filled(x, y, b) == old(self).spec_filled(
                x,
                y,
                b,
            ) by {
                lemma_off_range(*old(self), x, y);
                if b == is_character && self.spec_off(x, y) == self.spec_off(
                    cd.x.0 as int,
                    cd.y.0 as int,
                ) {
                    lemma_row_major_injective(
                        x - fa.x0,
                        y - fa.y0,
                        cd.x.0 - fa.x0,
                        cd.y.0 - fa.y0,
                        fa.x1 - fa.x0,
                    );
                }
            }
        }
        !before
    }

    /// Draw the room's own cells: a normal room as a wall ring around open
    /// floor, a maze as open passage area, a placeholder as nothing.
    pub fn draw(&self) -> (out: Vec<Positioned<Surface>>)
        requires
            self.wf(),
        ensures
            forall|k: int|
                0 <= k < out@.len() ==> {
                    &&& spec_assigned_area(self.kind).spec_contains(
                        (#[trigger] out@[k]).0.x.0 as int,
                        out@[k].0.y.0 as int,
                    )
                    &&& (out@[k].1 is Wall || out@[k].1 is Floor || out@[k].1 is Passage)
                    &&& (out@[k].1 is Floor ==> self.kind is Normal && self.floor_area.spec_contains(
                        out@[k].0.x.0 as int,
                        out@[k].0.y.0 as int,
                    ))
                    &&& (out@[k].1 is Passage ==> self.kind is Maze)
                    &&& (out@[k].1 is Wall ==> self.kind is Normal)
                },
    {
        let mut out: Vec<Positioned<Surface>> = Vec::new();
        let range = match self.kind {
            RoomKind::Normal { range } => range,
            RoomKind::Maze { range } => range,
            RoomKind::Empty { .. } => { return out; },
        };
        let is_maze = self.is_normal() == false;
        let mut y: i32 = range.y0;
        while y < range.y1
            invariant
                range.y0 <= y <= range.y1,
                range == spec_assigned_area(self.kind),
                kind_wf(self.kind),
                self.wf(),
                !(self.kind is Empty),
                is_maze == (self.kind is Maze),
                forall|k: int|
                    0 <= k < out@.len() ==> {
                        &&& range.spec_contains((#[trigger] out@[k]).0.x.0 as int, out@[k].0.y.0 as int)
                        &&& (out@[k].1 is Wall || out@[k].1 is Floor || out@[k].1 is Passage)
                        &&& (out@[k].1 is Floor ==> self.kind is Normal
                            && self.floor_area.spec_contains(
                            out@[k].0.x.0 as int,
                            out@[k].0.y.0 as int,
                        ))
                        &&& (out@[k].1 is Passage ==> self.kind is Maze)
                        &&& (out@[k].1 is Wall ==> self.kind is Normal)
                    },
            decreases range.y1 - y,
        {
            let mut x: i32 = range.x0;
            while x < range.x1
                invariant
                    range.x0 <= x <= range.x1,
                    range.y0 <= y < range.y1,
                    range == spec_assigned_area(self.kind),
                    kind_wf(self.kind),
                    self.wf(),
                    !(self.kind is Empty),
                    is_maze == (self.kind is Maze),
                    forall|k: int|
                        0 <= k < out@.len() ==> {
                            &&& range.spec_contains(
                                (#[trigger] out@[k]).0.x.0 as int,
                                out@[k].0.y.0 as int,
                            )
                            &&& (out@[k].1 is Wall || out@[k].1 is Floor || out@[k].1 is Passage)
                            &&& (out@[k].1 is Floor ==> self.kind is Normal
                                && self.floor_area.spec_contains(
                                out@[k].0.x.0 as int,
                                out@[k].0.y.0 as int,
                            ))
                            &&& (out@[k].1 is Passage ==> self.kind is Maze)
                            &&& (out@[k].1 is Wall ==> self.kind is Normal)
                        },
                decreases range.x1 - x,
            {
                let cd = Coord { x: X(x), y: Y(y) };
                let surface = if is_maze {
                    Surface::Passage
                } else if range.is_edge(cd) {
                    Surface::Wall
                } else {
                    Surface::Floor
                };
                out.push(Positioned(cd, surface));
                x = x + 1;
            }
            y = y + 1;
        }
        out
    }

    /// Pick a uniformly random free cell of the room for the category, or
    /// report that none is left.
    pub fn select_cell(&self, rng: &mut RngHandle, is_character: bool) -> (r: Option<Coord>)
        requires
            self.wf(),
        ensures
            match r {
                Some(cd) => self.spec_contains(cd.x.0 as int, cd.y.0 as int) && !self.spec_filled(
                    cd.x.0 as int,
                    cd.y.0 as int,
                    is_character,
                ),
                None => forall|x: int, y: int|
                    self.spec_contains(x, y) ==> self.spec_filled(x, y, is_character),
            },
    {
        let fa = self.floor_area;
        let mut free: Vec<Coord> = Vec::new();
        let mut y: i32 = fa.y0;
        while y < fa.y1
            invariant
                self.wf(),
                fa == self.floor_area,
                fa.y0 <= y <= fa.y1 || (fa.y0 == fa.y1 && y == fa.y0),
                forall|k: int|
                    0 <= k < free@.len() ==> {
                        &&& self.spec_contains(
                            (#[trigger] free@[k]).x.0 as int,
                            free@[k].y.0 as int,
                        )
                        &&& !self.spec_filled(free@[k].x.0 as int, free@[k].y.0 as int, is_character)
                    },
                forall|x: int, yy: int|
                    self.spec_contains(x, yy) && yy < y && !self.spec_filled(x, yy, is_character)
                        ==> free@.contains(Coord { x: X(x as i32), y: Y(yy as i32) }),
            decreases fa.y1 - y,
        {
            let mut x: i32 = fa.x0;
            while x < fa.x1
                invariant
                    self.wf(),
                    fa == self.floor_area,
                    fa.x0 <= x <= fa.x1,
                    fa.y0 <= y < fa.y1,
                    forall|k: int|
                        0 <= k < free@.len() ==> {
                            &&& self.spec_contains(
                                (#[trigger] free@[k]).x.0 as int,
                                free@[k].y.0 as int,
                            )
                            &&& !self.spec_filled(
                                free@[k].x.0 as int,
                                free@[k].y.0 as int,
                                is_character,
                            )
                        },
                    forall|xx: int, yy: int|
                        self.spec_contains(xx, yy) && (yy < y || (yy == y && xx < x))
                            && !self.spec_filled(xx, yy, is_character) ==> free@.contains(
                            Coord { x: X(xx as i32), y: Y(yy as i32) },
                        ),
                decreases fa.x1 - x,
            {
                let cd = Coord { x: X(x), y: Y(y) };
                proof {
                    lemma_off_range(*self, x as int, y as int);
                }
                let fw: i32 = fa.x1 - fa.x0;
                let off: usize = ((y - fa.y0) as usize) * (fw as usize) + ((x - fa.x0) as usize);
                let taken = if is_character {
                    self.char_filled[off]
                } else {
                    self.item_filled[off]
                };
                let ghost pre = free@;
                if !taken {
                    free.push(cd);
                }
                proof {
                    assert forall|v: Coord| pre.contains(v) implies free@.contains(v) by {
                        let k = choose|k: int| 0 <= k < pre.len() && pre[k] == v;
                        assert(free@[k] == v);
                    }
                    if !taken {
                        assert(free@[pre.len() as int] == cd);
                        assert(free@.contains(cd));
                    }
                }
                x = x + 1;
            }
            y = y + 1;
        }
        if free.len() == 0 {
            None
        } else {
            let idx = rng.range_usize(0, free.len());
            Some(free[idx])
        }
    }
}

/// The slot-anchored area of a kind: the drawable range of a real room, the
/// single anchor point of a placeholder.
pub open spec fn spec_assigned_area(kind: RoomKind) -> RectRange {
    match kind {
        RoomKind::Normal { range } => range,
        RoomKind::Maze { range } => range,
        RoomKind::Empty { up_left } => RectRange {
            x0: up_left.x.0,
            y0: up_left.y.0,
            x1: (up_left.x.0 + 1) as i32,
            y1: (up_left.y.0 + 1) as i32,
        },
    }
}

/// The object-holding area of a kind: the interior of a normal room, the
/// whole range of a maze, nothing for a placeholder.
pub open spec fn spec_floor_area(kind: RoomKind) -> RectRange {
    match kind {
        RoomKind::Normal { range } => RectRange {
            x0: (range.x0 + 1) as i32,
            y0: (range.y0 + 1) as i32,
            x1: (range.x1 - 1) as i32,
            y1: (range.y1 - 1) as i32,
        },
        RoomKind::Maze { range } => range,
        RoomKind::Empty { up_left } => RectRange {
            x0: up_left.x.0,
            y0: up_left.y.0,
            x1: up_left.x.0,
            y1: up_left.y.0,
        },
    }
}

/// Cell count of a rectangle, zero when it is degenerate.
pub open spec fn spec_area(r: RectRange) -> int {
    if r.x0 < r.x1 && r.y0 < r.y1 {
        (r.x1 - r.x0) * (r.y1 - r.y0)
    } else {
        0
    }
}

fn assigned_area_of(kind: RoomKind) -> (r: RectRange)
    requires
        kind_wf(kind),
    ensures
        r == spec_assigned_area(kind),
{
    match kind {
        RoomKind::Normal { range } => range,
        RoomKind::Maze { range } => range,
        RoomKind::Empty { up_left } => RectRange {
            x0: up_left.x.0,
            y0: up_left.y.0,
            x1: up_left.x.0 + 1,
            y1: up_left.y.0 + 1,
        },
    }
}

fn floor_area_of(kind: RoomKind) -> (r: RectRange)
    requires
        kind_wf(kind),
    ensures
        r == spec_floor_area(kind),
        0 <= r.x1 - r.x0 <= 4096,
        0 <= r.y1 - r.y0 <= 4096,
        spec_area(r) == (r.x1 - r.x0) * (r.y1 - r.y0),
{
    let r = match kind {
        RoomKind::Normal { range } => RectRange {
            x0: range.x0 + 1,
            y0: range.y0 + 1,
            x1: range.x1 - 1,
            y1: range.y1 - 1,
        },
        RoomKind::Maze { range } => range,
        RoomKind::Empty { up_left } => RectRange {
            x0: up_left.x.0,
            y0: up_left.y.0,
            x1: up_left.x.0,
            y1: up_left.y.0,
        },
    };
    proof {
        if r.x0 < r.x1 && r.y0 < r.y1 {
            assert(spec_area(r) == (r.x1 - r.x0) * (r.y1 - r.y0));
        } else {
            assert(r.x0 == r.x1 && r.y0 == r.y1);
            assert((r.x1 - r.x0) * (r.y1 - r.y0) == 0) by (nonlinear_arith)
                requires
                    r.x0 == r.x1,
            ;
        }
    }
    r
}

/// A vector of `n` cleared occupancy slots.
fn falses(n: usize) -> (v: Vec<bool>)
    ensures
        v@.len() == n,
        forall|k: int| 0 <= k < n ==> !v@[k],
{
    let mut v: Vec<bool> = Vec::new();
    let mut i: usize = 0;
    while i < n
        invariant
            i <= n,
            v@.len() == i,
            forall|k: int| 0 <= k < i ==> !v@[k],
        decreases n - i,
    {
        v.push(false);
        i = i + 1;
    }
    v
}

/// The occupancy slot of an in-area coordinate is a valid vector index, and
/// the slot map is injective over the area.
proof fn lemma_off_range(room: Room, x: int, y: int)
    requires
        room.wf(),
        room.spec_contains(x, y),
    ensures
        0 <= room.spec_off(x, y) < spec_area(room.floor_area),
        spec_area(room.floor_area) <= 16777216,
        room.spec_off(x, y) == (y - room.floor_area.y0) * (room.floor_area.x1
            - room.floor_area.x0) + (x - room.floor_area.x0),
{
    let fa = room.floor_area;
    let fw = fa.x1 - fa.x0;
    let fh = fa.y1 - fa.y0;
    assert(0 <= fw <= 4096 && 0 <= fh <= 4096);
    lemma_row_major(x - fa.x0, y - fa.y0, fw, fh);
}

/// The rectangle of the room slot `idx` on a floor of the given dimensions.
pub open spec fn spec_slot_rect(config: Config, width: int, height: int, idx: int) -> RectRange {
    let nx = config.room_num_x as int;
    let sw = config.spec_slot_w(width);
    let sh = config.spec_slot_h(height);
    let ix = idx % nx;
    let iy = idx / nx;
    RectRange {
        x0: (ix * sw) as i32,
        y0: (iy * sh) as i32,
        x1: (ix * sw + sw) as i32,
        y1: (iy * sh + sh) as i32,
    }
}

/// What floor generation guarantees of the room in slot `idx`.
pub open spec fn room_slot_ok(room: Room, idx: int, config: Config, width: int, height: int) -> bool {
    &&& room.wf()
    &&& room.id == idx
    &&& !room.is_visited
    &&& room.assigned_area.spec_inside(spec_slot_rect(config, width, height, idx))
    &&& forall|x: int, y: int, b: bool| room.spec_contains(x, y) ==> !room.spec_filled(x, y, b)
}

/// Position facts of slot `idx`: its rectangle lies on the floor and its
/// corner products stay within the cast range.
pub proof fn lemma_slot_facts(config: Config, width: int, height: int, idx: int)
    requires
        config.wf(),
        config.fits(width, height),
        0 <= idx < config.room_num_x * config.room_num_y,
    ensures
        ({
            let nx = config.room_num_x as int;
            let ny = config.room_num_y as int;
            let sw = config.spec_slot_w(width);
            let sh = config.spec_slot_h(height);
            let ix = idx % nx;
            let iy = idx / nx;
            &&& 0 <= ix < nx
            &&& 0 <= iy < ny
            &&& 4 <= sw <= 4096
            &&& 4 <= sh <= 4096
            &&& 0 <= ix * sw
            &&& ix * sw + sw <= width
            &&& 0 <= iy * sh
            &&& iy * sh + sh <= height
            &&& spec_slot_rect(config, width, height, idx) == (RectRange {
                x0: (ix * sw) as i32,
                y0: (iy * sh) as i32,
                x1: (ix * sw + sw) as i32,
                y1: (iy * sh + sh) as i32,
            })
        }),
{
    let nx = config.room_num_x as int;
    let ny = config.room_num_y as int;
    let sw = config.spec_slot_w(width);
    let sh = config.spec_slot_h(height);
    let ix = idx % nx;
    let iy = idx / nx;
    vstd::arithmetic::div_mod::lemma_fundamental_div_mod(idx, nx);
    vstd::arithmetic::div_mod::lemma_remainder_lower(idx, nx);
    vstd::arithmetic::div_mod::lemma_remainder_upper(idx, nx);
    assert(0 <= ix < nx);
    vstd::arithmetic::div_mod::lemma_div_pos_is_pos(idx, nx);
    assert(idx < nx * ny);
    assert(iy < ny) by (nonlinear_arith)
        requires
            idx < nx * ny,
            idx == nx * iy + ix,
            0 <= ix < nx,
            0 < nx,
            0 < ny,
    ;
    vstd::arithmetic::div_mod::lemma_fundamental_div_mod(width, nx);
    assert(nx * sw <= width);
    vstd::arithmetic::div_mod::lemma_fundamental_div_mod(height, ny);
    assert(ny * sh <= height);
    assert(sw <= nx * sw && 0 <= ix * sw && ix * sw + sw <= nx * sw) by (nonlinear_arith)
        requires
            0 <= ix < nx,
            0 <= sw,
    ;
    assert(4 <= sw) by {
        assert(config.min_room_size.x.0 < sw);
    }
    assert(sh <= ny * sh && 0 <= iy * sh && iy * sh + sh <= ny * sh) by (nonlinear_arith)
        requires
            0 <= iy < ny,
            0 <= sh,
    ;
    assert(4 <= sh) by {
        assert(config.min_room_size.y.0 < sh);
    }
}

/// Distinct slots of one floor share no coordinate.
pub proof fn lemma_slots_disjoint(config: Config, width: int, height: int, i: int, j: int)
    requires
        config.wf(),
        config.fits(width, height),
        0 <= i < config.room_num_x * config.room_num_y,
        0 <= j < config.room_num_x * config.room_num_y,
        i != j,
    ensures
        spec_slot_rect(config, width, height, i).spec_disjoint(
            spec_slot_rect(config, width, height, j),
        ),
{
    let nx = config.room_num_x as int;
    let sw = config.spec_slot_w(width);
    let sh = config.spec_slot_h(height);
    lemma_slot_facts(config, width, height, i);
    lemma_slot_facts(config, width, height, j);
    let ra = spec_slot_rect(config, width, height, i);
    let rb = spec_slot_rect(config, width, height, j);
    let ixa = i % nx;
    let iya = i / nx;
    let ixb = j % nx;
    let iyb = j / nx;
    vstd::arithmetic::div_mod::lemma_fundamental_div_mod(i, nx);
    vstd::arithmetic::div_mod::lemma_fundamental_div_mod(j, nx);
    if ixa == ixb && iya == iyb {
        assert(i == j);
    }
    assert forall|x: int, y: int|
        !(ra.spec_contains(x, y) && rb.spec_contains(x, y)) by {
        if ra.spec_contains(x, y) && rb.spec_contains(x, y) {
            if ixa != ixb {
                assert(false) by (nonlinear_arith)
                    requires
                        ixa != ixb,
                        0 < sw,
                        ixa * sw <= x < ixa * sw + sw,
                        ixb * sw <= x < ixb * sw + sw,
                ;
            } else {
                assert(iya != iyb);
                assert(false) by (nonlinear_arith)
                    requires
                        iya != iyb,
                        0 < sh,
                        iya * sh <= y < iya * sh + sh,
                        iyb * sh <= y < iyb * sh + sh,
                ;
            }
        }
    }
}

/// Decide one slot's room: an empty placeholder, a maze, or a normal room,
/// with its darkness decided by a depth-scaled roll.
pub fn make_room(
    is_empty_room: bool,
    room_size: Coord,
    upper_left: Coord,
    id: usize,
    config: &Config,
    level: u32,
    rng: &mut RngHandle,
) -> (room: Room)
    requires
        config.wf(),
        3 <= room_size.x.0 <= 4096,
        3 <= room_size.y.0 <= 4096,
        0 <= upper_left.x.0,
        upper_left.x.0 + room_size.x.0 <= 4096,
        0 <= upper_left.y.0,
        upper_left.y.0 + room_size.y.0 <= 4096,
        config.min_room_size.x.0 < room_size.x.0,
        config.min_room_size.y.0 < room_size.y.0,
    ensures
        room.wf(),
        room.id == id,
        !room.is_visited,
        (room.kind is Empty) == is_empty_room,
        room.assigned_area.spec_inside(
            RectRange {
                x0: upper_left.x.0,
                y0: upper_left.y.0,
                x1: (upper_left.x.0 + room_size.x.0) as i32,
                y1: (upper_left.y.0 + room_size.y.0) as i32,
            },
        ),
        forall|x: int, y: int, b: bool| room.spec_contains(x, y) ==> !room.spec_filled(x, y, b),
        room.kind matches RoomKind::Empty { up_left } ==> room.is_dark && upper_left.x.0 + 1
            <= up_left.x.0 <= upper_left.x.0 + room_size.x.0 - 2 && upper_left.y.0 + 1
            <= up_left.y.0 <= upper_left.y.0 + room_size.y.0 - 2,
        room.kind matches RoomKind::Maze { range } ==> range == (RectRange {
            x0: upper_left.x.0,
            y0: upper_left.y.0,
            x1: (upper_left.x.0 + room_size.x.0) as i32,
            y1: (upper_left.y.0 + room_size.y.0) as i32,
        }),
        room.kind matches RoomKind::Normal { range } ==> {
            &&& range.x0 == upper_left.x.0
            &&& range.y0 == upper_left.y.0
            &&& config.min_room_size.x.0 <= range.x1 - range.x0 < room_size.x.0
            &&& config.min_room_size.y.0 <= range.y1 - range.y0 < room_size.y.0
        },
        level <= 1 && !is_empty_room ==> !room.is_dark && !(room.kind is Maze),
{
    if is_empty_room {
        let rx = rng.range_i32(1, room_size.x.0 - 1);
        let ry = rng.range_i32(1, room_size.y.0 - 1);
        let up_left = Coord { x: X(upper_left.x.0 + rx), y: Y(upper_left.y.0 + ry) };
        return Room::new(RoomKind::Empty { up_left }, true, id);
    }
    let is_dark = rng.range_u32(0, config.dark_level) + 1 < level;
    let maze_gate = rng.range_u32(0, config.dark_level) + 1 < level;
    let kind = if maze_gate && rng.does_happen(config.maze_rate_inv) {
        RoomKind::Maze {
            range: RectRange {
                x0: upper_left.x.0,
                y0: upper_left.y.0,
                x1: upper_left.x.0 + room_size.x.0,
                y1: upper_left.y.0 + room_size.y.0,
            },
        }
    } else {
        let xsize = rng.range_i32(config.min_room_size.x.0, room_size.x.0);
        let ysize = rng.range_i32(config.min_room_size.y.0, room_size.y.0);
        RoomKind::Normal {
            range: RectRange {
                x0: upper_left.x.0,
                y0: upper_left.y.0,
                x1: upper_left.x.0 + xsize,
                y1: upper_left.y.0 + ysize,
            },
        }
    };
    Room::new(kind, is_dark, id)
}

/// Partition the floor into a grid of slots and produce one room per slot.
/// Slot 0 always holds a real room, so the floor never comes out without
/// walkable area.
pub fn gen_rooms(level: u32, config: &Config, width: X, height: Y, rng: &mut RngHandle) -> (rooms:
    Vec<Room>)
    requires
        config.wf(),
        config.fits(width.0 as int, height.0 as int),
    ensures
        rooms@.len() == config.room_num_x * config.room_num_y,
        forall|i: int|
            0 <= i < rooms@.len() ==> room_slot_ok(
                #[trigger] rooms@[i],
                i,
                *config,
                width.0 as int,
                height.0 as int,
            ),
        !(rooms@[0].kind is Empty),
{
    let nx: i32 = config.room_num_x;
    let ny: i32 = config.room_num_y;
    proof {
        assert(nx * ny <= 256 && 0 < nx * ny) by (nonlinear_arith)
            requires
                1 <= nx <= 16,
                1 <= ny <= 16,
        ;
    }
    let n: usize = (nx as usize) * (ny as usize);
    let sw: i32 = width.0 / nx;
    let sh: i32 = height.0 / ny;
    proof {
        lemma_slot_facts(*config, width.0 as int, height.0 as int, 0);
    }
    let mut empty_mark: Vec<bool> = falses(n);
    if n >= 2 && config.max_empty_rooms > 0 {
        let target = rng.range_u32(0, config.max_empty_rooms + 1);
        let mut k: u32 = 0;
        while k < target
            invariant
                empty_mark@.len() == n,
                2 <= n <= 256,
                !empty_mark@[0],
            decreases target - k,
        {
            let idx = rng.range_u32(1, n as u32) as usize;
            empty_mark.set(idx, true);
            k = k + 1;
        }
    }
    let ghost w = width.0 as int;
    let ghost h = height.0 as int;
    let mut rooms: Vec<Room> = Vec::new();
    let mut j: i32 = 0;
    let mut y_ul: i32 = 0;
    proof {
        assert(0 * (sh as int) == 0 && 0 * (nx as int) == 0) by (nonlinear_arith);
    }
    while j < ny
        invariant
            config.wf(),
            config.fits(w, h),
            w == width.0 as int,
            h == height.0 as int,
            nx == config.room_num_x,
            ny == config.room_num_y,
            sw == config.spec_slot_w(w),
            sh == config.spec_slot_h(h),
            empty_mark@.len() == n,
            n == nx * ny,
            !empty_mark@[0],
            0 <= j <= ny,
            y_ul == j * sh,
            rooms@.len() == j * nx,
            forall|i: int|
                0 <= i < rooms@.len() ==> room_slot_ok(#[trigger] rooms@[i], i, *config, w, h),
            rooms@.len() > 0 ==> !(rooms@[0].kind is Empty),
        decreases ny - j,
    {
        let mut i: i32 = 0;
        let mut x_ul: i32 = 0;
        proof {
            assert(0 * (sw as int) == 0) by (nonlinear_arith);
            assert(ny * sh <= h) by {
                vstd::arithmetic::div_mod::lemma_fundamental_div_mod(h, ny as int);
            }
            assert(nx * sw <= w) by {
                vstd::arithmetic::div_mod::lemma_fundamental_div_mod(w, nx as int);
            }
            assert(0 <= j * sh && (j + 1) * sh <= ny * sh && (j + 1) * nx <= nx * ny && (j + 1)
                * nx == j * nx + nx && (j + 1) * sh == j * sh + sh) by (nonlinear_arith)
                requires
                    0 <= j < ny,
                    0 < nx,
                    0 < ny,
                    0 < sh,
            ;
        }
        while i < nx
            invariant
                config.wf(),
                config.fits(w, h),
                w == width.0 as int,
                h == height.0 as int,
                nx == config.room_num_x,
                ny == config.room_num_y,
                sw == config.spec_slot_w(w),
                sh == config.spec_slot_h(h),
                empty_mark@.len() == n,
                n == nx * ny,
                !empty_mark@[0],
                0 <= j < ny,
                0 <= i <= nx,
                y_ul == j * sh,
                x_ul == i * sw,
                rooms@.len() == j * nx + i,
                j * nx + nx <= n,
                forall|k: int|
                    0 <= k < rooms@.len() ==> room_slot_ok(#[trigger] rooms@[k], k, *config, w, h),
                rooms@.len() > 0 ==> !(rooms@[0].kind is Empty),
            decreases nx - i,
        {
            let id: usize = rooms.len();
            proof {
                assert(nx * sw <= w) by {
                    vstd::arithmetic::div_mod::lemma_fundamental_div_mod(w, nx as int);
                }
                assert(0 <= i * sw && (i + 1) * sw == i * sw + sw && (i + 1) * sw <= nx * sw) by (
                nonlinear_arith)
                    requires
                        0 <= i < nx,
                        0 < sw,
                ;
                assert(id < n) by (nonlinear_arith)
                    requires
                        id == j * nx + i,
                        0 <= i < nx,
                        0 <= j < ny,
                        n == nx * ny,
                ;
                lemma_slot_facts(*config, w, h, id as int);
                vstd::arithmetic::div_mod::lemma_fundamental_div_mod_converse(
                    id as int,
                    nx as int,
                    j as int,
                    i as int,
                );
            }
            let is_empty_room = empty_mark[id];
            let room = make_room(
                is_empty_room,
                Coord { x: X(sw), y: Y(sh) },
                Coord { x: X(x_ul), y: Y(y_ul) },
                id,
                config,
                level,
                rng,
            );
            rooms.push(room);
            proof {
                assert((i + 1) * sw == i * sw + sw && (j + 1) * sh == j * sh + sh) by (
                nonlinear_arith);
            }
            i = i + 1;
            x_ul = x_ul + sw;
        }
        proof {
            assert((j + 1) * sh == j * sh + sh && (j + 1) * nx == j * nx + nx) by (
            nonlinear_arith);
        }
        j = j + 1;
        y_ul = y_ul + sh;
    }
    proof {
        assert(ny * nx == nx * ny) by (nonlinear_arith);
    }
    rooms
}

/// Some cell of the room is free for the category.
pub open spec fn has_free_cell(room: Room, is_character: bool) -> bool {
    exists|x: int, y: int|
        (#[trigger] room.spec_contains(x, y)) && !room.spec_filled(x, y, is_character)
}

/// Every object-holding cell of a room lies in its assigned area.
pub proof fn lemma_floor_in_assigned(room: Room)
    requires
        room.wf(),
    ensures
        forall|x: int, y: int|
            room.spec_contains(x, y) ==> room.assigned_area.spec_contains(x, y),
{
    match room.kind {
        RoomKind::Normal { range } => {},
        RoomKind::Maze { range } => {},
        RoomKind::Empty { up_left } => {},
    }
}

} // verus!
