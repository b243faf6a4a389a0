//! Cells of the floor grid: terrain surfaces, the attribute flag set layered
//! on top of them, and the 2-D field that owns every cell.

use vstd::prelude::*;
use crate::coord::Coord;

verus! {

/// What a cell physically is; determines base walkability.
#[derive(Clone, Copy, Debug, PartialEq, Eq, Structural)]
pub enum Surface {
    /// unassigned solid rock
    Rock,
    Floor,
    Wall,
    Passage,
    Door,
    Stair,
    Trap,
}

impl Surface {
    /// Base walkability of the surface.
    pub open spec fn spec_can_walk(self) -> bool {
        match self {
            Surface::Floor => true,
            Surface::Passage => true,
            Surface::Door => true,
            Surface::Stair => true,
            Surface::Trap => true,
            Surface::Rock => false,
            Surface::Wall => false,
        }
    }

    pub fn can_walk(self) -> (r: bool)
        ensures
            r == self.spec_can_walk(),
    {
        match self {
            Surface::Floor | Surface::Passage | Surface::Door | Surface::Stair | Surface::Trap => true,
            Surface::Rock | Surface::Wall => false,
        }
    }

    /// The display glyph of the bare surface.
    pub open spec fn spec_to_char(self) -> char {
        match self {
            Surface::Rock => ' ',
            Surface::Floor => '.',
            Surface::Wall => '-',
            Surface::Passage => '#',
            Surface::Door => '+',
            Surface::Stair => '%',
            Surface::Trap => '^',
        }
    }

    pub fn to_char(self) -> (r: char)
        ensures
            r == self.spec_to_char(),
    {
        match self {
            Surface::Rock => ' ',
            Surface::Floor => '.',
            Surface::Wall => '-',
            Surface::Passage => '#',
            Surface::Door => '+',
            Surface::Stair => '%',
            Surface::Trap => '^',
        }
    }
}

/// The independent attribute flags layered on top of a surface.
/// Multiple flags may be set simultaneously; they are additive and
/// orthogonal to the surface.
#[derive(Clone, Copy, Debug, PartialEq, Eq, Structural)]
pub struct CellAttr {
    /// not shown nor walkable until revealed by a search
    pub is_hidden: bool,
    /// a locked door blocks movement until unlocked
    pub is_locked: bool,
    /// the room owning this cell starts unlit
    pub is_dark: bool,
    /// has been rendered at least once
    pub is_drawn: bool,
    /// the player has stood here
    pub is_visited: bool,
    /// adjacent-but-not-entered
    pub is_approached: bool,
    /// currently shown to the player
    pub is_visible: bool,
    /// the player recently departed from next to this cell
    pub is_left: bool,
}

impl CellAttr {
    /// The attribute set with no flag raised.
    pub fn new() -> (a: CellAttr)
        ensures
            a == CellAttr::spec_default(),
    {
        CellAttr {
            is_hidden: false,
            is_locked: false,
            is_dark: false,
            is_drawn: false,
            is_visited: false,
            is_approached: false,
            is_visible: false,
            is_left: false,
        }
    }

    pub open spec fn spec_default() -> CellAttr {
        CellAttr {
            is_hidden: false,
            is_locked: false,
            is_dark: false,
            is_drawn: false,
            is_visited: false,
            is_approached: false,
            is_visible: false,
            is_left: false,
        }
    }
}

/// One cell of the grid: exactly one surface and one attribute set.
#[derive(Clone, Copy, Debug, PartialEq, Eq, Structural)]
pub struct Cell {
    pub surface: Surface,
    pub attr: CellAttr,
}

impl Cell {
    pub fn with_default_attr(surface: Surface) -> (c: Cell)
        ensures
            c.surface == surface,
            c.attr == CellAttr::spec_default(),
    {
        Cell { surface, attr: CellAttr::new() }
    }

    pub fn is_hidden(&self) -> (r: bool)
        ensures
            r == self.attr.is_hidden,
    {
        self.attr.is_hidden
    }

    pub fn is_locked(&self) -> (r: bool)
        ensures
            r == self.attr.is_locked,
    {
        self.attr.is_locked
    }

    /// The glyph the player sees; hidden cells render as rock.
    pub open spec fn spec_to_char(self) -> char {
        if self.attr.is_hidden {
            ' '
        } else {
            self.surface.spec_to_char()
        }
    }

    pub fn to_char(&self) -> (r: char)
        ensures
            r == self.spec_to_char(),
    {
        if self.attr.is_hidden {
            ' '
        } else {
            self.surface.to_char()
        }
    }
}

/// The 2-D cell grid of one floor; the exclusive owner of all cell state.
#[derive(Clone, Debug)]
pub struct Field {
    pub width: i32,
    pub height: i32,
    pub cells: Vec<Cell>,
}

impl Field {
    /// Dimensions are positive and small enough that row-major indexing
    /// stays inside machine limits.
    pub open spec fn wf(self) -> bool {
        &&& 0 < self.width <= 4096
        &&& 0 < self.height <= 4096
        &&& self.cells@.len() == self.width * self.height
    }

    pub open spec fn spec_width(self) -> int {
        self.width as int
    }

    pub open spec fn spec_height(self) -> int {
        self.height as int
    }

    pub open spec fn spec_in_bounds(self, x: int, y: int) -> bool {
        0 <= x < self.width && 0 <= y < self.height
    }

    pub open spec fn in_bounds_cd(self, cd: Coord) -> bool {
        self.spec_in_bounds(cd.x.0 as int, cd.y.0 as int)
    }

    /// The cell at column `x`, row `y`.
    pub open spec fn at(self, x: int, y: int) -> Cell {
        self.cells@[y * self.width + x]
    }

    pub open spec fn at_cd(self, cd: Coord) -> Cell {
        self.at(cd.x.0 as int, cd.y.0 as int)
    }

    /// Same dimensions as `other`.
    pub open spec fn same_dims(self, other: Field) -> bool {
        self.width == other.width && self.height == other.height
    }

    pub fn width(&self) -> (r: i32)
        ensures
            r == self.spec_width(),
    {
        self.width
    }

    pub fn height(&self) -> (r: i32)
        ensures
            r == self.spec_height(),
    {
        self.height
    }

    /// A grid of the given dimensions with every cell equal to `fill`.
    pub fn new(width: i32, height: i32, fill: Cell) -> (f: Field)
        requires
            0 < width <= 4096,
            0 < height <= 4096,
        ensures
            f.wf(),
            f.spec_width() == width,
            f.spec_height() == height,
            forall|x: int, y: int| f.spec_in_bounds(x, y) ==> f.at(x, y) == fill,
    {
        proof {
            assert(width * height <= 4096 * 4096) by (nonlinear_arith)
                requires
                    0 < width <= 4096,
                    0 < height <= 4096,
            ;
        }
        let total: usize = (width as usize) * (height as usize);
        let mut cells: Vec<Cell> = Vec::new();
        let mut i: usize = 0;
        while i < total
            invariant
                i <= total,
                total == width * height,
                cells@.len() == i,
                forall|k: int| 0 <= k < i ==> cells@[k] == fill,
            decreases total - i,
        {
            cells.push(fill);
            i = i + 1;
        }
        let f = Field { width, height, cells };
        proof {
            assert forall|x: int, y: int| f.spec_in_bounds(x, y) implies f.at(x, y) == fill by {
                lemma_row_major(x, y, width as int, height as int);
            }
        }
        f
    }

    pub fn in_bounds(&self, cd: Coord) -> (r: bool)
        ensures
            r == self.in_bounds_cd(cd),
    {
        0 <= cd.x.0 && cd.x.0 < self.width && 0 <= cd.y.0 && cd.y.0 < self.height
    }

    /// The cell at `cd`, which must be in bounds.
    pub fn get(&self, cd: Coord) -> (c: Cell)
        requires
            self.wf(),
            self.in_bounds_cd(cd),
        ensures
            c == self.at_cd(cd),
    {
        proof {
            lemma_row_major(cd.x.0 as int, cd.y.0 as int, self.width as int, self.height as int);
        }
        let idx: usize = (cd.y.0 as usize) * (self.width as usize) + (cd.x.0 as usize);
        self.cells[idx]
    }

    /// The cell at `cd`, or `None` when `cd` lies outside the grid.
    pub fn try_get(&self, cd: Coord) -> (r: Option<Cell>)
        requires
            self.wf(),
        ensures
            self.in_bounds_cd(cd) ==> r == Some(self.at_cd(cd)),
            !self.in_bounds_cd(cd) ==> r.is_none(),
    {
        if self.in_bounds(cd) {
            Some(self.get(cd))
        } else {
            None
        }
    }

    /// Replace the cell at `cd`; every other cell is untouched.
    pub fn set(&mut self, cd: Coord, c: Cell)
        requires
            old(self).wf(),
            old(self).in_bounds_cd(cd),
        ensures
            final(self).wf(),
            final(self).same_dims(*old(self)),
            final(self).at_cd(cd) == c,
            forall|x: int, y: int|
                old(self).spec_in_bounds(x, y) && !(x == cd.x.0 as int && y == cd.y.0 as int)
                    ==> final(self).at(x, y) == old(self).at(x, y),
    {
        proof {
            lemma_row_major(cd.x.0 as int, cd.y.0 as int, self.width as int, self.height as int);
        }
        let idx: usize = (cd.y.0 as usize) * (self.width as usize) + (cd.x.0 as usize);
        self.cells.set(idx, c);
        proof {
            let w = self.width as int;
            let h = self.height as int;
            assert forall|x: int, y: int|
                old(self).spec_in_bounds(x, y) && !(x == cd.x.0 as int && y == cd.y.0 as int)
                    implies self.at(x, y) == old(self).at(x, y) by {
                lemma_row_major(x, y, w, h);
                if y * w + x == cd.y.0 as int * w + cd.x.0 as int {
                    lemma_row_major_injective(x, y, cd.x.0 as int, cd.y.0 as int, w);
                }
            }
        }
    }
}

/// Row-major index facts: the index of an in-bounds coordinate is in range.
pub(crate) proof fn lemma_row_major(x: int, y: int, w: int, h: int)
    requires
        0 <= x < w <= 4096,
        0 <= y < h <= 4096,
    ensures
        0 <= y * w + x < w * h,
        w * h <= 16777216,
{
    assert(y * w + x < w * h && w * h <= 4096 * 4096) by (nonlinear_arith)
        requires
            0 <= x < w <= 4096,
            0 <= y < h <= 4096,
    ;
    assert(0 <= y * w + x) by (nonlinear_arith)
        requires
            0 <= x,
            0 <= y,
            0 < w,
    ;
}

/// Row-major indexing is injective over in-bounds columns.
pub(crate) proof fn lemma_row_major_injective(x1: int, y1: int, x2: int, y2: int, w: int)
    requires
        0 <= x1 < w,
        0 <= x2 < w,
        y1 * w + x1 == y2 * w + x2,
    ensures
        x1 == x2 && y1 == y2,
{
    assert(x1 == x2 && y1 == y2) by (nonlinear_arith)
        requires
            0 <= x1 < w,
            0 <= x2 < w,
            y1 * w + x1 == y2 * w + x2,
    ;
}

} // verus!

