//! One dungeon level's layout and mutable state: the rooms, the cell grid,
//! the committed door-coordinate set and the room selection index; floor
//! generation and the visibility and movement rules over the grid.

use vstd::prelude::*;
use crate::candidates::Candidates;
use crate::config::Config;
use crate::coord::Coord;
use crate::coord::Direction;
use crate::coord::X;
use crate::coord::Y;
use crate::coord::dir_dx;
use crate::coord::dir_dy;
use crate::coord::spec_is_diag;
use crate::error::ErrorId;
use crate::error::GameError;
use crate::error::GameResult;
use crate::grid::Cell;
use crate::grid::CellAttr;
use crate::grid::Field;
use crate::grid::Surface;
use crate::passages::dig_passages;
use crate::passages::placements_ok;
use crate::rect::RectRange;
use crate::rng::RngHandle;
use crate::rooms::Room;
use crate::rooms::gen_rooms;
use crate::rooms::lemma_slot_facts;
use crate::rooms::room_slot_ok;
use crate::rooms::spec_slot_rect;
use crate::item::Item;
use crate::item::ItemHandler;
use crate::msg::GameMsg;

verus! {

/// No coordinate occurs twice in the door list.
pub open spec fn doors_distinct(doors: Seq<Coord>) -> bool {
    forall|a: int, b: int| 0 <= a < b < doors.len() ==> doors[a] != doors[b]
}

/// The door list is exactly the set of grid coordinates whose surface is a
/// door: every listed coordinate carries a door, and every door-surfaced
/// cell is listed.
pub open spec fn doors_match_field(doors: Seq<Coord>, f: Field) -> bool {
    &&& forall|k: int|
        0 <= k < doors.len() ==> f.in_bounds_cd(#[trigger] doors[k]) && f.at_cd(doors[k]).surface
            == Surface::Door
    &&& forall|x: int, y: int|
        f.spec_in_bounds(x, y) && (#[trigger] f.at(x, y)).surface == Surface::Door
            ==> doors.contains(Coord { x: X(x as i32), y: Y(y as i32) })
}

/// The room's slot-anchored area lies on the grid.
pub open spec fn room_in_field(room: Room, f: Field) -> bool {
    &&& 0 <= room.assigned_area.x0
    &&& room.assigned_area.x1 <= f.spec_width()
    &&& 0 <= room.assigned_area.y0
    &&& room.assigned_area.y1 <= f.spec_height()
}

/// Where each surface kind can come from on a freshly generated floor:
/// no stairs or traps are placed by generation, open floor appears only
/// inside a normal room's interior, walls only on a room's area — every
/// other non-rock cell was carved as passage or door.
pub open spec fn surfaces_sourced(f: Field, rooms: Seq<Room>) -> bool {
    forall|x: int, y: int|
        f.spec_in_bounds(x, y) ==> {
            let s = (#[trigger] f.at(x, y)).surface;
            &&& !(s is Stair)
            &&& !(s is Trap)
            &&& (s is Floor ==> exists|i: int|
                0 <= i < rooms.len() && rooms[i].kind is Normal && #[trigger] rooms[
                    i
                ].spec_contains(x, y))
            &&& (s is Wall ==> exists|i: int|
                0 <= i < rooms.len() && #[trigger] rooms[i].assigned_area.spec_contains(x, y))
            &&& (s is Door ==> exists|i: int|
                0 <= i < rooms.len() && #[trigger] rooms[i].assigned_area.spec_contains(x, y))
        }
}

/// The aggregate root for one dungeon level.
#[derive(Clone, Debug)]
pub struct Floor {
    /// rooms, indexed by position = identifier
    pub rooms: Vec<Room>,
    /// coordinates of doors, kept equal to the door-surfaced cells
    pub doors: Vec<Coord>,
    /// the level map
    pub field: Field,
    /// identifiers of rooms that were non-empty at construction time
    pub non_empty_rooms: Candidates,
}

impl Floor {
    pub open spec fn rooms_ok(self) -> bool {
        &&& forall|i: int| 0 <= i < self.rooms@.len() ==> (#[trigger] self.rooms@[i]).wf()
        &&& forall|i: int| 0 <= i < self.rooms@.len() ==> (#[trigger] self.rooms@[i]).id == i
        &&& forall|i: int|
            0 <= i < self.rooms@.len() ==> room_in_field(#[trigger] self.rooms@[i], self.field)
        &&& forall|i: int, j: int, x: int, y: int|
            0 <= i < self.rooms@.len() && 0 <= j < self.rooms@.len() && i != j && (
            #[trigger] self.rooms@[i].assigned_area.spec_contains(x, y)) ==> !(
            #[trigger] self.rooms@[j].assigned_area.spec_contains(x, y))
    }

    pub open spec fn candidates_ok(self) -> bool {
        &&& self.non_empty_rooms.wf()
        &&& forall|id: usize|
            #[trigger] self.non_empty_rooms.spec_contains(id) ==> id < self.rooms@.len() && !(
            self.rooms@[id as int].kind is Empty)
    }

    /// The floor invariant: a well-formed grid, a door list that matches the
    /// door-surfaced cells exactly, well-formed rooms on the grid with
    /// pairwise disjoint floor areas, and a selection index that only holds
    /// identifiers of non-empty rooms.
    pub open spec fn wf(self) -> bool {
        &&& self.field.wf()
        &&& doors_distinct(self.doors@)
        &&& doors_match_field(self.doors@, self.field)
        &&& self.rooms_ok()
        &&& self.candidates_ok()
    }

    /// Whether the coordinate is a known doorway.
    pub open spec fn spec_is_door(self, cd: Coord) -> bool {
        self.doors@.contains(cd)
    }

    /// Every known doorway lies in some room's assigned area, as it does on
    /// every generated floor; committing a step can then never fail.
    pub open spec fn doors_have_rooms(self) -> bool {
        forall|c: Coord| #[trigger] self.spec_is_door(c) ==> self.has_room_at(c)
    }

    /// Assemble a floor and seed its room selection index.
    pub fn new(rooms: Vec<Room>, doors: Vec<Coord>, field: Field) -> (floor: Floor)
        requires
            field.wf(),
            doors_distinct(doors@),
            doors_match_field(doors@, field),
            forall|i: int| 0 <= i < rooms@.len() ==> (#[trigger] rooms@[i]).wf(),
            forall|i: int| 0 <= i < rooms@.len() ==> (#[trigger] rooms@[i]).id == i,
            forall|i: int| 0 <= i < rooms@.len() ==> room_in_field(#[trigger] rooms@[i], field),
            forall|i: int, j: int, x: int, y: int|
                0 <= i < rooms@.len() && 0 <= j < rooms@.len() && i != j && (
                #[trigger] rooms@[i].assigned_area.spec_contains(x, y)) ==> !(#[trigger] rooms@[
                    j
                ].assigned_area.spec_contains(x, y)),
        ensures
            floor.wf(),
            floor.rooms == rooms,
            floor.doors == doors,
            floor.field == field,
            forall|id: usize|
                #[trigger] floor.non_empty_rooms.spec_contains(id) <==> (id < rooms@.len() && !(
                rooms@[id as int].kind is Empty)),
    {
        let non_empty_rooms = Candidates::from_non_empty(&rooms);
        Floor { rooms, doors, field, non_empty_rooms }
    }
}

/// The initial attribute set of a freshly drawn cell: a passage or a door
/// may start hidden, a door may start locked — both by depth-scaled rare
/// rolls — and the floor of a dark room starts dark. Nothing else is set.
pub fn gen_attr(surface: Surface, is_dark: bool, rng: &mut RngHandle, level: u32, config: &Config)
    -> (attr: CellAttr)
    requires
        config.wf(),
    ensures
        !attr.is_drawn,
        !attr.is_visited,
        !attr.is_approached,
        !attr.is_visible,
        !attr.is_left,
        attr.is_dark == (surface is Floor && is_dark),
        attr.is_hidden ==> (surface is Passage || surface is Door) && level >= 2,
        attr.is_locked ==> surface is Door && level >= 2,
{
    let mut attr = CellAttr::new();
    match surface {
        Surface::Passage => {
            if rng.range_u32(0, config.dark_level) + 1 < level && rng.does_happen(
                config.hidden_passage_rate_inv,
            ) {
                attr.is_hidden = true;
            }
        },
        Surface::Door => {
            if rng.range_u32(0, config.dark_level) + 1 < level && rng.does_happen(
                config.hidden_passage_rate_inv,
            ) {
                attr.is_hidden = true;
            }
            if rng.range_u32(0, config.dark_level) + 1 < level && rng.does_happen(
                config.locked_door_rate_inv,
            ) {
                attr.is_locked = true;
            }
        },
        Surface::Floor => {
            if is_dark {
                attr.is_dark = true;
            }
        },
        _ => {},
    }
    attr
}

/// Whether the coordinate list holds `cd`.
pub fn contains_coord(v: &Vec<Coord>, cd: Coord) -> (r: bool)
    ensures
        r == v@.contains(cd),
{
    let mut i: usize = 0;
    while i < v.len()
        invariant
            i <= v@.len(),
            forall|k: int| 0 <= k < i ==> v@[k] != cd,
        decreases v@.len() - i,
    {
        if v[i].x.0 == cd.x.0 && v[i].y.0 == cd.y.0 {
            proof {
                assert(v@[i as int] == cd);
            }
            return true;
        }
        i = i + 1;
    }
    proof {
        if v@.contains(cd) {
            let k = choose|k: int| 0 <= k < v@.len() && v@[k] == cd;
            assert(v@[k] != cd);
        }
    }
    false
}

/// Drop `cd` from a duplicate-free coordinate list, if present.
fn remove_coord(v: &mut Vec<Coord>, cd: Coord)
    requires
        doors_distinct(old(v)@),
    ensures
        doors_distinct(final(v)@),
        !final(v)@.contains(cd),
        forall|o: Coord| o != cd ==> final(v)@.contains(o) == old(v)@.contains(o),
        !old(v)@.contains(cd) ==> final(v)@ == old(v)@,
{
    let mut i: usize = 0;
    while i < v.len()
        invariant
            doors_distinct(v@),
            v@ == old(v)@,
            i <= v@.len(),
            forall|k: int| 0 <= k < i ==> v@[k] != cd,
        decreases v@.len() - i,
    {
        if v[i].x.0 == cd.x.0 && v[i].y.0 == cd.y.0 {
            proof {
                assert(v@[i as int] == cd);
            }
            let ghost pre = v@;
            v.swap_remove(i);
            proof {
                crate::candidates::lemma_swap_remove_distinct(pre, v@, i as int);
                assert(pre.contains(cd));
            }
            return ;
        }
        i = i + 1;
    }
    proof {
        if v@.contains(cd) {
            let k = choose|k: int| 0 <= k < v@.len() && v@[k] == cd;
            assert(v@[k] != cd);
        }
    }
}


/// Overlay one dug placement onto the grid, per the assembly rule: a cell
/// already hidden or locked from room rasterization keeps its surface, so
/// a secret feature is not revealed by drawing order, but still takes the
/// newly computed attribute; any other cell takes the placed surface. The
/// door list stays exactly equal to the door-surfaced cells.
fn overlay_cell(field: &mut Field, doors: &mut Vec<Coord>, cd: Coord, surface: Surface, attr: CellAttr)
    requires
        old(field).wf(),
        old(field).in_bounds_cd(cd),
        doors_distinct(old(doors)@),
        doors_match_field(old(doors)@, *old(field)),
    ensures
        final(field).wf(),
        final(field).same_dims(*old(field)),
        doors_distinct(final(doors)@),
        doors_match_field(final(doors)@, *final(field)),
        old(field).at_cd(cd).attr.is_hidden || old(field).at_cd(cd).attr.is_locked ==> final(field).at_cd(cd).surface == old(field).at_cd(cd).surface,
        !(old(field).at_cd(cd).attr.is_hidden || old(field).at_cd(cd).attr.is_locked) ==> final(field).at_cd(cd).surface == surface,
        final(field).at_cd(cd).attr == attr,
        forall|x: int, y: int|
            old(field).spec_in_bounds(x, y) && !(x == cd.x.0 as int && y == cd.y.0 as int)
                ==> final(field).at(x, y) == old(field).at(x, y),
{
    let old_cell = field.get(cd);
    let protected = old_cell.is_hidden() || old_cell.is_locked();
    let new_surface = if protected {
        old_cell.surface
    } else {
        surface
    };
    let ghost pre_doors = doors@;
    let ghost pre_field = field;
    if new_surface == Surface::Door {
        if old_cell.surface != Surface::Door {
            doors.push(cd);
        }
    } else {
        if old_cell.surface == Surface::Door {
            remove_coord(doors, cd);
        }
    }
    field.set(cd, Cell { surface: new_surface, attr });
    proof {
        let post_doors = doors@;
        if new_surface == Surface::Door && old_cell.surface != Surface::Door {
            if pre_doors.contains(cd) {
                let q = choose|q: int| 0 <= q < pre_doors.len() && pre_doors[q] == cd;
                assert(pre_field.at_cd(pre_doors[q]).surface == Surface::Door);
                assert(false);
            }
            assert forall|a: int, b: int|
                0 <= a < b < post_doors.len() implies post_doors[a] != post_doors[b] by {
                if b < pre_doors.len() {
                } else {
                    assert(post_doors[b] == cd);
                    assert(post_doors[a] == pre_doors[a]);
                    if post_doors[a] == cd {
                        assert(pre_doors.contains(cd));
                    }
                }
            }
        }
        assert forall|q: int|
            0 <= q < post_doors.len() implies field.in_bounds_cd(#[trigger] post_doors[q])
                && field.at_cd(post_doors[q]).surface == Surface::Door by {
            if new_surface == Surface::Door && old_cell.surface != Surface::Door && q
                == post_doors.len() - 1 {
                assert(post_doors[q] == cd);
            } else {
                let o = post_doors[q];
                assert(pre_doors.contains(o)) by {
                    if new_surface == Surface::Door || old_cell.surface != Surface::Door {
                        assert(pre_doors[q] == o);
                    } else {
                        assert(post_doors.contains(o));
                    }
                }
                let ko = choose|ko: int|
                    0 <= ko < pre_doors.len() && pre_doors[ko] == o;
                assert(pre_field.in_bounds_cd(o) && pre_field.at_cd(o).surface
                    == Surface::Door);
                if o == cd {
                    assert(new_surface == Surface::Door);
                } else {
                    assert(field.at(o.x.0 as int, o.y.0 as int) == pre_field.at(
                        o.x.0 as int,
                        o.y.0 as int,
                    ));
                }
            }
        }
        assert forall|x: int, y: int|
            field.spec_in_bounds(x, y) && (#[trigger] field.at(x, y)).surface
                == Surface::Door implies post_doors.contains(
            Coord { x: X(x as i32), y: Y(y as i32) },
        ) by {
            let o = Coord { x: X(x as i32), y: Y(y as i32) };
            if x == cd.x.0 as int && y == cd.y.0 as int {
                assert(o == cd);
                assert(new_surface == Surface::Door);
                if old_cell.surface != Surface::Door {
                    assert(post_doors[post_doors.len() - 1] == cd);
                } else {
                    assert(pre_field.at(x, y).surface == Surface::Door);
                    assert(pre_doors.contains(cd));
                    let ko = choose|ko: int|
                        0 <= ko < pre_doors.len() && pre_doors[ko] == cd;
                    assert(post_doors[ko] == cd);
                }
            } else {
                assert(field.at(x, y) == pre_field.at(x, y));
                assert(pre_doors.contains(o));
                if new_surface == Surface::Door && old_cell.surface != Surface::Door {
                    let ko = choose|ko: int|
                        0 <= ko < pre_doors.len() && pre_doors[ko] == o;
                    assert(post_doors[ko] == o);
                } else if new_surface != Surface::Door && old_cell.surface
                    == Surface::Door {
                    assert(o != cd);
                    assert(post_doors.contains(o));
                } else {
                    assert(post_doors == pre_doors);
                }
            }
        }
    }
}

impl Floor {
    /// Generate a new floor: rasterize one room per slot, then overlay the
    /// dug passages and doors. A cell already hidden or locked from room
    /// rasterization keeps its surface (a secret feature is not revealed by
    /// drawing order) but takes the newly computed attribute. The door list
    /// comes out exactly equal to the set of door-surfaced cells.
    pub fn gen_floor(level: u32, config: &Config, width: X, height: Y, rng: &mut RngHandle) -> (r:
        GameResult<Floor>)
        requires
            config.wf(),
            config.fits(width.0 as int, height.0 as int),
        ensures
            r.is_ok(),
            ({
                let floor = r->Ok_0;
                &&& floor.wf()
                &&& floor.field.spec_width() == width.0 as int
                &&& floor.field.spec_height() == height.0 as int
                &&& floor.rooms@.len() == config.room_num_x * config.room_num_y
                &&& !(floor.rooms@[0].kind is Empty)
                &&& surfaces_sourced(floor.field, floor.rooms@)
                &&& floor.doors_have_rooms()
                &&& forall|i: int, x: int, y: int, b: bool|
                    0 <= i < floor.rooms@.len() && floor.rooms@[i].spec_contains(x, y)
                        ==> !(#[trigger] floor.rooms@[i].spec_filled(x, y, b))
                &&& forall|id: usize|
                    #[trigger] floor.non_empty_rooms.spec_contains(id) <==> (id
                        < floor.rooms@.len() && !(floor.rooms@[id as int].kind is Empty))
            }),
    {
        let ghost w = width.0 as int;
        let ghost h = height.0 as int;
        let rooms = gen_rooms(level, config, width, height, rng);
        let mut field = Field::new(width.0, height.0, Cell::with_default_attr(Surface::Rock));
        let mut ridx: usize = 0;
        while ridx < rooms.len()
            invariant
                config.wf(),
                config.fits(w, h),
                w == width.0 as int,
                h == height.0 as int,
                rooms@.len() == config.room_num_x * config.room_num_y,
                forall|i: int|
                    0 <= i < rooms@.len() ==> room_slot_ok(#[trigger] rooms@[i], i, *config, w, h),
                field.wf(),
                field.spec_width() == w,
                field.spec_height() == h,
                forall|x: int, y: int|
                    field.spec_in_bounds(x, y) ==> (#[trigger] field.at(x, y)).surface
                        != Surface::Door,
                surfaces_sourced(field, rooms@),
            decreases rooms@.len() - ridx,
        {
            let room = &rooms[ridx];
            proof {
                lemma_slot_facts(*config, w, h, ridx as int);
            }
            let placements = room.draw();
            let mut k: usize = 0;
            while k < placements.len()
                invariant
                    config.wf(),
                    w == width.0 as int,
                    h == height.0 as int,
                    room == rooms@[ridx as int],
                    ridx < rooms@.len(),
                    room_slot_ok(*room, ridx as int, *config, w, h),
                    spec_slot_rect(*config, w, h, ridx as int).x0 >= 0,
                    spec_slot_rect(*config, w, h, ridx as int).y0 >= 0,
                    spec_slot_rect(*config, w, h, ridx as int).x1 <= w,
                    spec_slot_rect(*config, w, h, ridx as int).y1 <= h,
                    forall|q: int|
                        0 <= q < placements@.len() ==> {
                            &&& room.assigned_area.spec_contains(
                                (#[trigger] placements@[q]).0.x.0 as int,
                                placements@[q].0.y.0 as int,
                            )
                            &&& (placements@[q].1 is Wall || placements@[q].1 is Floor
                                || placements@[q].1 is Passage)
                            &&& (placements@[q].1 is Floor ==> room.kind is Normal
                                && room.floor_area.spec_contains(
                                placements@[q].0.x.0 as int,
                                placements@[q].0.y.0 as int,
                            ))
                            &&& (placements@[q].1 is Wall ==> room.kind is Normal)
                        },
                    field.wf(),
                    field.spec_width() == w,
                    field.spec_height() == h,
                    forall|x: int, y: int|
                        field.spec_in_bounds(x, y) ==> (#[trigger] field.at(x, y)).surface
                            != Surface::Door,
                    surfaces_sourced(field, rooms@),
                decreases placements@.len() - k,
            {
                let p = placements[k];
                let attr = gen_attr(p.1, room.is_dark, rng, level, config);
                proof {
                    assert(room.assigned_area.spec_contains(p.0.x.0 as int, p.0.y.0 as int));
                    assert(field.in_bounds_cd(p.0));
                }
                let ghost pre_field = field;
                field.set(p.0, Cell { surface: p.1, attr });
                proof {
                    assert forall|x: int, y: int|
                        field.spec_in_bounds(x, y) implies {
                        let s = (#[trigger] field.at(x, y)).surface;
                        &&& !(s is Stair)
                        &&& !(s is Trap)
                        &&& (s is Floor ==> exists|i: int|
                            0 <= i < rooms@.len() && rooms@[i].kind is Normal && #[trigger] rooms@[
                                i
                            ].spec_contains(x, y))
                        &&& (s is Wall ==> exists|i: int|
                            0 <= i < rooms@.len() && #[trigger] rooms@[
                                i
                            ].assigned_area.spec_contains(x, y))
                    } by {
                        if x == p.0.x.0 as int && y == p.0.y.0 as int {
                            if p.1 is Floor {
                                assert(rooms@[ridx as int].kind is Normal && rooms@[
                                    ridx as int
                                ].spec_contains(x, y));
                            }
                            if p.1 is Wall {
                                assert(rooms@[ridx as int].assigned_area.spec_contains(x, y));
                            }
                        } else {
                            assert(field.at(x, y) == pre_field.at(x, y));
                        }
                    }
                }
                k = k + 1;
            }
            ridx = ridx + 1;
        }
        let placements = dig_passages(&rooms, config, width, height, rng);
        let mut doors: Vec<Coord> = Vec::new();
        let mut k: usize = 0;
        while k < placements.len()
            invariant
                config.wf(),
                w == width.0 as int,
                h == height.0 as int,
                placements_ok(placements@, 0, w, h),
                crate::passages::doors_placed_on_rooms(placements@, 0, rooms@),
                field.wf(),
                field.spec_width() == w,
                field.spec_height() == h,
                doors_distinct(doors@),
                doors_match_field(doors@, field),
                surfaces_sourced(field, rooms@),
            decreases placements@.len() - k,
        {
            let p = placements[k];
            let cd = p.0;
            let attr = gen_attr(p.1, false, rng, level, config);
            let ghost pre_field = field;
            overlay_cell(&mut field, &mut doors, cd, p.1, attr);
            proof {
                assert forall|x: int, y: int|
                    field.spec_in_bounds(x, y) implies {
                    let s = (#[trigger] field.at(x, y)).surface;
                    &&& !(s is Stair)
                    &&& !(s is Trap)
                    &&& (s is Floor ==> exists|i: int|
                        0 <= i < rooms@.len() && rooms@[i].kind is Normal && #[trigger] rooms@[
                            i
                        ].spec_contains(x, y))
                    &&& (s is Wall ==> exists|i: int|
                        0 <= i < rooms@.len() && #[trigger] rooms@[
                            i
                        ].assigned_area.spec_contains(x, y))
                } by {
                    if x == cd.x.0 as int && y == cd.y.0 as int {
                        assert(field.at(x, y).surface == pre_field.at(x, y).surface || field.at(
                            x,
                            y,
                        ).surface == p.1);
                        if field.at(x, y).surface is Door && p.1 is Door {
                            assert((placements@[k as int]).1 is Door);
                            assert(exists|i: int|
                                0 <= i < rooms@.len()
                                    && #[trigger] rooms@[i].assigned_area.spec_contains(
                                    placements@[k as int].0.x.0 as int,
                                    placements@[k as int].0.y.0 as int,
                                ));
                        }
                    } else {
                        assert(field.at(x, y) == pre_field.at(x, y));
                    }
                }
            }
            k = k + 1;
        }
        proof {
            assert forall|i: int, j: int, x: int, y: int|
                0 <= i < rooms@.len() && 0 <= j < rooms@.len() && i != j && (
                #[trigger] rooms@[i].assigned_area.spec_contains(x, y)) implies !(#[trigger] rooms@[
                j
            ].assigned_area.spec_contains(x, y)) by {
                if rooms@[j].assigned_area.spec_contains(x, y) {
                    crate::rooms::lemma_slots_disjoint(*config, w, h, i, j);
                    assert(spec_slot_rect(*config, w, h, i).spec_contains(x, y));
                    assert(spec_slot_rect(*config, w, h, j).spec_contains(x, y));
                }
            }
            assert forall|i: int|
                0 <= i < rooms@.len() implies room_in_field(#[trigger] rooms@[i], field) by {
                lemma_slot_facts(*config, w, h, i);
            }
            assert forall|c: Coord| #[trigger] doors@.contains(c) implies (exists|i: int|
                0 <= i < rooms@.len() && (#[trigger] rooms@[i]).assigned_area.spec_contains(
                    c.x.0 as int,
                    c.y.0 as int,
                )) by {
                let q = choose|q: int| 0 <= q < doors@.len() && doors@[q] == c;
                assert(field.at_cd(doors@[q]).surface == Surface::Door);
                assert(field.at(c.x.0 as int, c.y.0 as int).surface is Door);
            }
        }
        Ok(Floor::new(rooms, doors, field))
    }
}

/// The adjacency table of movement by current and target surface: doorways
/// and passages may only be entered or left orthogonally, except that
/// enemies may cut passage corners diagonally.
pub open spec fn movement_table(cur: Surface, nxt: Surface, diag: bool, is_enemy: bool) -> bool {
    match cur {
        Surface::Floor => match nxt {
            Surface::Floor => true,
            Surface::Stair => true,
            Surface::Trap => true,
            Surface::Door => !diag,
            Surface::Passage => !diag,
            _ => false,
        },
        Surface::Passage => match nxt {
            Surface::Passage => !diag || is_enemy,
            Surface::Stair => !diag || is_enemy,
            Surface::Trap => !diag || is_enemy,
            Surface::Door => !diag || is_enemy,
            _ => false,
        },
        Surface::Door => match nxt {
            Surface::Passage => !diag,
            Surface::Stair => !diag,
            Surface::Trap => !diag,
            Surface::Door => !diag,
            Surface::Floor => !diag,
            _ => false,
        },
        _ => false,
    }
}

/// Full movement legality: the adjacency table must allow the step, and the
/// target must be walkable terrain, not hidden and not locked — any of
/// these overrides an otherwise legal table entry.
pub open spec fn spec_can_move(cur: Cell, nxt: Cell, d: Direction, is_enemy: bool) -> bool {
    &&& movement_table(cur.surface, nxt.surface, spec_is_diag(d), is_enemy)
    &&& nxt.surface.spec_can_walk()
    &&& !nxt.attr.is_hidden
    &&& !nxt.attr.is_locked
}

/// Movement legality is direction-asymmetric at doorways: from open floor a
/// diagonal step onto a door is always rejected, while an orthogonal step
/// onto the same door is accepted unless the door itself is hidden or
/// locked. Walkability, by contrast, is a property of the target cell
/// alone: every legal step, whatever its direction, lands on walkable
/// terrain.
pub proof fn lemma_door_step_asymmetry(
    cur: Cell,
    nxt: Cell,
    d_diag: Direction,
    d_orth: Direction,
    is_enemy: bool,
)
    requires
        cur.surface == Surface::Floor,
        nxt.surface == Surface::Door,
        spec_is_diag(d_diag),
        !spec_is_diag(d_orth),
    ensures
        !spec_can_move(cur, nxt, d_diag, is_enemy),
        !nxt.attr.is_hidden && !nxt.attr.is_locked ==> spec_can_move(cur, nxt, d_orth, is_enemy),
        forall|c2: Cell, n2: Cell, d: Direction, e: bool|
            spec_can_move(c2, n2, d, e) ==> n2.surface.spec_can_walk(),
{
}

impl Floor {
    /// Whether a mover of the given kind may step from `cd` in `direction`;
    /// `None` when either end of the step lies off the grid.
    pub fn can_move_impl(&self, cd: Coord, direction: Direction, is_enemy: bool) -> (r: Option<
        bool,
    >)
        requires
            self.wf(),
        ensures
            match r {
                Some(b) => {
                    &&& self.field.in_bounds_cd(cd)
                    &&& self.field.spec_in_bounds(
                        cd.x.0 + dir_dx(direction),
                        cd.y.0 + dir_dy(direction),
                    )
                    &&& b == spec_can_move(
                        self.field.at_cd(cd),
                        self.field.at(cd.x.0 + dir_dx(direction), cd.y.0 + dir_dy(direction)),
                        direction,
                        is_enemy,
                    )
                },
                None => !self.field.in_bounds_cd(cd) || !self.field.spec_in_bounds(
                    cd.x.0 + dir_dx(direction),
                    cd.y.0 + dir_dy(direction),
                ),
            },
    {
        let cur_cell = match self.field.try_get(cd) {
            Some(c) => c,
            None => {
                return None;
            },
        };
        let nxt_cd = cd.moved(direction);
        let nxt_cell = match self.field.try_get(nxt_cd) {
            Some(c) => c,
            None => {
                return None;
            },
        };
        let diag = direction.is_diag();
        let table = match cur_cell.surface {
            Surface::Floor => match nxt_cell.surface {
                Surface::Floor | Surface::Stair | Surface::Trap => true,
                Surface::Door | Surface::Passage => !diag,
                _ => false,
            },
            Surface::Passage => match nxt_cell.surface {
                Surface::Passage | Surface::Stair | Surface::Trap | Surface::Door => !diag
                    || is_enemy,
                _ => false,
            },
            Surface::Door => match nxt_cell.surface {
                Surface::Passage | Surface::Stair | Surface::Trap | Surface::Door
                | Surface::Floor => !diag,
                _ => false,
            },
            _ => false,
        };
        let mut res = table;
        res = res && nxt_cell.surface.can_walk();
        res = res && !nxt_cell.is_hidden();
        res = res && !nxt_cell.is_locked();
        Some(res)
    }

    /// Whether the player may step from `cd` in `direction`; a step off the
    /// grid is never legal.
    pub fn can_move_player(&self, cd: Coord, direction: Direction) -> (r: bool)
        requires
            self.wf(),
        ensures
            r == ({
                &&& self.field.in_bounds_cd(cd)
                &&& self.field.spec_in_bounds(
                    cd.x.0 + dir_dx(direction),
                    cd.y.0 + dir_dy(direction),
                )
                &&& spec_can_move(
                    self.field.at_cd(cd),
                    self.field.at(cd.x.0 + dir_dx(direction), cd.y.0 + dir_dy(direction)),
                    direction,
                    false,
                )
            }),
    {
        match self.can_move_impl(cd, direction, false) {
            Some(b) => b,
            None => false,
        }
    }

    /// The identifier of the first room whose assigned area holds `cd`.
    pub fn cd_to_room_id(&self, cd: Coord) -> (r: Option<usize>)
        requires
            self.wf(),
        ensures
            match r {
                Some(i) => i < self.rooms@.len() && self.rooms@[
                    i as int
                ].assigned_area.spec_contains(cd.x.0 as int, cd.y.0 as int) && forall|k: int|
                    0 <= k < i ==> !(#[trigger] self.rooms@[k].assigned_area).spec_contains(
                        cd.x.0 as int,
                        cd.y.0 as int,
                    ),
                None => forall|k: int|
                    0 <= k < self.rooms@.len() ==> !(
                    #[trigger] self.rooms@[k].assigned_area).spec_contains(
                        cd.x.0 as int,
                        cd.y.0 as int,
                    ),
            },
    {
        let mut i: usize = 0;
        while i < self.rooms.len()
            invariant
                i <= self.rooms@.len(),
                forall|k: int|
                    0 <= k < i ==> !(#[trigger] self.rooms@[k].assigned_area).spec_contains(
                        cd.x.0 as int,
                        cd.y.0 as int,
                    ),
            decreases self.rooms@.len() - i,
        {
            if self.rooms[i].assigned_area.contains(cd) {
                return Some(i);
            }
            i = i + 1;
        }
        None
    }

    /// Register an object of the given category at a cell; reports whether
    /// a room held the cell and it was free.
    pub fn set_obj(&mut self, cd: Coord, is_character: bool) -> (r: bool)
        requires
            old(self).wf(),
        ensures
            final(self).wf(),
            final(self).field == old(self).field,
            final(self).doors == old(self).doors,
            final(self).non_empty_rooms == old(self).non_empty_rooms,
            final(self).rooms@.len() == old(self).rooms@.len(),
            r == (exists|i: int|
                0 <= i < old(self).rooms@.len() && (#[trigger] old(self).rooms@[i]).spec_contains(
                    cd.x.0 as int,
                    cd.y.0 as int,
                ) && !old(self).rooms@[i].spec_filled(cd.x.0 as int, cd.y.0 as int, is_character)),
            forall|j: int|
                0 <= j < old(self).rooms@.len() && !(#[trigger] old(self).rooms@[
                    j
                ]).spec_contains(cd.x.0 as int, cd.y.0 as int) ==> final(self).rooms@[j] == old(self).rooms@[j],
            forall|i: int|
                0 <= i < old(self).rooms@.len() && (#[trigger] old(self).rooms@[i]).spec_contains(
                    cd.x.0 as int,
                    cd.y.0 as int,
                ) ==> final(self).rooms@[i].spec_filled(cd.x.0 as int, cd.y.0 as int, is_character)
                    && final(self).rooms@[i].floor_area == old(self).rooms@[i].floor_area
                    && final(self).rooms@[i].assigned_area == old(self).rooms@[i].assigned_area
                    && (
                forall|x: int, y: int, b: bool|
                    old(self).rooms@[i].spec_contains(x, y) && !(x == cd.x.0 as int && y
                        == cd.y.0 as int && b == is_character) ==> final(self).rooms@[
                        i
                    ].spec_filled(x, y, b) == old(self).rooms@[i].spec_filled(x, y, b)),
    {
        let r = self.obj_update(cd, is_character, true);
        proof {
            if r is Some {
                let prev = r->0;
                let i = choose|i: int|
                    0 <= i < old(self).rooms@.len() && (#[trigger] old(self).rooms@[
                        i
                    ]).spec_contains(cd.x.0 as int, cd.y.0 as int) && prev == old(self).rooms@[
                        i
                    ].spec_filled(cd.x.0 as int, cd.y.0 as int, is_character);
                if prev {
                    if exists|j: int|
                        0 <= j < old(self).rooms@.len() && (#[trigger] old(self).rooms@[
                            j
                        ]).spec_contains(cd.x.0 as int, cd.y.0 as int) && !old(self).rooms@[
                            j
                        ].spec_filled(cd.x.0 as int, cd.y.0 as int, is_character) {
                        let j = choose|j: int|
                            0 <= j < old(self).rooms@.len() && (#[trigger] old(self).rooms@[
                                j
                            ]).spec_contains(cd.x.0 as int, cd.y.0 as int) && !old(self).rooms@[
                                j
                            ].spec_filled(cd.x.0 as int, cd.y.0 as int, is_character);
                        Floor::lemma_owner_unique(*old(self), cd, i, j);
                    }
                }
            }
        }
        match r {
            Some(prev) => !prev,
            None => false,
        }
    }

    /// Unregister an object of the given category from a cell; reports
    /// whether a room held the cell and it was occupied.
    pub fn remove_obj(&mut self, cd: Coord, is_character: bool) -> (r: bool)
        requires
            old(self).wf(),
        ensures
            final(self).wf(),
            final(self).field == old(self).field,
            final(self).doors == old(self).doors,
            final(self).non_empty_rooms == old(self).non_empty_rooms,
            final(self).rooms@.len() == old(self).rooms@.len(),
            r == (exists|i: int|
                0 <= i < old(self).rooms@.len() && (#[trigger] old(self).rooms@[i]).spec_contains(
                    cd.x.0 as int,
                    cd.y.0 as int,
                ) && old(self).rooms@[i].spec_filled(cd.x.0 as int, cd.y.0 as int, is_character)),
            forall|j: int|
                0 <= j < old(self).rooms@.len() && !(#[trigger] old(self).rooms@[
                    j
                ]).spec_contains(cd.x.0 as int, cd.y.0 as int) ==> final(self).rooms@[j] == old(self).rooms@[j],
            forall|i: int|
                0 <= i < old(self).rooms@.len() && (#[trigger] old(self).rooms@[i]).spec_contains(
                    cd.x.0 as int,
                    cd.y.0 as int,
                ) ==> !final(self).rooms@[i].spec_filled(cd.x.0 as int, cd.y.0 as int, is_character)
                    && final(self).rooms@[i].floor_area == old(self).rooms@[i].floor_area
                    && final(self).rooms@[i].assigned_area == old(self).rooms@[i].assigned_area
                    && (
                forall|x: int, y: int, b: bool|
                    old(self).rooms@[i].spec_contains(x, y) && !(x == cd.x.0 as int && y
                        == cd.y.0 as int && b == is_character) ==> final(self).rooms@[
                        i
                    ].spec_filled(x, y, b) == old(self).rooms@[i].spec_filled(x, y, b)),
    {
        let r = self.obj_update(cd, is_character, false);
        proof {
            if r is Some {
                let prev = r->0;
                let i = choose|i: int|
                    0 <= i < old(self).rooms@.len() && (#[trigger] old(self).rooms@[
                        i
                    ]).spec_contains(cd.x.0 as int, cd.y.0 as int) && prev == old(self).rooms@[
                        i
                    ].spec_filled(cd.x.0 as int, cd.y.0 as int, is_character);
                if !prev {
                    if exists|j: int|
                        0 <= j < old(self).rooms@.len() && (#[trigger] old(self).rooms@[
                            j
                        ]).spec_contains(cd.x.0 as int, cd.y.0 as int) && old(self).rooms@[
                            j
                        ].spec_filled(cd.x.0 as int, cd.y.0 as int, is_character) {
                        let j = choose|j: int|
                            0 <= j < old(self).rooms@.len() && (#[trigger] old(self).rooms@[
                                j
                            ]).spec_contains(cd.x.0 as int, cd.y.0 as int) && old(self).rooms@[
                                j
                            ].spec_filled(cd.x.0 as int, cd.y.0 as int, is_character);
                        Floor::lemma_owner_unique(*old(self), cd, i, j);
                    }
                }
            }
        }
        match r {
            Some(prev) => prev,
            None => false,
        }
    }

    /// Shared occupancy update over the room owning the cell; hands back
    /// the previous occupancy, or `None` when no room holds the cell.
    fn obj_update(&mut self, cd: Coord, is_character: bool, value: bool) -> (r: Option<bool>)
        requires
            old(self).wf(),
        ensures
            final(self).wf(),
            final(self).field == old(self).field,
            final(self).doors == old(self).doors,
            final(self).non_empty_rooms == old(self).non_empty_rooms,
            final(self).rooms@.len() == old(self).rooms@.len(),
            match r {
                Some(prev) => exists|i: int|
                    0 <= i < old(self).rooms@.len() && (#[trigger] old(self).rooms@[
                        i
                    ]).spec_contains(cd.x.0 as int, cd.y.0 as int) && prev == old(self).rooms@[
                        i
                    ].spec_filled(cd.x.0 as int, cd.y.0 as int, is_character),
                None => forall|i: int|
                    0 <= i < old(self).rooms@.len() ==> !(#[trigger] old(self).rooms@[
                        i
                    ]).spec_contains(cd.x.0 as int, cd.y.0 as int),
            },
            r.is_none() ==> *final(self) == *old(self),
            forall|j: int|
                0 <= j < old(self).rooms@.len() && !(#[trigger] old(self).rooms@[
                    j
                ]).spec_contains(cd.x.0 as int, cd.y.0 as int) ==> final(self).rooms@[j] == old(self).rooms@[j],
            forall|i: int|
                0 <= i < old(self).rooms@.len() && (#[trigger] old(self).rooms@[i]).spec_contains(
                    cd.x.0 as int,
                    cd.y.0 as int,
                ) ==> final(self).rooms@[i].spec_filled(cd.x.0 as int, cd.y.0 as int, is_character)
                    == value && final(self).rooms@[i].floor_area == old(self).rooms@[i].floor_area
                    && final(self).rooms@[i].assigned_area == old(self).rooms@[i].assigned_area
                    && (forall|x: int, y: int, b: bool|
                    old(self).rooms@[i].spec_contains(x, y) && !(x == cd.x.0 as int && y
                        == cd.y.0 as int && b == is_character) ==> final(self).rooms@[
                        i
                    ].spec_filled(x, y, b) == old(self).rooms@[i].spec_filled(x, y, b)),
    {
        let mut i: usize = 0;
        while i < self.rooms.len()
            invariant
                self.wf(),
                *self == *old(self),
                i <= self.rooms@.len(),
                forall|k: int|
                    0 <= k < i ==> !(#[trigger] self.rooms@[k]).spec_contains(
                        cd.x.0 as int,
                        cd.y.0 as int,
                    ),
            decreases self.rooms@.len() - i,
        {
            if self.rooms[i].contains(cd) {
                let room = room_mut(&mut self.rooms, i);
                let was_free: bool;
                if value {
                    was_free = room.fill_cell(cd, is_character);
                } else {
                    let had = room.unfill_cell(cd, is_character);
                    was_free = !had;
                }
                proof {
                    assert forall|a: int, b: int, x: int, y: int|
                        0 <= a < self.rooms@.len() && 0 <= b < self.rooms@.len() && a != b && (
                        #[trigger] self.rooms@[a].assigned_area.spec_contains(x, y)) implies !(
                    #[trigger] self.rooms@[b].assigned_area.spec_contains(x, y)) by {
                        assert(self.rooms@[a].assigned_area == old(self).rooms@[a].assigned_area);
                        assert(self.rooms@[b].assigned_area == old(self).rooms@[b].assigned_area);
                    }
                    assert forall|jj: int|
                        0 <= jj < old(self).rooms@.len() && jj != i implies !(#[trigger] old(self).rooms@[jj]).spec_contains(cd.x.0 as int, cd.y.0 as int) by {
                        if old(self).rooms@[jj].spec_contains(cd.x.0 as int, cd.y.0 as int) {
                            crate::rooms::lemma_floor_in_assigned(old(self).rooms@[jj]);
                            crate::rooms::lemma_floor_in_assigned(old(self).rooms@[i as int]);
                            assert(old(self).rooms@[jj].assigned_area.spec_contains(
                                cd.x.0 as int,
                                cd.y.0 as int,
                            ));
                            assert(old(self).rooms@[i as int].assigned_area.spec_contains(
                                cd.x.0 as int,
                                cd.y.0 as int,
                            ));
                        }
                    }
                }
                return Some(!was_free);
            }
            i = i + 1;
        }
        None
    }

    /// Select an unoccupied cell for the category anywhere on the floor:
    /// pick candidate rooms uniformly at random, dropping from a local
    /// working copy any room that reports no free cell. `None` means the
    /// floor has no space left in any candidate room.
    pub fn select_cell(&self, rng: &mut RngHandle, is_character: bool) -> (r: Option<Coord>)
        requires
            self.wf(),
        ensures
            match r {
                Some(cd) => exists|i: int|
                    0 <= i < self.rooms@.len() && self.non_empty_rooms.spec_contains(i as usize)
                        && (#[trigger] self.rooms@[i]).spec_contains(cd.x.0 as int, cd.y.0 as int)
                        && !self.rooms@[i].spec_filled(cd.x.0 as int, cd.y.0 as int, is_character),
                None => forall|id: usize|
                    #[trigger] self.non_empty_rooms.spec_contains(id) ==> forall|x: int, y: int|
                        self.rooms@[id as int].spec_contains(x, y) ==> self.rooms@[
                            id as int
                        ].spec_filled(x, y, is_character),
            },
    {
        let mut candidates = self.non_empty_rooms.duplicate();
        while candidates.len() > 0
            invariant
                self.wf(),
                candidates.wf(),
                forall|id: usize|
                    #[trigger] candidates.spec_contains(id)
                        ==> self.non_empty_rooms.spec_contains(id),
                forall|id: usize|
                    self.non_empty_rooms.spec_contains(id) && !candidates.spec_contains(id)
                        ==> forall|x: int, y: int|
                        self.rooms@[id as int].spec_contains(x, y) ==> self.rooms@[
                            id as int
                        ].spec_filled(x, y, is_character),
            decreases candidates.spec_len(),
        {
            let room_idx = match candidates.select(rng) {
                Some(id) => id,
                None => {
                    proof {
                        assert(false);
                    }
                    return None;
                },
            };
            if let Some(cd) = self.rooms[room_idx].select_cell(rng, is_character) {
                proof {
                    assert(self.non_empty_rooms.spec_contains(room_idx));
                    assert(self.rooms@[room_idx as int].spec_contains(
                        cd.x.0 as int,
                        cd.y.0 as int,
                    ));
                }
                return Some(cd);
            } else {
                candidates.remove(room_idx);
            }
        }
        proof {
            assert forall|id: usize| self.non_empty_rooms.spec_contains(id) implies (forall|
                x: int,
                y: int,
            |
                self.rooms@[id as int].spec_contains(x, y) ==> self.rooms@[id as int].spec_filled(
                    x,
                    y,
                    is_character,
                )) by {
                if candidates.spec_contains(id) {
                    let k = choose|k: int|
                        0 <= k < candidates.ids@.len() && candidates.ids@[k] == id;
                    assert(false);
                }
            }
        }
        None
    }

    /// At most one room's floor area holds any coordinate.
    pub proof fn lemma_owner_unique(floor: Floor, cd: Coord, i: int, j: int)
        requires
            floor.wf(),
            0 <= i < floor.rooms@.len(),
            0 <= j < floor.rooms@.len(),
            floor.rooms@[i].spec_contains(cd.x.0 as int, cd.y.0 as int),
            floor.rooms@[j].spec_contains(cd.x.0 as int, cd.y.0 as int),
        ensures
            i == j,
    {
        if i != j {
            crate::rooms::lemma_floor_in_assigned(floor.rooms@[i]);
            crate::rooms::lemma_floor_in_assigned(floor.rooms@[j]);
            assert(floor.rooms@[i].assigned_area.spec_contains(cd.x.0 as int, cd.y.0 as int));
            assert(floor.rooms@[j].assigned_area.spec_contains(cd.x.0 as int, cd.y.0 as int));
        }
    }

    /// Whatever room holds the coordinate, a selected free cell is free in
    /// the one room that holds it: room floor areas are pairwise disjoint,
    /// so selection never hands out a cell already occupied by the same
    /// category.
    pub proof fn lemma_selected_cell_free(
        floor: Floor,
        cd: Coord,
        i: int,
        j: int,
        is_character: bool,
    )
        requires
            floor.wf(),
            0 <= i < floor.rooms@.len(),
            floor.rooms@[i].spec_contains(cd.x.0 as int, cd.y.0 as int),
            !floor.rooms@[i].spec_filled(cd.x.0 as int, cd.y.0 as int, is_character),
            0 <= j < floor.rooms@.len(),
            floor.rooms@[j].spec_contains(cd.x.0 as int, cd.y.0 as int),
        ensures
            i == j,
            !floor.rooms@[j].spec_filled(cd.x.0 as int, cd.y.0 as int, is_character),
    {
        if i != j {
            crate::rooms::lemma_floor_in_assigned(floor.rooms@[i]);
            crate::rooms::lemma_floor_in_assigned(floor.rooms@[j]);
            assert(floor.rooms@[i].assigned_area.spec_contains(cd.x.0 as int, cd.y.0 as int));
            assert(floor.rooms@[j].assigned_area.spec_contains(cd.x.0 as int, cd.y.0 as int));
        }
    }
}

/// A mutable borrow of one room of the list.
fn room_mut(rooms: &mut Vec<Room>, i: usize) -> (r: &mut Room)
    requires
        i < old(rooms)@.len(),
    ensures
        *r == old(rooms)@[i as int],
        final(rooms)@ == old(rooms)@.update(i as int, *final(r)),
{
    &mut rooms[i]
}

/// A cell lit on first entry: drawn and currently visible, all else kept.
pub open spec fn lit_cell(c: Cell) -> Cell {
    Cell {
        surface: c.surface,
        attr: CellAttr { is_drawn: true, is_visible: true, ..c.attr },
    }
}

/// A cell whose visibility was cleared again, all else kept.
pub open spec fn dim_cell(c: Cell) -> Cell {
    Cell { surface: c.surface, attr: CellAttr { is_visible: false, ..c.attr } }
}

/// A room marked visited, all else kept.
pub open spec fn visited_room(room: Room) -> Room {
    Room { is_visited: true, ..room }
}

impl Floor {
    /// Some room's assigned area holds the coordinate.
    pub open spec fn has_room_at(self, cd: Coord) -> bool {
        exists|i: int|
            0 <= i < self.rooms@.len() && (#[trigger] self.rooms@[i]).assigned_area.spec_contains(
                cd.x.0 as int,
                cd.y.0 as int,
            )
    }

    /// Surfaces and the hidden and locked flags are untouched between the
    /// two states; only the transient visibility bookkeeping may differ.
    pub open spec fn keeps_terrain(self, other: Floor) -> bool {
        &&& self.field.same_dims(other.field)
        &&& forall|x: int, y: int|
            other.field.spec_in_bounds(x, y) ==> {
                &&& (#[trigger] self.field.at(x, y)).surface == other.field.at(x, y).surface
                &&& self.field.at(x, y).attr.is_hidden == other.field.at(x, y).attr.is_hidden
                &&& self.field.at(x, y).attr.is_locked == other.field.at(x, y).attr.is_locked
            }
    }

    /// Replace one cell's attribute set, keeping its surface.
    fn set_attr(&mut self, cd: Coord, attr: CellAttr)
        requires
            old(self).wf(),
            old(self).field.in_bounds_cd(cd),
        ensures
            final(self).wf(),
            final(self).field.same_dims(old(self).field),
            final(self).rooms == old(self).rooms,
            final(self).doors == old(self).doors,
            final(self).non_empty_rooms == old(self).non_empty_rooms,
            final(self).field.at_cd(cd) == (Cell {
                surface: old(self).field.at_cd(cd).surface,
                attr,
            }),
            forall|x: int, y: int|
                old(self).field.spec_in_bounds(x, y) && !(x == cd.x.0 as int && y == cd.y.0 as int)
                    ==> final(self).field.at(x, y) == old(self).field.at(x, y),
    {
        let cell = self.field.get(cd);
        self.field.set(cd, Cell { surface: cell.surface, attr });
        proof {
            lemma_doors_match_same_surfaces(self.doors@, old(self).field, self.field);
        }
    }

    /// Place the stairs-down on a plain floor or passage cell; reports
    /// whether the cell qualified.
    pub fn set_stair(&mut self, cd: Coord) -> (r: bool)
        requires
            old(self).wf(),
        ensures
            final(self).wf(),
            final(self).field.same_dims(old(self).field),
            final(self).rooms == old(self).rooms,
            final(self).doors == old(self).doors,
            final(self).non_empty_rooms == old(self).non_empty_rooms,
            r == (old(self).field.in_bounds_cd(cd) && (old(self).field.at_cd(cd).surface is Floor
                || old(self).field.at_cd(cd).surface is Passage)),
            r ==> final(self).field.at_cd(cd) == (Cell {
                surface: Surface::Stair,
                attr: old(self).field.at_cd(cd).attr,
            }),
            forall|x: int, y: int|
                old(self).field.spec_in_bounds(x, y) && !(x == cd.x.0 as int && y == cd.y.0 as int)
                    ==> final(self).field.at(x, y) == old(self).field.at(x, y),
            !r ==> *final(self) == *old(self),
    {
        let cell = match self.field.try_get(cd) {
            Some(c) => c,
            None => {
                return false;
            },
        };
        let qualifies = match cell.surface {
            Surface::Floor | Surface::Passage => true,
            _ => false,
        };
        if !qualifies {
            return false;
        }
        self.field.set(cd, Cell { surface: Surface::Stair, attr: cell.attr });
        proof {
            let pre = old(self).field;
            let post = self.field;
            assert forall|q: int|
                0 <= q < self.doors@.len() implies post.in_bounds_cd(#[trigger] self.doors@[q])
                    && post.at_cd(self.doors@[q]).surface == Surface::Door by {
                let o = self.doors@[q];
                if o.x.0 as int == cd.x.0 as int && o.y.0 as int == cd.y.0 as int {
                    assert(pre.at_cd(o).surface == Surface::Door);
                    assert(false);
                }
            }
            assert forall|x: int, y: int|
                post.spec_in_bounds(x, y) && (#[trigger] post.at(x, y)).surface == Surface::Door
                    implies self.doors@.contains(Coord { x: X(x as i32), y: Y(y as i32) }) by {
                if x == cd.x.0 as int && y == cd.y.0 as int {
                    assert(post.at(x, y).surface is Stair);
                } else {
                    assert(post.at(x, y) == pre.at(x, y));
                }
            }
        }
        true
    }

    /// Whether the cell at `cd` is the stairs down.
    pub fn is_downstair(&self, cd: Coord) -> (r: bool)
        requires
            self.wf(),
        ensures
            r == (self.field.in_bounds_cd(cd) && self.field.at_cd(cd).surface is Stair),
    {
        match self.field.try_get(cd) {
            Some(c) => match c.surface {
                Surface::Stair => true,
                _ => false,
            },
            None => false,
        }
    }

    /// The glyph shown for the cell at `cd`; off-grid reads as blank rock.
    pub fn tile(&self, cd: Coord) -> (r: char)
        requires
            self.wf(),
        ensures
            self.field.in_bounds_cd(cd) ==> r == self.field.at_cd(cd).spec_to_char(),
            !self.field.in_bounds_cd(cd) ==> r == ' ',
    {
        match self.field.try_get(cd) {
            Some(c) => c.to_char(),
            None => ' ',
        }
    }

    /// Player enters the room at `cd`. A first visit marks the room
    /// visited; only a first visit to a lit normal room draws its whole
    /// range and makes it visible.
    pub fn enters_room(&mut self, cd: Coord) -> (r: GameResult<()>)
        requires
            old(self).wf(),
        ensures
            final(self).wf(),
            final(self).keeps_terrain(*old(self)),
            final(self).doors == old(self).doors,
            final(self).non_empty_rooms == old(self).non_empty_rooms,
            final(self).rooms@.len() == old(self).rooms@.len(),
            r.is_ok() == old(self).has_room_at(cd),
            !r.is_ok() ==> *final(self) == *old(self) && r->Err_0.id is MaybeBug,
            forall|i: int|
                0 <= i < old(self).rooms@.len() && (#[trigger] old(self).rooms@[
                    i
                ]).assigned_area.spec_contains(cd.x.0 as int, cd.y.0 as int) ==> {
                    let room = old(self).rooms@[i];
                    &&& (room.is_visited ==> *final(self) == *old(self))
                    &&& (!room.is_visited ==> final(self).rooms@ == old(self).rooms@.update(
                        i,
                        visited_room(room),
                    ))
                    &&& (!room.is_visited && room.kind is Normal && !room.is_dark ==> forall|
                        x: int,
                        y: int,
                    |
                        old(self).field.spec_in_bounds(x, y) ==> #[trigger] final(self).field.at(
                            x,
                            y,
                        ) == (if room.assigned_area.spec_contains(x, y) {
                            lit_cell(old(self).field.at(x, y))
                        } else {
                            old(self).field.at(x, y)
                        }))
                    &&& (!(room.kind is Normal && !room.is_dark) ==> final(self).field == old(self).field)
                },
    {
        let room_id = match self.cd_to_room_id(cd) {
            Some(u) => u,
            None => {
                return Err(GameError::new(ErrorId::MaybeBug, "Floor::enters_room: no room for coord"));
            },
        };
        proof {
            assert(self.rooms@[room_id as int].assigned_area.spec_contains(
                cd.x.0 as int,
                cd.y.0 as int,
            ));
            assert forall|i: int|
                0 <= i < self.rooms@.len() && (#[trigger] self.rooms@[
                    i
                ]).assigned_area.spec_contains(cd.x.0 as int, cd.y.0 as int) implies i
                == room_id as int by {
                if i != room_id as int {
                    assert(self.rooms@[room_id as int].assigned_area.spec_contains(
                        cd.x.0 as int,
                        cd.y.0 as int,
                    ));
                }
            }
        }
        if self.rooms[room_id].is_visited {
            return Ok(());
        }
        let mark: bool;
        let area: RectRange;
        {
            let room = room_mut(&mut self.rooms, room_id);
            room.is_visited = true;
            mark = room.is_normal() && !room.is_dark;
            area = room.assigned_area;
        }
        proof {
            assert(self.rooms@ =~= old(self).rooms@.update(
                room_id as int,
                visited_room(old(self).rooms@[room_id as int]),
            ));
            assert forall|i: int|
                0 <= i < self.rooms@.len() implies (#[trigger] self.rooms@[i]).wf()
                    && self.rooms@[i].id == i && room_in_field(self.rooms@[i], self.field) by {
                assert(old(self).rooms@[i].wf());
            }
        }
        if !mark {
            return Ok(());
        }
        let ghost pre = self.field;
        let ghost snap = *self;
        let mut y: i32 = area.y0;
        while y < area.y1
            invariant
                self.field.wf(),
                self.field.same_dims(pre),
                pre.wf(),
                area.y0 <= y,
                y <= area.y1 || y == area.y0,
                area.x0 < area.x1 && area.y0 < area.y1,
                0 <= area.x0 && area.x1 <= pre.spec_width(),
                0 <= area.y0 && area.y1 <= pre.spec_height(),
                self.rooms == snap.rooms,
                self.doors == snap.doors,
                self.non_empty_rooms == snap.non_empty_rooms,
                snap.field == pre,
                forall|x: int, yy: int|
                    pre.spec_in_bounds(x, yy) ==> #[trigger] self.field.at(x, yy) == (
                    if area.spec_contains(x, yy) && yy < y {
                        lit_cell(pre.at(x, yy))
                    } else {
                        pre.at(x, yy)
                    }),
            decreases area.y1 - y,
        {
            let mut x: i32 = area.x0;
            while x < area.x1
                invariant
                    self.field.wf(),
                    self.field.same_dims(pre),
                    pre.wf(),
                    area.x0 <= x <= area.x1,
                    area.y0 <= y < area.y1,
                    0 <= area.x0 && area.x1 <= pre.spec_width(),
                    0 <= area.y0 && area.y1 <= pre.spec_height(),
                    self.rooms == snap.rooms,
                    self.doors == snap.doors,
                    self.non_empty_rooms == snap.non_empty_rooms,
                    snap.field == pre,
                    forall|xx: int, yy: int|
                        pre.spec_in_bounds(xx, yy) ==> #[trigger] self.field.at(xx, yy) == (
                        if area.spec_contains(xx, yy) && (yy < y || (yy == y && xx < x)) {
                            lit_cell(pre.at(xx, yy))
                        } else {
                            pre.at(xx, yy)
                        }),
                decreases area.x1 - x,
            {
                let cdxy = Coord { x: X(x), y: Y(y) };
                let cell = self.field.get(cdxy);
                let mut attr = cell.attr;
                attr.is_drawn = true;
                attr.is_visible = true;
                self.field.set(cdxy, Cell { surface: cell.surface, attr });
                x = x + 1;
            }
            y = y + 1;
        }
        proof {
            lemma_doors_match_same_surfaces(self.doors@, pre, self.field);
        }
        Ok(())
    }

    /// Player leaves the room at `cd`. Only a visited dark room reacts: the
    /// interior loses its visibility again, while the boundary ring keeps
    /// whatever visibility it had, so the doorway stays legible.
    pub fn leaves_room(&mut self, cd: Coord) -> (r: GameResult<()>)
        requires
            old(self).wf(),
        ensures
            final(self).wf(),
            final(self).keeps_terrain(*old(self)),
            final(self).rooms == old(self).rooms,
            final(self).doors == old(self).doors,
            final(self).non_empty_rooms == old(self).non_empty_rooms,
            r.is_ok() == old(self).has_room_at(cd),
            !r.is_ok() ==> *final(self) == *old(self) && r->Err_0.id is MaybeBug,
            forall|i: int|
                0 <= i < old(self).rooms@.len() && (#[trigger] old(self).rooms@[
                    i
                ]).assigned_area.spec_contains(cd.x.0 as int, cd.y.0 as int) ==> {
                    let room = old(self).rooms@[i];
                    &&& (room.is_visited && room.is_dark ==> forall|x: int, y: int|
                        old(self).field.spec_in_bounds(x, y) ==> #[trigger] final(self).field.at(
                            x,
                            y,
                        ) == (if room.assigned_area.spec_contains(x, y)
                            && !room.assigned_area.spec_is_edge(x, y) {
                            dim_cell(old(self).field.at(x, y))
                        } else {
                            old(self).field.at(x, y)
                        }))
                    &&& (!(room.is_visited && room.is_dark) ==> *final(self) == *old(self))
                },
    {
        let room_id = match self.cd_to_room_id(cd) {
            Some(u) => u,
            None => {
                return Err(GameError::new(ErrorId::MaybeBug, "Floor::leaves_room: no room for coord"));
            },
        };
        proof {
            assert(self.rooms@[room_id as int].assigned_area.spec_contains(
                cd.x.0 as int,
                cd.y.0 as int,
            ));
            assert forall|i: int|
                0 <= i < self.rooms@.len() && (#[trigger] self.rooms@[
                    i
                ]).assigned_area.spec_contains(cd.x.0 as int, cd.y.0 as int) implies i
                == room_id as int by {
                if i != room_id as int {
                    assert(self.rooms@[room_id as int].assigned_area.spec_contains(
                        cd.x.0 as int,
                        cd.y.0 as int,
                    ));
                }
            }
        }
        if !(self.rooms[room_id].is_visited && self.rooms[room_id].is_dark) {
            return Ok(());
        }
        let area: RectRange = self.rooms[room_id].assigned_area;
        let ghost pre = self.field;
        let ghost snap = *self;
        let mut y: i32 = area.y0;
        while y < area.y1
            invariant
                self.field.wf(),
                self.field.same_dims(pre),
                pre.wf(),
                area.y0 <= y,
                y <= area.y1 || y == area.y0,
                area.x0 < area.x1 && area.y0 < area.y1,
                0 <= area.x0 && area.x1 <= pre.spec_width(),
                0 <= area.y0 && area.y1 <= pre.spec_height(),
                self.rooms == snap.rooms,
                self.doors == snap.doors,
                self.non_empty_rooms == snap.non_empty_rooms,
                snap.field == pre,
                forall|x: int, yy: int|
                    pre.spec_in_bounds(x, yy) ==> #[trigger] self.field.at(x, yy) == (
                    if area.spec_contains(x, yy) && !area.spec_is_edge(x, yy) && yy < y {
                        dim_cell(pre.at(x, yy))
                    } else {
                        pre.at(x, yy)
                    }),
            decreases area.y1 - y,
        {
            let mut x: i32 = area.x0;
            while x < area.x1
                invariant
                    self.field.wf(),
                    self.field.same_dims(pre),
                    pre.wf(),
                    area.x0 <= x <= area.x1,
                    area.y0 <= y < area.y1,
                    0 <= area.x0 && area.x1 <= pre.spec_width(),
                    0 <= area.y0 && area.y1 <= pre.spec_height(),
                    self.rooms == snap.rooms,
                    self.doors == snap.doors,
                    self.non_empty_rooms == snap.non_empty_rooms,
                    snap.field == pre,
                    forall|xx: int, yy: int|
                        pre.spec_in_bounds(xx, yy) ==> #[trigger] self.field.at(xx, yy) == (
                        if area.spec_contains(xx, yy) && !area.spec_is_edge(xx, yy) && (yy < y || (
                        yy == y && xx < x)) {
                            dim_cell(pre.at(xx, yy))
                        } else {
                            pre.at(xx, yy)
                        }),
                decreases area.x1 - x,
            {
                let cdxy = Coord { x: X(x), y: Y(y) };
                if !area.is_edge(cdxy) {
                    let cell = self.field.get(cdxy);
                    let mut attr = cell.attr;
                    attr.is_visible = false;
                    self.field.set(cdxy, Cell { surface: cell.surface, attr });
                }
                x = x + 1;
            }
            y = y + 1;
        }
        proof {
            lemma_doors_match_same_surfaces(self.doors@, pre, self.field);
        }
        Ok(())
    }
}

/// Two grids of one shape whose cells carry the same surfaces satisfy the
/// same door-list matching.
proof fn lemma_doors_match_same_surfaces(doors: Seq<Coord>, pre: Field, post: Field)
    requires
        doors_match_field(doors, pre),
        pre.same_dims(post),
        forall|x: int, y: int|
            pre.spec_in_bounds(x, y) ==> (#[trigger] post.at(x, y)).surface == pre.at(x, y).surface,
    ensures
        doors_match_field(doors, post),
{
    assert forall|k: int|
        0 <= k < doors.len() implies post.in_bounds_cd(#[trigger] doors[k]) && post.at_cd(
        doors[k],
    ).surface == Surface::Door by {
        let o = doors[k];
        assert(pre.in_bounds_cd(o) && pre.at_cd(o).surface == Surface::Door);
        assert(post.at(o.x.0 as int, o.y.0 as int).surface == pre.at(
            o.x.0 as int,
            o.y.0 as int,
        ).surface);
    }
    assert forall|x: int, y: int|
        post.spec_in_bounds(x, y) && (#[trigger] post.at(x, y)).surface == Surface::Door
            implies doors.contains(Coord { x: X(x as i32), y: Y(y as i32) }) by {
        assert(pre.at(x, y).surface == Surface::Door);
    }
}

/// A cell revealed by a search: no longer hidden, all else kept.
pub open spec fn unhidden_cell(c: Cell) -> Cell {
    Cell { surface: c.surface, attr: CellAttr { is_hidden: false, ..c.attr } }
}

/// Transitivity of terrain preservation.
pub(crate) proof fn lemma_keeps_trans(a: Floor, b: Floor, c: Floor)
    requires
        a.keeps_terrain(b),
        b.keeps_terrain(c),
    ensures
        a.keeps_terrain(c),
{
    assert forall|x: int, y: int|
        c.field.spec_in_bounds(x, y) implies {
        &&& (#[trigger] a.field.at(x, y)).surface == c.field.at(x, y).surface
        &&& a.field.at(x, y).attr.is_hidden == c.field.at(x, y).attr.is_hidden
        &&& a.field.at(x, y).attr.is_locked == c.field.at(x, y).attr.is_locked
    } by {
        assert(b.field.at(x, y).surface == c.field.at(x, y).surface);
        assert(a.field.at(x, y).surface == b.field.at(x, y).surface);
    }
}

impl Floor {
    /// A coordinate owned by a room lies on the grid.
    proof fn lemma_room_coord_in_bounds(self, cd: Coord)
        requires
            self.wf(),
            self.has_room_at(cd),
        ensures
            self.field.in_bounds_cd(cd),
    {
        let i = choose|i: int|
            0 <= i < self.rooms@.len() && (#[trigger] self.rooms@[i]).assigned_area.spec_contains(
                cd.x.0 as int,
                cd.y.0 as int,
            );
        assert(room_in_field(self.rooms@[i], self.field));
    }

    /// Player walks onto the cell: on initial placement or through a known
    /// doorway the room entry transition runs; the destination is marked
    /// visited and it and its eight surroundings are marked approached.
    pub fn player_in(&mut self, cd: Coord, init: bool) -> (r: GameResult<()>)
        requires
            old(self).wf(),
        ensures
            final(self).wf(),
            final(self).keeps_terrain(*old(self)),
            final(self).doors == old(self).doors,
            final(self).non_empty_rooms == old(self).non_empty_rooms,
            final(self).rooms@.len() == old(self).rooms@.len(),
            forall|i: int|
                0 <= i < old(self).rooms@.len() ==> (#[trigger] final(self).rooms@[
                    i
                ]).assigned_area == old(self).rooms@[i].assigned_area,
            r.is_ok() == (old(self).field.in_bounds_cd(cd) && ((init || old(self).spec_is_door(cd))
                ==> old(self).has_room_at(cd))),
            !r.is_ok() ==> r->Err_0.id is MaybeBug,
            r.is_ok() ==> final(self).field.at_cd(cd).attr.is_visited,
            r.is_ok() ==> forall|x: int, y: int|
                final(self).field.spec_in_bounds(x, y) && cd.x.0 - 1 <= x <= cd.x.0 + 1 && cd.y.0
                    - 1 <= y <= cd.y.0 + 1 ==> (#[trigger] final(self).field.at(x, y)).attr.is_approached,
            !init && !old(self).spec_is_door(cd) ==> forall|x: int, y: int|
                old(self).field.spec_in_bounds(x, y) && !(cd.x.0 - 1 <= x <= cd.x.0 + 1 && cd.y.0
                    - 1 <= y <= cd.y.0 + 1) ==> #[trigger] final(self).field.at(x, y) == old(self).field.at(x, y),
            r.is_ok() ==> forall|i: int, x: int, y: int|
                0 <= i < old(self).rooms@.len() && old(self).rooms@[
                    i
                ].assigned_area.spec_contains(cd.x.0 as int, cd.y.0 as int) && old(self).field.spec_in_bounds(x, y) && !(cd.x.0 - 1 <= x <= cd.x.0 + 1 && cd.y.0 - 1 <= y
                    <= cd.y.0 + 1) && !(#[trigger] old(self).rooms@[
                    i
                ].assigned_area.spec_contains(x, y)) ==> final(self).field.at(x, y) == old(self).field.at(x, y),
    {
        if init || contains_coord(&self.doors, cd) {
            match self.enters_room(cd) {
                Ok(u) => {
                    proof {
                        old(self).lemma_room_coord_in_bounds(cd);
                    }
                },
                Err(e) => {
                    return Err(e.chain("Floor::player_in"));
                },
            }
        }
        let cell = match self.field.try_get(cd) {
            Some(c) => c,
            None => {
                return Err(GameError::new(ErrorId::MaybeBug, "Floor::player_in: cannot move"));
            },
        };
        let mut attr = cell.attr;
        attr.is_visited = true;
        self.set_attr(cd, attr);
        proof {
            assert(self.keeps_terrain(*old(self)));
        }
        let ghost snap = *self;
        let width = self.field.width();
        let height = self.field.height();
        let mut dy: i32 = -1;
        while dy <= 1
            invariant
                -1 <= dy <= 2,
                self.wf(),
                self.field.spec_width() == width as int,
                self.field.spec_height() == height as int,
                self.keeps_terrain(snap),
                snap.wf(),
                snap.field.spec_width() == width,
                snap.field.spec_height() == height,
                self.doors == snap.doors,
                self.rooms == snap.rooms,
                self.non_empty_rooms == snap.non_empty_rooms,
                snap.field.in_bounds_cd(cd),
                self.field.at_cd(cd).attr.is_visited,
                forall|x: int, y: int|
                    snap.field.spec_in_bounds(x, y) && cd.x.0 - 1 <= x <= cd.x.0 + 1 && cd.y.0 - 1
                        <= y <= cd.y.0 + 1 && y - cd.y.0 < dy ==> (#[trigger] self.field.at(
                        x,
                        y,
                    )).attr.is_approached,
                forall|x: int, y: int|
                    snap.field.spec_in_bounds(x, y) && !(cd.x.0 - 1 <= x <= cd.x.0 + 1 && cd.y.0
                        - 1 <= y <= cd.y.0 + 1) ==> #[trigger] self.field.at(x, y) == snap.field.at(
                        x,
                        y,
                    ),
            decreases 2 - dy,
        {
            let mut dx: i32 = -1;
            while dx <= 1
                invariant
                    -1 <= dy <= 1,
                    -1 <= dx <= 2,
                    self.wf(),
                    self.field.spec_width() == width as int,
                    self.field.spec_height() == height as int,
                    self.keeps_terrain(snap),
                    snap.wf(),
                    snap.field.spec_width() == width,
                    snap.field.spec_height() == height,
                    self.doors == snap.doors,
                    self.rooms == snap.rooms,
                    self.non_empty_rooms == snap.non_empty_rooms,
                    snap.field.in_bounds_cd(cd),
                    self.field.at_cd(cd).attr.is_visited,
                    forall|x: int, y: int|
                        snap.field.spec_in_bounds(x, y) && cd.x.0 - 1 <= x <= cd.x.0 + 1 && cd.y.0
                            - 1 <= y <= cd.y.0 + 1 && (y - cd.y.0 < dy || (y - cd.y.0 == dy && x
                            - cd.x.0 < dx)) ==> (#[trigger] self.field.at(x, y)).attr.is_approached,
                    forall|x: int, y: int|
                        snap.field.spec_in_bounds(x, y) && !(cd.x.0 - 1 <= x <= cd.x.0 + 1
                            && cd.y.0 - 1 <= y <= cd.y.0 + 1) ==> #[trigger] self.field.at(x, y)
                            == snap.field.at(x, y),
                decreases 2 - dx,
            {
                let nx: i64 = cd.x.0 as i64 + dx as i64;
                let ny: i64 = cd.y.0 as i64 + dy as i64;
                if 0 <= nx && nx < width as i64 && 0 <= ny && ny < height as i64 {
                    let ncd = Coord { x: X(nx as i32), y: Y(ny as i32) };
                    let ghost before = *self;
                    let ncell = self.field.get(ncd);
                    let mut nattr = ncell.attr;
                    nattr.is_approached = true;
                    self.set_attr(ncd, nattr);
                    proof {
                        assert(self.keeps_terrain(before));
                        lemma_keeps_trans(*self, before, snap);
                        if !(ncd.x.0 == cd.x.0 && ncd.y.0 == cd.y.0) {
                            assert(self.field.at_cd(cd) == before.field.at_cd(cd));
                        }
                        assert(self.field.at(ncd.x.0 as int, ncd.y.0 as int).attr.is_approached);
                        assert forall|x: int, y: int|
                            snap.field.spec_in_bounds(x, y) && cd.x.0 - 1 <= x <= cd.x.0 + 1
                                && cd.y.0 - 1 <= y <= cd.y.0 + 1 && (y - cd.y.0 < dy || (y - cd.y.0
                                == dy && x - cd.x.0 <= dx)) implies (#[trigger] self.field.at(
                            x,
                            y,
                        )).attr.is_approached by {
                            if !(x == ncd.x.0 as int && y == ncd.y.0 as int) {
                                assert(self.field.at(x, y) == before.field.at(x, y));
                            }
                        }
                    }
                }
                dx = dx + 1;
            }
            dy = dy + 1;
        }
        proof {
            lemma_keeps_trans(*self, snap, *old(self));
        }
        Ok(())
    }

    /// Player leaves the cell: through a known doorway the room exit
    /// transition runs; surrounding plain floor cells are marked left.
    pub fn player_out(&mut self, cd: Coord) -> (r: GameResult<()>)
        requires
            old(self).wf(),
        ensures
            final(self).wf(),
            final(self).keeps_terrain(*old(self)),
            final(self).doors == old(self).doors,
            final(self).non_empty_rooms == old(self).non_empty_rooms,
            final(self).rooms == old(self).rooms,
            r.is_ok() == (old(self).spec_is_door(cd) ==> old(self).has_room_at(cd)),
            !r.is_ok() ==> r->Err_0.id is MaybeBug,
            r.is_ok() ==> forall|x: int, y: int|
                final(self).field.spec_in_bounds(x, y) && cd.x.0 - 1 <= x <= cd.x.0 + 1 && cd.y.0
                    - 1 <= y <= cd.y.0 + 1 && old(self).field.at(x, y).surface is Floor ==> (
                #[trigger] final(self).field.at(x, y)).attr.is_left,
            !old(self).spec_is_door(cd) ==> forall|x: int, y: int|
                old(self).field.spec_in_bounds(x, y) && !(cd.x.0 - 1 <= x <= cd.x.0 + 1 && cd.y.0
                    - 1 <= y <= cd.y.0 + 1 && old(self).field.at(x, y).surface is Floor)
                    ==> #[trigger] final(self).field.at(x, y) == old(self).field.at(x, y),
            r.is_ok() ==> forall|x: int, y: int|
                old(self).field.spec_in_bounds(x, y) && cd.x.0 - 1 <= x <= cd.x.0 + 1 && cd.y.0
                    - 1 <= y <= cd.y.0 + 1 && !(old(self).field.at(x, y).surface is Floor) ==> (
                #[trigger] final(self).field.at(x, y) == old(self).field.at(x, y) || final(self).field.at(x, y) == dim_cell(old(self).field.at(x, y))),
            r.is_ok() ==> forall|i: int, x: int, y: int|
                0 <= i < old(self).rooms@.len() && old(self).rooms@[
                    i
                ].assigned_area.spec_contains(cd.x.0 as int, cd.y.0 as int) && old(self).field.spec_in_bounds(x, y) && !(cd.x.0 - 1 <= x <= cd.x.0 + 1 && cd.y.0 - 1 <= y
                    <= cd.y.0 + 1) && !(#[trigger] old(self).rooms@[
                    i
                ].assigned_area.spec_contains(x, y)) ==> final(self).field.at(x, y) == old(self).field.at(x, y),
    {
        if contains_coord(&self.doors, cd) {
            match self.leaves_room(cd) {
                Ok(u) => {},
                Err(e) => {
                    return Err(e.chain("Floor::player_out"));
                },
            }
        }
        let ghost snap = *self;
        let width = self.field.width();
        let height = self.field.height();
        let mut dy: i32 = -1;
        while dy <= 1
            invariant
                -1 <= dy <= 2,
                self.wf(),
                self.field.spec_width() == width as int,
                self.field.spec_height() == height as int,
                self.keeps_terrain(snap),
                snap.wf(),
                snap.field.spec_width() == width,
                snap.field.spec_height() == height,
                self.doors == snap.doors,
                self.rooms == snap.rooms,
                self.non_empty_rooms == snap.non_empty_rooms,
                forall|x: int, y: int|
                    snap.field.spec_in_bounds(x, y) && cd.x.0 - 1 <= x <= cd.x.0 + 1 && cd.y.0 - 1
                        <= y <= cd.y.0 + 1 && y - cd.y.0 < dy && snap.field.at(x, y).surface
                        is Floor ==> (#[trigger] self.field.at(x, y)).attr.is_left,
                forall|x: int, y: int|
                    snap.field.spec_in_bounds(x, y) && !(cd.x.0 - 1 <= x <= cd.x.0 + 1 && cd.y.0
                        - 1 <= y <= cd.y.0 + 1 && snap.field.at(x, y).surface is Floor)
                        ==> #[trigger] self.field.at(x, y) == snap.field.at(x, y),
            decreases 2 - dy,
        {
            let mut dx: i32 = -1;
            while dx <= 1
                invariant
                    -1 <= dy <= 1,
                    -1 <= dx <= 2,
                    self.wf(),
                    self.field.spec_width() == width as int,
                    self.field.spec_height() == height as int,
                    self.keeps_terrain(snap),
                    snap.wf(),
                    snap.field.spec_width() == width,
                    snap.field.spec_height() == height,
                    self.doors == snap.doors,
                    self.rooms == snap.rooms,
                    self.non_empty_rooms == snap.non_empty_rooms,
                    forall|x: int, y: int|
                        snap.field.spec_in_bounds(x, y) && cd.x.0 - 1 <= x <= cd.x.0 + 1 && cd.y.0
                            - 1 <= y <= cd.y.0 + 1 && (y - cd.y.0 < dy || (y - cd.y.0 == dy && x
                            - cd.x.0 < dx)) && snap.field.at(x, y).surface is Floor ==> (
                        #[trigger] self.field.at(x, y)).attr.is_left,
                    forall|x: int, y: int|
                        snap.field.spec_in_bounds(x, y) && !(cd.x.0 - 1 <= x <= cd.x.0 + 1
                            && cd.y.0 - 1 <= y <= cd.y.0 + 1 && snap.field.at(x, y).surface
                            is Floor) ==> #[trigger] self.field.at(x, y) == snap.field.at(x, y),
                decreases 2 - dx,
            {
                let nx: i64 = cd.x.0 as i64 + dx as i64;
                let ny: i64 = cd.y.0 as i64 + dy as i64;
                if 0 <= nx && nx < width as i64 && 0 <= ny && ny < height as i64 {
                    let ncd = Coord { x: X(nx as i32), y: Y(ny as i32) };
                    let ghost before = *self;
                    let ncell = self.field.get(ncd);
                    let is_floor = match ncell.surface {
                        Surface::Floor => true,
                        _ => false,
                    };
                    if is_floor {
                        let mut nattr = ncell.attr;
                        nattr.is_left = true;
                        self.set_attr(ncd, nattr);
                        proof {
                            assert(self.keeps_terrain(before));
                            lemma_keeps_trans(*self, before, snap);
                            assert(snap.field.at(ncd.x.0 as int, ncd.y.0 as int).surface
                                is Floor);
                            assert forall|x: int, y: int|
                                snap.field.spec_in_bounds(x, y) && !(cd.x.0 - 1 <= x <= cd.x.0 + 1
                                    && cd.y.0 - 1 <= y <= cd.y.0 + 1 && snap.field.at(
                                    x,
                                    y,
                                ).surface is Floor) implies #[trigger] self.field.at(x, y)
                                == snap.field.at(x, y) by {
                                if !(x == ncd.x.0 as int && y == ncd.y.0 as int) {
                                    assert(self.field.at(x, y) == before.field.at(x, y));
                                }
                            }
                            assert forall|x: int, y: int|
                                snap.field.spec_in_bounds(x, y) && cd.x.0 - 1 <= x <= cd.x.0 + 1
                                    && cd.y.0 - 1 <= y <= cd.y.0 + 1 && (y - cd.y.0 < dy || (y
                                    - cd.y.0 == dy && x - cd.x.0 <= dx)) && snap.field.at(
                                x,
                                y,
                            ).surface is Floor implies (#[trigger] self.field.at(
                                x,
                                y,
                            )).attr.is_left by {
                                if !(x == ncd.x.0 as int && y == ncd.y.0 as int) {
                                    assert(self.field.at(x, y) == before.field.at(x, y));
                                }
                            }
                        }
                    } else {
                        proof {
                            assert(snap.field.at(ncd.x.0 as int, ncd.y.0 as int).surface
                                == ncell.surface);
                        }
                    }
                }
                dx = dx + 1;
            }
            dy = dy + 1;
        }
        proof {
            lemma_keeps_trans(*self, snap, *old(self));
        }
        Ok(())
    }

    /// Search at the cell: each hidden feature on or next to it has a
    /// chance of being revealed; a revealed secret door is reported.
    pub fn search(&mut self, cd: Coord, rng: &mut RngHandle) -> (r: GameResult<Vec<GameMsg>>)
        requires
            old(self).wf(),
        ensures
            final(self).wf(),
            final(self).field.same_dims(old(self).field),
            final(self).doors == old(self).doors,
            final(self).non_empty_rooms == old(self).non_empty_rooms,
            final(self).rooms == old(self).rooms,
            r.is_ok(),
            forall|x: int, y: int|
                old(self).field.spec_in_bounds(x, y) ==> (#[trigger] final(self).field.at(x, y)
                    == old(self).field.at(x, y) || final(self).field.at(x, y) == unhidden_cell(
                    old(self).field.at(x, y),
                )),
            forall|k: int|
                0 <= k < r->Ok_0@.len() ==> r->Ok_0@[k] == GameMsg::SecretDoor,
            (r->Ok_0@.len() >= 1) == (exists|x: int, y: int|
                old(self).field.spec_in_bounds(x, y) && (#[trigger] old(self).field.at(
                    x,
                    y,
                )).attr.is_hidden && old(self).field.at(x, y).surface is Door && !final(self).field.at(x, y).attr.is_hidden),
    {
        let mut msgs: Vec<GameMsg> = Vec::new();
        let ghost snap = *self;
        let width = self.field.width();
        let height = self.field.height();
        let mut dy: i32 = -1;
        while dy <= 1
            invariant
                -1 <= dy <= 2,
                self.wf(),
                self.field.spec_width() == width as int,
                self.field.spec_height() == height as int,
                snap.wf(),
                snap.field.spec_width() == width,
                snap.field.spec_height() == height,
                self.doors == snap.doors,
                self.rooms == snap.rooms,
                self.non_empty_rooms == snap.non_empty_rooms,
                forall|x: int, y: int|
                    snap.field.spec_in_bounds(x, y) ==> (#[trigger] self.field.at(x, y)
                        == snap.field.at(x, y) || self.field.at(x, y) == unhidden_cell(
                        snap.field.at(x, y),
                    )),
                forall|k: int| 0 <= k < msgs@.len() ==> msgs@[k] == GameMsg::SecretDoor,
                msgs@.len() >= 1 ==> exists|x: int, y: int|
                    snap.field.spec_in_bounds(x, y) && (#[trigger] snap.field.at(
                        x,
                        y,
                    )).attr.is_hidden && snap.field.at(x, y).surface is Door && !self.field.at(
                        x,
                        y,
                    ).attr.is_hidden,
                msgs@.len() == 0 ==> forall|x: int, y: int|
                    snap.field.spec_in_bounds(x, y) && (#[trigger] snap.field.at(
                        x,
                        y,
                    )).attr.is_hidden && snap.field.at(x, y).surface is Door ==> self.field.at(
                        x,
                        y,
                    ).attr.is_hidden,
            decreases 2 - dy,
        {
            let mut dx: i32 = -1;
            while dx <= 1
                invariant
                    -1 <= dy <= 1,
                    -1 <= dx <= 2,
                    self.wf(),
                    self.field.spec_width() == width as int,
                    self.field.spec_height() == height as int,
                    snap.wf(),
                    snap.field.spec_width() == width,
                    snap.field.spec_height() == height,
                    self.doors == snap.doors,
                    self.rooms == snap.rooms,
                    self.non_empty_rooms == snap.non_empty_rooms,
                    forall|x: int, y: int|
                        snap.field.spec_in_bounds(x, y) ==> (#[trigger] self.field.at(x, y)
                            == snap.field.at(x, y) || self.field.at(x, y) == unhidden_cell(
                            snap.field.at(x, y),
                        )),
                    forall|k: int| 0 <= k < msgs@.len() ==> msgs@[k] == GameMsg::SecretDoor,
                    msgs@.len() >= 1 ==> exists|x: int, y: int|
                        snap.field.spec_in_bounds(x, y) && (#[trigger] snap.field.at(
                            x,
                            y,
                        )).attr.is_hidden && snap.field.at(x, y).surface is Door && !self.field.at(
                            x,
                            y,
                        ).attr.is_hidden,
                    msgs@.len() == 0 ==> forall|x: int, y: int|
                        snap.field.spec_in_bounds(x, y) && (#[trigger] snap.field.at(
                            x,
                            y,
                        )).attr.is_hidden && snap.field.at(x, y).surface is Door ==> self.field.at(
                            x,
                            y,
                        ).attr.is_hidden,
                decreases 2 - dx,
            {
                let nx: i64 = cd.x.0 as i64 + dx as i64;
                let ny: i64 = cd.y.0 as i64 + dy as i64;
                if 0 <= nx && nx < width as i64 && 0 <= ny && ny < height as i64 {
                    let ncd = Coord { x: X(nx as i32), y: Y(ny as i32) };
                    let ghost before = *self;
                    let ncell = self.field.get(ncd);
                    if ncell.attr.is_hidden && rng.does_happen(3) {
                        let mut nattr = ncell.attr;
                        nattr.is_hidden = false;
                        self.set_attr(ncd, nattr);
                        let is_door = match ncell.surface {
                            Surface::Door => true,
                            _ => false,
                        };
                        if is_door {
                            msgs.push(GameMsg::SecretDoor);
                        }
                        proof {
                            assert(self.field.at_cd(ncd) == unhidden_cell(before.field.at_cd(ncd)));
                            assert forall|x: int, y: int|
                                snap.field.spec_in_bounds(x, y) implies (#[trigger] self.field.at(
                                x,
                                y,
                            ) == snap.field.at(x, y) || self.field.at(x, y) == unhidden_cell(
                                snap.field.at(x, y),
                            )) by {
                                if !(x == ncd.x.0 as int && y == ncd.y.0 as int) {
                                    assert(self.field.at(x, y) == before.field.at(x, y));
                                }
                            }
                        }
                    }
                }
                dx = dx + 1;
            }
            dy = dy + 1;
        }
        Ok(msgs)
    }

    /// Scatter level gold: each non-empty room may roll a pile, which is
    /// placed on a free cell of the room and registered as item occupancy.
    pub fn setup_items(&mut self, level: u32, item_handle: &mut ItemHandler, set_gold: bool, rng:
        &mut RngHandle) -> (r: GameResult<()>)
        requires
            old(self).wf(),
            level <= 10000,
        ensures
            final(self).wf(),
            final(self).field == old(self).field,
            final(self).doors == old(self).doors,
            final(self).non_empty_rooms == old(self).non_empty_rooms,
            final(self).rooms@.len() == old(self).rooms@.len(),
            r is Err ==> r->Err_0.id is MaybeBug,
            !set_gold ==> *final(self) == *old(self) && *final(item_handle) == *old(item_handle)
                && r.is_ok(),
            forall|j: int, x: int, y: int|
                0 <= j < old(self).rooms@.len() && old(self).rooms@[j].spec_contains(x, y)
                    ==> #[trigger] final(self).rooms@[j].spec_filled(x, y, true) == old(self).rooms@[j].spec_filled(x, y, true),
            forall|j: int, x: int, y: int|
                0 <= j < old(self).rooms@.len() && old(self).rooms@[j].spec_contains(x, y) && old(self).rooms@[j].spec_filled(x, y, false) ==> #[trigger] final(self).rooms@[
                    j
                ].spec_filled(x, y, false),
            forall|j: int|
                0 <= j < old(self).rooms@.len() ==> (#[trigger] final(self).rooms@[j]).kind == old(self).rooms@[j].kind && final(self).rooms@[j].floor_area == old(self).rooms@[
                    j
                ].floor_area && final(self).rooms@[j].assigned_area == old(self).rooms@[
                    j
                ].assigned_area,
            (forall|j: int|
                0 <= j < old(self).rooms@.len() && !(old(self).rooms@[j].kind is Empty)
                    ==> exists|x: int, y: int|
                    (#[trigger] old(self).rooms@[j].spec_contains(x, y)) && !old(self).rooms@[
                        j
                    ].spec_filled(x, y, false)) ==> r.is_ok(),
            final(item_handle).placed@.len() >= old(item_handle).placed@.len(),
            forall|k: int|
                0 <= k < old(item_handle).placed@.len() ==> #[trigger] final(item_handle).placed@[
                    k
                ] == old(item_handle).placed@[k],
            forall|k: int|
                old(item_handle).placed@.len() <= k < final(item_handle).placed@.len() ==> {
                    &&& (#[trigger] final(item_handle).placed@[k]).1.kind is Gold
                    &&& exists|i: int|
                        0 <= i < final(self).rooms@.len() && (#[trigger] final(self).rooms@[
                            i
                        ]).spec_contains(
                            final(item_handle).placed@[k].0.x.0 as int,
                            final(item_handle).placed@[k].0.y.0 as int,
                        ) && final(self).rooms@[i].spec_filled(
                            final(item_handle).placed@[k].0.x.0 as int,
                            final(item_handle).placed@[k].0.y.0 as int,
                            false,
                        )
                },
    {
        if !set_gold {
            return Ok(());
        }
        let mut i: usize = 0;
        while i < self.rooms.len()
            invariant
                self.wf(),
                set_gold,
                level <= 10000,
                self.field == old(self).field,
                self.doors == old(self).doors,
                self.non_empty_rooms == old(self).non_empty_rooms,
                self.rooms@.len() == old(self).rooms@.len(),
                i <= self.rooms@.len(),
                forall|j: int|
                    i <= j < self.rooms@.len() ==> #[trigger] self.rooms@[j] == old(self).rooms@[j],
                forall|j: int|
                    0 <= j < self.rooms@.len() ==> (#[trigger] self.rooms@[j]).kind == old(self).rooms@[j].kind && self.rooms@[j].floor_area == old(self).rooms@[j].floor_area
                        && self.rooms@[j].assigned_area == old(self).rooms@[j].assigned_area,
                forall|j: int, x: int, y: int|
                    0 <= j < self.rooms@.len() && old(self).rooms@[j].spec_contains(x, y)
                        ==> #[trigger] self.rooms@[j].spec_filled(x, y, true) == old(self).rooms@[
                        j
                    ].spec_filled(x, y, true),
                forall|j: int, x: int, y: int|
                    0 <= j < self.rooms@.len() && old(self).rooms@[j].spec_contains(x, y) && old(self).rooms@[j].spec_filled(x, y, false) ==> #[trigger] self.rooms@[
                        j
                    ].spec_filled(x, y, false),
                item_handle.placed@.len() >= old(item_handle).placed@.len(),
                forall|k: int|
                    0 <= k < old(item_handle).placed@.len() ==> #[trigger] item_handle.placed@[k]
                        == old(item_handle).placed@[k],
                forall|k: int|
                    old(item_handle).placed@.len() <= k < item_handle.placed@.len() ==> {
                        &&& (#[trigger] item_handle.placed@[k]).1.kind is Gold
                        &&& exists|q: int|
                            0 <= q < self.rooms@.len() && (#[trigger] self.rooms@[
                                q
                            ]).spec_contains(
                                item_handle.placed@[k].0.x.0 as int,
                                item_handle.placed@[k].0.y.0 as int,
                            ) && self.rooms@[q].spec_filled(
                                item_handle.placed@[k].0.x.0 as int,
                                item_handle.placed@[k].0.y.0 as int,
                                false,
                            )
                    },
            decreases self.rooms@.len() - i,
        {
            if !self.rooms[i].is_empty() {
                match item_handle.setup_gold(level) {
                    Some(amount) => {
                        match self.rooms[i].select_cell(rng, false) {
                            Some(gold_cd) => {
                                let ghost pre = *self;
                                let room = room_mut(&mut self.rooms, i);
                                let filled = room.fill_cell(gold_cd, false);
                                proof {
                                    assert forall|a: int, b: int, x: int, y: int|
                                        0 <= a < self.rooms@.len() && 0 <= b < self.rooms@.len()
                                            && a != b && (#[trigger] self.rooms@[
                                            a
                                        ].assigned_area.spec_contains(x, y)) implies !(
                                    #[trigger] self.rooms@[b].assigned_area.spec_contains(
                                        x,
                                        y,
                                    )) by {
                                        assert(self.rooms@[a].assigned_area == pre.rooms@[
                                            a
                                        ].assigned_area);
                                        assert(self.rooms@[b].assigned_area == pre.rooms@[
                                            b
                                        ].assigned_area);
                                    }
                                }
                                let ghost pre_handle = item_handle.placed@;
                                item_handle.place_at(gold_cd, Item::gold(amount));
                                proof {
                                    assert(item_handle.placed@[pre_handle.len() as int].1.kind
                                        is Gold);
                                    assert(self.rooms@[i as int].spec_contains(
                                        gold_cd.x.0 as int,
                                        gold_cd.y.0 as int,
                                    ) && self.rooms@[i as int].spec_filled(
                                        gold_cd.x.0 as int,
                                        gold_cd.y.0 as int,
                                        false,
                                    ));
                                    assert forall|k: int|
                                        old(item_handle).placed@.len() <= k
                                            < item_handle.placed@.len() implies {
                                        &&& (#[trigger] item_handle.placed@[k]).1.kind is Gold
                                        &&& exists|q: int|
                                            0 <= q < self.rooms@.len() && (#[trigger] self.rooms@[
                                                q
                                            ]).spec_contains(
                                                item_handle.placed@[k].0.x.0 as int,
                                                item_handle.placed@[k].0.y.0 as int,
                                            ) && self.rooms@[q].spec_filled(
                                                item_handle.placed@[k].0.x.0 as int,
                                                item_handle.placed@[k].0.y.0 as int,
                                                false,
                                            )
                                    } by {
                                        if k < pre_handle.len() {
                                            assert(item_handle.placed@[k] == pre_handle[k]);
                                            let cx = item_handle.placed@[k].0.x.0 as int;
                                            let cy = item_handle.placed@[k].0.y.0 as int;
                                            let q = choose|q: int|
                                                0 <= q < pre.rooms@.len() && (#[trigger] pre.rooms@[
                                                    q
                                                ]).spec_contains(cx, cy) && pre.rooms@[
                                                    q
                                                ].spec_filled(cx, cy, false);
                                            if q == i as int {
                                                assert(self.rooms@[q].spec_filled(cx, cy, false));
                                            } else {
                                                assert(self.rooms@[q] == pre.rooms@[q]);
                                            }
                                            assert(self.rooms@[q].spec_contains(cx, cy)
                                                && self.rooms@[q].spec_filled(cx, cy, false));
                                        }
                                    }
                                }
                            },
                            None => {
                                proof {
                                    assert(self.rooms@[i as int] == old(self).rooms@[i as int]);
                                    if forall|j: int|
                                        0 <= j < old(self).rooms@.len() && !(old(self).rooms@[
                                            j
                                        ].kind is Empty) ==> exists|x: int, y: int|
                                            (#[trigger] old(self).rooms@[j].spec_contains(x, y))
                                                && !old(self).rooms@[j].spec_filled(x, y, false) {
                                        let (x, y) = choose|x: int, y: int|
                                            (#[trigger] old(self).rooms@[
                                                i as int
                                            ].spec_contains(x, y)) && !old(self).rooms@[
                                                i as int
                                            ].spec_filled(x, y, false);
                                        assert(self.rooms@[i as int].spec_filled(x, y, false));
                                    }
                                }
                                return Err(GameError::new(
                                    ErrorId::MaybeBug,
                                    "Floor::setup_items: no space for gold",
                                ));
                            },
                        }
                    },
                    None => {},
                }
            }
            i = i + 1;
        }
        Ok(())
    }
}

} // verus!
