//! The passage digger: connects adjacent room slots with corridors, placing
//! a door on each real room's facing wall and carving an elbowed path
//! between the two sides. It emits (coordinate, surface) placements for the
//! floor assembler to overlay instead of writing a grid of its own.

use vstd::prelude::*;
use crate::config::Config;
use crate::coord::Coord;
use crate::coord::Positioned;
use crate::coord::X;
use crate::coord::Y;
use crate::grid::Surface;
use crate::rect::RectRange;
use crate::rng::RngHandle;
use crate::rooms::Room;
use crate::rooms::RoomKind;
use crate::rooms::room_slot_ok;
use crate::rooms::lemma_slot_facts;

verus! {

/// Every placement from position `from` on lies on the floor and is either
/// a door or a passage cell.
pub open spec fn placements_ok(s: Seq<Positioned<Surface>>, from: int, width: int, height: int) -> bool {
    forall|k: int|
        from <= k < s.len() ==> {
            let p = #[trigger] s[k];
            &&& 0 <= p.0.x.0 < width
            &&& 0 <= p.0.y.0 < height
            &&& (p.1 == Surface::Door || p.1 == Surface::Passage)
        }
}

/// The output places a door somewhere on the room's own area.
pub open spec fn room_has_door(out: Seq<Positioned<Surface>>, room: Room) -> bool {
    exists|k: int|
        0 <= k < out.len() && (#[trigger] out[k]).1 is Door && room.assigned_area.spec_contains(
            out[k].0.x.0 as int,
            out[k].0.y.0 as int,
        )
}

/// Every door placement from position `from` on lies on some room's
/// assigned area; corridors themselves never place doors.
pub open spec fn doors_placed_on_rooms(
    s: Seq<Positioned<Surface>>,
    from: int,
    rooms: Seq<Room>,
) -> bool {
    forall|k: int|
        from <= k < s.len() && (#[trigger] s[k]).1 is Door ==> exists|i: int|
            0 <= i < rooms.len() && #[trigger] rooms[i].assigned_area.spec_contains(
                s[k].0.x.0 as int,
                s[k].0.y.0 as int,
            )
}

/// A door once placed stays placed: extension preserves `room_has_door`.
proof fn lemma_door_persists(s2: Seq<Positioned<Surface>>, s1: Seq<Positioned<Surface>>, room: Room)
    requires
        extends(s2, s1),
        room_has_door(s1, room),
    ensures
        room_has_door(s2, room),
{
    let k = choose|k: int|
        0 <= k < s1.len() && (#[trigger] s1[k]).1 is Door && room.assigned_area.spec_contains(
            s1[k].0.x.0 as int,
            s1[k].0.y.0 as int,
        );
    assert(s2[k] == s1[k]);
}

/// `s` extends `pre` without touching it.
pub open spec fn extends(s: Seq<Positioned<Surface>>, pre: Seq<Positioned<Surface>>) -> bool {
    &&& s.len() >= pre.len()
    &&& forall|k: int| 0 <= k < pre.len() ==> s[k] == pre[k]
}

spec fn abs_of(v: int) -> int {
    if v >= 0 {
        v
    } else {
        -v
    }
}

/// Carve an elbowed corridor from `p` to `q`, both inclusive: first along
/// the row of `p`, then along the column of `q`.
fn carve(p: Coord, q: Coord, width: i32, height: i32, out: &mut Vec<Positioned<Surface>>)
    requires
        0 <= p.x.0 < width <= 4096,
        0 <= p.y.0 < height <= 4096,
        0 <= q.x.0 < width,
        0 <= q.y.0 < height,
    ensures
        extends(final(out)@, old(out)@),
        placements_ok(final(out)@, old(out)@.len() as int, width as int, height as int),
        forall|k: int|
            old(out)@.len() <= k < final(out)@.len() ==> (#[trigger] final(out)@[k]).1 is Passage,
{
    let mut x: i32 = p.x.0;
    while x != q.x.0
        invariant
            0 <= p.x.0 < width,
            0 <= q.x.0 < width,
            0 <= p.y.0 < height,
            p.x.0 <= x <= q.x.0 || q.x.0 <= x <= p.x.0,
            extends(out@, old(out)@),
            placements_ok(out@, old(out)@.len() as int, width as int, height as int),
            forall|k: int|
                old(out)@.len() <= k < out@.len() ==> (#[trigger] out@[k]).1 is Passage,
        decreases abs_of(q.x.0 - x),
    {
        out.push(Positioned(Coord { x: X(x), y: p.y }, Surface::Passage));
        if x < q.x.0 {
            x = x + 1;
        } else {
            x = x - 1;
        }
    }
    let mut y: i32 = p.y.0;
    while y != q.y.0
        invariant
            0 <= q.x.0 < width,
            0 <= p.y.0 < height,
            0 <= q.y.0 < height,
            p.y.0 <= y <= q.y.0 || q.y.0 <= y <= p.y.0,
            extends(out@, old(out)@),
            placements_ok(out@, old(out)@.len() as int, width as int, height as int),
            forall|k: int|
                old(out)@.len() <= k < out@.len() ==> (#[trigger] out@[k]).1 is Passage,
        decreases abs_of(q.y.0 - y),
    {
        out.push(Positioned(Coord { x: q.x, y: Y(y) }, Surface::Passage));
        if y < q.y.0 {
            y = y + 1;
        } else {
            y = y - 1;
        }
    }
    out.push(Positioned(q, Surface::Passage));
}

/// The side of a room a corridor attaches to.
#[derive(Clone, Copy, Debug, PartialEq, Eq, Structural)]
enum Side {
    Right,
    Left,
    Down,
    Up,
}

/// Pick the attachment of a room on the given side: a real room gets a door
/// on the interior of the facing wall and hands back the cell just outside
/// it; a placeholder hands back its anchor point with no door.
fn side_point(room: &Room, side: Side, width: i32, height: i32, rng: &mut RngHandle, out: &mut Vec<
    Positioned<Surface>,
>) -> (start: Coord)
    requires
        room.wf(),
        width <= 4096,
        height <= 4096,
        0 <= room.assigned_area.x0,
        0 <= room.assigned_area.y0,
        side is Right ==> room.assigned_area.x1 < width && room.assigned_area.y1 <= height,
        side is Left ==> 1 <= room.assigned_area.x0 && room.assigned_area.x1 <= width
            && room.assigned_area.y1 <= height,
        side is Down ==> room.assigned_area.y1 < height && room.assigned_area.x1 <= width,
        side is Up ==> 1 <= room.assigned_area.y0 && room.assigned_area.y1 <= height
            && room.assigned_area.x1 <= width,
    ensures
        extends(final(out)@, old(out)@),
        placements_ok(final(out)@, old(out)@.len() as int, width as int, height as int),
        0 <= start.x.0 < width,
        0 <= start.y.0 < height,
        !(room.kind is Empty) ==> room_has_door(final(out)@, *room),
        forall|k: int|
            old(out)@.len() <= k < final(out)@.len() ==> room.assigned_area.spec_contains(
                (#[trigger] final(out)@[k]).0.x.0 as int,
                final(out)@[k].0.y.0 as int,
            ),
{
    let range: RectRange = match room.kind {
        RoomKind::Normal { range } => range,
        RoomKind::Maze { range } => range,
        RoomKind::Empty { up_left } => {
            return up_left;
        },
    };
    let door_cd: Coord;
    let start: Coord;
    match side {
        Side::Right => {
            let ydoor = rng.range_i32(range.y0 + 1, range.y1 - 1);
            door_cd = Coord { x: X(range.x1 - 1), y: Y(ydoor) };
            start = Coord { x: X(range.x1), y: Y(ydoor) };
        },
        Side::Left => {
            let ydoor = rng.range_i32(range.y0 + 1, range.y1 - 1);
            door_cd = Coord { x: X(range.x0), y: Y(ydoor) };
            start = Coord { x: X(range.x0 - 1), y: Y(ydoor) };
        },
        Side::Down => {
            let xdoor = rng.range_i32(range.x0 + 1, range.x1 - 1);
            door_cd = Coord { x: X(xdoor), y: Y(range.y1 - 1) };
            start = Coord { x: X(xdoor), y: Y(range.y1) };
        },
        Side::Up => {
            let xdoor = rng.range_i32(range.x0 + 1, range.x1 - 1);
            door_cd = Coord { x: X(xdoor), y: Y(range.y0) };
            start = Coord { x: X(xdoor), y: Y(range.y0 - 1) };
        },
    }
    out.push(Positioned(door_cd, Surface::Door));
    proof {
        assert((out@[out@.len() - 1]).1 is Door);
        assert(room.assigned_area.spec_contains(door_cd.x.0 as int, door_cd.y.0 as int));
    }
    start
}

/// Connect the slot at column `i`, row `j` with its right or lower
/// neighbour: a door (or anchor) on each side and a carved corridor
/// between them.
fn connect_pair(
    rooms: &Vec<Room>,
    i: i32,
    j: i32,
    horizontal: bool,
    config: &Config,
    width: X,
    height: Y,
    rng: &mut RngHandle,
    out: &mut Vec<Positioned<Surface>>,
)
    requires
        config.wf(),
        config.fits(width.0 as int, height.0 as int),
        rooms@.len() == config.room_num_x * config.room_num_y,
        forall|k: int|
            0 <= k < rooms@.len() ==> room_slot_ok(
                #[trigger] rooms@[k],
                k,
                *config,
                width.0 as int,
                height.0 as int,
            ),
        0 <= i && 0 <= j,
        horizontal ==> i < config.room_num_x - 1 && j < config.room_num_y,
        !horizontal ==> i < config.room_num_x && j < config.room_num_y - 1,
    ensures
        extends(final(out)@, old(out)@),
        placements_ok(final(out)@, old(out)@.len() as int, width.0 as int, height.0 as int),
        doors_placed_on_rooms(final(out)@, old(out)@.len() as int, rooms@),
        ({
            let a = j * config.room_num_x + i;
            let b = if horizontal {
                a + 1
            } else {
                a + config.room_num_x
            };
            &&& (!(rooms@[a as int].kind is Empty) ==> room_has_door(
                final(out)@,
                rooms@[a as int],
            ))
            &&& (!(rooms@[b as int].kind is Empty) ==> room_has_door(
                final(out)@,
                rooms@[b as int],
            ))
        }),
{
    let nx: i32 = config.room_num_x;
    let ny: i32 = config.room_num_y;
    let w = width.0;
    let h = height.0;
    proof {
        assert(0 <= j * nx + i && j * nx + i < nx * ny && nx * ny <= 256 && (horizontal ==> j * nx
            + i + 1 < nx * ny) && (!horizontal ==> j * nx + i + nx < nx * ny)) by (nonlinear_arith)
            requires
                0 <= i < nx <= 16,
                0 <= j < ny <= 16,
                horizontal ==> i < nx - 1,
                !horizontal ==> j < ny - 1,
        ;
    }
    let a: usize = (j as usize) * (nx as usize) + (i as usize);
    let b: usize = if horizontal {
        a + 1
    } else {
        a + (nx as usize)
    };
    proof {
        let sw = config.spec_slot_w(w as int);
        let sh = config.spec_slot_h(h as int);
        lemma_slot_facts(*config, w as int, h as int, a as int);
        lemma_slot_facts(*config, w as int, h as int, b as int);
        vstd::arithmetic::div_mod::lemma_fundamental_div_mod_converse(
            a as int,
            nx as int,
            j as int,
            i as int,
        );
        if horizontal {
            vstd::arithmetic::div_mod::lemma_fundamental_div_mod_converse(
                b as int,
                nx as int,
                j as int,
                i as int + 1,
            );
            assert((i + 1) * sw == i * sw + sw && (i + 1) * sw >= sw && i * sw >= 0) by (
            nonlinear_arith)
                requires
                    0 <= i,
                    0 < sw,
            ;
        } else {
            assert((j + 1) * nx == j * nx + nx) by (nonlinear_arith);
            vstd::arithmetic::div_mod::lemma_fundamental_div_mod_converse(
                b as int,
                nx as int,
                j as int + 1,
                i as int,
            );
            assert((j + 1) * sh == j * sh + sh && (j + 1) * sh >= sh && j * sh >= 0) by (
            nonlinear_arith)
                requires
                    0 <= j,
                    0 < sh,
            ;
        }
    }
    let start_a = side_point(
        &rooms[a],
        if horizontal {
            Side::Right
        } else {
            Side::Down
        },
        w,
        h,
        rng,
        out,
    );
    let ghost mid = out@;
    let start_b = side_point(
        &rooms[b],
        if horizontal {
            Side::Left
        } else {
            Side::Up
        },
        w,
        h,
        rng,
        out,
    );
    let ghost mid2 = out@;
    carve(start_a, start_b, w, h, out);
    proof {
        assert(extends(out@, old(out)@));
        if !(rooms@[a as int].kind is Empty) {
            lemma_door_persists(mid2, mid, rooms@[a as int]);
            lemma_door_persists(out@, mid2, rooms@[a as int]);
        }
        if !(rooms@[b as int].kind is Empty) {
            lemma_door_persists(out@, mid2, rooms@[b as int]);
        }
        assert forall|k: int|
            old(out)@.len() <= k < out@.len() implies {
            let p = #[trigger] out@[k];
            &&& 0 <= p.0.x.0 < w
            &&& 0 <= p.0.y.0 < h
            &&& (p.1 == Surface::Door || p.1 == Surface::Passage)
        } by {
            if k < mid.len() {
                assert(out@[k] == mid[k]);
            } else if k < mid2.len() {
                assert(out@[k] == mid2[k]);
            }
        }
        assert forall|k: int|
            old(out)@.len() <= k < out@.len() && (#[trigger] out@[k]).1 is Door implies exists|
            q: int,
        |
            0 <= q < rooms@.len() && #[trigger] rooms@[q].assigned_area.spec_contains(
                out@[k].0.x.0 as int,
                out@[k].0.y.0 as int,
            ) by {
            if k < mid.len() {
                assert(out@[k] == mid[k]);
                assert(rooms@[a as int].assigned_area.spec_contains(
                    out@[k].0.x.0 as int,
                    out@[k].0.y.0 as int,
                ));
            } else if k < mid2.len() {
                assert(out@[k] == mid2[k]);
                assert(rooms@[b as int].assigned_area.spec_contains(
                    out@[k].0.x.0 as int,
                    out@[k].0.y.0 as int,
                ));
            } else {
                assert(out@[k].1 is Passage);
            }
        }
    }
}

/// Connect every pair of horizontally or vertically adjacent room slots
/// with one corridor, then add up to `max_extra_edges` random extra
/// connections for redundancy. Every placement lies on the floor.
pub fn dig_passages(
    rooms: &Vec<Room>,
    config: &Config,
    width: X,
    height: Y,
    rng: &mut RngHandle,
) -> (out: Vec<Positioned<Surface>>)
    requires
        config.wf(),
        config.fits(width.0 as int, height.0 as int),
        rooms@.len() == config.room_num_x * config.room_num_y,
        forall|k: int|
            0 <= k < rooms@.len() ==> room_slot_ok(
                #[trigger] rooms@[k],
                k,
                *config,
                width.0 as int,
                height.0 as int,
            ),
    ensures
        placements_ok(out@, 0, width.0 as int, height.0 as int),
        doors_placed_on_rooms(out@, 0, rooms@),
        config.room_num_x * config.room_num_y >= 2 ==> forall|r: int|
            0 <= r < rooms@.len() && !((#[trigger] rooms@[r]).kind is Empty) ==> room_has_door(
                out@,
                rooms@[r],
            ),
{
    let nx: i32 = config.room_num_x;
    let ny: i32 = config.room_num_y;
    let mut out: Vec<Positioned<Surface>> = Vec::new();
    let mut j: i32 = 0;
    while j < ny
        invariant
            config.wf(),
            config.fits(width.0 as int, height.0 as int),
            rooms@.len() == config.room_num_x * config.room_num_y,
            forall|k: int|
                0 <= k < rooms@.len() ==> room_slot_ok(
                    #[trigger] rooms@[k],
                    k,
                    *config,
                    width.0 as int,
                    height.0 as int,
                ),
            nx == config.room_num_x,
            ny == config.room_num_y,
            0 <= j <= ny,
            placements_ok(out@, 0, width.0 as int, height.0 as int),
            doors_placed_on_rooms(out@, 0, rooms@),
            nx >= 2 ==> forall|r: int|
                0 <= r < j * nx && !((#[trigger] rooms@[r]).kind is Empty) ==> room_has_door(
                    out@,
                    rooms@[r],
                ),
        decreases ny - j,
    {
        let mut i: i32 = 0;
        while i + 1 < nx
            invariant
                config.wf(),
                config.fits(width.0 as int, height.0 as int),
                rooms@.len() == config.room_num_x * config.room_num_y,
                forall|k: int|
                    0 <= k < rooms@.len() ==> room_slot_ok(
                        #[trigger] rooms@[k],
                        k,
                        *config,
                        width.0 as int,
                        height.0 as int,
                    ),
                nx == config.room_num_x,
                ny == config.room_num_y,
                0 <= j < ny,
                0 <= i <= nx,
                placements_ok(out@, 0, width.0 as int, height.0 as int),
                doors_placed_on_rooms(out@, 0, rooms@),
                nx >= 2 ==> forall|r: int|
                    0 <= r < j * nx && !((#[trigger] rooms@[r]).kind is Empty) ==> room_has_door(
                        out@,
                        rooms@[r],
                    ),
                nx >= 2 && i >= 1 ==> forall|r: int|
                    j * nx <= r <= j * nx + i && !((#[trigger] rooms@[r]).kind is Empty)
                        ==> room_has_door(out@, rooms@[r]),
            decreases nx - i,
        {
            let ghost prev = out@;
            connect_pair(rooms, i, j, true, config, width, height, rng, &mut out);
            proof {
                assert forall|r: int|
                    0 <= r < rooms@.len() && !((#[trigger] rooms@[r]).kind is Empty)
                        && room_has_door(prev, rooms@[r]) implies room_has_door(out@, rooms@[r]) by {
                    lemma_door_persists(out@, prev, rooms@[r]);
                }
                assert(j * nx + i + 1 < nx * ny && 0 <= j * nx) by (nonlinear_arith)
                    requires
                        0 <= i,
                        i + 1 < nx,
                        0 <= j < ny,
                ;
            }
            i = i + 1;
        }
        proof {
            assert((j + 1) * nx == j * nx + nx) by (nonlinear_arith);
        }
        j = j + 1;
    }
    proof {
        assert(ny * nx == nx * ny) by (nonlinear_arith);
    }
    let mut j: i32 = 0;
    while j + 1 < ny
        invariant
            config.wf(),
            config.fits(width.0 as int, height.0 as int),
            rooms@.len() == config.room_num_x * config.room_num_y,
            forall|k: int|
                0 <= k < rooms@.len() ==> room_slot_ok(
                    #[trigger] rooms@[k],
                    k,
                    *config,
                    width.0 as int,
                    height.0 as int,
                ),
            nx == config.room_num_x,
            ny == config.room_num_y,
            0 <= j <= ny,
            placements_ok(out@, 0, width.0 as int, height.0 as int),
            doors_placed_on_rooms(out@, 0, rooms@),
            nx >= 2 ==> forall|r: int|
                0 <= r < rooms@.len() && !((#[trigger] rooms@[r]).kind is Empty) ==> room_has_door(
                    out@,
                    rooms@[r],
                ),
            nx == 1 && j >= 1 ==> forall|r: int|
                0 <= r <= j && !((#[trigger] rooms@[r]).kind is Empty) ==> room_has_door(
                    out@,
                    rooms@[r],
                ),
        decreases ny - j,
    {
        let mut i: i32 = 0;
        while i < nx
            invariant
                config.wf(),
                config.fits(width.0 as int, height.0 as int),
                rooms@.len() == config.room_num_x * config.room_num_y,
                forall|k: int|
                    0 <= k < rooms@.len() ==> room_slot_ok(
                        #[trigger] rooms@[k],
                        k,
                        *config,
                        width.0 as int,
                        height.0 as int,
                    ),
                nx == config.room_num_x,
                ny == config.room_num_y,
                0 <= j < ny - 1,
                0 <= i <= nx,
                placements_ok(out@, 0, width.0 as int, height.0 as int),
                doors_placed_on_rooms(out@, 0, rooms@),
                nx >= 2 ==> forall|r: int|
                    0 <= r < rooms@.len() && !((#[trigger] rooms@[r]).kind is Empty)
                        ==> room_has_door(out@, rooms@[r]),
                nx == 1 && j >= 1 ==> forall|r: int|
                    0 <= r <= j && !((#[trigger] rooms@[r]).kind is Empty) ==> room_has_door(
                        out@,
                        rooms@[r],
                    ),
                nx == 1 && i >= 1 ==> forall|r: int|
                    0 <= r <= j + 1 && !((#[trigger] rooms@[r]).kind is Empty) ==> room_has_door(
                        out@,
                        rooms@[r],
                    ),
            decreases nx - i,
        {
            let ghost prev = out@;
            connect_pair(rooms, i, j, false, config, width, height, rng, &mut out);
            proof {
                assert forall|r: int|
                    0 <= r < rooms@.len() && !((#[trigger] rooms@[r]).kind is Empty)
                        && room_has_door(prev, rooms@[r]) implies room_has_door(out@, rooms@[r]) by {
                    lemma_door_persists(out@, prev, rooms@[r]);
                }
                if nx == 1 {
                    assert(j * nx + i == j && j * nx + i + nx == j + 1) by (nonlinear_arith)
                        requires
                            nx == 1,
                            i == 0,
                            0 <= j,
                    ;
                }
            }
            i = i + 1;
        }
        j = j + 1;
    }
    proof {
        if nx * ny >= 2 && nx == 1 {
            assert(ny >= 2 && nx * ny == ny) by (nonlinear_arith)
                requires
                    nx == 1,
                    nx * ny >= 2,
            ;
        }
    }
    if nx >= 2 || ny >= 2 {
        let extra = rng.range_u32(0, config.max_extra_edges + 1);
        let mut k: u32 = 0;
        while k < extra
            invariant
                config.wf(),
                config.fits(width.0 as int, height.0 as int),
                rooms@.len() == config.room_num_x * config.room_num_y,
                forall|q: int|
                    0 <= q < rooms@.len() ==> room_slot_ok(
                        #[trigger] rooms@[q],
                        q,
                        *config,
                        width.0 as int,
                        height.0 as int,
                    ),
                nx == config.room_num_x,
                ny == config.room_num_y,
                nx >= 2 || ny >= 2,
                placements_ok(out@, 0, width.0 as int, height.0 as int),
                doors_placed_on_rooms(out@, 0, rooms@),
                nx * ny >= 2 ==> forall|r: int|
                    0 <= r < rooms@.len() && !((#[trigger] rooms@[r]).kind is Empty)
                        ==> room_has_door(out@, rooms@[r]),
            decreases extra - k,
        {
            let ghost prev2 = out@;
            let horizontal = if nx >= 2 && ny >= 2 {
                rng.range_u32(0, 2) == 0
            } else {
                nx >= 2
            };
            if horizontal {
                let i = rng.range_i32(0, nx - 1);
                let j = rng.range_i32(0, ny);
                connect_pair(rooms, i, j, true, config, width, height, rng, &mut out);
            } else {
                let i = rng.range_i32(0, nx);
                let j = rng.range_i32(0, ny - 1);
                connect_pair(rooms, i, j, false, config, width, height, rng, &mut out);
            }
            proof {
                assert forall|r: int|
                    0 <= r < rooms@.len() && !((#[trigger] rooms@[r]).kind is Empty)
                        && room_has_door(prev2, rooms@[r]) implies room_has_door(out@, rooms@[r]) by {
                    lemma_door_persists(out@, prev2, rooms@[r]);
                }
            }
            k = k + 1;
        }
    }
    out
}

} // verus!
