//! The dungeon: the current floor together with the depth counter, the
//! configuration and the seeded random stream, and the operations a turn
//! needs from them.

use vstd::prelude::*;
use crate::config::Config;
use crate::coord::Coord;
use crate::coord::Direction;
use crate::coord::X;
use crate::coord::Y;
use crate::coord::dir_dx;
use crate::coord::dir_dy;
use crate::error::ErrorId;
use crate::error::GameError;
use crate::error::GameResult;
use crate::floor::Floor;
use crate::floor::spec_can_move;
use crate::item::ItemHandler;
use crate::msg::GameMsg;
use crate::rng::RngHandle;
use crate::GameInfo;

verus! {

/// One dungeon of stacked floors; only the current floor is materialized,
/// and a level transition replaces it wholesale.
#[derive(Clone, Debug)]
pub struct Dungeon {
    /// current depth, growing downwards
    pub level: u32,
    pub config: Config,
    pub width: X,
    pub height: Y,
    pub rng: RngHandle,
    pub current_floor: Floor,
}

impl Dungeon {
    pub open spec fn wf(self) -> bool {
        &&& self.config.wf()
        &&& self.config.fits(self.width.0 as int, self.height.0 as int)
        &&& self.current_floor.wf()
        &&& self.current_floor.field.spec_width() == self.width.0 as int
        &&& self.current_floor.field.spec_height() == self.height.0 as int
        &&& 1 <= self.level <= 10000
    }

    /// Same floor dimensions as `other`.
    pub open spec fn same_shape(self, other: Dungeon) -> bool {
        self.width == other.width && self.height == other.height
    }

    /// Build the dungeon and generate its first floor.
    pub fn new(config: Config, width: X, height: Y, seed: u64) -> (r: GameResult<Dungeon>)
        requires
            config.wf(),
            config.fits(width.0 as int, height.0 as int),
        ensures
            r.is_ok(),
            r->Ok_0.wf(),
            r->Ok_0.level == 1,
            forall|i: int, x: int, y: int|
                0 <= i < r->Ok_0.current_floor.rooms@.len()
                    && r->Ok_0.current_floor.rooms@[i].spec_contains(x, y) ==> !(#[trigger] r->Ok_0.current_floor.rooms@[i].spec_filled(x, y, true)),
            r->Ok_0.current_floor.rooms@.len() > 0,
            !(r->Ok_0.current_floor.rooms@[0].kind is Empty),
            r->Ok_0.current_floor.non_empty_rooms.spec_contains(0),
            r->Ok_0.current_floor.doors_have_rooms(),
    {
        let mut rng = RngHandle::from_seed(seed);
        let mut floor = match Floor::gen_floor(1, &config, width, height, &mut rng) {
            Ok(f) => f,
            Err(e) => {
                return Err(e.chain("Dungeon::new"));
            },
        };
        match floor.select_cell(&mut rng, false) {
            Some(cd) => {
                proof {
                    let i = choose|i: int|
                        0 <= i < floor.rooms@.len() && floor.non_empty_rooms.spec_contains(
                            i as usize,
                        ) && (#[trigger] floor.rooms@[i]).spec_contains(cd.x.0 as int, cd.y.0 as int)
                            && !floor.rooms@[i].spec_filled(cd.x.0 as int, cd.y.0 as int, false);
                    crate::rooms::lemma_floor_in_assigned(floor.rooms@[i]);
                }
                let placed = floor.set_stair(cd);
            },
            None => {},
        }
        proof {
            let nx = config.room_num_x as int;
            let ny = config.room_num_y as int;
            assert(nx * ny >= 1) by (nonlinear_arith)
                requires
                    1 <= nx,
                    1 <= ny,
            ;
        }
        Ok(Dungeon { level: 1, config, width, height, rng, current_floor: floor })
    }

    /// Replace the floor with a freshly generated deeper one, scatter its
    /// items, and place the stairs down.
    pub fn new_level(&mut self, info: &GameInfo, item_handle: &mut ItemHandler) -> (r: GameResult<
        (),
    >)
        requires
            old(self).wf(),
        ensures
            final(self).wf(),
            final(self).same_shape(*old(self)),
            r.is_ok(),
            final(self).level as int == (if old(self).level < 10000 {
                old(self).level + 1
            } else {
                old(self).level as int
            }),
            forall|i: int, x: int, y: int|
                0 <= i < final(self).current_floor.rooms@.len() && final(self).current_floor.rooms@[i].spec_contains(x, y) ==> !(#[trigger] final(self).current_floor.rooms@[i].spec_filled(x, y, true)),
            final(self).current_floor.rooms@.len() > 0,
            !(final(self).current_floor.rooms@[0].kind is Empty),
            final(self).current_floor.non_empty_rooms.spec_contains(0),
            final(self).current_floor.doors_have_rooms(),
    {
        if self.level < 10000 {
            self.level = self.level + 1;
        }
        let mut floor = match Floor::gen_floor(
            self.level,
            &self.config,
            self.width,
            self.height,
            &mut self.rng,
        ) {
            Ok(f) => f,
            Err(e) => {
                return Err(e.chain("Dungeon::new_level"));
            },
        };
        let ghost fresh = floor;
        let set_gold = !info.is_cleared || self.level >= self.config.amulet_level;
        item_handle.clear_placed();
        proof {
            assert forall|j: int|
                0 <= j < fresh.rooms@.len() && !(fresh.rooms@[j].kind is Empty) implies exists|
                x: int,
                y: int,
            |
                (#[trigger] fresh.rooms@[j].spec_contains(x, y)) && !fresh.rooms@[j].spec_filled(
                    x,
                    y,
                    false,
                ) by {
                let fa = fresh.rooms@[j].floor_area;
                assert(fresh.rooms@[j].wf());
                assert(fresh.rooms@[j].spec_contains(fa.x0 as int, fa.y0 as int));
            }
        }
        match floor.setup_items(self.level, item_handle, set_gold, &mut self.rng) {
            Ok(u) => {},
            Err(e) => {
                // unreachable: every non-empty room of a fresh floor has a free cell
                proof {
                    assert(false);
                }
                return Err(e.chain("Dungeon::new_level"));
            },
        }
        proof {
            assert forall|i: int, x: int, y: int|
                0 <= i < floor.rooms@.len() && floor.rooms@[i].spec_contains(x, y) implies !(
            #[trigger] floor.rooms@[i].spec_filled(x, y, true)) by {
                assert(floor.rooms@[i].floor_area == fresh.rooms@[i].floor_area);
                assert(fresh.rooms@[i].spec_contains(x, y));
            }
        }
        match floor.select_cell(&mut self.rng, false) {
            Some(cd) => {
                let placed = floor.set_stair(cd);
            },
            None => {},
        }
        self.current_floor = floor;
        proof {
            assert forall|c: Coord| #[trigger] self.current_floor.spec_is_door(c) implies
                self.current_floor.has_room_at(c) by {
                assert(fresh.spec_is_door(c));
                assert(fresh.has_room_at(c));
                let i = choose|i: int|
                    0 <= i < fresh.rooms@.len() && (#[trigger] fresh.rooms@[
                        i
                    ]).assigned_area.spec_contains(c.x.0 as int, c.y.0 as int);
                assert(self.current_floor.rooms@[i].assigned_area == fresh.rooms@[
                    i
                ].assigned_area);
            }
            let nx = self.config.room_num_x as int;
            let ny = self.config.room_num_y as int;
            assert(nx * ny >= 1) by (nonlinear_arith)
                requires
                    1 <= nx,
                    1 <= ny,
            ;
            assert(self.current_floor.rooms@.len() > 0);
            assert(self.current_floor.rooms@[0].kind == fresh.rooms@[0].kind);
            assert(fresh.non_empty_rooms.spec_contains(0));
        }
        Ok(())
    }

    /// Select an unoccupied cell of the current floor for the category.
    pub fn select_cell(&mut self, is_character: bool) -> (r: Option<Coord>)
        requires
            old(self).wf(),
        ensures
            final(self).wf(),
            final(self).same_shape(*old(self)),
            final(self).current_floor == old(self).current_floor,
            final(self).level == old(self).level,
            match r {
                Some(cd) => final(self).current_floor.field.in_bounds_cd(cd) && exists|i: int|
                    0 <= i < final(self).current_floor.rooms@.len() && final(self).current_floor.non_empty_rooms.spec_contains(i as usize) && (#[trigger] final(self).current_floor.rooms@[i]).spec_contains(cd.x.0 as int, cd.y.0 as int) && !final(self).current_floor.rooms@[i].spec_filled(cd.x.0 as int, cd.y.0 as int, is_character),
                None => forall|id: usize|
                    #[trigger] final(self).current_floor.non_empty_rooms.spec_contains(id)
                        ==> forall|x: int, y: int|
                        final(self).current_floor.rooms@[id as int].spec_contains(x, y) ==> final(self).current_floor.rooms@[id as int].spec_filled(x, y, is_character),
            },
    {
        let r = self.current_floor.select_cell(&mut self.rng, is_character);
        proof {
            if r is Some {
                let cd = r->0;
                let i = choose|i: int|
                    0 <= i < self.current_floor.rooms@.len()
                        && self.current_floor.non_empty_rooms.spec_contains(i as usize) && (
                    #[trigger] self.current_floor.rooms@[i]).spec_contains(
                        cd.x.0 as int,
                        cd.y.0 as int,
                    ) && !self.current_floor.rooms@[i].spec_filled(
                        cd.x.0 as int,
                        cd.y.0 as int,
                        is_character,
                    );
                crate::rooms::lemma_floor_in_assigned(self.current_floor.rooms@[i]);
            }
        }
        r
    }

    /// Run the room entry transition for an initial placement at `cd`.
    pub fn enter_room(&mut self, cd: Coord) -> (r: GameResult<()>)
        requires
            old(self).wf(),
        ensures
            final(self).wf(),
            final(self).same_shape(*old(self)),
            final(self).level == old(self).level,
            final(self).current_floor.keeps_terrain(old(self).current_floor),
            final(self).current_floor.doors == old(self).current_floor.doors,
            final(self).current_floor.non_empty_rooms == old(self).current_floor.non_empty_rooms,
            r.is_ok() == (old(self).current_floor.field.in_bounds_cd(cd) && old(self).current_floor.has_room_at(cd)),
            r.is_ok() ==> final(self).current_floor.field.at_cd(cd).attr.is_visited,
            !r.is_ok() ==> r->Err_0.id is MaybeBug,
    {
        match self.current_floor.player_in(cd, true) {
            Ok(u) => Ok(()),
            Err(e) => Err(e.chain("Dungeon::enter_room")),
        }
    }

    /// The player's step from `cd` in `direction` passes the movement
    /// legality rules.
    pub open spec fn spec_move_legal(self, cd: Coord, direction: Direction) -> bool {
        &&& self.current_floor.field.in_bounds_cd(cd)
        &&& self.current_floor.field.spec_in_bounds(
            cd.x.0 + dir_dx(direction),
            cd.y.0 + dir_dy(direction),
        )
        &&& spec_can_move(
            self.current_floor.field.at_cd(cd),
            self.current_floor.field.at(cd.x.0 + dir_dx(direction), cd.y.0 + dir_dy(direction)),
            direction,
            false,
        )
    }

    /// The step is legal and each doorway it crosses has an owning room,
    /// so committing it cannot fail.
    pub open spec fn spec_step_allowed(self, cd: Coord, direction: Direction) -> bool {
        let floor = self.current_floor;
        let new_cd = Coord {
            x: X((cd.x.0 + dir_dx(direction)) as i32),
            y: Y((cd.y.0 + dir_dy(direction)) as i32),
        };
        &&& self.spec_move_legal(cd, direction)
        &&& (floor.spec_is_door(cd) ==> floor.has_room_at(cd))
        &&& (floor.spec_is_door(new_cd) ==> floor.has_room_at(new_cd))
    }

    /// Whether the player may step from `cd` in `direction`.
    pub fn can_move_player(&self, cd: Coord, direction: Direction) -> (r: bool)
        requires
            self.wf(),
        ensures
            r == self.spec_move_legal(cd, direction),
    {
        self.current_floor.can_move_player(cd, direction)
    }

    /// Commit the player's step from `cd` in `direction`: the exit
    /// transition runs on the old cell, the entry transition on the new
    /// one, and character occupancy follows the player.
    pub fn move_player(&mut self, cd: Coord, direction: Direction) -> (r: GameResult<Coord>)
        requires
            old(self).wf(),
        ensures
            final(self).wf(),
            final(self).same_shape(*old(self)),
            final(self).level == old(self).level,
            r matches Ok(new_cd) ==> {
                &&& new_cd.x.0 == cd.x.0 + dir_dx(direction)
                &&& new_cd.y.0 == cd.y.0 + dir_dy(direction)
                &&& final(self).current_floor.field.in_bounds_cd(new_cd)
                &&& final(self).current_floor.keeps_terrain(old(self).current_floor)
                &&& final(self).current_floor.doors == old(self).current_floor.doors
                &&& final(self).current_floor.rooms@.len() == old(self).current_floor.rooms@.len()
                &&& (forall|i: int|
                    0 <= i < old(self).current_floor.rooms@.len() ==> (#[trigger] final(self).current_floor.rooms@[i]).assigned_area == old(self).current_floor.rooms@[
                        i
                    ].assigned_area)
                &&& final(self).current_floor.field.at_cd(new_cd).attr.is_visited
                &&& forall|i: int|
                    0 <= i < final(self).current_floor.rooms@.len() && (#[trigger] final(self).current_floor.rooms@[i]).spec_contains(new_cd.x.0 as int, new_cd.y.0 as int)
                        ==> final(self).current_floor.rooms@[i].spec_filled(
                        new_cd.x.0 as int,
                        new_cd.y.0 as int,
                        true,
                    )
                &&& (new_cd != cd ==> forall|i: int|
                    0 <= i < final(self).current_floor.rooms@.len() && (#[trigger] final(self).current_floor.rooms@[i]).spec_contains(cd.x.0 as int, cd.y.0 as int) ==> !final(self).current_floor.rooms@[i].spec_filled(cd.x.0 as int, cd.y.0 as int, true))
            },
            r.is_ok() == old(self).spec_step_allowed(cd, direction),
    {
        if !self.current_floor.can_move_player(cd, direction) {
            return Err(GameError::new(ErrorId::MaybeBug, "Dungeon::move_player: illegal move"));
        }
        let new_cd = cd.moved(direction);
        match self.current_floor.player_out(cd) {
            Ok(u) => {},
            Err(e) => {
                return Err(e.chain("Dungeon::move_player"));
            },
        }
        let ghost mid0 = *self;
        match self.current_floor.player_in(new_cd, false) {
            Ok(u) => {},
            Err(e) => {
                return Err(e.chain("Dungeon::move_player"));
            },
        }
        let ghost mid = *self;
        let removed = self.current_floor.remove_obj(cd, true);
        let ghost mid2 = *self;
        let placed = self.current_floor.set_obj(new_cd, true);
        proof {
            let fl = self.current_floor;
            assert forall|i: int|
                0 <= i < fl.rooms@.len() implies (#[trigger] fl.rooms@[i]).assigned_area == old(self).current_floor.rooms@[i].assigned_area by {
                if !mid2.current_floor.rooms@[i].spec_contains(new_cd.x.0 as int, new_cd.y.0 as int) {
                    assert(fl.rooms@[i] == mid2.current_floor.rooms@[i]);
                }
                if !mid.current_floor.rooms@[i].spec_contains(cd.x.0 as int, cd.y.0 as int) {
                    assert(mid2.current_floor.rooms@[i] == mid.current_floor.rooms@[i]);
                }
                assert(mid0.current_floor.rooms == old(self).current_floor.rooms);
                assert(mid.current_floor.rooms@.len() == mid0.current_floor.rooms@.len());
                assert((mid.current_floor.rooms@[i]).assigned_area == mid0.current_floor.rooms@[
                    i
                ].assigned_area);
            }
            assert forall|i: int|
                0 <= i < fl.rooms@.len() && (#[trigger] fl.rooms@[i]).spec_contains(
                    new_cd.x.0 as int,
                    new_cd.y.0 as int,
                ) implies fl.rooms@[i].spec_filled(new_cd.x.0 as int, new_cd.y.0 as int, true) by {
                if !mid2.current_floor.rooms@[i].spec_contains(new_cd.x.0 as int, new_cd.y.0 as int) {
                    assert(fl.rooms@[i] == mid2.current_floor.rooms@[i]);
                }
            }
            if new_cd != cd {
                assert forall|i: int|
                    0 <= i < fl.rooms@.len() && (#[trigger] fl.rooms@[i]).spec_contains(
                        cd.x.0 as int,
                        cd.y.0 as int,
                    ) implies !fl.rooms@[i].spec_filled(cd.x.0 as int, cd.y.0 as int, true) by {
                    if !mid2.current_floor.rooms@[i].spec_contains(cd.x.0 as int, cd.y.0 as int) {
                        assert(fl.rooms@[i] == mid2.current_floor.rooms@[i]);
                        assert(false);
                    }
                    if !mid.current_floor.rooms@[i].spec_contains(cd.x.0 as int, cd.y.0 as int) {
                        assert(mid2.current_floor.rooms@[i] == mid.current_floor.rooms@[i]);
                        assert(false);
                    }
                    assert(!mid2.current_floor.rooms@[i].spec_filled(
                        cd.x.0 as int,
                        cd.y.0 as int,
                        true,
                    ));
                    if mid2.current_floor.rooms@[i].spec_contains(new_cd.x.0 as int, new_cd.y.0 as int) {
                        assert(fl.rooms@[i].spec_filled(cd.x.0 as int, cd.y.0 as int, true)
                            == mid2.current_floor.rooms@[i].spec_filled(
                            cd.x.0 as int,
                            cd.y.0 as int,
                            true,
                        ));
                    } else {
                        assert(fl.rooms@[i] == mid2.current_floor.rooms@[i]);
                    }
                }
            }
        }
        Ok(new_cd)
    }

    /// Whether the player stands on the stairs down.
    pub fn is_downstair(&self, cd: Coord) -> (r: bool)
        requires
            self.wf(),
        ensures
            r == (self.current_floor.field.in_bounds_cd(cd)
                && self.current_floor.field.at_cd(cd).surface is Stair),
    {
        self.current_floor.is_downstair(cd)
    }

    /// The glyph shown at `cd`.
    pub fn tile(&self, cd: Coord) -> (r: char)
        requires
            self.wf(),
        ensures
            self.current_floor.field.in_bounds_cd(cd) ==> r == self.current_floor.field.at_cd(
                cd,
            ).spec_to_char(),
            !self.current_floor.field.in_bounds_cd(cd) ==> r == ' ',
    {
        self.current_floor.tile(cd)
    }

    /// Search around `cd` for hidden features.
    pub fn search(&mut self, cd: Coord) -> (r: GameResult<Vec<GameMsg>>)
        requires
            old(self).wf(),
        ensures
            final(self).wf(),
            final(self).same_shape(*old(self)),
            final(self).level == old(self).level,
            r.is_ok(),
            forall|k: int|
                0 <= k < r->Ok_0@.len() ==> r->Ok_0@[k] == GameMsg::SecretDoor,
            final(self).current_floor.doors == old(self).current_floor.doors,
            forall|x: int, y: int|
                old(self).current_floor.field.spec_in_bounds(x, y) ==> (#[trigger] final(self).current_floor.field.at(x, y) == old(self).current_floor.field.at(x, y) || final(self).current_floor.field.at(x, y) == crate::floor::unhidden_cell(
                    old(self).current_floor.field.at(x, y),
                )),
            (r->Ok_0@.len() >= 1) == (exists|x: int, y: int|
                old(self).current_floor.field.spec_in_bounds(x, y) && (#[trigger] old(self).current_floor.field.at(x, y)).attr.is_hidden && old(self).current_floor.field.at(
                    x,
                    y,
                ).surface is Door && !final(self).current_floor.field.at(x, y).attr.is_hidden),
    {
        self.current_floor.search(cd, &mut self.rng)
    }
}

} // verus!
