//! The turn action processor: the single entry point that takes a player
//! intent, validates it against the grid, mutates player, enemy and item
//! state, and emits the observable reactions.

use vstd::prelude::*;
use crate::character::Action;
use crate::character::EnemyHandler;
use crate::character::Player;
use crate::coord::Coord;
use crate::coord::Direction;
use crate::coord::dir_dx;
use crate::coord::dir_dy;
use crate::dungeon::Dungeon;
use crate::error::ErrorId;
use crate::error::GameError;
use crate::error::GameResult;
use crate::item::ItemHandler;
use crate::item::ItemKind;
use crate::msg::GameMsg;
use crate::msg::Reaction;
use crate::rooms::has_free_cell;
use crate::GameInfo;

verus! {

/// What one step of the single-step mover may report: a blocked step, a
/// plain redraw, or a redraw with an item pickup.
pub open spec fn step_reactions_shape(v: Seq<Reaction>, d: Direction) -> bool {
    ||| v == seq![Reaction::Notify(GameMsg::CantMove(d))]
    ||| v == seq![Reaction::Redraw]
    ||| exists|kind: ItemKind, num: u32|
        v == seq![
            Reaction::Redraw,
            Reaction::Notify(GameMsg::GotItem { kind, num }),
            Reaction::StatusUpdated,
        ]
}

/// Cells left before a run in direction `d` walks off the grid; a run can
/// take at most this many further steps.
pub open spec fn run_measure(pos: Coord, d: Direction, w: int, h: int) -> int {
    let mx = if dir_dx(d) > 0 {
        w - pos.x.0
    } else if dir_dx(d) < 0 {
        pos.x.0 + 1
    } else {
        0
    };
    let my = if dir_dy(d) > 0 {
        h - pos.y.0
    } else if dir_dy(d) < 0 {
        pos.y.0 + 1
    } else {
        0
    };
    (if mx > 0 {
        mx
    } else {
        0
    }) + (if my > 0 {
        my
    } else {
        0
    })
}

/// Resolve one player action.
///
/// Stepping onto the stairs cell and descending replaces the floor; a
/// descent attempt anywhere else only notifies and changes nothing.
/// Ascending is a deliberate, distinguishable unimplemented error. A run
/// (`MoveUntil`) reports the first step and the terminating step only.
pub fn process_action(
    action: Action,
    info: &mut GameInfo,
    dungeon: &mut Dungeon,
    item: &mut ItemHandler,
    player: &mut Player,
    enemies: &mut EnemyHandler,
) -> (r: GameResult<Vec<Reaction>>)
    requires
        old(dungeon).wf(),
        action matches Action::MoveUntil(d) ==> !(d is Stay),
    ensures
        final(dungeon).wf(),
        final(dungeon).same_shape(*old(dungeon)),
        *final(enemies) == *old(enemies),
        *final(info) == *old(info),
        action is DownStair ==> r.is_ok(),
        action is DownStair && !(old(dungeon).current_floor.field.in_bounds_cd(old(player).pos)
            && old(dungeon).current_floor.field.at_cd(old(player).pos).surface is Stair) ==> {
            &&& r matches Ok(v) && v@ == seq![Reaction::Notify(GameMsg::NoDownStair)]
            &&& *final(dungeon) == *old(dungeon)
            &&& *final(player) == *old(player)
            &&& *final(item) == *old(item)
        },
        action is DownStair && r.is_ok() && (old(dungeon).current_floor.field.in_bounds_cd(
            old(player).pos,
        ) && old(dungeon).current_floor.field.at_cd(old(player).pos).surface is Stair) ==> {
            &&& r->Ok_0@ == seq![Reaction::Redraw, Reaction::StatusUpdated]
            &&& final(dungeon).level as int == (if old(dungeon).level < 10000 {
                old(dungeon).level + 1
            } else {
                old(dungeon).level as int
            })
            &&& final(dungeon).current_floor.field.in_bounds_cd(final(player).pos)
        },
        action is UpStair ==> {
            &&& r matches Err(e) && e.id is Unimplemented
            &&& *final(dungeon) == *old(dungeon)
            &&& *final(player) == *old(player)
            &&& *final(item) == *old(item)
        },
        action matches Action::Move(d) ==> {
            &&& (r.is_ok() ==> step_reactions_shape(r->Ok_0@, d))
            &&& r.is_ok() == (!old(dungeon).spec_move_legal(old(player).pos, d) || old(dungeon).spec_step_allowed(old(player).pos, d))
            &&& (r.is_ok() && old(dungeon).spec_move_legal(old(player).pos, d) ==> final(player).pos.x.0 == old(player).pos.x.0 + dir_dx(d) && final(player).pos.y.0 == old(player).pos.y.0 + dir_dy(d))
            &&& (r.is_ok() && !old(dungeon).spec_move_legal(old(player).pos, d) ==> {
                &&& *final(player) == *old(player)
                &&& *final(dungeon) == *old(dungeon)
                &&& *final(item) == *old(item)
                &&& r->Ok_0@ == seq![Reaction::Notify(GameMsg::CantMove(d))]
            })
        },
        action matches Action::MoveUntil(d) ==> (old(dungeon).current_floor.doors_have_rooms() ==> r.is_ok()),
        action matches Action::MoveUntil(d) ==> (!old(dungeon).spec_move_legal(
            old(player).pos,
            d,
        ) ==> {
            &&& r matches Ok(v) && v@ == seq![Reaction::Notify(GameMsg::CantMove(d))]
            &&& *final(dungeon) == *old(dungeon)
            &&& *final(player) == *old(player)
            &&& *final(item) == *old(item)
        }),
        action matches Action::MoveUntil(d) ==> (r.is_ok() ==> {
            &&& (step_reactions_shape(r->Ok_0@, d) || (exists|v2: Seq<Reaction>|
                r->Ok_0@ == seq![Reaction::Redraw] + v2 && step_reactions_shape(v2, d)))
            &&& exists|k: int|
                k >= 0 && final(player).pos.x.0 == old(player).pos.x.0 + k * dir_dx(d) && #[trigger] (
                k * dir_dy(d)) == final(player).pos.y.0 - old(player).pos.y.0
        }),
        action is Search ==> r.is_ok(),
        action is Search && r.is_ok() ==> {
            &&& r->Ok_0@.len() >= 1
            &&& r->Ok_0@.last() == Reaction::Redraw
            &&& forall|k: int|
                0 <= k < r->Ok_0@.len() - 1 ==> r->Ok_0@[k] == Reaction::Notify(
                    GameMsg::SecretDoor,
                )
        },
{
    match action {
        Action::DownStair => {
            if dungeon.is_downstair(player.pos) {
                match new_level(info, dungeon, item, player, enemies, false) {
                    Ok(u) => {},
                    Err(e) => {
                        return Err(e.chain("actions::process_action"));
                    },
                }
                let mut v: Vec<Reaction> = Vec::new();
                v.push(Reaction::Redraw);
                v.push(Reaction::StatusUpdated);
                proof {
                    assert(v@ =~= seq![Reaction::Redraw, Reaction::StatusUpdated]);
                }
                Ok(v)
            } else {
                let mut v: Vec<Reaction> = Vec::new();
                v.push(Reaction::Notify(GameMsg::NoDownStair));
                proof {
                    assert(v@ =~= seq![Reaction::Notify(GameMsg::NoDownStair)]);
                }
                Ok(v)
            }
        },
        Action::UpStair => {
            Err(GameError::new(ErrorId::Unimplemented, "UpStair command is unimplemented"))
        },
        Action::Move(d) => {
            match move_player(d, dungeon, item, player, enemies) {
                Ok(res) => Ok(res.0),
                Err(e) => Err(e),
            }
        },
        Action::MoveUntil(d) => {
            let ghost w = dungeon.current_floor.field.spec_width();
            let ghost h = dungeon.current_floor.field.spec_height();
            let mut out: Vec<Reaction> = Vec::new();
            let mut first: bool = true;
            let ghost mut steps: int = 0;
            loop
                invariant_except_break
                    action == Action::MoveUntil(d),
                    dungeon.wf(),
                    dungeon.same_shape(*old(dungeon)),
                    dungeon.current_floor.field.spec_width() == w,
                    dungeon.current_floor.field.spec_height() == h,
                    !(d is Stay),
                    first ==> out@.len() == 0,
                    !first ==> out@ == seq![Reaction::Redraw],
                    *enemies == *old(enemies),
                    !old(dungeon).spec_move_legal(old(player).pos, d) ==> first && *dungeon
                        == *old(dungeon) && *player == *old(player) && *item == *old(item),
                    old(dungeon).current_floor.doors_have_rooms()
                        ==> dungeon.current_floor.doors_have_rooms(),
                    steps >= 0,
                    player.pos.x.0 == old(player).pos.x.0 + steps * dir_dx(d),
                    player.pos.y.0 == old(player).pos.y.0 + steps * dir_dy(d),
                ensures
                    dungeon.wf(),
                    dungeon.same_shape(*old(dungeon)),
                    *enemies == *old(enemies),
                    !old(dungeon).spec_move_legal(old(player).pos, d) ==> out@ == seq![
                        Reaction::Notify(GameMsg::CantMove(d)),
                    ] && *dungeon == *old(dungeon) && *player == *old(player) && *item == *old(item),
                    step_reactions_shape(out@, d) || (exists|v2: Seq<Reaction>|
                        out@ == seq![Reaction::Redraw] + v2 && step_reactions_shape(v2, d)),
                    exists|k: int|
                        k >= 0 && player.pos.x.0 == old(player).pos.x.0 + k * dir_dx(d)
                            && #[trigger] (k * dir_dy(d)) == player.pos.y.0 - old(player).pos.y.0,
                decreases run_measure(player.pos, d, w, h),
            {
                let ghost pos0 = player.pos;
                let ghost at_call = *dungeon;
                let res = match move_player(d, dungeon, item, player, enemies) {
                    Ok(res) => res,
                    Err(e) => {
                        proof {
                            assert(!at_call.current_floor.doors_have_rooms());
                        }
                        return Err(e);
                    },
                };
                proof {
                    if old(dungeon).current_floor.doors_have_rooms() {
                        assert forall|c: Coord| #[trigger] dungeon.current_floor.spec_is_door(
                            c,
                        ) implies dungeon.current_floor.has_room_at(c) by {
                            assert(at_call.current_floor.spec_is_door(c));
                            assert(at_call.current_floor.has_room_at(c));
                            let i = choose|i: int|
                                0 <= i < at_call.current_floor.rooms@.len() && (
                                #[trigger] at_call.current_floor.rooms@[
                                    i
                                ]).assigned_area.spec_contains(c.x.0 as int, c.y.0 as int);
                            assert(dungeon.current_floor.rooms@[i].assigned_area
                                == at_call.current_floor.rooms@[i].assigned_area);
                        }
                    }
                }
                let (mut v, done) = res;
                let ghost vsnap = v@;
                proof {
                    if player.pos != pos0 {
                        assert((steps + 1) * dir_dx(d) == steps * dir_dx(d) + dir_dx(d))
                            by (nonlinear_arith);
                        assert((steps + 1) * dir_dy(d) == steps * dir_dy(d) + dir_dy(d))
                            by (nonlinear_arith);
                        steps = steps + 1;
                    }
                }
                let tile = dungeon.tile(player.pos);
                if done || (tile != '.' && tile != '#') {
                    out.append(&mut v);
                    proof {
                        assert(exists|k: int|
                            k >= 0 && player.pos.x.0 == old(player).pos.x.0 + k * dir_dx(d)
                                && #[trigger] (k * dir_dy(d)) == player.pos.y.0 - old(player).pos.y.0) by {
                            assert(steps >= 0 && player.pos.x.0 == old(player).pos.x.0 + steps
                                * dir_dx(d) && (steps * dir_dy(d)) == player.pos.y.0 - old(
                            player).pos.y.0);
                        }
                        assert(step_reactions_shape(vsnap, d));
                        if first {
                            assert(out@ =~= vsnap);
                        } else {
                            assert(out@ =~= seq![Reaction::Redraw] + vsnap);
                            assert(exists|v2: Seq<Reaction>|
                                out@ == seq![Reaction::Redraw] + v2 && step_reactions_shape(
                                    v2,
                                    d,
                                ));
                        }
                    }
                    break ;
                } else if first {
                    out.append(&mut v);
                    proof {
                        assert(vsnap =~= seq![Reaction::Redraw]);
                        assert(out@ =~= seq![Reaction::Redraw]);
                    }
                }
                first = false;
                proof {
                    assert(player.pos.x.0 == pos0.x.0 + dir_dx(d));
                    assert(player.pos.y.0 == pos0.y.0 + dir_dy(d));
                    assert(run_measure(player.pos, d, w, h) < run_measure(pos0, d, w, h));
                }
            }
            Ok(out)
        },
        Action::Search => search(dungeon, player),
    }
}

/// Move all active enemies; the scheduling itself is outside this core.
pub fn move_active_enemies(enemies: &mut EnemyHandler, dungeon: &mut Dungeon, player: &mut Player)
    -> (r: GameResult<Vec<Reaction>>)
    ensures
        r matches Ok(v) && v@.len() == 0,
        *final(dungeon) == *old(dungeon),
        *final(player) == *old(player),
{
    enemies.move_actives(player.pos);
    Ok(Vec::new())
}

/// Enter a new level: regenerate the floor (except on initial entry),
/// place the player on a free cell, and run the room entry transition.
pub fn new_level(
    info: &GameInfo,
    dungeon: &mut Dungeon,
    item: &mut ItemHandler,
    player: &mut Player,
    enemies: &mut EnemyHandler,
    is_init: bool,
) -> (r: GameResult<()>)
    requires
        old(dungeon).wf(),
    ensures
        final(dungeon).wf(),
        final(dungeon).same_shape(*old(dungeon)),
        *final(enemies) == *old(enemies),
        r.is_ok() ==> final(dungeon).current_floor.field.in_bounds_cd(final(player).pos) && final(dungeon).current_floor.field.at_cd(final(player).pos).attr.is_visited,
        !is_init ==> r.is_ok() && final(dungeon).level as int == (if old(dungeon).level < 10000 {
            old(dungeon).level + 1
        } else {
            old(dungeon).level as int
        }),
        is_init ==> r.is_ok() == (exists|i: int|
            0 <= i < old(dungeon).current_floor.rooms@.len() && old(dungeon).current_floor.non_empty_rooms.spec_contains(i as usize) && has_free_cell(
                #[trigger] old(dungeon).current_floor.rooms@[i],
                true,
            )),
        !r.is_ok() ==> r->Err_0.id is MaybeBug,
{
    if !is_init {
        match dungeon.new_level(info, item) {
            Ok(u) => {},
            Err(e) => {
                // unreachable: descending to a fresh level cannot fail
                proof {
                    assert(false);
                }
                return Err(e.chain("actions::new_level"));
            },
        }
    }
    player.pos = match dungeon.select_cell(true) {
        Some(cd) => cd,
        None => {
            proof {
                if !is_init {
                    let fl = dungeon.current_floor;
                    assert(fl.non_empty_rooms.spec_contains(0));
                    let fa = fl.rooms@[0].floor_area;
                    assert(fl.rooms@[0].wf());
                    assert(fl.rooms@[0].spec_contains(fa.x0 as int, fa.y0 as int));
                    assert(fl.rooms@[0].spec_filled(fa.x0 as int, fa.y0 as int, true));
                    assert(false);
                }
            }
            return Err(GameError::new(ErrorId::MaybeBug, "actions::new_level: no space for player"));
        },
    };
    match dungeon.enter_room(player.pos) {
        Ok(u) => Ok(()),
        Err(e) => {
            // unreachable: the selected cell always lies in a room
            proof {
                let fl0 = dungeon.current_floor;
                let i = choose|i: int|
                    0 <= i < fl0.rooms@.len() && fl0.non_empty_rooms.spec_contains(i as usize) && (
                    #[trigger] fl0.rooms@[i]).spec_contains(
                        player.pos.x.0 as int,
                        player.pos.y.0 as int,
                    ) && !fl0.rooms@[i].spec_filled(player.pos.x.0 as int, player.pos.y.0 as int, true);
                crate::rooms::lemma_floor_in_assigned(fl0.rooms@[i]);
                assert(fl0.has_room_at(player.pos));
                assert(false);
            }
            Err(e)
        },
    }
}

/// The single-step mover: reject an illegal step with a notification and
/// the stop flag; otherwise commit the move, and pick up any item lying on
/// the destination, which also stops a run.
fn move_player(
    direction: Direction,
    dungeon: &mut Dungeon,
    item: &mut ItemHandler,
    player: &mut Player,
    enemies: &mut EnemyHandler,
) -> (r: GameResult<(Vec<Reaction>, bool)>)
    requires
        old(dungeon).wf(),
    ensures
        final(dungeon).wf(),
        final(dungeon).same_shape(*old(dungeon)),
        *final(enemies) == *old(enemies),
        r.is_ok() == (!old(dungeon).spec_move_legal(old(player).pos, direction) || old(dungeon).spec_step_allowed(old(player).pos, direction)),
        r matches Ok(res) ==> {
            ||| {
                &&& !old(dungeon).spec_move_legal(old(player).pos, direction)
                &&& res.0@ == seq![Reaction::Notify(GameMsg::CantMove(direction))]
                &&& res.1
                &&& *final(dungeon) == *old(dungeon)
                &&& *final(player) == *old(player)
                &&& *final(item) == *old(item)
            }
            ||| {
                &&& old(dungeon).spec_move_legal(old(player).pos, direction)
                &&& final(player).pos.x.0 == old(player).pos.x.0 + dir_dx(direction)
                &&& final(player).pos.y.0 == old(player).pos.y.0 + dir_dy(direction)
                &&& final(dungeon).current_floor.field.in_bounds_cd(final(player).pos)
                &&& final(dungeon).current_floor.keeps_terrain(old(dungeon).current_floor)
                &&& final(dungeon).current_floor.doors == old(dungeon).current_floor.doors
                &&& final(dungeon).current_floor.rooms@.len() == old(dungeon).current_floor.rooms@.len()
                &&& (forall|i: int|
                    0 <= i < old(dungeon).current_floor.rooms@.len() ==> (#[trigger] final(dungeon).current_floor.rooms@[i]).assigned_area == old(dungeon).current_floor.rooms@[
                        i
                    ].assigned_area)
                &&& final(player).running
                &&& res.1 == old(item).spec_has_item_at(final(player).pos)
                &&& (res.1 ==> exists|kind: ItemKind, num: u32|
                    res.0@ == seq![
                        Reaction::Redraw,
                        Reaction::Notify(GameMsg::GotItem { kind, num }),
                        Reaction::StatusUpdated,
                    ])
                &&& (!res.1 ==> res.0@ == seq![Reaction::Redraw] && *final(item) == *old(item)
                    && final(player).itembox == old(player).itembox)
            }
        },
{
    if !dungeon.can_move_player(player.pos, direction) {
        let mut v: Vec<Reaction> = Vec::new();
        v.push(Reaction::Notify(GameMsg::CantMove(direction)));
        proof {
            assert(v@ =~= seq![Reaction::Notify(GameMsg::CantMove(direction))]);
        }
        return Ok((v, true));
    }
    let new_pos = match dungeon.move_player(player.pos, direction) {
        Ok(cd) => cd,
        Err(e) => {
            return Err(e.chain("actions::move_player"));
        },
    };
    player.pos = new_pos;
    player.run(true);
    let mut done = false;
    let mut res: Vec<Reaction> = Vec::new();
    res.push(Reaction::Redraw);
    let got = match get_item(dungeon, item, player) {
        Ok(g) => g,
        Err(e) => {
            return Err(e.chain("in actions::move_player"));
        },
    };
    match got {
        Some(msg) => {
            proof {
                assert(res@ =~= seq![Reaction::Redraw]);
            }
            res.push(Reaction::Notify(msg));
            res.push(Reaction::StatusUpdated);
            done = true;
            proof {
                let (kind, num) = choose|kind: ItemKind, num: u32|
                    msg == (GameMsg::GotItem { kind, num: num });
                assert(res@ =~= seq![
                    Reaction::Redraw,
                    Reaction::Notify(GameMsg::GotItem { kind, num: num }),
                    Reaction::StatusUpdated,
                ]);
            }
        },
        None => {
            proof {
                assert(res@ =~= seq![Reaction::Redraw]);
            }
        },
    }
    Ok((res, done))
}

/// Search around the player and surface each discovery, followed by an
/// unconditional redraw.
fn search(dungeon: &mut Dungeon, player: &mut Player) -> (r: GameResult<Vec<Reaction>>)
    requires
        old(dungeon).wf(),
    ensures
        final(dungeon).wf(),
        final(dungeon).same_shape(*old(dungeon)),
        r.is_ok(),
        r matches Ok(v) ==> (v@.len() >= 2) == (exists|x: int, y: int|
            old(dungeon).current_floor.field.spec_in_bounds(x, y) && (#[trigger] old(dungeon).current_floor.field.at(x, y)).attr.is_hidden && old(dungeon).current_floor.field.at(
                x,
                y,
            ).surface is Door && !final(dungeon).current_floor.field.at(x, y).attr.is_hidden),
        r matches Ok(v) ==> {
            &&& v@.len() >= 1
            &&& v@.last() == Reaction::Redraw
            &&& forall|k: int|
                0 <= k < v@.len() - 1 ==> v@[k] == Reaction::Notify(GameMsg::SecretDoor)
        },
{
    let msgs = match dungeon.search(player.pos) {
        Ok(m) => m,
        Err(e) => {
            return Err(e);
        },
    };
    let mut v: Vec<Reaction> = Vec::new();
    let mut k: usize = 0;
    while k < msgs.len()
        invariant
            k <= msgs@.len(),
            v@.len() == k,
            forall|q: int| 0 <= q < msgs@.len() ==> msgs@[q] == GameMsg::SecretDoor,
            forall|q: int| 0 <= q < k ==> v@[q] == Reaction::Notify(GameMsg::SecretDoor),
        decreases msgs@.len() - k,
    {
        v.push(Reaction::Notify(GameMsg::SecretDoor));
        k = k + 1;
    }
    v.push(Reaction::Redraw);
    Ok(v)
}

/// Pick up the item lying at the player's cell, if any: merge it into the
/// inventory, report the resulting stack, and clear the floor cell.
fn get_item(dungeon: &mut Dungeon, item_handle: &mut ItemHandler, player: &mut Player) -> (r:
    GameResult<Option<GameMsg>>)
    requires
        old(dungeon).wf(),
    ensures
        final(dungeon).wf(),
        final(dungeon).same_shape(*old(dungeon)),
        *final(dungeon) == *old(dungeon),
        final(player).pos == old(player).pos,
        final(player).running == old(player).running,
        r.is_ok(),
        (r matches Ok(Some(msg))) == old(item_handle).spec_has_item_at(old(player).pos),
        r matches Ok(Some(msg)) ==> final(item_handle).placed@.len() == old(
            item_handle,
        ).placed@.len() - 1,
        r matches Ok(Some(msg)) ==> final(player).itembox.items@.len() == old(player).itembox.items@.len() || final(player).itembox.items@.len() == old(player).itembox.items@.len() + 1,
        r matches Ok(Some(msg)) ==> exists|kind: ItemKind, num: u32|
            msg == (GameMsg::GotItem { kind, num: num }),
        r matches Ok(None) ==> {
            &&& *final(dungeon) == *old(dungeon)
            &&& *final(player) == *old(player)
            &&& *final(item_handle) == *old(item_handle)
        },
{
    let found = match item_handle.get_at(player.pos) {
        Some(it) => it,
        None => {
            return Ok(None);
        },
    };
    let got = player.itembox.insert_or_merge(found);
    let removed = item_handle.remove_at(player.pos);
    let (kind, num) = got;
    let msg = GameMsg::GotItem { kind, num };
    proof {
        let m = msg;
        assert(exists|kind2: ItemKind, num2: u32| m == (GameMsg::GotItem { kind: kind2, num: num2 }))
            by {
            assert(m == (GameMsg::GotItem { kind: m->GotItem_kind, num: m->GotItem_num }));
        }
    }
    Ok(Some(msg))
}

} // verus!
