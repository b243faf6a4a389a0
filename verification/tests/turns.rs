//! Turn resolution: movement legality, runs, stairs, visibility of dark
//! rooms, searching, combat numbers and the inventory.

use rogue_core::actions::process_action;
use rogue_core::candidates::Candidates;
use rogue_core::character::Action;
use rogue_core::character::Defense;
use rogue_core::character::EnemyHandler;
use rogue_core::character::Level;
use rogue_core::character::Player;
use rogue_core::character::Strength;
use rogue_core::config::Config;
use rogue_core::coord::Coord;
use rogue_core::coord::Direction;
use rogue_core::coord::X;
use rogue_core::coord::Y;
use rogue_core::dungeon::Dungeon;
use rogue_core::error::ErrorId;
use rogue_core::fight::damage_plus;
use rogue_core::fight::hit_prob_plus;
use rogue_core::fight::hit_sub;
use rogue_core::floor::Floor;
use rogue_core::grid::Cell;
use rogue_core::grid::CellAttr;
use rogue_core::grid::Field;
use rogue_core::grid::Surface;
use rogue_core::item::Item;
use rogue_core::item::ItemHandler;
use rogue_core::item::ItemKind;
use rogue_core::msg::GameMsg;
use rogue_core::msg::Reaction;
use rogue_core::rect::RectRange;
use rogue_core::rng::RngHandle;
use rogue_core::rooms::Room;
use rogue_core::rooms::RoomKind;
use rogue_core::GameInfo;

fn empty_floor(width: i32, height: i32) -> Floor {
    Floor {
        rooms: Vec::new(),
        doors: Vec::new(),
        field: Field::new(width, height, Cell::with_default_attr(Surface::Rock)),
        non_empty_rooms: Candidates { ids: Vec::new() },
    }
}

fn dungeon_around(floor: Floor, width: i32, height: i32) -> Dungeon {
    Dungeon {
        level: 1,
        config: Config::default(),
        width: X(width),
        height: Y(height),
        rng: RngHandle::from_seed(7),
        current_floor: floor,
    }
}

#[test]
fn diagonal_door_step_is_rejected() {
    let mut floor = empty_floor(6, 6);
    floor.field.set(Coord::new(1, 1), Cell::with_default_attr(Surface::Floor));
    floor.field.set(Coord::new(2, 1), Cell::with_default_attr(Surface::Door));
    floor.field.set(Coord::new(2, 2), Cell::with_default_attr(Surface::Door));
    floor.doors.push(Coord::new(2, 1));
    floor.doors.push(Coord::new(2, 2));
    // diagonal onto a door: rejected; orthogonal onto a door: accepted
    assert!(!floor.can_move_player(Coord::new(1, 1), Direction::RightDown));
    assert!(floor.can_move_player(Coord::new(1, 1), Direction::Right));
}

#[test]
fn hidden_and_locked_cells_block_movement() {
    let mut floor = empty_floor(6, 6);
    floor.field.set(Coord::new(1, 1), Cell::with_default_attr(Surface::Floor));
    let mut hidden_attr = CellAttr::new();
    hidden_attr.is_hidden = true;
    floor.field.set(Coord::new(1, 2), Cell { surface: Surface::Floor, attr: hidden_attr });
    let mut locked_attr = CellAttr::new();
    locked_attr.is_locked = true;
    floor.field.set(Coord::new(2, 1), Cell { surface: Surface::Door, attr: locked_attr });
    floor.doors.push(Coord::new(2, 1));
    assert!(!floor.can_move_player(Coord::new(1, 1), Direction::Down));
    assert!(!floor.can_move_player(Coord::new(1, 1), Direction::Right));
}

#[test]
fn enemies_may_cut_passage_corners() {
    let mut floor = empty_floor(6, 6);
    floor.field.set(Coord::new(1, 1), Cell::with_default_attr(Surface::Passage));
    floor.field.set(Coord::new(2, 2), Cell::with_default_attr(Surface::Passage));
    assert_eq!(floor.can_move_impl(Coord::new(1, 1), Direction::RightDown, false), Some(false));
    assert_eq!(floor.can_move_impl(Coord::new(1, 1), Direction::RightDown, true), Some(true));
}

#[test]
fn run_reports_one_step_and_moves_to_the_end() {
    let mut floor = empty_floor(10, 3);
    for x in 1..9 {
        floor.field.set(Coord::new(x, 1), Cell::with_default_attr(Surface::Passage));
    }
    let mut dungeon = dungeon_around(floor, 10, 3);
    let mut info = GameInfo::new();
    let mut item = ItemHandler::new(1);
    let mut player = Player::new();
    player.pos = Coord::new(1, 1);
    let mut enemies = EnemyHandler::new();
    let reactions = process_action(
        Action::MoveUntil(Direction::Right),
        &mut info,
        &mut dungeon,
        &mut item,
        &mut player,
        &mut enemies,
    )
    .unwrap();
    assert_eq!(
        reactions,
        vec![
            Reaction::Redraw,
            Reaction::Notify(GameMsg::CantMove(Direction::Right)),
        ]
    );
    // the run crossed the whole passage: 7 cells beyond the start
    assert_eq!(player.pos, Coord::new(8, 1));
}

#[test]
fn run_stops_on_item_with_single_report() {
    let mut floor = empty_floor(10, 3);
    for x in 1..9 {
        floor.field.set(Coord::new(x, 1), Cell::with_default_attr(Surface::Passage));
    }
    let mut dungeon = dungeon_around(floor, 10, 3);
    let mut info = GameInfo::new();
    let mut item = ItemHandler::new(1);
    item.place_at(Coord::new(5, 1), Item::gold(30));
    let mut player = Player::new();
    player.pos = Coord::new(1, 1);
    let mut enemies = EnemyHandler::new();
    let reactions = process_action(
        Action::MoveUntil(Direction::Right),
        &mut info,
        &mut dungeon,
        &mut item,
        &mut player,
        &mut enemies,
    )
    .unwrap();
    assert_eq!(
        reactions,
        vec![
            Reaction::Redraw,
            Reaction::Redraw,
            Reaction::Notify(GameMsg::GotItem { kind: ItemKind::Gold, num: 30 }),
            Reaction::StatusUpdated,
        ]
    );
    assert_eq!(player.pos, Coord::new(5, 1));
    assert_eq!(player.itembox.items.len(), 1);
}

#[test]
fn downstair_elsewhere_changes_nothing() {
    let config = Config::default();
    let mut dungeon = Dungeon::new(config, X(80), Y(24), 21).unwrap();
    let mut info = GameInfo::new();
    let mut item = ItemHandler::new(2);
    let mut player = Player::new();
    let mut enemies = EnemyHandler::new();
    // stand on some walkable non-stairs cell
    let mut pos = dungeon.select_cell(true).unwrap();
    while dungeon.is_downstair(pos) {
        pos = dungeon.select_cell(true).unwrap();
    }
    player.pos = pos;
    let cells_before: Vec<Cell> = snapshot(&dungeon);
    let doors_before = dungeon.current_floor.doors.clone();
    let level_before = dungeon.level;
    let box_before = player.itembox.items.len();
    let reactions = process_action(
        Action::DownStair,
        &mut info,
        &mut dungeon,
        &mut item,
        &mut player,
        &mut enemies,
    )
    .unwrap();
    assert_eq!(reactions, vec![Reaction::Notify(GameMsg::NoDownStair)]);
    assert_eq!(player.pos, pos);
    assert_eq!(player.itembox.items.len(), box_before);
    assert_eq!(dungeon.level, level_before);
    assert_eq!(snapshot(&dungeon), cells_before);
    assert_eq!(dungeon.current_floor.doors, doors_before);
}

fn snapshot(dungeon: &Dungeon) -> Vec<Cell> {
    let mut cells = Vec::new();
    for y in 0..dungeon.height.0 {
        for x in 0..dungeon.width.0 {
            cells.push(dungeon.current_floor.field.get(Coord::new(x, y)));
        }
    }
    cells
}

#[test]
fn downstair_on_stairs_descends() {
    let config = Config::default();
    let mut dungeon = Dungeon::new(config, X(80), Y(24), 4).unwrap();
    // find the stairs
    let mut stair = None;
    for y in 0..24 {
        for x in 0..80 {
            if dungeon.current_floor.field.get(Coord::new(x, y)).surface == Surface::Stair {
                stair = Some(Coord::new(x, y));
            }
        }
    }
    let stair = stair.expect("a generated floor holds stairs down");
    let mut info = GameInfo::new();
    let mut item = ItemHandler::new(2);
    let mut player = Player::new();
    player.pos = stair;
    let mut enemies = EnemyHandler::new();
    let reactions = process_action(
        Action::DownStair,
        &mut info,
        &mut dungeon,
        &mut item,
        &mut player,
        &mut enemies,
    )
    .unwrap();
    assert_eq!(reactions, vec![Reaction::Redraw, Reaction::StatusUpdated]);
    assert_eq!(dungeon.level, 2);
}

#[test]
fn upstair_is_a_distinguishable_error() {
    let config = Config::default();
    let mut dungeon = Dungeon::new(config, X(80), Y(24), 5).unwrap();
    let mut info = GameInfo::new();
    let mut item = ItemHandler::new(2);
    let mut player = Player::new();
    let mut enemies = EnemyHandler::new();
    let err = process_action(
        Action::UpStair,
        &mut info,
        &mut dungeon,
        &mut item,
        &mut player,
        &mut enemies,
    )
    .unwrap_err();
    assert_eq!(err.id, ErrorId::Unimplemented);
}

#[test]
fn placement_without_space_is_a_maybe_bug() {
    let floor = empty_floor(6, 6);
    let mut dungeon = dungeon_around(floor, 6, 6);
    let info = GameInfo::new();
    let mut item = ItemHandler::new(2);
    let mut player = Player::new();
    let mut enemies = EnemyHandler::new();
    let err = rogue_core::actions::new_level(
        &info,
        &mut dungeon,
        &mut item,
        &mut player,
        &mut enemies,
        true,
    )
    .unwrap_err();
    assert_eq!(err.id, ErrorId::MaybeBug);
}

#[test]
fn lit_room_is_fully_visible_on_first_entry() {
    let range = RectRange { x0: 0, y0: 0, x1: 6, y1: 6 };
    let room = Room::new(RoomKind::Normal { range }, false, 0);
    let mut field = Field::new(8, 8, Cell::with_default_attr(Surface::Rock));
    for p in room.draw() {
        field.set(p.0, Cell::with_default_attr(p.1));
    }
    let mut floor = Floor::new(vec![room], Vec::new(), field);
    floor.enters_room(Coord::new(3, 3)).unwrap();
    for y in 0..6 {
        for x in 0..6 {
            let cell = floor.field.get(Coord::new(x, y));
            assert!(cell.attr.is_visible);
            assert!(cell.attr.is_drawn);
        }
    }
    assert!(floor.rooms[0].is_visited);
}

#[test]
fn dark_room_interior_goes_dark_again_on_exit() {
    let range = RectRange { x0: 0, y0: 0, x1: 6, y1: 6 };
    let room = Room::new(RoomKind::Normal { range }, true, 0);
    let mut field = Field::new(8, 8, Cell::with_default_attr(Surface::Rock));
    for p in room.draw() {
        field.set(p.0, Cell::with_default_attr(p.1));
    }
    let mut floor = Floor::new(vec![room], Vec::new(), field);
    floor.enters_room(Coord::new(3, 3)).unwrap();
    // light the whole room by hand, as play would over time
    for y in 0..6 {
        for x in 0..6 {
            let mut cell = floor.field.get(Coord::new(x, y));
            cell.attr.is_visible = true;
            floor.field.set(Coord::new(x, y), cell);
        }
    }
    floor.leaves_room(Coord::new(3, 3)).unwrap();
    for y in 0..6 {
        for x in 0..6 {
            let cell = floor.field.get(Coord::new(x, y));
            let on_edge = x == 0 || x == 5 || y == 0 || y == 5;
            if on_edge {
                // the boundary ring keeps its visibility
                assert!(cell.attr.is_visible);
            } else {
                // the interior is hidden again
                assert!(!cell.attr.is_visible);
            }
        }
    }
}

#[test]
fn search_reveals_a_secret_door() {
    let mut floor = empty_floor(6, 6);
    floor.field.set(Coord::new(1, 1), Cell::with_default_attr(Surface::Floor));
    let mut attr = CellAttr::new();
    attr.is_hidden = true;
    floor.field.set(Coord::new(2, 1), Cell { surface: Surface::Door, attr });
    floor.doors.push(Coord::new(2, 1));
    let mut rng = RngHandle::from_seed(13);
    let mut found = false;
    for _ in 0..200 {
        let msgs = floor.search(Coord::new(1, 1), &mut rng).unwrap();
        if msgs.contains(&GameMsg::SecretDoor) {
            found = true;
            break;
        }
    }
    assert!(found);
    assert!(!floor.field.get(Coord::new(2, 1)).attr.is_hidden);
    // the revealed door is walkable again
    assert!(floor.can_move_player(Coord::new(1, 1), Direction::Right));
}

#[test]
fn hit_formula_values() {
    // level 5 against defense 5 with revision 1: clamped 11, scaled by 5
    assert_eq!(hit_sub(Level(5), Defense(5), 1).0, 55);
    // clamped above
    assert_eq!(hit_sub(Level(100), Defense(0), 0).0, 100);
    // clamped below
    assert_eq!(hit_sub(Level(-30), Defense(0), 0).0, 0);
    assert_eq!(hit_prob_plus(Strength(1)), -7);
    assert_eq!(hit_prob_plus(Strength(7)), -1);
    assert_eq!(hit_prob_plus(Strength(17)), 0);
    assert_eq!(hit_prob_plus(Strength(18)), 1);
    assert_eq!(hit_prob_plus(Strength(32)), 3);
    assert_eq!(hit_prob_plus(Strength(33)), 0);
    assert_eq!(damage_plus(Strength(17)), 1);
    assert_eq!(damage_plus(Strength(19)), 2);
    assert_eq!(damage_plus(Strength(22)), 4);
    assert_eq!(damage_plus(Strength(32)), 6);
    assert_eq!(damage_plus(Strength(0)), 0);
}

#[test]
fn attacks_resolve_without_damage_payload() {
    let player = Player::new();
    let mut enemy = rogue_core::character::Enemy::new(
        Level(3),
        Defense(4),
        rogue_core::character::HitPoint(8),
    );
    let mut rng = RngHandle::from_seed(1);
    assert_eq!(rogue_core::fight::player_attack(&player, &mut enemy, &mut rng), None);
    let mut player = player;
    assert_eq!(rogue_core::fight::enemy_attack(&enemy, &mut player, &mut rng), None);
}

#[test]
fn gold_stacks_merge_in_the_inventory() {
    let mut player = Player::new();
    let (kind, num) = player.itembox.insert_or_merge(Item::gold(10));
    assert_eq!(kind, ItemKind::Gold);
    assert_eq!(num, 10);
    let (kind, num) = player.itembox.insert_or_merge(Item::gold(5));
    assert_eq!(kind, ItemKind::Gold);
    assert_eq!(num, 15);
    assert_eq!(player.itembox.items.len(), 1);
}

#[test]
fn walking_in_marks_the_surroundings_approached() {
    let mut floor = empty_floor(6, 6);
    for y in 1..4 {
        for x in 1..4 {
            floor.field.set(Coord::new(x, y), Cell::with_default_attr(Surface::Floor));
        }
    }
    floor.player_in(Coord::new(2, 2), false).unwrap();
    assert!(floor.field.get(Coord::new(2, 2)).attr.is_visited);
    for y in 1..4 {
        for x in 1..4 {
            assert!(floor.field.get(Coord::new(x, y)).attr.is_approached);
        }
    }
    // a cell outside the 3x3 block is untouched
    assert!(!floor.field.get(Coord::new(4, 4)).attr.is_approached);
}

#[test]
fn walking_out_marks_floor_neighbours_left() {
    let mut floor = empty_floor(6, 6);
    for y in 1..4 {
        for x in 1..4 {
            floor.field.set(Coord::new(x, y), Cell::with_default_attr(Surface::Floor));
        }
    }
    floor.field.set(Coord::new(3, 2), Cell::with_default_attr(Surface::Passage));
    floor.player_out(Coord::new(2, 2)).unwrap();
    assert!(floor.field.get(Coord::new(1, 1)).attr.is_left);
    assert!(floor.field.get(Coord::new(2, 3)).attr.is_left);
    // only plain floor decays to "left"
    assert!(!floor.field.get(Coord::new(3, 2)).attr.is_left);
}
