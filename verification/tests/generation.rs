//! Floor generation: door bookkeeping, repeated cell selection, and the
//! weapon catalog.

use rogue_core::config::Config;
use rogue_core::coord::Coord;
use rogue_core::coord::X;
use rogue_core::coord::Y;
use rogue_core::floor::contains_coord;
use rogue_core::floor::Floor;
use rogue_core::grid::Surface;
use rogue_core::item::ItemKind;
use rogue_core::rng::Parcent;
use rogue_core::rng::RngHandle;
use rogue_core::weapon::is_default_cursed_rate;
use rogue_core::weapon::is_default_powerup_rate;

#[test]
fn secret_door() {
    let config = Config::default();
    let mut rng = RngHandle::new();
    let (w, h) = (80, 24);
    let mut before = 0;
    for i in 1..10 {
        let mut hidden = 0;
        for _ in 0..100 {
            let floor = Floor::gen_floor(i, &config, X(w), Y(h), &mut rng).unwrap();
            for y in 0..h {
                for x in 0..w {
                    let cd = Coord::new(x, y);
                    let cell = floor.field.get(cd);
                    if cell.surface != Surface::Door && contains_coord(&floor.doors, cd) {
                        hidden += 1;
                    }
                }
            }
        }
        assert!(before <= hidden + 10);
        before = hidden;
    }
}

#[test]
fn select_cell() {
    let config = Config::default();
    let mut rng = RngHandle::new();
    let (w, h) = (80, 24);
    let mut floor = Floor::gen_floor(10, &config, X(w), Y(h), &mut rng).unwrap();
    let mut cnt = 0;
    for _ in 0..1000 {
        let cd = floor.select_cell(&mut rng, false);
        if let Some(cd) = cd {
            cnt += 1;
            assert!(floor.set_obj(cd, false));
        } else {
            break;
        }
    }
    assert!(cnt > 15);
}

#[test]
fn door_set_matches_door_cells() {
    let config = Config::default();
    let mut rng = RngHandle::from_seed(11);
    for level in 1..8 {
        let floor = Floor::gen_floor(level, &config, X(80), Y(24), &mut rng).unwrap();
        for y in 0..24 {
            for x in 0..80 {
                let cd = Coord::new(x, y);
                let is_door_cell = floor.field.get(cd).surface == Surface::Door;
                let listed = contains_coord(&floor.doors, cd);
                assert_eq!(is_door_cell, listed);
            }
        }
    }
}

#[test]
fn generation_is_reproducible() {
    let config = Config::default();
    let mut rng_a = RngHandle::from_seed(99);
    let mut rng_b = RngHandle::from_seed(99);
    let fa = Floor::gen_floor(5, &config, X(80), Y(24), &mut rng_a).unwrap();
    let fb = Floor::gen_floor(5, &config, X(80), Y(24), &mut rng_b).unwrap();
    for y in 0..24 {
        for x in 0..80 {
            let cd = Coord::new(x, y);
            assert_eq!(fa.field.get(cd), fb.field.get(cd));
        }
    }
    assert_eq!(fa.doors, fb.doors);
}

#[test]
fn floor_has_walkable_area() {
    let config = Config::default();
    let mut rng = RngHandle::from_seed(3);
    let floor = Floor::gen_floor(1, &config, X(80), Y(24), &mut rng).unwrap();
    let mut walkable = 0;
    for y in 0..24 {
        for x in 0..80 {
            if floor.field.get(Coord::new(x, y)).surface.can_walk() {
                walkable += 1;
            }
        }
    }
    assert!(walkable > 50);
}

#[test]
fn builtin_weapon_catalog() {
    let handler = rogue_core::weapon::Config::default().build();
    let mace = handler.get_weapon(0);
    match mace.kind {
        ItemKind::Weapon(w) => {
            assert_eq!(w.name, "mace");
            assert_eq!(w.hit_plus.0, 0);
        }
        _ => panic!("expected a weapon"),
    }
    let spear = handler.get_weapon(8);
    match spear.kind {
        ItemKind::Weapon(w) => assert_eq!(w.name, "spear"),
        _ => panic!("expected a weapon"),
    }
    assert_eq!(mace.how_many.0, 1);
    let names = [
        "mace",
        "long-sword",
        "bow",
        "arrow",
        "dagger",
        "two-handed-sword",
        "dart",
        "shuriken",
        "spear",
    ];
    for (i, name) in names.iter().enumerate() {
        match handler.get_weapon(i).kind {
            ItemKind::Weapon(w) => assert_eq!(&w.name, name),
            _ => panic!("expected a weapon"),
        }
    }
}

#[test]
fn generated_weapon_stays_near_base() {
    let handler = rogue_core::weapon::Config::default().build();
    let mut items = rogue_core::item::ItemHandler::new(5);
    for _ in 0..50 {
        let item = handler.gen_weapon(&mut items);
        match item.kind {
            ItemKind::Weapon(w) => assert!(-4 <= w.hit_plus.0 && w.hit_plus.0 <= 4),
            _ => panic!("expected a weapon"),
        }
    }
}

#[test]
fn default_rates() {
    assert!(is_default_cursed_rate(&Parcent(10)));
    assert!(!is_default_cursed_rate(&Parcent(11)));
    assert!(is_default_powerup_rate(&Parcent(5)));
    assert!(!is_default_powerup_rate(&Parcent(50)));
}

#[test]
fn rng_is_seed_deterministic() {
    let mut a = RngHandle::from_seed(7);
    let mut b = RngHandle::from_seed(7);
    for _ in 0..100 {
        let x = a.range_u32(0, 1000);
        let y = b.range_u32(0, 1000);
        assert_eq!(x, y);
        assert!(x < 1000);
    }
    let mut c = RngHandle::from_seed(8);
    let mut differs = false;
    let mut a2 = RngHandle::from_seed(7);
    for _ in 0..20 {
        if a2.range_u32(0, 1000) != c.range_u32(0, 1000) {
            differs = true;
        }
    }
    assert!(differs);
}

#[test]
fn coord_arithmetic() {
    let c = Coord::new(3, -2);
    let s = c.scale(2, 3);
    assert_eq!((s.x.0, s.y.0), (6, -6));
    let sx = c.slide_x(4);
    assert_eq!((sx.x.0, sx.y.0), (7, -2));
    let sy = c.slide_y(5);
    assert_eq!((sy.x.0, sy.y.0), (3, 3));
}

#[test]
fn open_floor_lies_only_inside_rooms() {
    let config = Config::default();
    let mut rng = RngHandle::from_seed(17);
    let floor = Floor::gen_floor(6, &config, X(80), Y(24), &mut rng).unwrap();
    for y in 0..24 {
        for x in 0..80 {
            let cd = Coord::new(x, y);
            let s = floor.field.get(cd).surface;
            if s == Surface::Floor {
                assert!(floor.rooms.iter().any(|room| room.contains(cd)));
            }
            assert!(s != Surface::Stair && s != Surface::Trap);
        }
    }
}
