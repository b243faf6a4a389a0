//! Weapons: the static catalog, the configuration that selects from it,
//! and the handler that hands out and randomizes weapon items.

use vstd::prelude::*;
use crate::character::Dice;
use crate::character::HitPoint;
use crate::character::Level;
use crate::item::Item;
use crate::item::ItemAttr;
use crate::item::ItemHandler;
use crate::item::ItemKind;
use crate::rng::Parcent;

verus! {

/// Weapon configuration.
#[derive(Clone, Debug, PartialEq, Eq)]
pub struct Config {
    pub weapons: Weapons,
    pub cursed_rate: Parcent,
    pub powerup_rate: Parcent,
}

impl Default for Config {
    fn default() -> (c: Config)
        ensures
            builtin_all(c.weapons),
            c.cursed_rate == (Parcent(10u32)),
            c.powerup_rate == (Parcent(5u32)),
    {
        Config {
            weapons: Weapons::default_weapons(),
            cursed_rate: default_cursed_rate(),
            powerup_rate: default_powerup_rate(),
        }
    }
}

impl Config {
    /// Build the runtime weapon handler from this configuration.
    pub fn build(self) -> (h: WeaponHandler)
        ensures
            h.cursed_rate == self.cursed_rate,
            h.powerup_rate == self.powerup_rate,
            self.weapons is Builtin ==> handler_weapons_bounded(h.weapons@),
    {
        let Config { weapons, cursed_rate, powerup_rate } = self;
        WeaponHandler { cursed_rate, powerup_rate, weapons: weapons.build() }
    }
}

pub fn default_cursed_rate() -> (p: Parcent)
    ensures
        p.0 == 10,
{
    Parcent::new(10)
}

pub fn default_powerup_rate() -> (p: Parcent)
    ensures
        p.0 == 5,
{
    Parcent::new(5)
}

pub fn is_default_cursed_rate(u: &Parcent) -> (r: bool)
    ensures
        r == (u.0 == 10),
{
    u.0 == default_cursed_rate().0
}

pub fn is_default_powerup_rate(u: &Parcent) -> (r: bool)
    ensures
        r == (u.0 == 5),
{
    u.0 == default_powerup_rate().0
}

/// Which weapons exist: a selection of the builtin catalog, or a custom
/// list.
#[derive(Clone, Debug, PartialEq, Eq)]
pub enum Weapons {
    Builtin { typ: BuiltinKind, included: Vec<usize> },
    Custom(Vec<(Weapon, ItemAttr)>),
}

/// The selection that includes the whole builtin catalog in order.
pub open spec fn builtin_all(w: Weapons) -> bool {
    &&& w matches Weapons::Builtin { typ, included } ==> typ is Rogue && included@.len() == 9
        && (forall|k: int| 0 <= k < included@.len() ==> included@[k] == k)
    &&& w is Builtin
}

impl Weapons {
    pub fn default_weapons() -> (w: Weapons)
        ensures
            builtin_all(w),
    {
        let mut included: Vec<usize> = Vec::new();
        let mut i: usize = 0;
        while i < ROGUE_WEAPON_NUM
            invariant
                i <= ROGUE_WEAPON_NUM,
                included@.len() == i,
                forall|k: int| 0 <= k < i ==> included@[k] == k,
            decreases ROGUE_WEAPON_NUM - i,
        {
            included.push(i);
            i = i + 1;
        }
        Weapons::Builtin { typ: BuiltinKind::Rogue, included }
    }

    /// Materialize the configured weapon list; out-of-range builtin
    /// indices are skipped.
    pub fn build(self) -> (v: Vec<(Weapon, ItemAttr)>)
        ensures
            self is Builtin ==> handler_weapons_bounded(v@),
            self is Builtin ==> forall|k: int|
                0 <= k < v@.len() ==> (#[trigger] v@[k]).0.hit_plus.0 == 0 && v@[k].0.dam_plus.0
                    == 0,
            self matches Weapons::Builtin { typ, included } ==> (forall|k: int|
                0 <= k < included@.len() ==> #[trigger] included@[k] < 9) ==> v@.len()
                == included@.len() && (forall|k: int|
                0 <= k < v@.len() ==> (#[trigger] v@[k]).0.name@ == rogue_name(
                    included@[k] as int,
                )),
            self matches Weapons::Custom(c) ==> v@ == c@,
    {
        match self {
            Weapons::Builtin { typ, included } => match typ {
                BuiltinKind::Rogue => {
                    let mut v: Vec<(Weapon, ItemAttr)> = Vec::new();
                    let mut i: usize = 0;
                    while i < included.len()
                        invariant
                            i <= included@.len(),
                            handler_weapons_bounded(v@),
                            forall|k: int|
                                0 <= k < v@.len() ==> (#[trigger] v@[k]).0.hit_plus.0 == 0
                                    && v@[k].0.dam_plus.0 == 0,
                            (forall|k: int| 0 <= k < i ==> #[trigger] included@[k] < 9) ==> v@.len()
                                == i && (forall|k: int|
                                0 <= k < v@.len() ==> (#[trigger] v@[k]).0.name@ == rogue_name(
                                    included@[k] as int,
                                )),
                        decreases included@.len() - i,
                    {
                        let idx = included[i];
                        if idx < ROGUE_WEAPON_NUM {
                            let w = rogue_weapon(idx);
                            let pair = w.into_weapon();
                            v.push(pair);
                        }
                        i = i + 1;
                    }
                    v
                },
            },
            Weapons::Custom(v) => v,
        }
    }
}

#[derive(Clone, Copy, Debug, PartialEq, Eq, Structural)]
pub enum BuiltinKind {
    Rogue,
}

/// One weapon's stats.
#[derive(Clone, Debug, PartialEq, Eq)]
pub struct Weapon {
    pub at_weild: Dice,
    pub at_throw: Dice,
    pub name: String,
    pub num_min: u32,
    pub num_max: u32,
    pub hit_plus: Level,
    pub dam_plus: HitPoint,
}

impl Weapon {
    /// A copy carrying an owned name.
    pub fn duplicate(&self) -> (w: Weapon)
        ensures
            w == *self,
    {
        Weapon {
            at_weild: self.at_weild,
            at_throw: self.at_throw,
            name: self.name.clone(),
            num_min: self.num_min,
            num_max: self.num_max,
            hit_plus: self.hit_plus,
            dam_plus: self.dam_plus,
        }
    }
}

/// Every stored hit bonus is small enough for randomization arithmetic.
pub open spec fn handler_weapons_bounded(v: Seq<(Weapon, ItemAttr)>) -> bool {
    forall|k: int|
        0 <= k < v.len() ==> -1000000 <= (#[trigger] v[k]).0.hit_plus.0 <= 1000000
}

/// Hands out and randomizes weapon items.
#[derive(Clone, Debug)]
pub struct WeaponHandler {
    pub weapons: Vec<(Weapon, ItemAttr)>,
    pub cursed_rate: Parcent,
    pub powerup_rate: Parcent,
}

/// The generated weapon is the stored base up to a hit bonus shifted by at
/// most four and a possible curse flag.
pub open spec fn weapon_variant_of(item: Item, base: (Weapon, ItemAttr)) -> bool {
    match item.kind {
        ItemKind::Weapon(w) => {
            &&& w.name == base.0.name
            &&& w.at_weild == base.0.at_weild
            &&& w.at_throw == base.0.at_throw
            &&& w.num_min == base.0.num_min
            &&& w.num_max == base.0.num_max
            &&& w.dam_plus == base.0.dam_plus
            &&& base.0.hit_plus.0 - 4 <= w.hit_plus.0 <= base.0.hit_plus.0 + 4
            &&& item.attr.can_throw == base.1.can_throw
            &&& item.attr.is_many == base.1.is_many
            &&& (item.attr.is_cursed || item.attr.is_cursed == base.1.is_cursed)
            &&& (item.attr.is_cursed && !base.1.is_cursed ==> w.hit_plus.0 <= base.0.hit_plus.0
                - 1)
            &&& (!item.attr.is_cursed ==> w.hit_plus.0 >= base.0.hit_plus.0)
        },
        _ => false,
    }
}

impl WeaponHandler {
    /// The catalog entry `weapon_id`, as a one-piece item.
    pub fn get_weapon(&self, weapon_id: usize) -> (item: Item)
        requires
            weapon_id < self.weapons@.len(),
        ensures
            item.kind == ItemKind::Weapon(self.weapons@[weapon_id as int].0),
            item.attr == self.weapons@[weapon_id as int].1,
            item.how_many.0 == 1,
    {
        let w = self.weapons[weapon_id].0.duplicate();
        let a = self.weapons[weapon_id].1;
        Item::weapon(w, a)
    }

    /// A random catalog weapon, possibly cursed with a hit penalty or
    /// blessed with a hit bonus.
    pub fn gen_weapon(&self, item_handle: &mut ItemHandler) -> (item: Item)
        requires
            self.weapons@.len() > 0,
            handler_weapons_bounded(self.weapons@),
        ensures
            exists|k: int|
                0 <= k < self.weapons@.len() && weapon_variant_of(
                    item,
                    #[trigger] self.weapons@[k],
                ),
    {
        let idx = item_handle.rng.range_usize(0, self.weapons.len());
        let mut weapon = self.weapons[idx].0.duplicate();
        let mut attr = self.weapons[idx].1;
        if item_handle.rng.parcent(self.cursed_rate) {
            attr.is_cursed = true;
            let delta = item_handle.rng.range_i32(1, 5);
            weapon.hit_plus = Level(weapon.hit_plus.0 - delta as i64);
        } else if item_handle.rng.parcent(self.powerup_rate) {
            let delta = item_handle.rng.range_i32(1, 5);
            weapon.hit_plus = Level(weapon.hit_plus.0 + delta as i64);
        }
        let item = Item::weapon(weapon, attr);
        proof {
            assert(weapon_variant_of(item, self.weapons@[idx as int]));
        }
        item
    }
}

/// Number of weapons in the builtin catalog.
pub const ROGUE_WEAPON_NUM: usize = 9;

/// The name of builtin catalog entry `i`.
pub open spec fn rogue_name(i: int) -> Seq<char> {
    if i == 0 {
        "mace"@
    } else if i == 1 {
        "long-sword"@
    } else if i == 2 {
        "bow"@
    } else if i == 3 {
        "arrow"@
    } else if i == 4 {
        "dagger"@
    } else if i == 5 {
        "two-handed-sword"@
    } else if i == 6 {
        "dart"@
    } else if i == 7 {
        "shuriken"@
    } else {
        "spear"@
    }
}

/// A catalog entry before materialization.
pub struct StaticWeapon {
    pub at_weild: Dice,
    pub at_throw: Dice,
    pub name: &'static str,
    pub attr: ItemAttr,
    pub min: u32,
    pub max: u32,
}

impl StaticWeapon {
    /// The weapon and flags this entry materializes to; the hit and damage
    /// bonuses start at zero.
    pub fn into_weapon(&self) -> (r: (Weapon, ItemAttr))
        ensures
            r.0.hit_plus.0 == 0,
            r.0.dam_plus.0 == 0,
            r.0.at_weild == self.at_weild,
            r.0.at_throw == self.at_throw,
            r.0.name@ == self.name@,
            r.0.num_min == self.min,
            r.0.num_max == self.max,
            r.1 == self.attr,
    {
        let weapon = Weapon {
            at_weild: self.at_weild,
            at_throw: self.at_throw,
            name: String::from_str(self.name),
            num_min: self.min,
            num_max: self.max,
            hit_plus: Level(0),
            dam_plus: HitPoint(0),
        };
        (weapon, self.attr)
    }
}

/// Flags of a stackable, throwable weapon.
fn many_and_throw() -> (a: ItemAttr)
    ensures
        !a.is_cursed,
        a.can_throw,
        a.is_many,
{
    ItemAttr { is_cursed: false, can_throw: true, is_many: true }
}

/// The builtin catalog of classic weapons.
pub fn rogue_weapon(i: usize) -> (w: StaticWeapon)
    requires
        i < ROGUE_WEAPON_NUM,
    ensures
        w.name@ == rogue_name(i as int),
        ({
            if i == 0 {
                w.at_weild == (Dice { times: 2, face: HitPoint(4) }) && w.at_throw == (Dice {
                    times: 1,
                    face: HitPoint(3),
                }) && w.min == 1 && w.max == 1 && !w.attr.is_many && !w.attr.can_throw
            } else if i == 1 {
                w.at_weild == (Dice { times: 3, face: HitPoint(4) }) && w.at_throw == (Dice {
                    times: 1,
                    face: HitPoint(2),
                }) && w.min == 1 && w.max == 1
            } else if i == 2 {
                w.at_weild == (Dice { times: 1, face: HitPoint(1) }) && w.at_throw == (Dice {
                    times: 1,
                    face: HitPoint(1),
                }) && w.min == 1 && w.max == 1
            } else if i == 3 {
                w.at_weild == (Dice { times: 1, face: HitPoint(1) }) && w.at_throw == (Dice {
                    times: 2,
                    face: HitPoint(3),
                }) && w.min == 8 && w.max == 16 && w.attr.is_many && w.attr.can_throw
            } else if i == 4 {
                w.at_weild == (Dice { times: 1, face: HitPoint(6) }) && w.at_throw == (Dice {
                    times: 1,
                    face: HitPoint(4),
                }) && w.min == 2 && w.max == 6 && w.attr.can_throw && !w.attr.is_many
            } else if i == 5 {
                w.at_weild == (Dice { times: 4, face: HitPoint(4) }) && w.at_throw == (Dice {
                    times: 1,
                    face: HitPoint(2),
                }) && w.min == 1 && w.max == 1
            } else if i == 6 {
                w.at_weild == (Dice { times: 1, face: HitPoint(1) }) && w.at_throw == (Dice {
                    times: 1,
                    face: HitPoint(3),
                }) && w.min == 8 && w.max == 16 && w.attr.is_many && w.attr.can_throw
            } else if i == 7 {
                w.at_weild == (Dice { times: 1, face: HitPoint(2) }) && w.at_throw == (Dice {
                    times: 2,
                    face: HitPoint(4),
                }) && w.min == 8 && w.max == 16 && w.attr.is_many && w.attr.can_throw
            } else {
                w.at_weild == (Dice { times: 2, face: HitPoint(3) }) && w.at_throw == (Dice {
                    times: 1,
                    face: HitPoint(6),
                }) && w.min == 8 && w.max == 16 && w.attr.is_many && !w.attr.can_throw
            }
        }),
        !w.attr.is_cursed,
{
    if i == 0 {
        StaticWeapon {
            at_weild: Dice::new(2, HitPoint(4)),
            at_throw: Dice::new(1, HitPoint(3)),
            name: "mace",
            attr: ItemAttr::empty(),
            min: 1,
            max: 1,
        }
    } else if i == 1 {
        StaticWeapon {
            at_weild: Dice::new(3, HitPoint(4)),
            at_throw: Dice::new(1, HitPoint(2)),
            name: "long-sword",
            attr: ItemAttr::empty(),
            min: 1,
            max: 1,
        }
    } else if i == 2 {
        StaticWeapon {
            at_weild: Dice::new(1, HitPoint(1)),
            at_throw: Dice::new(1, HitPoint(1)),
            name: "bow",
            attr: ItemAttr::empty(),
            min: 1,
            max: 1,
        }
    } else if i == 3 {
        StaticWeapon {
            at_weild: Dice::new(1, HitPoint(1)),
            at_throw: Dice::new(2, HitPoint(3)),
            name: "arrow",
            attr: many_and_throw(),
            min: 8,
            max: 16,
        }
    } else if i == 4 {
        StaticWeapon {
            at_weild: Dice::new(1, HitPoint(6)),
            at_throw: Dice::new(1, HitPoint(4)),
            name: "dagger",
            attr: ItemAttr {
                is_cursed: false,
                can_throw: true,
                is_many: false,
            },
            min: 2,
            max: 6,
        }
    } else if i == 5 {
        StaticWeapon {
            at_weild: Dice::new(4, HitPoint(4)),
            at_throw: Dice::new(1, HitPoint(2)),
            name: "two-handed-sword",
            attr: ItemAttr::empty(),
            min: 1,
            max: 1,
        }
    } else if i == 6 {
        StaticWeapon {
            at_weild: Dice::new(1, HitPoint(1)),
            at_throw: Dice::new(1, HitPoint(3)),
            name: "dart",
            attr: many_and_throw(),
            min: 8,
            max: 16,
        }
    } else if i == 7 {
        StaticWeapon {
            at_weild: Dice::new(1, HitPoint(2)),
            at_throw: Dice::new(2, HitPoint(4)),
            name: "shuriken",
            attr: many_and_throw(),
            min: 8,
            max: 16,
        }
    } else {
        StaticWeapon {
            at_weild: Dice::new(2, HitPoint(3)),
            at_throw: Dice::new(1, HitPoint(6)),
            name: "spear",
            attr: ItemAttr { is_cursed: false, can_throw: false, is_many: true },
            min: 8,
            max: 16,
        }
    }
}

} // verus!
