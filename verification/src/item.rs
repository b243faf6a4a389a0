//! Items: the value kinds a floor can hold, the handler that owns the
//! items placed on the current floor, and the player's inventory with its
//! insert-or-merge operation.

use vstd::prelude::*;
use crate::coord::Coord;
use crate::rng::RngHandle;
use crate::weapon::Weapon;

verus! {

/// A stack size.
#[derive(Clone, Copy, Debug, PartialEq, Eq, Structural)]
pub struct ItemNum(pub u32);

/// Independent item flags.
#[derive(Clone, Copy, Debug, PartialEq, Eq, Structural)]
pub struct ItemAttr {
    pub is_cursed: bool,
    pub can_throw: bool,
    pub is_many: bool,
}

impl ItemAttr {
    pub fn empty() -> (a: ItemAttr)
        ensures
            !a.is_cursed,
            !a.can_throw,
            !a.is_many,
    {
        ItemAttr { is_cursed: false, can_throw: false, is_many: false }
    }

    /// The union of two flag sets.
    pub fn merge(self, other: ItemAttr) -> (a: ItemAttr)
        ensures
            a.is_cursed == (self.is_cursed || other.is_cursed),
            a.can_throw == (self.can_throw || other.can_throw),
            a.is_many == (self.is_many || other.is_many),
    {
        ItemAttr {
            is_cursed: self.is_cursed || other.is_cursed,
            can_throw: self.can_throw || other.can_throw,
            is_many: self.is_many || other.is_many,
        }
    }
}

/// What an item is.
#[derive(Clone, Debug, PartialEq, Eq)]
pub enum ItemKind {
    Gold,
    Weapon(Weapon),
}

impl ItemKind {
    /// A copy of the kind; weapons carry an owned name.
    pub fn duplicate(&self) -> (k: ItemKind)
        ensures
            k == *self,
    {
        match self {
            ItemKind::Gold => ItemKind::Gold,
            ItemKind::Weapon(w) => ItemKind::Weapon(w.duplicate()),
        }
    }
}

/// One item stack.
#[derive(Clone, Debug, PartialEq, Eq)]
pub struct Item {
    pub kind: ItemKind,
    pub how_many: ItemNum,
    pub attr: ItemAttr,
}

impl Item {
    /// A weapon item of one piece.
    pub fn weapon(w: Weapon, attr: ItemAttr) -> (item: Item)
        ensures
            item.kind == ItemKind::Weapon(w),
            item.how_many.0 == 1,
            item.attr == attr,
    {
        Item { kind: ItemKind::Weapon(w), how_many: ItemNum(1), attr }
    }

    /// A pile of gold.
    pub fn gold(num: u32) -> (item: Item)
        ensures
            item.kind == ItemKind::Gold,
            item.how_many.0 == num,
            !item.attr.is_cursed && !item.attr.can_throw,
            item.attr.is_many,
    {
        Item {
            kind: ItemKind::Gold,
            how_many: ItemNum(num),
            attr: ItemAttr { is_cursed: false, can_throw: false, is_many: true },
        }
    }

    pub fn duplicate(&self) -> (item: Item)
        ensures
            item == *self,
    {
        Item { kind: self.kind.duplicate(), how_many: self.how_many, attr: self.attr }
    }
}

/// The player's inventory: a list of item stacks.
#[derive(Clone, Debug)]
pub struct ItemBox {
    pub items: Vec<Item>,
}

impl ItemBox {
    pub fn new() -> (b: ItemBox)
        ensures
            b.items@.len() == 0,
    {
        ItemBox { items: Vec::new() }
    }

    /// Merge the item into an existing gold stack, or insert it as a new
    /// slot; hands back the resulting stack's kind and quantity. Gold
    /// quantities saturate at the machine limit.
    pub fn insert_or_merge(&mut self, item: Item) -> (r: (ItemKind, u32))
        ensures
            (item.kind is Gold && (exists|k: int|
                0 <= k < old(self).items@.len() && (#[trigger] old(self).items@[k]).kind
                    is Gold)) ==> {
                &&& r.0 is Gold
                &&& final(self).items@.len() == old(self).items@.len()
            },
            !(item.kind is Gold && (exists|k: int|
                0 <= k < old(self).items@.len() && (#[trigger] old(self).items@[k]).kind
                    is Gold)) ==> {
                &&& final(self).items@ == old(self).items@.push(item)
                &&& r.0 == item.kind
                &&& r.1 == item.how_many.0
            },
    {
        let is_gold = match &item.kind {
            ItemKind::Gold => true,
            _ => false,
        };
        if is_gold {
            let mut k: usize = 0;
            while k < self.items.len()
                invariant
                    *self == *old(self),
                    item.kind is Gold,
                    k <= self.items@.len(),
                    forall|q: int| 0 <= q < k ==> !((#[trigger] self.items@[q]).kind is Gold),
                decreases self.items@.len() - k,
            {
                let slot_is_gold = match self.items[k].kind {
                    ItemKind::Gold => true,
                    _ => false,
                };
                if slot_is_gold {
                    proof {
                        assert((old(self).items@[k as int]).kind is Gold);
                        assert(item.kind is Gold);
                        assert(exists|q: int|
                            0 <= q < old(self).items@.len() && (#[trigger] old(self).items@[
                                q
                            ]).kind is Gold);
                    }
                    let have = self.items[k].how_many.0;
                    let add = item.how_many.0;
                    let total: u32 = if have > u32::MAX - add {
                        u32::MAX
                    } else {
                        have + add
                    };
                    let merged = Item {
                        kind: ItemKind::Gold,
                        how_many: ItemNum(total),
                        attr: self.items[k].attr.merge(item.attr),
                    };
                    self.items.set(k, merged);
                    return (ItemKind::Gold, total);
                }
                k = k + 1;
            }
            proof {
                if exists|q: int|
                    0 <= q < self.items@.len() && (#[trigger] self.items@[q]).kind is Gold {
                    let q = choose|q: int|
                        0 <= q < self.items@.len() && (#[trigger] self.items@[q]).kind is Gold;
                    assert(false);
                }
            }
        }
        let kind = item.kind.duplicate();
        let num = item.how_many.0;
        self.items.push(item);
        (kind, num)
    }
}

/// Owns the items placed on the current floor and the random stream item
/// generation draws from.
#[derive(Clone, Debug)]
pub struct ItemHandler {
    pub rng: RngHandle,
    pub placed: Vec<(Coord, Item)>,
}

impl ItemHandler {
    pub fn new(seed: u64) -> (h: ItemHandler)
        ensures
            h.placed@.len() == 0,
    {
        ItemHandler { rng: RngHandle::from_seed(seed), placed: Vec::new() }
    }

    /// Whether some item lies at the coordinate.
    pub open spec fn spec_has_item_at(self, cd: Coord) -> bool {
        exists|k: int| 0 <= k < self.placed@.len() && (#[trigger] self.placed@[k]).0 == cd
    }

    /// Forget everything placed on the previous floor.
    pub fn clear_placed(&mut self)
        ensures
            final(self).placed@.len() == 0,
            final(self).rng == old(self).rng,
    {
        self.placed.clear();
    }

    /// Place an item at a coordinate.
    pub fn place_at(&mut self, cd: Coord, item: Item)
        ensures
            final(self).placed@ == old(self).placed@.push((cd, item)),
            final(self).rng == old(self).rng,
            final(self).spec_has_item_at(cd),
    {
        self.placed.push((cd, item));
        proof {
            assert((self.placed@[self.placed@.len() - 1]).0 == cd);
        }
    }

    /// A copy of the first item lying at the coordinate, if any.
    pub fn get_at(&self, cd: Coord) -> (r: Option<Item>)
        ensures
            r.is_some() == self.spec_has_item_at(cd),
            match r {
                Some(item) => exists|k: int|
                    0 <= k < self.placed@.len() && (#[trigger] self.placed@[k]).0 == cd
                        && self.placed@[k].1 == item,
                None => true,
            },
    {
        let mut k: usize = 0;
        while k < self.placed.len()
            invariant
                k <= self.placed@.len(),
                forall|q: int| 0 <= q < k ==> (#[trigger] self.placed@[q]).0 != cd,
            decreases self.placed@.len() - k,
        {
            if self.placed[k].0.x.0 == cd.x.0 && self.placed[k].0.y.0 == cd.y.0 {
                proof {
                    assert((self.placed@[k as int]).0 == cd);
                }
                return Some(self.placed[k].1.duplicate());
            }
            k = k + 1;
        }
        proof {
            if self.spec_has_item_at(cd) {
                let q = choose|q: int|
                    0 <= q < self.placed@.len() && (#[trigger] self.placed@[q]).0 == cd;
                assert((self.placed@[q]).0 != cd);
            }
        }
        None
    }

    /// Remove and hand back the first item lying at the coordinate.
    pub fn remove_at(&mut self, cd: Coord) -> (r: Option<Item>)
        ensures
            r.is_some() == old(self).spec_has_item_at(cd),
            final(self).rng == old(self).rng,
            !old(self).spec_has_item_at(cd) ==> *final(self) == *old(self),
            r.is_some() ==> final(self).placed@.len() == old(self).placed@.len() - 1,
    {
        let mut k: usize = 0;
        while k < self.placed.len()
            invariant
                *self == *old(self),
                k <= self.placed@.len(),
                forall|q: int| 0 <= q < k ==> (#[trigger] self.placed@[q]).0 != cd,
            decreases self.placed@.len() - k,
        {
            if self.placed[k].0.x.0 == cd.x.0 && self.placed[k].0.y.0 == cd.y.0 {
                proof {
                    assert((self.placed@[k as int]).0 == cd);
                }
                let (_, item) = self.placed.remove(k);
                return Some(item);
            }
            k = k + 1;
        }
        proof {
            if old(self).spec_has_item_at(cd) {
                let q = choose|q: int|
                    0 <= q < self.placed@.len() && (#[trigger] self.placed@[q]).0 == cd;
                assert((self.placed@[q]).0 != cd);
            }
        }
        None
    }

    /// Roll the gold for one room of the given depth: either nothing, or a
    /// pile whose size grows with the level.
    pub fn setup_gold(&mut self, level: u32) -> (r: Option<u32>)
        requires
            level <= 10000,
        ensures
            final(self).placed == old(self).placed,
            r matches Some(amount) ==> 2 <= amount < 52 + 10 * level,
    {
        if self.rng.does_happen(2) {
            let amount = self.rng.range_u32(0, 50 + 10 * level) + 2;
            Some(amount)
        } else {
            None
        }
    }
}

} // verus!
