//! The combat resolver: pure probability functions computing hit chance
//! from character stats. Damage computation lies outside this core, so a
//! resolved attack carries no hit-point payload yet.

use vstd::prelude::*;
use crate::character::Defense;
use crate::character::Enemy;
use crate::character::HitPoint;
use crate::character::Level;
use crate::character::Player;
use crate::character::Strength;
use crate::character::enemy_stats_wf;
use crate::character::player_stats_wf;
use crate::rng::Parcent;
use crate::rng::RngHandle;

verus! {

/// The strength-bucket adjustment to the hit probability; a no-op outside
/// 1..=32.
pub open spec fn spec_hit_prob_plus(st: int) -> int {
    if st <= 0 || st > 32 {
        0
    } else if st <= 7 {
        st - 8
    } else if st <= 17 {
        0
    } else if st <= 21 {
        1
    } else if st <= 31 {
        2
    } else {
        3
    }
}

/// The strength-bucket adjustment to damage; a no-op outside 1..=32.
pub open spec fn spec_damage_plus(st: int) -> int {
    if st <= 0 || st > 32 {
        0
    } else if st <= 7 {
        st - 8
    } else if st <= 16 {
        0
    } else if st <= 18 {
        1
    } else if st == 19 {
        2
    } else if st <= 21 {
        3
    } else if st == 22 {
        4
    } else if st <= 31 {
        5
    } else {
        6
    }
}

/// `level + armor + revision`, clamped to 0..=20 and scaled to a
/// percentage.
pub open spec fn spec_hit_sub(level: int, armor: int, revision: int) -> int {
    let val = level + armor + revision;
    let clamped = if val > 20 {
        20int
    } else if val < 0 {
        0int
    } else {
        val
    };
    5 * clamped
}

/// The percentage with which the player's blow lands on the enemy.
pub open spec fn spec_hit_attack(player: Player, enemy: Enemy) -> int {
    spec_hit_sub(
        player.level.0 as int,
        enemy.defense.0 as int,
        spec_hit_prob_plus(player.strength.current.0 as int) + (if enemy.running {
            0int
        } else {
            4int
        }) + 1,
    )
}

/// The percentage with which the enemy's blow lands on the player.
pub open spec fn spec_hit_defense(player: Player, enemy: Enemy) -> int {
    spec_hit_sub(enemy.level.0 as int, 10 - player.arm.0 as int, 1)
}

pub fn hit_prob_plus(strength: Strength) -> (r: i64)
    ensures
        r == spec_hit_prob_plus(strength.0 as int),
{
    let st = strength.0;
    if st <= 0 || st > 32 {
        0
    } else if st <= 7 {
        st - 8
    } else if st <= 17 {
        0
    } else if st <= 21 {
        1
    } else if st <= 31 {
        2
    } else {
        3
    }
}

pub fn damage_plus(strength: Strength) -> (r: i64)
    ensures
        r == spec_damage_plus(strength.0 as int),
{
    let st = strength.0;
    if st <= 0 || st > 32 {
        0
    } else if st <= 7 {
        st - 8
    } else if st <= 16 {
        0
    } else if st <= 18 {
        1
    } else if st == 19 {
        2
    } else if st <= 21 {
        3
    } else if st == 22 {
        4
    } else if st <= 31 {
        5
    } else {
        6
    }
}

pub fn hit_sub(level: Level, armor: Defense, revision: i64) -> (r: Parcent)
    requires
        -1000000000 <= level.0 <= 1000000000,
        -1000000000 <= armor.0 <= 1000000000,
        -1000000000 <= revision <= 1000000000,
    ensures
        r.0 == spec_hit_sub(level.0 as int, armor.0 as int, revision as int),
{
    let mut val: i64 = level.0 + armor.0 + revision;
    if val > 20 {
        val = 20;
    }
    if val < 0 {
        val = 0;
    }
    let scaled: i64 = (100 / 20) * val;
    proof {
        assert(0 <= scaled <= 100);
    }
    Parcent(scaled as u32)
}

pub fn hit_attack(player: &Player, enemy: &Enemy) -> (r: Parcent)
    requires
        player_stats_wf(*player),
        enemy_stats_wf(*enemy),
    ensures
        r.0 == spec_hit_attack(*player, *enemy),
{
    let st = player.strength().current;
    let str_p = hit_prob_plus(st) + if enemy.is_running() {
        0
    } else {
        4
    };
    hit_sub(player.level(), enemy.defense(), str_p + 1)
}

pub fn hit_defense(player: &Player, enemy: &Enemy) -> (r: Parcent)
    requires
        player_stats_wf(*player),
        enemy_stats_wf(*enemy),
    ensures
        r.0 == spec_hit_defense(*player, *enemy),
{
    let arm = Defense(Defense::max().0 - player.arm().0);
    hit_sub(enemy.level(), arm, 1)
}

/// Resolve the player's blow: roll against the hit percentage. A miss
/// deals nothing; damage for a landed hit is computed outside this core,
/// so the resolved attack itself carries no hit points either way.
pub fn player_attack(player: &Player, enemy: &mut Enemy, rng: &mut RngHandle) -> (r: Option<
    HitPoint,
>)
    requires
        player_stats_wf(*player),
        enemy_stats_wf(*old(enemy)),
    ensures
        r.is_none(),
        *final(enemy) == *old(enemy),
{
    if !rng.parcent(hit_attack(player, enemy)) {
        return None;
    }
    None
}

/// Resolve the enemy's blow, symmetrically to `player_attack`.
pub fn enemy_attack(enemy: &Enemy, player: &mut Player, rng: &mut RngHandle) -> (r: Option<
    HitPoint,
>)
    requires
        player_stats_wf(*old(player)),
        enemy_stats_wf(*enemy),
    ensures
        r.is_none(),
        *final(player) == *old(player),
{
    if !rng.parcent(hit_defense(player, enemy)) {
        return None;
    }
    None
}

} // verus!
