//! The arithmetic of one attack: whether it hits and how much it hurts.
use vstd::prelude::*;
use crate::fight_fighter::{CRIT_MULTIPLIER, MIN_DAMAGE};
use crate::stats::{clamp_stat, StatValue};

verus! {

/// A hit roll plus the attacker's accuracy that reaches the defender's dodge hits.
pub open spec fn hits(hit_roll: int, accuracy: int, dodge: int) -> bool {
    hit_roll + accuracy >= dodge
}

/// The factor on damage roll and attack: `CRIT_MULTIPLIER` for a critical.
pub open spec fn crit_factor(crit: bool) -> int {
    if crit {
        CRIT_MULTIPLIER as int
    } else {
        1
    }
}

/// The damage of a hit: damage roll plus attack, times the critical factor,
/// less the defense, at least `MIN_DAMAGE` and at most the largest `StatValue`.
pub open spec fn damage_of(damage_roll: int, attack: int, defense: int, crit: bool) -> int {
    let raw = (damage_roll + attack) * crit_factor(crit) - defense;
    if raw < MIN_DAMAGE {
        MIN_DAMAGE as int
    } else {
        clamp_stat(raw)
    }
}

/// Whether a hit roll of `hit_roll` with accuracy `accuracy` beats `dodge`.
pub fn hit_succeeds(hit_roll: StatValue, accuracy: StatValue, dodge: StatValue) -> (r: bool)
    ensures
        r == hits(hit_roll as int, accuracy as int, dodge as int),
{
    hit_roll as u32 + accuracy as u32 >= dodge as u32
}

/// The damage that a hit with `damage_roll` and `attack` deals against `defense`.
pub fn damage_dealt(damage_roll: StatValue, attack: StatValue, defense: StatValue, crit: bool) -> (r:
    StatValue)
    ensures
        r == damage_of(damage_roll as int, attack as int, defense as int, crit),
{
    let sum: u32 = damage_roll as u32 + attack as u32;
    let factor: u32 = CRIT_MULTIPLIER as u32;
    assert(factor == 2);
    let scaled: u32 = if crit {
        sum * factor
    } else {
        sum
    };
    if scaled < defense as u32 + MIN_DAMAGE as u32 {
        MIN_DAMAGE
    } else if scaled - defense as u32 > u16::MAX as u32 {
        u16::MAX
    } else {
        (scaled - defense as u32) as u16
    }
}

/// Every hit deals at least `MIN_DAMAGE`, whatever the rolls and stats.
pub proof fn lemma_hit_damage_floor(damage_roll: int, attack: int, defense: int, crit: bool)
    ensures
        damage_of(damage_roll, attack, defense, crit) >= MIN_DAMAGE,
{
}

} // verus!
