//! A turn-based combat engine: fighters built from invested stat points
//! meet in two teams, and a seeded match decides which team is left standing.
mod attack;
mod dice;
mod fight;
mod fight_fighter;
mod fighter;
mod stats;

pub use attack::{
    crit_factor, damage_dealt, damage_of, hit_succeeds, hits, lemma_hit_damage_floor,
};
pub use fight::{
    count_events, down_events, extends, history_events, lemma_turn_respects_cap, living_upto,
    pick_fold, starts_as, struck, turn_events, Fight, FightEvent, TurnReport, DAMAGE_RANGE,
    HIT_RANGE, MAX_TURNS, RECOVERY_ATTEMPTS,
};
pub use fight_fighter::{
    first_up, lemma_fresh_current_stat, lemma_recovery_cap, lemma_recovery_restores_health,
    recovers, speed_step, stacked, FightFighter, Modifiers, CRIT_MULTIPLIER, MIN_DAMAGE, READY_RANGE,
    RECOVERY_BODY_BONUS, RECOVERY_CAP, RECOVERY_HEALTH, RECOVERY_RANGE, RECOVERY_SKILL_BONUS,
    RECOVERY_THRESHOLD,
};
pub use fighter::{stat_order, Fighter, FighterStatError};
pub use stats::{
    affine_value, apply_modifier, clamp_stat, SignedStatValue, Stat, StatValue,
    MAX_STAT_POINTS, TOTAL_POINTS,
};
