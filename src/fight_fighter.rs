//! A fighter's mutable state during one match.
use vstd::prelude::*;
use crate::fighter::Fighter;
use crate::stats::{affine_value, apply_modifier, clamp_stat, SignedStatValue, Stat, StatValue};

verus! {

/// The readiness increment is drawn from `1..=READY_RANGE`.
pub const READY_RANGE: StatValue = 140;

/// A successful hit deals at least this much damage.
pub const MIN_DAMAGE: StatValue = 10;

/// A critical hit multiplies the damage roll and the attack by this factor.
pub const CRIT_MULTIPLIER: StatValue = 2;

/// A recovery roll plus conviction must exceed this, plus one for each
/// earlier knockdown.
pub const RECOVERY_THRESHOLD: StatValue = 50;

/// Recovery rolls are drawn from `1..=RECOVERY_RANGE`.
pub const RECOVERY_RANGE: StatValue = 50;

/// How many times a fighter may get back up in one match.
pub const RECOVERY_CAP: StatValue = 1;

/// Per point of conviction, a recovery adds this to attack, defense and speed.
pub const RECOVERY_BODY_BONUS: u32 = 4;

/// Per point of conviction, a recovery adds this to accuracy and dodge.
pub const RECOVERY_SKILL_BONUS: u32 = 10;

/// Per point of conviction, a recovered fighter has this much health.
pub const RECOVERY_HEALTH: u32 = 200;

/// `m` raised by `b`, saturating at the largest modifier.
pub open spec fn stacked(m: int, b: int) -> int {
    if m + b > i32::MAX {
        i32::MAX as int
    } else {
        m + b
    }
}

/// The readiness increment drawn with `roll` by a fighter of speed `speed`.
pub open spec fn speed_step(roll: int, speed: int) -> int {
    if roll - speed < 1 {
        1
    } else {
        roll - speed
    }
}

/// Whether a fighter downed for the `knockdowns`-th time, with conviction
/// `conviction`, gets back up on `roll`, allowed `cap` recoveries.
pub open spec fn recovers(knockdowns: int, conviction: int, roll: int, cap: int) -> bool {
    &&& 1 <= knockdowns <= cap
    &&& roll + conviction > RECOVERY_THRESHOLD + knockdowns - 1
}

/// `r` is the place in `rolls` of the first roll on which a fighter just
/// knocked down for the `knockdowns`-th time, with conviction `conviction`,
/// gets back up with `cap` recoveries allowed; `None` when none does.
pub open spec fn first_up(
    knockdowns: int,
    conviction: int,
    rolls: Seq<StatValue>,
    cap: int,
    r: Option<usize>,
) -> bool {
    let up = |x: StatValue| recovers(knockdowns, conviction, x as int, cap);
    match r {
        Some(i) => {
            &&& i < rolls.len()
            &&& up(rolls[i as int])
            &&& forall|k: int| 0 <= k < i ==> !up(#[trigger] rolls[k])
        },
        None => forall|k: int| 0 <= k < rolls.len() ==> !up(#[trigger] rolls[k]),
    }
}

/// The modifier overlay: additive deltas keyed by stat. Health has none:
/// a fighter's current health is kept on its own.
// One field per stat, as in `Fighter`: an `enum_map::EnumMap` keyed by
// `Stat` would need enum_map's `Enum` derive on `Stat`.
#[derive(Debug, Clone, Copy)]
pub struct Modifiers {
    attack: SignedStatValue,
    defense: SignedStatValue,
    speed: SignedStatValue,
    accuracy: SignedStatValue,
    dodge: SignedStatValue,
    conviction: SignedStatValue,
}

impl Modifiers {
    /// The delta on `stat`.
    pub closed spec fn delta(&self, stat: Stat) -> int {
        match stat {
            Stat::Health => 0,
            Stat::Attack => self.attack as int,
            Stat::Defense => self.defense as int,
            Stat::Speed => self.speed as int,
            Stat::Accuracy => self.accuracy as int,
            Stat::Dodge => self.dodge as int,
            Stat::Conviction => self.conviction as int,
        }
    }

    /// No delta on any stat.
    pub fn zero() -> (r: Modifiers)
        ensures
            forall|s: Stat| #[trigger] r.delta(s) == 0,
    {
        Modifiers { attack: 0, defense: 0, speed: 0, accuracy: 0, dodge: 0, conviction: 0 }
    }

    /// The delta on `stat`.
    pub fn get(&self, stat: Stat) -> (r: SignedStatValue)
        ensures
            r == self.delta(stat),
    {
        match stat {
            Stat::Health => 0,
            Stat::Attack => self.attack,
            Stat::Defense => self.defense,
            Stat::Speed => self.speed,
            Stat::Accuracy => self.accuracy,
            Stat::Dodge => self.dodge,
            Stat::Conviction => self.conviction,
        }
    }

    /// Raises the delta on `stat` by `bonus`, saturating; health takes none.
    pub fn raise(&mut self, stat: Stat, bonus: u32)
        ensures
            forall|s: Stat|
                #[trigger] final(self).delta(s) == if s == stat && s != Stat::Health {
                    stacked(old(self).delta(s), bonus as int)
                } else {
                    old(self).delta(s)
                },
    {
        let v = self.get(stat) as i64 + bonus as i64;
        let v: SignedStatValue = if v > i32::MAX as i64 {
            i32::MAX
        } else {
            v as i32
        };
        match stat {
            Stat::Health => {},
            Stat::Attack => self.attack = v,
            Stat::Defense => self.defense = v,
            Stat::Speed => self.speed = v,
            Stat::Accuracy => self.accuracy = v,
            Stat::Dodge => self.dodge = v,
            Stat::Conviction => self.conviction = v,
        }
    }
}

/// A fighter in a match: the fighter, its current health, its modifier
/// overlay, its readiness counter and how often it has been knocked down.
#[derive(Debug, Clone, Copy)]
pub struct FightFighter<'a> {
    fighter: &'a Fighter,
    health: StatValue,
    mods: Modifiers,
    speed_roll: StatValue,
    knockdown_count: StatValue,
}

impl<'a> FightFighter<'a> {
    /// The fighter this state belongs to.
    pub closed spec fn base(&self) -> Fighter {
        *self.fighter
    }

    /// Current health.
    pub closed spec fn health_value(&self) -> int {
        self.health as int
    }

    /// The modifier on `stat`.
    pub closed spec fn modifier(&self, stat: Stat) -> int {
        self.mods.delta(stat)
    }

    /// The readiness counter.
    pub closed spec fn counter(&self) -> int {
        self.speed_roll as int
    }

    /// How many times the fighter has been knocked down.
    pub closed spec fn knockdowns(&self) -> int {
        self.knockdown_count as int
    }

    /// The value of `stat` in combat: current health, or the effective value
    /// with the modifier laid over it.
    pub open spec fn current(&self, stat: Stat) -> int {
        if stat == Stat::Health {
            self.health_value()
        } else {
            clamp_stat(self.base().effective(stat) + self.modifier(stat))
        }
    }

    /// Whether the fighter still has health.
    pub open spec fn alive(&self) -> bool {
        self.health_value() > 0
    }

    /// The state a match starts from: full health, no modifiers, counter
    /// and knockdowns at zero.
    pub open spec fn is_fresh(&self, f: Fighter) -> bool {
        &&& self.base() == f
        &&& self.health_value() == f.effective(Stat::Health)
        &&& forall|s: Stat| #[trigger] self.modifier(s) == 0
        &&& self.counter() == 0
        &&& self.knockdowns() == 0
    }

    /// `other` differs from this state at most in the readiness counter.
    pub open spec fn same_but_counter(&self, other: Self) -> bool {
        &&& other.base() == self.base()
        &&& other.health_value() == self.health_value()
        &&& other.knockdowns() == self.knockdowns()
        &&& forall|s: Stat| #[trigger] other.modifier(s) == self.modifier(s)
    }

    /// `post` is this state after taking `damage`: health goes down, stopping
    /// at zero, and a fighter brought from positive health to zero counts one
    /// more knockdown.
    pub open spec fn hurt(&self, post: Self, damage: int) -> bool {
        &&& post.health_value() == clamp_stat(self.health_value() - damage)
        &&& post.knockdowns() == if self.alive() && !post.alive() {
            clamp_stat(self.knockdowns() + 1)
        } else {
            self.knockdowns()
        }
        &&& post.base() == self.base()
        &&& forall|s: Stat| #[trigger] post.modifier(s) == self.modifier(s)
    }

    /// `post` carries the bonus of getting back up from this state: attack,
    /// defense and speed gain `RECOVERY_BODY_BONUS`, accuracy and dodge
    /// `RECOVERY_SKILL_BONUS`, per point of conviction, on top of every
    /// earlier bonus; health becomes `RECOVERY_HEALTH` per point of conviction.
    pub open spec fn boosted(&self, post: Self) -> bool {
        let c = self.current(Stat::Conviction);
        &&& post.base() == self.base()
        &&& post.health_value() == clamp_stat(RECOVERY_HEALTH * c)
        &&& forall|s: Stat| #[trigger]
            post.modifier(s) == match s {
                Stat::Attack | Stat::Defense | Stat::Speed => stacked(
                    self.modifier(s),
                    RECOVERY_BODY_BONUS * c,
                ),
                Stat::Accuracy | Stat::Dodge => stacked(self.modifier(s), RECOVERY_SKILL_BONUS * c),
                _ => self.modifier(s),
            }
    }

    /// A hit roll at or above this is a critical: 999 less 20 per point
    /// invested in accuracy, down to zero.
    pub open spec fn crit_threshold(&self) -> int {
        clamp_stat(999 - 20 * self.base().points(Stat::Accuracy))
    }

    /// Knockdowns and counter are bounded as the types require.
    pub proof fn lemma_ranges(&self)
        ensures
            0 <= self.health_value() <= u16::MAX,
            0 <= self.counter() <= u16::MAX,
            0 <= self.knockdowns() <= u16::MAX,
            forall|s: Stat| 0 <= #[trigger] self.current(s) <= u16::MAX,
    {
    }

    /// A fresh state for `fighter`: full health, no modifiers, counter and
    /// knockdowns at zero.
    pub fn new(fighter: &'a Fighter) -> (r: Self)
        ensures
            r.is_fresh(*fighter),
    {
        FightFighter {
            fighter,
            health: fighter.stat(Stat::Health),
            mods: Modifiers::zero(),
            speed_roll: 0,
            knockdown_count: 0,
        }
    }

    /// The fighter this state belongs to.
    pub fn fighter(&self) -> (r: &'a Fighter)
        ensures
            *r == self.base(),
    {
        self.fighter
    }

    /// The fighter's name.
    pub fn name(&self) -> (r: &str)
        ensures
            r@ == self.base().name_view(),
    {
        self.fighter.name()
    }

    /// Whether the fighter still has health.
    pub fn is_alive(&self) -> (r: bool)
        ensures
            r == self.alive(),
    {
        self.health > 0
    }

    /// The readiness counter.
    pub fn speed_roll(&self) -> (r: StatValue)
        ensures
            r == self.counter(),
    {
        self.speed_roll
    }

    /// How many times the fighter has been knocked down.
    pub fn knockdown_count(&self) -> (r: StatValue)
        ensures
            r == self.knockdowns(),
    {
        self.knockdown_count
    }

    /// The value of `stat` in combat.
    pub fn stat(&self, stat: Stat) -> (r: StatValue)
        ensures
            r == self.current(stat),
    {
        match stat {
            Stat::Health => self.health,
            _ => apply_modifier(self.fighter.stat(stat), self.mods.get(stat)),
        }
    }

    /// A hit roll at or above `crit_threshold` is a critical.
    pub fn crit_chance(&self) -> (r: StatValue)
        ensures
            r == self.crit_threshold(),
    {
        let step: u32 = self.fighter.raw_stat(Stat::Accuracy) as u32 * 20;
        if step >= 999 {
            0
        } else {
            (999 - step) as u16
        }
    }

    /// Takes `damage` off health, as `hurt` describes.
    pub fn take_damage(&mut self, damage: StatValue)
        ensures
            old(self).hurt(*final(self), damage as int),
            final(self).counter() == old(self).counter(),
    {
        let was_alive = self.health > 0;
        self.health = self.health.saturating_sub(damage);
        if was_alive && self.health == 0 {
            self.knockdown_count = self.knockdown_count.saturating_add(1);
        }
    }

    /// Whether the fighter, just knocked down, gets back up on `roll` when
    /// `cap` recoveries are allowed per match.
    pub fn can_get_up(&self, roll: StatValue, cap: StatValue) -> (r: bool)
        ensures
            r == recovers(self.knockdowns(), self.current(Stat::Conviction), roll as int, cap as int),
    {
        let conviction = self.stat(Stat::Conviction);
        self.knockdown_count >= 1 && self.knockdown_count <= cap
            && roll as u32 + conviction as u32 > RECOVERY_THRESHOLD as u32
            + self.knockdown_count as u32 - 1
    }

    /// The place in `rolls` of the first roll on which the fighter, just
    /// knocked down, gets back up when `cap` recoveries are allowed.
    pub fn first_recovery(&self, rolls: &[StatValue], cap: StatValue) -> (r: Option<usize>)
        ensures
            first_up(self.knockdowns(), self.current(Stat::Conviction), rolls@, cap as int, r),
    {
        let mut i: usize = 0;
        while i < rolls.len()
            invariant
                i <= rolls@.len(),
                forall|k: int|
                    0 <= k < i ==> !recovers(
                        self.knockdowns(),
                        self.current(Stat::Conviction),
                        #[trigger] rolls@[k] as int,
                        cap as int,
                    ),
            decreases rolls@.len() - i,
        {
            if self.can_get_up(rolls[i], cap) {
                return Some(i);
            }
            i = i + 1;
        }
        None
    }

    /// Adds `max(1, roll - speed)` to the readiness counter.
    pub fn do_speed_roll(&mut self, roll: StatValue)
        requires
            roll <= READY_RANGE,
            old(self).counter() <= u16::MAX - READY_RANGE,
        ensures
            final(self).counter() == old(self).counter() + speed_step(
                roll as int,
                old(self).current(Stat::Speed),
            ),
            old(self).same_but_counter(*final(self)),
    {
        let speed = self.stat(Stat::Speed);
        let step = roll.saturating_sub(speed);
        let step = if step < 1 {
            1
        } else {
            step
        };
        self.speed_roll = self.speed_roll + step;
    }

    /// Moves the readiness counter back by `elapsed`, stopping at zero.
    pub fn end_turn(&mut self, elapsed: StatValue)
        ensures
            final(self).counter() == clamp_stat(old(self).counter() - elapsed),
            old(self).same_but_counter(*final(self)),
    {
        self.speed_roll = self.speed_roll.saturating_sub(elapsed);
    }

    /// Gets back up, with the bonus that `boosted` describes.
    pub fn get_back_up(&mut self)
        ensures
            old(self).boosted(*final(self)),
            final(self).counter() == old(self).counter(),
            final(self).knockdowns() == old(self).knockdowns(),
    {
        let conviction = self.stat(Stat::Conviction) as u32;
        self.mods.raise(Stat::Attack, conviction * RECOVERY_BODY_BONUS);
        self.mods.raise(Stat::Defense, conviction * RECOVERY_BODY_BONUS);
        self.mods.raise(Stat::Speed, conviction * RECOVERY_BODY_BONUS);
        self.mods.raise(Stat::Accuracy, conviction * RECOVERY_SKILL_BONUS);
        self.mods.raise(Stat::Dodge, conviction * RECOVERY_SKILL_BONUS);
        let health = conviction * RECOVERY_HEALTH;
        self.health = if health > u16::MAX as u32 {
            u16::MAX
        } else {
            health as u16
        };
    }
}

/// A fresh state of a fighter whose build follows the point-buy rules has,
/// for every stat, exactly the affine transform of the invested points.
pub proof fn lemma_fresh_current_stat(c: FightFighter, f: Fighter, s: Stat)
    requires
        f.is_regular(),
        c.is_fresh(f),
    ensures
        c.current(s) == affine_value(s, f.points(s) as int),
{
    assert(f.points(s) <= 5);
    assert(c.modifier(s) == 0);
}

/// A fighter that gets back up on a roll of the recovery die has health
/// left again.
pub proof fn lemma_recovery_restores_health(pre: FightFighter, post: FightFighter, roll: int, cap: int)
    requires
        roll <= RECOVERY_RANGE,
        recovers(pre.knockdowns(), pre.current(Stat::Conviction), roll, cap),
        pre.boosted(post),
    ensures
        post.alive(),
{
    assert(pre.current(Stat::Conviction) >= 1);
}

/// A fighter knocked down when its knockdown count already stands at the
/// recovery cap does not get back up, whatever it rolls.
pub proof fn lemma_recovery_cap(pre: FightFighter, post: FightFighter, damage: int, cap: int, roll: int)
    requires
        pre.alive(),
        pre.knockdowns() == cap,
        cap < u16::MAX,
        pre.hurt(post, damage),
        !post.alive(),
    ensures
        !recovers(post.knockdowns(), post.current(Stat::Conviction), roll, cap),
{
}

} // verus!
