//! The combat attributes and the transform from invested points to
//! effective values.
use vstd::prelude::*;

verus! {

/// An invested point count or an effective stat value.
pub type StatValue = u16;

/// An additive modifier laid over an effective stat value.
pub type SignedStatValue = i32;

/// The number of points every regular fighter invests in total.
pub const TOTAL_POINTS: StatValue = 18;

/// The most points a regular fighter invests in one stat.
pub const MAX_STAT_POINTS: StatValue = 5;

/// The closed set of combat attributes.
#[derive(Debug, Clone, Copy, PartialEq, Eq, Structural)]
pub enum Stat {
    Health,
    Attack,
    Defense,
    Speed,
    Accuracy,
    Dodge,
    Conviction,
}

/// The affine transform of `x` invested points of `stat`, before clamping.
pub open spec fn affine_value(stat: Stat, x: int) -> int {
    match stat {
        Stat::Health => x * 325 + 1000,
        Stat::Attack => x * 15,
        Stat::Defense => x * 15,
        Stat::Speed => x * 8,
        Stat::Accuracy => x * 100,
        Stat::Dodge => x * 100 + 250,
        Stat::Conviction => x,
    }
}

/// `v` held to the range of a `StatValue`.
pub open spec fn clamp_stat(v: int) -> int {
    if v < 0 {
        0
    } else if v > u16::MAX {
        u16::MAX as int
    } else {
        v
    }
}

impl Stat {
    /// The effective value of `x` invested points: the affine transform,
    /// saturated at the largest `StatValue`.
    pub fn effective_value(self, x: StatValue) -> (r: StatValue)
        ensures
            r == clamp_stat(affine_value(self, x as int)),
    {
        let p = x as u32;
        let v: u32 = match self {
            Stat::Health => p * 325 + 1000,
            Stat::Attack => p * 15,
            Stat::Defense => p * 15,
            Stat::Speed => p * 8,
            Stat::Accuracy => p * 100,
            Stat::Dodge => p * 100 + 250,
            Stat::Conviction => p,
        };
        if v > u16::MAX as u32 {
            u16::MAX
        } else {
            v as u16
        }
    }
}

/// `base` moved by `delta`, saturating at both ends of the `StatValue` range.
pub fn apply_modifier(base: StatValue, delta: SignedStatValue) -> (r: StatValue)
    ensures
        r == clamp_stat(base + delta),
{
    let v: i64 = base as i64 + delta as i64;
    if v < 0 {
        0
    } else if v > u16::MAX as i64 {
        u16::MAX
    } else {
        v as u16
    }
}

} // verus!
