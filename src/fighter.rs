//! A fighter's identity: a name and the points invested in each stat.
use vstd::prelude::*;
use crate::stats::{affine_value, clamp_stat, Stat, StatValue, MAX_STAT_POINTS, TOTAL_POINTS};

verus! {

/// A named fighter with a fixed number of points invested in each stat.
// One field per stat: an `enum_map::EnumMap` keyed by `Stat` would need
// enum_map's `Enum` derive on `Stat`, which verified code cannot carry.
#[derive(Debug)]
pub struct Fighter {
    name: String,
    health: StatValue,
    attack: StatValue,
    defense: StatValue,
    speed: StatValue,
    accuracy: StatValue,
    dodge: StatValue,
    conviction: StatValue,
}

/// Why a fighter's build breaks the point-buy rules.
#[derive(Debug, Clone, Copy, PartialEq, Eq, Structural)]
pub enum FighterStatError {
    /// The invested points do not add up to the required total; holds the sum.
    IncorrectPointTotal(u32),
    /// This stat holds more than the per-stat maximum.
    StatAboveMax(Stat),
}

/// The stats in their fixed order.
pub open spec fn stat_order() -> Seq<Stat> {
    seq![
        Stat::Health,
        Stat::Attack,
        Stat::Defense,
        Stat::Speed,
        Stat::Accuracy,
        Stat::Dodge,
        Stat::Conviction,
    ]
}

impl Stat {
    /// The stat at position `i` of the fixed order.
    pub fn nth(i: usize) -> (r: Stat)
        requires
            i < 7,
        ensures
            r == stat_order()[i as int],
    {
        match i {
            0 => Stat::Health,
            1 => Stat::Attack,
            2 => Stat::Defense,
            3 => Stat::Speed,
            4 => Stat::Accuracy,
            5 => Stat::Dodge,
            _ => Stat::Conviction,
        }
    }
}

impl Fighter {
    /// The name, as characters.
    pub closed spec fn name_view(&self) -> Seq<char> {
        self.name@
    }

    /// The points invested in `stat`.
    pub closed spec fn points(&self, stat: Stat) -> StatValue {
        match stat {
            Stat::Health => self.health,
            Stat::Attack => self.attack,
            Stat::Defense => self.defense,
            Stat::Speed => self.speed,
            Stat::Accuracy => self.accuracy,
            Stat::Dodge => self.dodge,
            Stat::Conviction => self.conviction,
        }
    }

    /// The sum of the invested points.
    pub open spec fn total_points(&self) -> int {
        self.points(Stat::Health) + self.points(Stat::Attack) + self.points(Stat::Defense)
            + self.points(Stat::Speed) + self.points(Stat::Accuracy) + self.points(Stat::Dodge)
            + self.points(Stat::Conviction)
    }

    /// The build follows the point-buy rules: no stat above the maximum,
    /// and the points add up to the total.
    pub open spec fn is_regular(&self) -> bool {
        &&& forall|s: Stat| #[trigger] self.points(s) <= MAX_STAT_POINTS
        &&& self.total_points() == TOTAL_POINTS
    }

    /// The effective value of `stat` for this fighter.
    pub open spec fn effective(&self, stat: Stat) -> int {
        clamp_stat(affine_value(stat, self.points(stat) as int))
    }

    /// The stats above the maximum, in the fixed order, among the first `n`.
    pub open spec fn stats_above_max(&self, n: nat) -> Seq<FighterStatError>
        decreases n,
    {
        if n == 0 {
            Seq::empty()
        } else {
            let s = stat_order()[n - 1];
            let earlier = self.stats_above_max((n - 1) as nat);
            if self.points(s) > MAX_STAT_POINTS {
                earlier.push(FighterStatError::StatAboveMax(s))
            } else {
                earlier
            }
        }
    }

    /// Every way in which the build breaks the point-buy rules: the stats
    /// above the maximum in the fixed order, then a wrong total.
    pub open spec fn stat_errors_spec(&self) -> Seq<FighterStatError> {
        let above = self.stats_above_max(7);
        if self.total_points() != TOTAL_POINTS {
            above.push(FighterStatError::IncorrectPointTotal(self.total_points() as u32))
        } else {
            above
        }
    }

    /// A fighter with the given name and invested points.
    pub fn new(
        name: String,
        health: StatValue,
        attack: StatValue,
        defense: StatValue,
        speed: StatValue,
        accuracy: StatValue,
        dodge: StatValue,
        conviction: StatValue,
    ) -> (r: Fighter)
        ensures
            r.name_view() == name@,
            r.points(Stat::Health) == health,
            r.points(Stat::Attack) == attack,
            r.points(Stat::Defense) == defense,
            r.points(Stat::Speed) == speed,
            r.points(Stat::Accuracy) == accuracy,
            r.points(Stat::Dodge) == dodge,
            r.points(Stat::Conviction) == conviction,
    {
        Fighter { name, health, attack, defense, speed, accuracy, dodge, conviction }
    }

    /// Whether the build follows the point-buy rules.
    pub fn validate(&self) -> (r: bool)
        ensures
            r == self.is_regular(),
    {
        let total: u32 = self.health as u32 + self.attack as u32 + self.defense as u32
            + self.speed as u32 + self.accuracy as u32 + self.dodge as u32
            + self.conviction as u32;
        let r = self.health <= MAX_STAT_POINTS && self.attack <= MAX_STAT_POINTS
            && self.defense <= MAX_STAT_POINTS && self.speed <= MAX_STAT_POINTS
            && self.accuracy <= MAX_STAT_POINTS && self.dodge <= MAX_STAT_POINTS
            && self.conviction <= MAX_STAT_POINTS && total == TOTAL_POINTS as u32;
        assert(r ==> forall|s: Stat| #[trigger] self.points(s) <= MAX_STAT_POINTS) by {
            assert forall|s: Stat| r implies #[trigger] self.points(s) <= MAX_STAT_POINTS by {
                match s {
                    Stat::Health => {},
                    Stat::Attack => {},
                    Stat::Defense => {},
                    Stat::Speed => {},
                    Stat::Accuracy => {},
                    Stat::Dodge => {},
                    Stat::Conviction => {},
                }
            }
        }
        proof {
            if !r && self.total_points() == TOTAL_POINTS as int {
                assert(!(forall|s: Stat| #[trigger] self.points(s) <= MAX_STAT_POINTS)) by {
                    if self.health > MAX_STAT_POINTS {
                        assert(self.points(Stat::Health) > MAX_STAT_POINTS);
                    } else if self.attack > MAX_STAT_POINTS {
                        assert(self.points(Stat::Attack) > MAX_STAT_POINTS);
                    } else if self.defense > MAX_STAT_POINTS {
                        assert(self.points(Stat::Defense) > MAX_STAT_POINTS);
                    } else if self.speed > MAX_STAT_POINTS {
                        assert(self.points(Stat::Speed) > MAX_STAT_POINTS);
                    } else if self.accuracy > MAX_STAT_POINTS {
                        assert(self.points(Stat::Accuracy) > MAX_STAT_POINTS);
                    } else if self.dodge > MAX_STAT_POINTS {
                        assert(self.points(Stat::Dodge) > MAX_STAT_POINTS);
                    } else {
                        assert(self.points(Stat::Conviction) > MAX_STAT_POINTS);
                    }
                }
            }
        }
        r
    }

    /// Every way in which the build breaks the point-buy rules, in the
    /// order of `stat_errors_spec`; empty exactly when `validate` holds.
    pub fn stat_errors(&self) -> (r: Vec<FighterStatError>)
        ensures
            r@ == self.stat_errors_spec(),
            r@.len() == 0 <==> self.is_regular(),
    {
        let mut errors: Vec<FighterStatError> = Vec::new();
        let mut i: usize = 0;
        while i < 7
            invariant
                i <= 7,
                errors@ == self.stats_above_max(i as nat),
            decreases 7 - i,
        {
            let s = Stat::nth(i);
            if self.raw_stat(s) > MAX_STAT_POINTS {
                errors.push(FighterStatError::StatAboveMax(s));
            }
            i = i + 1;
        }
        let total: u32 = self.health as u32 + self.attack as u32 + self.defense as u32
            + self.speed as u32 + self.accuracy as u32 + self.dodge as u32
            + self.conviction as u32;
        if total != TOTAL_POINTS as u32 {
            errors.push(FighterStatError::IncorrectPointTotal(total));
        }
        proof {
            assert(self.stats_above_max(0).len() == 0);
            assert(self.stats_above_max(1).len() == 0 <==> self.points(stat_order()[0])
                <= MAX_STAT_POINTS);
            assert(self.stats_above_max(2).len() == 0 <==> (self.stats_above_max(1).len() == 0
                && self.points(stat_order()[1]) <= MAX_STAT_POINTS));
            assert(self.stats_above_max(3).len() == 0 <==> (self.stats_above_max(2).len() == 0
                && self.points(stat_order()[2]) <= MAX_STAT_POINTS));
            assert(self.stats_above_max(4).len() == 0 <==> (self.stats_above_max(3).len() == 0
                && self.points(stat_order()[3]) <= MAX_STAT_POINTS));
            assert(self.stats_above_max(5).len() == 0 <==> (self.stats_above_max(4).len() == 0
                && self.points(stat_order()[4]) <= MAX_STAT_POINTS));
            assert(self.stats_above_max(6).len() == 0 <==> (self.stats_above_max(5).len() == 0
                && self.points(stat_order()[5]) <= MAX_STAT_POINTS));
            assert(self.stats_above_max(7).len() == 0 <==> (self.stats_above_max(6).len() == 0
                && self.points(stat_order()[6]) <= MAX_STAT_POINTS));
            assert(self.stats_above_max(7).len() == 0 <==> forall|k: int|
                0 <= k < 7 ==> self.points(stat_order()[k]) <= MAX_STAT_POINTS);
            assert((forall|k: int| 0 <= k < 7 ==> self.points(stat_order()[k]) <= MAX_STAT_POINTS)
                <==> (forall|s: Stat| #[trigger] self.points(s) <= MAX_STAT_POINTS)) by {
                if forall|k: int| 0 <= k < 7 ==> self.points(stat_order()[k]) <= MAX_STAT_POINTS {
                    assert forall|s: Stat| #[trigger] self.points(s) <= MAX_STAT_POINTS by {
                        match s {
                            Stat::Health => assert(stat_order()[0] == s),
                            Stat::Attack => assert(stat_order()[1] == s),
                            Stat::Defense => assert(stat_order()[2] == s),
                            Stat::Speed => assert(stat_order()[3] == s),
                            Stat::Accuracy => assert(stat_order()[4] == s),
                            Stat::Dodge => assert(stat_order()[5] == s),
                            Stat::Conviction => assert(stat_order()[6] == s),
                        }
                    }
                }
            }
        }
        errors
    }

    /// The fighter's name.
    pub fn name(&self) -> (r: &str)
        ensures
            r@ == self.name_view(),
    {
        self.name.as_str()
    }

    /// The effective value of `stat`: the transform of the invested points.
    pub fn stat(&self, stat: Stat) -> (r: StatValue)
        ensures
            r == self.effective(stat),
    {
        stat.effective_value(self.raw_stat(stat))
    }

    /// The points invested in `stat`.
    pub fn raw_stat(&self, stat: Stat) -> (r: StatValue)
        ensures
            r == self.points(stat),
    {
        match stat {
            Stat::Health => self.health,
            Stat::Attack => self.attack,
            Stat::Defense => self.defense,
            Stat::Speed => self.speed,
            Stat::Accuracy => self.accuracy,
            Stat::Dodge => self.dodge,
            Stat::Conviction => self.conviction,
        }
    }
}

} // verus!
