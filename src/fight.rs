//! A match between two teams: the turn scheduler, the attack resolution
//! and the loop that runs turns until one team is left standing.
use vstd::prelude::*;
use rand::rngs::SmallRng;
use crate::attack::{damage_dealt, damage_of, hit_succeeds, hits};
use crate::dice::{coin, roll, seeded};
use crate::fight_fighter::{
    first_up, lemma_recovery_restores_health, recovers, speed_step, stacked, FightFighter,
    READY_RANGE, RECOVERY_BODY_BONUS, RECOVERY_CAP, RECOVERY_RANGE, RECOVERY_SKILL_BONUS,
};
use crate::fighter::Fighter;
use crate::stats::{clamp_stat, Stat, StatValue};

verus! {

/// Hit rolls are drawn from `1..=HIT_RANGE`.
pub const HIT_RANGE: StatValue = 1000;

/// Damage rolls are drawn from `1..=DAMAGE_RANGE`.
pub const DAMAGE_RANGE: StatValue = 200;

/// By default, a downed fighter rolls this many times to get back up.
pub const RECOVERY_ATTEMPTS: StatValue = 10;

/// A match that reaches this many turns with both teams standing ends
/// without a winner.
pub const MAX_TURNS: u64 = 0xffff_ffff_ffff_ffff;

/// One step of a match, in the order it happened. Fighters are named by
/// their place in the match: the first team's fighters first.
#[derive(Debug, Clone, Copy, PartialEq, Eq, Structural)]
pub enum FightEvent {
    /// A new turn begins.
    TurnStarted { turn: u64 },
    /// The fighter at `attacker` attacks the one at `defender`.
    Attack { attacker: usize, defender: usize },
    /// The hit roll, the attacker's accuracy and the defender's dodge.
    HitRoll { roll: StatValue, accuracy: StatValue, dodge: StatValue },
    /// The attack misses.
    Miss,
    /// The hit is a critical.
    Critical,
    /// The damage roll and the attacker's attack, both before the critical
    /// factor, the defender's defense, and the damage dealt.
    Damage { roll: StatValue, attack: StatValue, defense: StatValue, damage: StatValue },
    /// The defender is still standing with this much health.
    HealthLeft { fighter: usize, health: StatValue },
    /// The defender goes down.
    Down { fighter: usize },
    /// A recovery roll failed; `count` rolls have been made.
    Count { count: StatValue },
    /// The defender gets back up with this much health.
    Recovered { fighter: usize, health: StatValue },
    /// The defender stays down for the rest of the match.
    Eliminated { fighter: usize },
    /// The team at `winner_team` (0 or 1) has won.
    FightOver { winner_team: usize },
}

/// What one turn did, with every value drawn for it.
#[derive(Debug, Clone)]
pub struct TurnReport {
    /// Who attacked.
    pub attacker: usize,
    /// The coins flipped on ties while the scheduler scanned for the attacker.
    pub tie_coins: Vec<bool>,
    /// Who was attacked.
    pub defender: usize,
    /// The drawn place of the defender among the living fighters of its team.
    pub defender_draw: usize,
    /// The hit roll.
    pub hit_roll: StatValue,
    /// Whether the attack hit.
    pub hit: bool,
    /// Whether the hit was a critical.
    pub crit: bool,
    /// The damage roll, zero on a miss.
    pub damage_roll: StatValue,
    /// The damage dealt, zero on a miss.
    pub damage: StatValue,
    /// The recovery rolls of a downed defender; empty if it stayed up.
    pub recovery_rolls: Vec<StatValue>,
    /// The place in `recovery_rolls` of the roll on which it got back up.
    pub recovered_on: Option<usize>,
    /// The roll on which a downed defender got back up.
    pub recovery_roll: Option<StatValue>,
    /// The roll that set the attacker's next readiness increment.
    pub ready_roll: StatValue,
}

/// A fighter `c` as a match starts for `f`: fresh, with a first readiness
/// counter of `max(1, x - speed)` for a roll `x` drawn from `1..=READY_RANGE`.
pub open spec fn starts_as(c: FightFighter, f: Fighter) -> bool {
    &&& c.base() == f
    &&& c.health_value() == f.effective(Stat::Health)
    &&& forall|s: Stat| #[trigger] c.modifier(s) == 0
    &&& c.knockdowns() == 0
    &&& 1 <= c.counter() <= READY_RANGE
    &&& exists|x: int|
        1 <= x <= READY_RANGE && #[trigger] speed_step(x, c.current(Stat::Speed)) == c.counter()
}

/// The defender `o` becomes `n` (counter aside) when hit for `damage`, and
/// gets back up on `recovery` if that holds a roll, with `cap` recoveries
/// allowed.
pub open spec fn struck(
    o: FightFighter,
    n: FightFighter,
    damage: int,
    recovery: Option<StatValue>,
    cap: int,
) -> bool {
    let h = clamp_stat(o.health_value() - damage);
    let kd = if o.alive() && h == 0 {
        clamp_stat(o.knockdowns() + 1)
    } else {
        o.knockdowns()
    };
    &&& n.knockdowns() == kd
    &&& n.base() == o.base()
    &&& match recovery {
        Some(x) => {
            &&& h == 0
            &&& 1 <= x <= RECOVERY_RANGE
            &&& recovers(kd, o.current(Stat::Conviction), x as int, cap)
            &&& o.boosted(n)
        },
        None => {
            &&& n.health_value() == h
            &&& forall|s: Stat| #[trigger] n.modifier(s) == o.modifier(s)
        },
    }
}

/// `post` holds `pre` as its beginning.
pub open spec fn extends(pre: Seq<FightEvent>, post: Seq<FightEvent>) -> bool {
    &&& pre.len() <= post.len()
    &&& forall|k: int| 0 <= k < pre.len() ==> #[trigger] post[k] == pre[k]
}

/// The scheduler's scan over the first `n` fighters of `r`, flipping the
/// coins of `coins` in turn: the first living fighter is held; a later
/// living one with a lower counter replaces it; on an equal counter the next
/// coin decides, `true` for the later one. Gives the held position (-1 for
/// none) and the number of coins used.
pub open spec fn pick_fold(r: Seq<FightFighter>, coins: Seq<bool>, n: nat) -> (int, int)
    decreases n,
{
    if n == 0 {
        (-1, 0)
    } else {
        let p = pick_fold(r, coins, (n - 1) as nat);
        let b = p.0;
        let used = p.1;
        let i = n - 1;
        if !r[i].alive() {
            p
        } else if b < 0 || r[i].counter() < r[b].counter() {
            (i, used)
        } else if r[i].counter() == r[b].counter() {
            (if coins[used] {
                i
            } else {
                b
            }, used + 1)
        } else {
            p
        }
    }
}

/// The scan reads no coin beyond those it uses.
proof fn lemma_fold_prefix(r: Seq<FightFighter>, c1: Seq<bool>, c2: Seq<bool>, n: nat)
    requires
        pick_fold(r, c1, n).1 <= c1.len(),
        c1.len() <= c2.len(),
        forall|k: int| 0 <= k < c1.len() ==> c2[k] == c1[k],
    ensures
        pick_fold(r, c2, n) == pick_fold(r, c1, n),
        pick_fold(r, c1, n).1 >= 0,
    decreases n,
{
    if n > 0 {
        let p1 = pick_fold(r, c1, (n - 1) as nat);
        assert(p1.1 <= pick_fold(r, c1, n).1);
        lemma_fold_prefix(r, c1, c2, (n - 1) as nat);
        if 0 <= p1.1 < c1.len() {
            assert(c2[p1.1] == c1[p1.1]);
        }
    }
}

/// The living positions among `lo..hi` of `r`, in order.
pub open spec fn living_upto(r: Seq<FightFighter>, lo: int, hi: int) -> Seq<usize>
    decreases hi - lo,
{
    if hi <= lo {
        Seq::empty()
    } else {
        let p = living_upto(r, lo, hi - 1);
        if r[hi - 1].alive() {
            p.push((hi - 1) as usize)
        } else {
            p
        }
    }
}

/// The `Count` events of `n` failed recovery rolls: 1, 2, ..., `n`.
pub open spec fn count_events(n: int) -> Seq<FightEvent> {
    Seq::new(n as nat, |k: int| FightEvent::Count { count: (k + 1) as u16 })
}

/// The events of the fighter at `d` going down: `Down`, a `Count` for each
/// failed recovery roll, then `Recovered` with `health` if the roll at
/// `recovered_on` succeeded, else `Eliminated` after all `attempts` rolls.
pub open spec fn down_events(
    d: usize,
    recovered_on: Option<usize>,
    attempts: int,
    health: int,
) -> Seq<FightEvent> {
    seq![FightEvent::Down { fighter: d }] + match recovered_on {
        Some(i) => count_events(i as int).push(
            FightEvent::Recovered { fighter: d, health: health as u16 },
        ),
        None => count_events(attempts).push(FightEvent::Eliminated { fighter: d }),
    }
}

/// The events of a turn numbered `turn` that went as `r` says, from the
/// fighters `o` at its start to `n` at its end: `TurnStarted`, `Attack`,
/// `HitRoll`; then `Miss`, or `Critical` on a critical, `Damage`, and
/// `HealthLeft` or the events of going down.
pub open spec fn turn_events(
    o: Seq<FightFighter>,
    n: Seq<FightFighter>,
    r: TurnReport,
    turn: int,
) -> Seq<FightEvent> {
    let a = r.attacker as int;
    let d = r.defender as int;
    let opening = seq![
        FightEvent::TurnStarted { turn: turn as u64 },
        FightEvent::Attack { attacker: r.attacker, defender: r.defender },
        FightEvent::HitRoll {
            roll: r.hit_roll,
            accuracy: o[a].current(Stat::Accuracy) as u16,
            dodge: o[d].current(Stat::Dodge) as u16,
        },
    ];
    if !r.hit {
        opening.push(FightEvent::Miss)
    } else {
        let left = clamp_stat(o[d].health_value() - r.damage);
        let critical = if r.crit {
            seq![FightEvent::Critical]
        } else {
            Seq::empty()
        };
        let damage = FightEvent::Damage {
            roll: r.damage_roll,
            attack: o[a].current(Stat::Attack) as u16,
            defense: o[d].current(Stat::Defense) as u16,
            damage: r.damage,
        };
        let after = if left > 0 {
            seq![FightEvent::HealthLeft { fighter: r.defender, health: left as u16 }]
        } else {
            down_events(r.defender, r.recovered_on, r.recovery_rolls@.len() as int, n[d].health_value())
        };
        opening + critical.push(damage) + after
    }
}

/// The events of the first `n` turns of the history `h`, whose turns
/// went as `reps` say.
pub open spec fn history_events<'a>(h: Seq<Fight<'a>>, reps: Seq<TurnReport>, n: nat) -> Seq<
    FightEvent,
>
    decreases n,
{
    if n == 0 {
        Seq::empty()
    } else {
        history_events(h, reps, (n - 1) as nat) + turn_events(
            h[n - 1].roster(),
            h[n as int].roster(),
            reps[n - 1],
            h[n as int].turns(),
        )
    }
}

/// The events of the first `n` turns read only those turns.
proof fn lemma_history_prefix<'a>(
    h: Seq<Fight<'a>>,
    reps: Seq<TurnReport>,
    h2: Seq<Fight<'a>>,
    reps2: Seq<TurnReport>,
    n: nat,
)
    requires
        n < h.len(),
        n < h2.len(),
        n <= reps.len(),
        n <= reps2.len(),
        forall|i: int| 0 <= i <= n ==> h2[i] == h[i],
        forall|i: int| 0 <= i < n ==> reps2[i] == reps[i],
    ensures
        history_events(h2, reps2, n) == history_events(h, reps, n),
    decreases n,
{
    if n > 0 {
        lemma_history_prefix(h, reps, h2, reps2, (n - 1) as nat);
        assert(h2[n - 1] == h[n - 1]);
        assert(h2[n as int] == h[n as int]);
        assert(reps2[n - 1] == reps[n - 1]);
    }
}

/// In any turn, a defender whose knockdown count already stands at the
/// recovery cap and whose health the hit brings to zero stays down, with
/// no recovery bonus, whatever it rolls.
pub proof fn lemma_turn_respects_cap<'a>(pre: Fight<'a>, post: Fight<'a>, r: TurnReport)
    requires
        pre.ticks_to(post, r),
        r.hit,
        pre.roster()[r.defender as int].knockdowns() == pre.cap(),
        pre.cap() < u16::MAX,
        clamp_stat(pre.roster()[r.defender as int].health_value() - r.damage) == 0,
    ensures
        !post.roster()[r.defender as int].alive(),
        r.recovered_on is None,
        forall|s: Stat|
            #[trigger] post.roster()[r.defender as int].modifier(s) == pre.roster()[
                r.defender as int
            ].modifier(s),
{
}

/// `struck` speaks of no readiness counter.
proof fn lemma_struck_ignores_counter(
    o: FightFighter,
    n: FightFighter,
    m: FightFighter,
    damage: int,
    recovery: Option<StatValue>,
    cap: int,
)
    requires
        struck(o, n, damage, recovery, cap),
        n.same_but_counter(m),
    ensures
        struck(o, m, damage, recovery, cap),
{
    if recovery is Some {
        assert forall|s: Stat| #[trigger] m.modifier(s) == n.modifier(s) by {}
    }
}

/// A match: the fighters of both teams in one list, the first team first,
/// the recovery cap, the recovery rolls per knockdown, the turns taken so
/// far, and the seeded generator.
pub struct Fight<'a> {
    fighters: Vec<FightFighter<'a>>,
    team_size: usize,
    recovery_cap: StatValue,
    recovery_attempts: StatValue,
    turn: u64,
    rng: SmallRng,
}

impl<'a> Fight<'a> {
    /// The fighters, the first team first.
    pub closed spec fn roster(&self) -> Seq<FightFighter<'a>> {
        self.fighters@
    }

    /// The size of the first team.
    pub closed spec fn split(&self) -> int {
        self.team_size as int
    }

    /// How many recoveries each fighter is allowed.
    pub closed spec fn cap(&self) -> int {
        self.recovery_cap as int
    }

    /// How many recovery rolls a downed fighter makes.
    pub closed spec fn attempts(&self) -> int {
        self.recovery_attempts as int
    }

    /// The turns taken so far.
    pub closed spec fn turns(&self) -> int {
        self.turn as int
    }

    /// Position `i` belongs to team `t` (0 or 1).
    pub open spec fn on_team(&self, t: int, i: int) -> bool {
        if t == 0 {
            0 <= i < self.split()
        } else {
            self.split() <= i < self.roster().len()
        }
    }

    /// The team of position `i`.
    pub open spec fn team_of(&self, i: int) -> int {
        if i < self.split() {
            0
        } else {
            1
        }
    }

    /// The living positions of team `t`, in order.
    pub open spec fn living_of(&self, t: int) -> Seq<usize> {
        if t == 0 {
            living_upto(self.roster(), 0, self.split())
        } else {
            living_upto(self.roster(), self.split(), self.roster().len() as int)
        }
    }

    /// Team `t` has a fighter with health left.
    pub open spec fn team_alive(&self, t: int) -> bool {
        exists|i: int| self.on_team(t, i) && #[trigger] self.roster()[i].alive()
    }

    /// Both teams are non-empty and every readiness counter is at most `READY_RANGE`.
    pub open spec fn wf(&self) -> bool {
        &&& 0 < self.split() < self.roster().len()
        &&& forall|i: int|
            0 <= i < self.roster().len() ==> #[trigger] self.roster()[i].counter() <= READY_RANGE
    }

    /// A match between `t1` and `t2`, seeded with `seed`, that allows each
    /// fighter `RECOVERY_CAP` recoveries of `RECOVERY_ATTEMPTS` rolls each.
    pub fn new(t1: &[&'a Fighter], t2: &[&'a Fighter], seed: u64) -> (r: Fight<'a>)
        requires
            t1@.len() >= 1,
            t2@.len() >= 1,
        ensures
            r.wf(),
            r.split() == t1@.len(),
            r.roster().len() == t1@.len() + t2@.len(),
            r.cap() == RECOVERY_CAP,
            r.attempts() == RECOVERY_ATTEMPTS,
            r.turns() == 0,
            forall|i: int| 0 <= i < t1@.len() ==> starts_as(#[trigger] r.roster()[i], *t1@[i]),
            forall|i: int|
                0 <= i < t2@.len() ==> starts_as(#[trigger] r.roster()[t1@.len() + i], *t2@[i]),
            r.team_alive(0),
            r.team_alive(1),
    {
        Self::with_rules(t1, t2, seed, RECOVERY_CAP, RECOVERY_ATTEMPTS)
    }

    /// A match between `t1` and `t2`, seeded with `seed`, that allows each
    /// fighter `cap` recoveries and gives a downed fighter `attempts` rolls
    /// to get back up.
    pub fn with_rules(
        t1: &[&'a Fighter],
        t2: &[&'a Fighter],
        seed: u64,
        cap: StatValue,
        attempts: StatValue,
    ) -> (r: Fight<'a>)
        requires
            t1@.len() >= 1,
            t2@.len() >= 1,
        ensures
            r.wf(),
            r.split() == t1@.len(),
            r.roster().len() == t1@.len() + t2@.len(),
            r.cap() == cap,
            r.attempts() == attempts,
            r.turns() == 0,
            forall|i: int| 0 <= i < t1@.len() ==> starts_as(#[trigger] r.roster()[i], *t1@[i]),
            forall|i: int|
                0 <= i < t2@.len() ==> starts_as(#[trigger] r.roster()[t1@.len() + i], *t2@[i]),
            r.team_alive(0),
            r.team_alive(1),
    {
        let mut rng = seeded(seed);
        let mut fighters: Vec<FightFighter<'a>> = Vec::new();
        let mut i: usize = 0;
        while i < t1.len()
            invariant
                i <= t1@.len(),
                fighters@.len() == i,
                forall|k: int| 0 <= k < i ==> starts_as(#[trigger] fighters@[k], *t1@[k]),
            decreases t1@.len() - i,
        {
            let mut f = FightFighter::new(t1[i]);
            let r = roll(&mut rng, 1, READY_RANGE as usize) as StatValue;
            f.do_speed_roll(r);
            proof {
                assert(speed_step(r as int, f.current(Stat::Speed)) == f.counter());
            }
            fighters.push(f);
            i = i + 1;
        }
        let mut j: usize = 0;
        while j < t2.len()
            invariant
                j <= t2@.len(),
                fighters@.len() == t1@.len() + j,
                forall|k: int| 0 <= k < t1@.len() ==> starts_as(#[trigger] fighters@[k], *t1@[k]),
                forall|k: int|
                    0 <= k < j ==> starts_as(#[trigger] fighters@[t1@.len() + k], *t2@[k]),
            decreases t2@.len() - j,
        {
            let mut f = FightFighter::new(t2[j]);
            let r = roll(&mut rng, 1, READY_RANGE as usize) as StatValue;
            f.do_speed_roll(r);
            proof {
                assert(speed_step(r as int, f.current(Stat::Speed)) == f.counter());
            }
            fighters.push(f);
            proof {
                assert(fighters@[t1@.len() + j as int] == f);
            }
            j = j + 1;
        }
        proof {
            assert forall|k: int| 0 <= k < fighters@.len() implies #[trigger] fighters@[k].counter()
                <= READY_RANGE by {
                if k < t1@.len() {
                    assert(starts_as(fighters@[k], *t1@[k]));
                } else {
                    assert(starts_as(fighters@[t1@.len() + (k - t1@.len())], *t2@[k - t1@.len()]));
                }
            }
        }
        let r = Fight {
            fighters,
            team_size: t1.len(),
            recovery_cap: cap,
            recovery_attempts: attempts,
            turn: 0,
            rng,
        };
        proof {
            assert(starts_as(r.roster()[0], *t1@[0]));
            assert(r.on_team(0, 0) && r.roster()[0].alive());
            assert(starts_as(r.roster()[t1@.len() + 0int], *t2@[0]));
            assert(r.on_team(1, t1@.len() as int) && r.roster()[t1@.len() as int].alive());
        }
        r
    }

    /// The scheduler's choice of attacker, with the coins it flipped: the
    /// scan of `pick_fold`, which holds a living fighter with the lowest
    /// readiness counter. Only the generator changes.
    pub fn next_attacker(&mut self) -> (r: (usize, Vec<bool>))
        requires
            old(self).wf(),
            old(self).team_alive(0) || old(self).team_alive(1),
        ensures
            final(self).roster() == old(self).roster(),
            final(self).split() == old(self).split(),
            final(self).cap() == old(self).cap(),
            final(self).attempts() == old(self).attempts(),
            final(self).turns() == old(self).turns(),
            pick_fold(old(self).roster(), r.1@, old(self).roster().len()) == (
            r.0 as int,
            r.1@.len() as int,
            ),
            r.0 < old(self).roster().len(),
            old(self).roster()[r.0 as int].alive(),
            forall|j: int|
                0 <= j < old(self).roster().len() && #[trigger] old(self).roster()[j].alive()
                    ==> old(self).roster()[r.0 as int].counter() <= old(self).roster()[j].counter(),
    {
        let n = self.fighters.len();
        let mut best: usize = n;
        let mut coins: Vec<bool> = Vec::new();
        let mut i: usize = 0;
        while i < n
            invariant
                n == self.fighters@.len(),
                self.fighters@ == old(self).fighters@,
                self.team_size == old(self).team_size,
                self.recovery_cap == old(self).recovery_cap,
                self.recovery_attempts == old(self).recovery_attempts,
                self.turn == old(self).turn,
                i <= n,
                best == n || (best < i && self.fighters@[best as int].alive()),
                best == n ==> forall|j: int| 0 <= j < i ==> !(#[trigger] self.fighters@[j].alive()),
                best < n ==> forall|j: int|
                    0 <= j < i && #[trigger] self.fighters@[j].alive()
                        ==> self.fighters@[best as int].counter() <= self.fighters@[j].counter(),
                pick_fold(self.fighters@, coins@, i as nat) == (
                    if best == n {
                        -1
                    } else {
                        best as int
                    },
                    coins@.len() as int,
                ),
            decreases n - i,
        {
            let ghost held_coins = coins@;
            if self.fighters[i].is_alive() {
                if best == n {
                    best = i;
                } else {
                    let held = self.fighters[best].speed_roll();
                    let here = self.fighters[i].speed_roll();
                    if here < held {
                        best = i;
                    } else if here == held {
                        let c = coin(&mut self.rng);
                        coins.push(c);
                        proof {
                            lemma_fold_prefix(self.fighters@, held_coins, coins@, i as nat);
                        }
                        if c {
                            best = i;
                        }
                    }
                }
            }
            i = i + 1;
        }
        proof {
            if best == n {
                if self.team_alive(0) {
                    let j = choose|j: int| self.on_team(0, j) && #[trigger] self.roster()[j].alive();
                    assert(self.fighters@[j].alive());
                } else {
                    let j = choose|j: int| self.on_team(1, j) && #[trigger] self.roster()[j].alive();
                    assert(self.fighters@[j].alive());
                }
            }
        }
        (best, coins)
    }

    /// The defender for `attacker`, with its drawn place: a fighter of the
    /// other team with health left, drawn uniformly among those. Only the
    /// generator changes.
    pub fn pick_defender(&mut self, attacker: usize) -> (r: (usize, usize))
        requires
            old(self).wf(),
            attacker < old(self).roster().len(),
            old(self).team_alive(1 - old(self).team_of(attacker as int)),
        ensures
            final(self).roster() == old(self).roster(),
            final(self).split() == old(self).split(),
            final(self).cap() == old(self).cap(),
            final(self).attempts() == old(self).attempts(),
            final(self).turns() == old(self).turns(),
            r.1 < old(self).living_of(1 - old(self).team_of(attacker as int)).len(),
            r.0 == old(self).living_of(1 - old(self).team_of(attacker as int))[r.1 as int],
            old(self).on_team(1 - old(self).team_of(attacker as int), r.0 as int),
            old(self).roster()[r.0 as int].alive(),
    {
        let n = self.fighters.len();
        let (lo, hi) = if attacker < self.team_size {
            (self.team_size, n)
        } else {
            (0, self.team_size)
        };
        let mut living: Vec<usize> = Vec::new();
        let mut i: usize = lo;
        while i < hi
            invariant
                n == self.fighters@.len(),
                self.fighters@ == old(self).fighters@,
                self.team_size == old(self).team_size,
                self.recovery_cap == old(self).recovery_cap,
                self.recovery_attempts == old(self).recovery_attempts,
                self.turn == old(self).turn,
                lo <= i <= hi,
                hi <= n,
                forall|k: int|
                    0 <= k < living@.len() ==> lo <= #[trigger] living@[k] < hi
                        && self.fighters@[living@[k] as int].alive(),
                living@.len() == 0 ==> forall|j: int|
                    lo <= j < i ==> !(#[trigger] self.fighters@[j].alive()),
                living@ == living_upto(self.fighters@, lo as int, i as int),
            decreases hi - i,
        {
            if self.fighters[i].is_alive() {
                living.push(i);
            }
            i = i + 1;
        }
        proof {
            let t = 1 - self.team_of(attacker as int);
            let j = choose|j: int| self.on_team(t, j) && #[trigger] self.roster()[j].alive();
            assert(lo <= j < hi);
            assert(living@.len() > 0);
        }
        let k = roll(&mut self.rng, 0, living.len() - 1);
        let d = living[k];
        proof {
            assert(lo <= living@[k as int] < hi);
        }
        (d, k)
    }

    /// Moves every readiness counter back by `elapsed`, stopping at zero.
    fn rebase(&mut self, elapsed: StatValue)
        ensures
            final(self).roster().len() == old(self).roster().len(),
            final(self).split() == old(self).split(),
            final(self).cap() == old(self).cap(),
            final(self).attempts() == old(self).attempts(),
            final(self).turns() == old(self).turns(),
            forall|i: int|
                0 <= i < old(self).roster().len() ==> {
                    &&& old(self).roster()[i].same_but_counter(#[trigger] final(self).roster()[i])
                    &&& final(self).roster()[i].counter() == clamp_stat(
                        old(self).roster()[i].counter() - elapsed,
                    )
                },
    {
        let n = self.fighters.len();
        let mut i: usize = 0;
        while i < n
            invariant
                n == self.fighters@.len(),
                n == old(self).fighters@.len(),
                self.team_size == old(self).team_size,
                self.recovery_cap == old(self).recovery_cap,
                self.recovery_attempts == old(self).recovery_attempts,
                self.turn == old(self).turn,
                i <= n,
                forall|k: int|
                    0 <= k < i ==> {
                        &&& old(self).fighters@[k].same_but_counter(#[trigger] self.fighters@[k])
                        &&& self.fighters@[k].counter() == clamp_stat(
                            old(self).fighters@[k].counter() - elapsed,
                        )
                    },
                forall|k: int| i <= k < n ==> #[trigger] self.fighters@[k] == old(self).fighters@[k],
            decreases n - i,
        {
            self.fighters[i].end_turn(elapsed);
            i = i + 1;
        }
    }


    /// A downed `def`, at position `d`, draws its recovery rolls and gets
    /// back up on the first that succeeds, if any; returns the rolls and the
    /// place of that roll.
    fn knock_down(&mut self, def: &mut FightFighter<'a>, d: usize, events: &mut Vec<FightEvent>) -> (r:
        (Vec<StatValue>, Option<usize>))
        requires
            !old(def).alive(),
        ensures
            final(self).roster() == old(self).roster(),
            final(self).split() == old(self).split(),
            final(self).cap() == old(self).cap(),
            final(self).attempts() == old(self).attempts(),
            final(self).turns() == old(self).turns(),
            r.0@.len() == old(self).attempts(),
            forall|k: int| 0 <= k < r.0@.len() ==> 1 <= #[trigger] r.0@[k] <= RECOVERY_RANGE,
            first_up(
                old(def).knockdowns(),
                old(def).current(Stat::Conviction),
                r.0@,
                old(self).cap(),
                r.1,
            ),
            match r.1 {
                Some(i) => {
                    &&& old(def).boosted(*final(def))
                    &&& final(def).knockdowns() == old(def).knockdowns()
                    &&& final(def).counter() == old(def).counter()
                },
                None => *final(def) == *old(def),
            },
            final(events)@ == old(events)@ + down_events(
                d,
                r.1,
                old(self).attempts(),
                final(def).health_value(),
            ),
    {
        events.push(FightEvent::Down { fighter: d });
        let ghost opened = events@;
        let attempts = self.recovery_attempts as usize;
        let mut rolls: Vec<StatValue> = Vec::new();
        while rolls.len() < attempts
            invariant
                rolls@.len() <= attempts,
                attempts == old(self).attempts(),
                self.fighters@ == old(self).fighters@,
                self.team_size == old(self).team_size,
                self.recovery_cap == old(self).recovery_cap,
                self.recovery_attempts == old(self).recovery_attempts,
                self.turn == old(self).turn,
                forall|k: int| 0 <= k < rolls@.len() ==> 1 <= #[trigger] rolls@[k] <= RECOVERY_RANGE,
            decreases attempts - rolls@.len(),
        {
            let x = roll(&mut self.rng, 1, RECOVERY_RANGE as usize) as StatValue;
            rolls.push(x);
        }
        let up = def.first_recovery(rolls.as_slice(), self.recovery_cap);
        let fails: usize = match up {
            Some(i) => i,
            None => rolls.len(),
        };
        let mut k: usize = 0;
        while k < fails
            invariant
                k <= fails,
                fails <= attempts,
                attempts <= u16::MAX,
                events@ == opened + count_events(k as int),
            decreases fails - k,
        {
            events.push(FightEvent::Count { count: (k + 1) as StatValue });
            proof {
                assert(count_events(k + 1) =~= count_events(k as int).push(
                    FightEvent::Count { count: (k + 1) as StatValue },
                ));
            }
            k = k + 1;
        }
        match up {
            Some(_) => {
                def.get_back_up();
                events.push(FightEvent::Recovered { fighter: d, health: def.stat(Stat::Health) });
            },
            None => {
                events.push(FightEvent::Eliminated { fighter: d });
            },
        }
        proof {
            assert(events@ =~= old(events)@ + down_events(
                d,
                up,
                old(self).attempts(),
                def.health_value(),
            ));
        }
        (rolls, up)
    }

    /// `post` is this match after one turn that went as `r` says: the
    /// attacker is a living fighter picked by the scan of `pick_fold`, the
    /// defender the drawn living fighter of the other team; the hit, the
    /// damage and the defender's fall and recovery follow the rolls; the
    /// attacker's counter is renewed and every counter rebased.
    pub open spec fn ticks_to(&self, post: Self, r: TurnReport) -> bool {
        let o = self.roster();
        let n = post.roster();
        let a = r.attacker as int;
        let d = r.defender as int;
        &&& post.wf()
        &&& n.len() == o.len()
        &&& post.split() == self.split()
        &&& post.cap() == self.cap()
        &&& post.attempts() == self.attempts()
        &&& post.turns() == self.turns() + 1
        &&& 0 <= a < o.len()
        &&& o[a].alive()
        &&& forall|j: int|
            0 <= j < o.len() && #[trigger] o[j].alive() ==> o[a].counter() <= o[j].counter()
        &&& self.on_team(1 - self.team_of(a), d)
        &&& o[d].alive()
        &&& 1 <= r.hit_roll <= HIT_RANGE
        &&& r.hit == hits(
            r.hit_roll as int,
            o[a].current(Stat::Accuracy),
            o[d].current(Stat::Dodge),
        )
        &&& !r.hit ==> {
            &&& !r.crit
            &&& r.damage_roll == 0
            &&& r.damage == 0
            &&& r.recovery_roll is None
            &&& o[d].same_but_counter(n[d])
        }
        &&& r.hit ==> {
            &&& r.crit == (r.hit_roll >= o[a].crit_threshold())
            &&& 1 <= r.damage_roll <= DAMAGE_RANGE
            &&& r.damage == damage_of(
                r.damage_roll as int,
                o[a].current(Stat::Attack),
                o[d].current(Stat::Defense),
                r.crit,
            )
            &&& struck(o[d], n[d], r.damage as int, r.recovery_roll, self.cap())
        }
        &&& forall|i: int| 0 <= i < o.len() && i != d ==> #[trigger] o[i].same_but_counter(n[i])
        &&& 1 <= r.ready_roll <= READY_RANGE
        &&& forall|i: int|
            0 <= i < o.len() ==> #[trigger] n[i].counter() == clamp_stat(
                o[i].counter() + (if i == a {
                    speed_step(r.ready_roll as int, o[a].current(Stat::Speed))
                } else {
                    0
                }) - o[a].counter(),
            )
        &&& n[a].counter() > 0
        &&& pick_fold(o, r.tie_coins@, o.len()) == (a, r.tie_coins@.len() as int)
        &&& r.defender_draw < self.living_of(1 - self.team_of(a)).len()
        &&& d == self.living_of(1 - self.team_of(a))[r.defender_draw as int]
        &&& r.recovery_roll == match r.recovered_on {
            Some(i) => Some(r.recovery_rolls@[i as int]),
            None => None,
        }
        &&& if r.hit && clamp_stat(o[d].health_value() - r.damage) == 0 {
            &&& r.recovery_rolls@.len() == self.attempts()
            &&& forall|k: int|
                0 <= k < r.recovery_rolls@.len() ==> 1 <= #[trigger] r.recovery_rolls@[k]
                    <= RECOVERY_RANGE
            &&& first_up(
                clamp_stat(o[d].knockdowns() + 1),
                o[d].current(Stat::Conviction),
                r.recovery_rolls@,
                self.cap(),
                r.recovered_on,
            )
        } else {
            &&& r.recovery_rolls@.len() == 0
            &&& r.recovered_on is None
        }
        &&& r.recovery_roll is Some ==> n[d].alive()
        &&& forall|i: int| 0 <= i < o.len() && !o[i].alive() ==> !(#[trigger] n[i].alive())
    }

    /// One turn: the scheduler picks the attacker, who attacks a living
    /// fighter of the other team; a hit hurts the defender, who may go down
    /// and get back up; then the attacker draws its next readiness increment
    /// and every counter moves back by the attacker's old counter.
    pub fn run_tick(&mut self, events: &mut Vec<FightEvent>) -> (r: TurnReport)
        requires
            old(self).wf(),
            old(self).team_alive(0),
            old(self).team_alive(1),
            old(self).turns() < MAX_TURNS,
        ensures
            old(self).ticks_to(*final(self), r),
            final(events)@ == old(events)@ + turn_events(
                old(self).roster(),
                final(self).roster(),
                r,
                final(self).turns(),
            ),
            extends(old(events)@, final(events)@),
    {
        let ghost o = self.fighters@;
        self.turn = self.turn + 1;
        events.push(FightEvent::TurnStarted { turn: self.turn });
        proof {
            assert(self.roster() == old(self).roster());
            assert(self.team_alive(0));
        }
        let (a, tie_coins) = self.next_attacker();
        proof {
            if a < self.team_size {
                assert(self.team_alive(1 - self.team_of(a as int)));
            } else {
                assert(self.team_alive(1 - self.team_of(a as int)));
            }
        }
        let (d, defender_draw) = self.pick_defender(a);
        events.push(FightEvent::Attack { attacker: a, defender: d });
        let att = self.fighters[a];
        let mut def = self.fighters[d];
        let hit_roll = roll(&mut self.rng, 1, HIT_RANGE as usize) as StatValue;
        let accuracy = att.stat(Stat::Accuracy);
        let dodge = def.stat(Stat::Dodge);
        events.push(FightEvent::HitRoll { roll: hit_roll, accuracy, dodge });
        let hit = hit_succeeds(hit_roll, accuracy, dodge);
        let mut crit = false;
        let mut damage_roll: StatValue = 0;
        let mut damage: StatValue = 0;
        let mut recovery_roll: Option<StatValue> = None;
        let mut recovery_rolls: Vec<StatValue> = Vec::new();
        let mut recovered_on: Option<usize> = None;
        if hit {
            crit = hit_roll >= att.crit_chance();
            if crit {
                events.push(FightEvent::Critical);
            }
            damage_roll = roll(&mut self.rng, 1, DAMAGE_RANGE as usize) as StatValue;
            let attack = att.stat(Stat::Attack);
            let defense = def.stat(Stat::Defense);
            damage = damage_dealt(damage_roll, attack, defense, crit);
            events.push(FightEvent::Damage { roll: damage_roll, attack, defense, damage });
            def.take_damage(damage);
            if def.is_alive() {
                events.push(FightEvent::HealthLeft { fighter: d, health: def.stat(Stat::Health) });
            } else {
                let ghost downed = def;
                let (rolls, up) = self.knock_down(&mut def, d, events);
                recovery_rolls = rolls;
                recovered_on = up;
                recovery_roll = match up {
                    Some(i) => Some(recovery_rolls[i]),
                    None => None,
                };
                proof {
                    if recovery_roll is Some {
                        assert(downed.current(Stat::Conviction) == o[d as int].current(
                            Stat::Conviction,
                        ));
                        let od = o[d as int];
                        let c = od.current(Stat::Conviction);
                        assert forall|s: Stat| #[trigger] def.modifier(s) == match s {
                            Stat::Attack | Stat::Defense | Stat::Speed => stacked(
                                od.modifier(s),
                                RECOVERY_BODY_BONUS * c,
                            ),
                            Stat::Accuracy | Stat::Dodge => stacked(
                                od.modifier(s),
                                RECOVERY_SKILL_BONUS * c,
                            ),
                            _ => od.modifier(s),
                        } by {
                            assert(downed.modifier(s) == o[d as int].modifier(s));
                        }
                        lemma_recovery_restores_health(
                            downed,
                            def,
                            recovery_roll->0 as int,
                            self.recovery_cap as int,
                        );
                    }
                }
            }
            self.fighters.set(d, def);
        } else {
            events.push(FightEvent::Miss);
        }
        let ghost mid = self.fighters@;
        let elapsed = att.speed_roll();
        let ready_roll = roll(&mut self.rng, 1, READY_RANGE as usize) as StatValue;
        self.fighters[a].do_speed_roll(ready_roll);
        let ghost sped = self.fighters@;
        self.rebase(elapsed);
        proof {
            let n = self.fighters@;
            if hit {
                lemma_struck_ignores_counter(
                    o[d as int],
                    mid[d as int],
                    n[d as int],
                    damage as int,
                    recovery_roll,
                    self.recovery_cap as int,
                );
            }
            assert forall|i: int| 0 <= i < n.len() implies #[trigger] n[i].counter() <= READY_RANGE by {
                if i == a {
                    assert(sped[i].counter() == o[i].counter() + speed_step(
                        ready_roll as int,
                        o[i].current(Stat::Speed),
                    ));
                } else {
                    assert(sped[i] == mid[i]);
                }
            }
        }
        let report = TurnReport {
            attacker: a,
            tie_coins,
            defender: d,
            defender_draw,
            hit_roll,
            hit,
            crit,
            damage_roll,
            damage,
            recovery_rolls,
            recovered_on,
            recovery_roll,
            ready_roll,
        };
        proof {
            assert(events@ =~= old(events)@ + turn_events(o, self.fighters@, report, self.turn as int));
        }
        report
    }


    /// Whether team `t` (0 or 1) has a fighter with health left.
    pub fn team_standing(&self, t: usize) -> (r: bool)
        requires
            self.wf(),
            t <= 1,
        ensures
            r == self.team_alive(t as int),
    {
        let (lo, hi) = if t == 0 {
            (0, self.team_size)
        } else {
            (self.team_size, self.fighters.len())
        };
        let mut i: usize = lo;
        while i < hi
            invariant
                lo <= i <= hi,
                hi <= self.fighters@.len(),
                forall|j: int| self.on_team(t as int, j) <==> lo <= j < hi,
                forall|j: int| lo <= j < i ==> !(#[trigger] self.fighters@[j].alive()),
            decreases hi - i,
        {
            if self.fighters[i].is_alive() {
                proof {
                    assert(self.on_team(t as int, i as int) && self.roster()[i as int].alive());
                }
                return true;
            }
            i = i + 1;
        }
        proof {
            assert(!self.team_alive(t as int)) by {
                assert forall|j: int| self.on_team(t as int, j) implies !(
                #[trigger] self.roster()[j].alive()) by {}
            }
        }
        false
    }

    /// `h` is a history of turns played from this match, `reps` their
    /// reports: each turn begins with both teams standing and goes as
    /// `ticks_to` says.
    pub open spec fn plays(&self, h: Seq<Fight<'a>>, reps: Seq<TurnReport>) -> bool {
        &&& h.len() == reps.len() + 1
        &&& h[0] == *self
        &&& forall|i: int|
            0 <= i < reps.len() ==> {
                &&& #[trigger] h[i].ticks_to(h[i + 1], reps[i])
                &&& h[i].team_alive(0)
                &&& h[i].team_alive(1)
            }
    }

    /// Runs turns until one team has no fighter with health left, and
    /// returns the first fighter of the other team; after `MAX_TURNS` turns
    /// with both teams standing, returns `None`. The match is a history of
    /// turns from the starting state to the final one; the events are those
    /// of its turns, then one `FightOver` when there is a winner.
    pub fn run(&mut self, events: &mut Vec<FightEvent>) -> (r: Option<&'a Fighter>)
        requires
            old(self).wf(),
            old(self).team_alive(0),
            old(self).team_alive(1),
        ensures
            exists|h: Seq<Fight<'a>>, reps: Seq<TurnReport>|
                {
                    &&& #[trigger] old(self).plays(h, reps)
                    &&& h.last() == *final(self)
                    &&& final(events)@ == old(events)@ + history_events(h, reps, reps.len()) + match r {
                        Some(_) => seq![
                            FightEvent::FightOver {
                                winner_team: if final(self).team_alive(0) {
                                    0
                                } else {
                                    1
                                },
                            },
                        ],
                        None => Seq::empty(),
                    }
                },
            final(self).wf(),
            match r {
                Some(w) => {
                    ||| {
                        &&& final(self).team_alive(0)
                        &&& !final(self).team_alive(1)
                        &&& *w == final(self).roster()[0].base()
                    }
                    ||| {
                        &&& final(self).team_alive(1)
                        &&& !final(self).team_alive(0)
                        &&& *w == final(self).roster()[final(self).split()].base()
                    }
                },
                None => {
                    &&& final(self).turns() == MAX_TURNS
                    &&& final(self).team_alive(0)
                    &&& final(self).team_alive(1)
                },
            },
    {
        let ghost mut h: Seq<Fight<'a>> = seq![*self];
        let ghost mut reps: Seq<TurnReport> = Seq::empty();
        proof {
            assert(events@ =~= old(events)@ + history_events(h, reps, 0));
        }
        loop
            invariant
                self.wf(),
                self.team_alive(0),
                self.team_alive(1),
                old(self).plays(h, reps),
                h.last() == *self,
                events@ == old(events)@ + history_events(h, reps, reps.len()),
            decreases MAX_TURNS - self.turn,
        {
            if self.turn == MAX_TURNS {
                proof {
                    assert(events@ =~= old(events)@ + history_events(h, reps, reps.len())
                        + Seq::empty());
                }
                return None;
            }
            let ghost before = *self;
            let ghost seen = events@;
            let report = self.run_tick(events);
            proof {
                let h2 = h.push(*self);
                let reps2 = reps.push(report);
                let n = reps.len();
                lemma_history_prefix(h, reps, h2, reps2, n);
                assert(h2[n as int] == before);
                assert(h2[n as int + 1] == *self);
                assert(reps2[n as int] == report);
                assert(history_events(h2, reps2, n + 1) == history_events(h, reps, n) + turn_events(
                    before.roster(),
                    self.roster(),
                    report,
                    self.turns(),
                ));
                assert(events@ =~= old(events)@ + history_events(h2, reps2, reps2.len()));
                assert forall|i: int| 0 <= i < reps2.len() implies {
                    &&& #[trigger] h2[i].ticks_to(h2[i + 1], reps2[i])
                    &&& h2[i].team_alive(0)
                    &&& h2[i].team_alive(1)
                } by {
                    if i < n {
                        assert(h2[i] == h[i]);
                        assert(h2[i + 1] == h[i + 1]);
                        assert(reps2[i] == reps[i]);
                    }
                }
                h = h2;
                reps = reps2;
                let a = report.attacker as int;
                assert(before.roster()[a].same_but_counter(self.roster()[a]));
                assert(self.on_team(self.team_of(a), a) && self.roster()[a].alive());
                assert(self.team_alive(self.team_of(a)));
            }
            if !self.team_standing(1) {
                let ghost played = events@;
                events.push(FightEvent::FightOver { winner_team: 0 });
                proof {
                    assert(events@ =~= old(events)@ + history_events(h, reps, reps.len()) + seq![
                        FightEvent::FightOver { winner_team: 0 },
                    ]);
                    assert(old(self).plays(h, reps));
                }
                return Some(self.fighters[0].fighter());
            }
            if !self.team_standing(0) {
                events.push(FightEvent::FightOver { winner_team: 1 });
                proof {
                    assert(events@ =~= old(events)@ + history_events(h, reps, reps.len()) + seq![
                        FightEvent::FightOver { winner_team: 1 },
                    ]);
                    assert(old(self).plays(h, reps));
                }
                return Some(self.fighters[self.team_size].fighter());
            }
        }
    }

    /// The number of fighters in the match.
    pub fn len(&self) -> (r: usize)
        ensures
            r == self.roster().len(),
    {
        self.fighters.len()
    }

    /// The size of the first team.
    pub fn team_size(&self) -> (r: usize)
        ensures
            r == self.split(),
    {
        self.team_size
    }

    /// The turns taken so far.
    pub fn turn_count(&self) -> (r: u64)
        ensures
            r == self.turns(),
    {
        self.turn
    }

    /// The state of the fighter at position `i`.
    pub fn fighter_state(&self, i: usize) -> (r: FightFighter<'a>)
        requires
            i < self.roster().len(),
        ensures
            r == self.roster()[i as int],
    {
        self.fighters[i]
    }

}

} // verus!
