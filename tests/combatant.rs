use fighter_simulator::{
    damage_dealt, hit_succeeds, FightFighter, Fighter, Stat, CRIT_MULTIPLIER, MIN_DAMAGE,
    RECOVERY_CAP, RECOVERY_RANGE,
};

fn stats_of(points: [u16; 7]) -> Fighter {
    Fighter::new(
        String::from("Combatant"),
        points[0],
        points[1],
        points[2],
        points[3],
        points[4],
        points[5],
        points[6],
    )
}

const ALL: [Stat; 7] = [
    Stat::Health,
    Stat::Attack,
    Stat::Defense,
    Stat::Speed,
    Stat::Accuracy,
    Stat::Dodge,
    Stat::Conviction,
];

#[test]
fn fresh_state_has_the_transformed_stats() {
    let f = stats_of([3, 3, 3, 3, 2, 2, 2]);
    let c = FightFighter::new(&f);
    for s in ALL {
        assert_eq!(c.stat(s), s.effective_value(f.raw_stat(s)));
    }
    assert_eq!(c.stat(Stat::Health), 1975);
    assert_eq!(c.stat(Stat::Speed), 24);
    assert_eq!(c.speed_roll(), 0);
    assert_eq!(c.knockdown_count(), 0);
    assert!(c.is_alive());
    assert_eq!(c.name(), "Combatant");
    assert!(std::ptr::eq(c.fighter(), &f));
}

#[test]
fn damage_lowers_health_and_counts_knockdowns() {
    let f = stats_of([2, 4, 4, 4, 2, 2, 0]);
    let mut c = FightFighter::new(&f);
    c.take_damage(650);
    assert_eq!(c.stat(Stat::Health), 1000);
    assert_eq!(c.knockdown_count(), 0);
    c.take_damage(2000);
    assert_eq!(c.stat(Stat::Health), 0);
    assert!(!c.is_alive());
    assert_eq!(c.knockdown_count(), 1);
    c.take_damage(10);
    assert_eq!(c.stat(Stat::Health), 0);
    assert_eq!(c.knockdown_count(), 1);
}

#[test]
fn recovery_rule_needs_conviction_and_allowance() {
    let f = stats_of([3, 3, 3, 3, 1, 0, 5]);
    let mut c = FightFighter::new(&f);
    assert!(!c.can_get_up(50, RECOVERY_CAP));
    c.take_damage(u16::MAX);
    assert!(c.can_get_up(46, RECOVERY_CAP));
    assert!(!c.can_get_up(45, RECOVERY_CAP));
    assert!(!c.can_get_up(50, 0));
}

#[test]
fn zero_conviction_never_recovers() {
    let f = stats_of([4, 4, 4, 3, 3, 0, 0]);
    let mut c = FightFighter::new(&f);
    c.take_damage(u16::MAX);
    for roll in 1..=RECOVERY_RANGE {
        assert!(!c.can_get_up(roll, RECOVERY_CAP));
    }
}

#[test]
fn recovery_bonuses_stack() {
    let f = stats_of([3, 3, 3, 3, 1, 0, 5]);
    let mut c = FightFighter::new(&f);
    c.take_damage(u16::MAX);
    c.get_back_up();
    assert_eq!(c.stat(Stat::Health), 1000);
    assert_eq!(c.stat(Stat::Attack), 45 + 20);
    assert_eq!(c.stat(Stat::Defense), 45 + 20);
    assert_eq!(c.stat(Stat::Speed), 24 + 20);
    assert_eq!(c.stat(Stat::Accuracy), 100 + 50);
    assert_eq!(c.stat(Stat::Dodge), 250 + 50);
    assert_eq!(c.stat(Stat::Conviction), 5);
    c.take_damage(u16::MAX);
    c.get_back_up();
    assert_eq!(c.stat(Stat::Attack), 45 + 40);
    assert_eq!(c.stat(Stat::Accuracy), 100 + 100);
    assert_eq!(c.stat(Stat::Dodge), 250 + 100);
    assert_eq!(c.knockdown_count(), 2);
}

#[test]
fn knockdown_at_the_cap_never_recovers() {
    let f = stats_of([3, 3, 3, 3, 1, 0, 5]);
    let mut c = FightFighter::new(&f);
    c.take_damage(u16::MAX);
    assert_eq!(c.knockdown_count(), 1);
    assert!(c.can_get_up(RECOVERY_RANGE, RECOVERY_CAP));
    c.get_back_up();
    assert!(c.is_alive());
    assert_eq!(c.knockdown_count(), RECOVERY_CAP);
    c.take_damage(u16::MAX);
    assert!(!c.is_alive());
    for roll in 1..=RECOVERY_RANGE {
        assert!(!c.can_get_up(roll, RECOVERY_CAP));
    }
}

#[test]
fn crit_threshold_falls_with_accuracy() {
    let f = stats_of([3, 3, 3, 3, 2, 2, 2]);
    assert_eq!(FightFighter::new(&f).crit_chance(), 959);
    let g = stats_of([0, 0, 0, 0, 0, 0, 0]);
    assert_eq!(FightFighter::new(&g).crit_chance(), 999);
    let h = stats_of([0, 0, 0, 0, 50, 0, 0]);
    assert_eq!(FightFighter::new(&h).crit_chance(), 0);
}

#[test]
fn readiness_increment_and_rebase() {
    let f = stats_of([3, 3, 3, 5, 2, 2, 0]);
    let mut c = FightFighter::new(&f);
    c.do_speed_roll(100);
    assert_eq!(c.speed_roll(), 60);
    c.do_speed_roll(30);
    assert_eq!(c.speed_roll(), 61);
    c.end_turn(20);
    assert_eq!(c.speed_roll(), 41);
    c.end_turn(100);
    assert_eq!(c.speed_roll(), 0);
}

#[test]
fn hit_needs_roll_plus_accuracy_to_reach_dodge() {
    assert!(hit_succeeds(100, 400, 500));
    assert!(!hit_succeeds(99, 400, 500));
    assert!(hit_succeeds(1000, u16::MAX, u16::MAX));
}

#[test]
fn damage_formula_values() {
    assert_eq!(damage_dealt(100, 150, 0, false), 250);
    assert_eq!(damage_dealt(100, 150, 0, true), 250 * CRIT_MULTIPLIER);
    assert_eq!(damage_dealt(100, 150, 60, true), 440);
    assert_eq!(damage_dealt(1, 0, 1000, false), MIN_DAMAGE);
    assert_eq!(damage_dealt(15, 0, 10, false), MIN_DAMAGE);
    assert_eq!(damage_dealt(21, 0, 10, false), 11);
    assert_eq!(damage_dealt(200, u16::MAX, 0, true), u16::MAX);
}

#[test]
fn first_recovery_finds_the_first_good_roll() {
    let f = stats_of([3, 3, 3, 3, 1, 0, 5]);
    let mut c = FightFighter::new(&f);
    c.take_damage(u16::MAX);
    assert_eq!(c.first_recovery(&[10, 46, 50], RECOVERY_CAP), Some(1));
    assert_eq!(c.first_recovery(&[50, 46], RECOVERY_CAP), Some(0));
    assert_eq!(c.first_recovery(&[1, 20, 45], RECOVERY_CAP), None);
    assert_eq!(c.first_recovery(&[], RECOVERY_CAP), None);
    assert_eq!(c.first_recovery(&[50, 50], 0), None);
}
