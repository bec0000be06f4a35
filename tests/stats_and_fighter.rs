use fighter_simulator::{
    apply_modifier, Fighter, FighterStatError, Stat, MAX_STAT_POINTS, TOTAL_POINTS,
};

fn build(points: [u16; 7]) -> Fighter {
    Fighter::new(
        String::from("Test"),
        points[0],
        points[1],
        points[2],
        points[3],
        points[4],
        points[5],
        points[6],
    )
}

#[test]
fn effective_value_applies_each_transform() {
    assert_eq!(Stat::Health.effective_value(2), 1650);
    assert_eq!(Stat::Attack.effective_value(3), 45);
    assert_eq!(Stat::Defense.effective_value(1), 15);
    assert_eq!(Stat::Speed.effective_value(5), 40);
    assert_eq!(Stat::Accuracy.effective_value(4), 400);
    assert_eq!(Stat::Dodge.effective_value(0), 250);
    assert_eq!(Stat::Conviction.effective_value(5), 5);
}

#[test]
fn effective_value_saturates_at_the_top() {
    assert_eq!(Stat::Health.effective_value(1000), u16::MAX);
    assert_eq!(Stat::Dodge.effective_value(1000), u16::MAX);
    assert_eq!(Stat::Accuracy.effective_value(655), 65500);
    assert_eq!(Stat::Accuracy.effective_value(656), u16::MAX);
    assert_eq!(Stat::Conviction.effective_value(u16::MAX), u16::MAX);
}

#[test]
fn apply_modifier_saturates_both_ways() {
    assert_eq!(apply_modifier(100, 5), 105);
    assert_eq!(apply_modifier(100, -5), 95);
    assert_eq!(apply_modifier(10, -20), 0);
    assert_eq!(apply_modifier(65530, 10), u16::MAX);
    assert_eq!(apply_modifier(0, i32::MIN), 0);
    assert_eq!(apply_modifier(u16::MAX, i32::MAX), u16::MAX);
}

#[test]
fn stat_nth_follows_the_fixed_order() {
    assert_eq!(Stat::nth(0), Stat::Health);
    assert_eq!(Stat::nth(3), Stat::Speed);
    assert_eq!(Stat::nth(6), Stat::Conviction);
}

#[test]
fn regular_build_validates() {
    let f = build([3, 3, 3, 3, 2, 2, 2]);
    assert!(f.validate());
    assert!(f.stat_errors().is_empty());
    assert_eq!(TOTAL_POINTS, 18);
    assert_eq!(MAX_STAT_POINTS, 5);
}

#[test]
fn wrong_total_is_reported() {
    let f = build([5, 5, 5, 5, 5, 5, 5]);
    assert!(!f.validate());
    assert_eq!(f.stat_errors(), vec![FighterStatError::IncorrectPointTotal(35)]);
    let g = build([0, 0, 0, 0, 0, 0, 0]);
    assert_eq!(g.stat_errors(), vec![FighterStatError::IncorrectPointTotal(0)]);
}

#[test]
fn stat_above_max_is_reported() {
    let f = build([6, 4, 3, 3, 2, 0, 0]);
    assert!(!f.validate());
    assert_eq!(f.stat_errors(), vec![FighterStatError::StatAboveMax(Stat::Health)]);
}

#[test]
fn every_error_is_reported_in_order() {
    let f = build([6, 0, 0, 0, 7, 0, 9]);
    assert!(!f.validate());
    assert_eq!(
        f.stat_errors(),
        vec![
            FighterStatError::StatAboveMax(Stat::Health),
            FighterStatError::StatAboveMax(Stat::Accuracy),
            FighterStatError::StatAboveMax(Stat::Conviction),
            FighterStatError::IncorrectPointTotal(22),
        ]
    );
}

#[test]
fn fighter_reports_name_points_and_values() {
    let f = Fighter::new(String::from("Brawler"), 2, 5, 1, 4, 3, 0, 3);
    assert_eq!(f.name(), "Brawler");
    assert_eq!(f.raw_stat(Stat::Attack), 5);
    assert_eq!(f.raw_stat(Stat::Conviction), 3);
    assert_eq!(f.stat(Stat::Health), 1650);
    assert_eq!(f.stat(Stat::Attack), 75);
    assert_eq!(f.stat(Stat::Dodge), 250);
    assert_eq!(f.stat(Stat::Accuracy), 300);
}
