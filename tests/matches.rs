use fighter_simulator::{
    Fight, FightEvent, FightFighter, Fighter, Stat, MIN_DAMAGE, READY_RANGE, RECOVERY_ATTEMPTS,
    RECOVERY_CAP,
};

fn named(name: &str, points: [u16; 7]) -> Fighter {
    Fighter::new(
        String::from(name),
        points[0],
        points[1],
        points[2],
        points[3],
        points[4],
        points[5],
        points[6],
    )
}

fn standing(fight: &Fight, team: usize) -> bool {
    let (lo, hi) = if team == 0 { (0, fight.team_size()) } else { (fight.team_size(), fight.len()) };
    (lo..hi).any(|i| fight.fighter_state(i).is_alive())
}

fn healths(fight: &Fight) -> Vec<u16> {
    (0..fight.len()).map(|i| fight.fighter_state(i).stat(Stat::Health)).collect()
}

#[test]
fn new_match_starts_fresh_with_drawn_counters() {
    let a = named("A", [3, 3, 3, 3, 2, 2, 2]);
    let b = named("B", [2, 4, 4, 4, 2, 2, 0]);
    let c = named("C", [4, 4, 4, 3, 3, 0, 0]);
    let fight = Fight::new(&[&a], &[&b, &c], 7);
    assert_eq!(fight.len(), 3);
    assert_eq!(fight.team_size(), 1);
    assert_eq!(fight.turn_count(), 0);
    assert_eq!(healths(&fight), vec![1975, 1650, 2300]);
    for i in 0..3 {
        let s = fight.fighter_state(i);
        assert!(s.speed_roll() >= 1 && s.speed_roll() <= READY_RANGE);
        let speed = s.stat(Stat::Speed);
        assert!(s.speed_roll() == 1 || s.speed_roll() <= READY_RANGE - speed);
        assert_eq!(s.knockdown_count(), 0);
    }
    assert_eq!(fight.fighter_state(2).name(), "C");
}

#[test]
fn counters_are_drawn_not_fixed() {
    let slow = named("Slow", [5, 5, 5, 0, 3, 0, 0]);
    let mut seen = std::collections::BTreeSet::new();
    for seed in 0..30u64 {
        let fight = Fight::new(&[&slow], &[&slow], seed);
        seen.insert(fight.fighter_state(0).speed_roll());
        seen.insert(fight.fighter_state(1).speed_roll());
    }
    assert!(seen.len() > 5);
}

#[test]
fn same_seed_gives_same_events_and_winner() {
    let a = named("A", [3, 3, 3, 3, 2, 2, 2]);
    let b = named("B", [2, 4, 4, 4, 2, 2, 0]);
    let c = named("C", [4, 4, 4, 3, 3, 0, 0]);
    for seed in [1u64, 42, 9001] {
        let mut first_log = Vec::new();
        let first = Fight::new(&[&a, &b], &[&c], seed).run(&mut first_log).unwrap();
        let mut second_log = Vec::new();
        let second = Fight::new(&[&a, &b], &[&c], seed).run(&mut second_log).unwrap();
        assert_eq!(first_log, second_log);
        assert!(std::ptr::eq(first, second));
    }
}

#[test]
fn attacker_has_lowest_counter_among_the_living() {
    let a = named("A", [3, 3, 3, 3, 2, 2, 2]);
    let b = named("B", [1, 5, 1, 5, 5, 1, 0]);
    let c = named("C", [5, 2, 2, 2, 2, 2, 3]);
    let d = named("D", [2, 2, 2, 2, 2, 5, 3]);
    let mut fight = Fight::new(&[&a, &b], &[&c, &d], 3);
    let mut log = Vec::new();
    while standing(&fight, 0) && standing(&fight, 1) {
        let before: Vec<_> = (0..fight.len()).map(|i| fight.fighter_state(i)).collect();
        let report = fight.run_tick(&mut log);
        let attacker = before[report.attacker];
        assert!(attacker.is_alive());
        for other in before.iter().filter(|f| f.is_alive()) {
            assert!(attacker.speed_roll() <= other.speed_roll());
        }
        assert!(fight.fighter_state(report.attacker).speed_roll() > 0);
        assert!(before[report.defender].is_alive());
        assert_ne!(report.attacker < fight.team_size(), report.defender < fight.team_size());
    }
}

#[test]
fn misses_change_no_health_and_hits_deal_the_minimum() {
    let a = named("A", [3, 3, 3, 3, 2, 2, 2]);
    let b = named("B", [2, 4, 4, 4, 2, 2, 0]);
    let mut fight = Fight::new(&[&a], &[&b], 11);
    let mut log = Vec::new();
    let (mut hits, mut misses) = (0, 0);
    while standing(&fight, 0) && standing(&fight, 1) {
        let before = healths(&fight);
        let report = fight.run_tick(&mut log);
        let after = healths(&fight);
        if report.hit {
            hits += 1;
            assert!(report.damage >= MIN_DAMAGE);
        } else {
            misses += 1;
            assert_eq!(before, after);
        }
    }
    assert!(hits > 0 && misses > 0);
}

#[test]
fn downed_fighters_recover_or_stay_down() {
    let a = named("A", [3, 3, 3, 3, 1, 0, 5]);
    let b = named("B", [1, 5, 1, 5, 5, 1, 0]);
    for seed in 0..20u64 {
        let mut fight = Fight::new(&[&a], &[&b], seed);
        let mut log = Vec::new();
        let mut dead = vec![false; fight.len()];
        while standing(&fight, 0) && standing(&fight, 1) {
            let report = fight.run_tick(&mut log);
            assert!(!dead[report.attacker] && !dead[report.defender]);
            if report.recovery_roll.is_some() {
                assert!(fight.fighter_state(report.defender).is_alive());
            }
            for i in 0..fight.len() {
                if dead[i] {
                    assert!(!fight.fighter_state(i).is_alive());
                }
                dead[i] = !fight.fighter_state(i).is_alive();
            }
        }
    }
}

#[test]
fn every_match_ends_with_a_winner() {
    let roster = [
        named("A", [3, 3, 3, 3, 2, 2, 2]),
        named("B", [2, 4, 4, 4, 2, 2, 0]),
        named("C", [4, 4, 4, 3, 3, 0, 0]),
        named("D", [1, 5, 1, 5, 5, 1, 0]),
        named("E", [5, 2, 2, 2, 2, 2, 3]),
    ];
    for seed in 0..10u64 {
        let mut fight = Fight::new(&[&roster[0], &roster[1]], &[&roster[2], &roster[3], &roster[4]], seed);
        let mut log = Vec::new();
        let winner = fight.run(&mut log).expect("a winner");
        let won_first = !standing(&fight, 1);
        if won_first {
            assert!(standing(&fight, 0));
            assert!(std::ptr::eq(winner, &roster[0]));
            assert_eq!(log.last(), Some(&FightEvent::FightOver { winner_team: 0 }));
        } else {
            assert!(!standing(&fight, 0));
            assert!(std::ptr::eq(winner, &roster[2]));
            assert_eq!(log.last(), Some(&FightEvent::FightOver { winner_team: 1 }));
        }
        assert_eq!(log.first(), Some(&FightEvent::TurnStarted { turn: 1 }));
        let overs = log.iter().filter(|e| matches!(e, FightEvent::FightOver { .. })).count();
        assert_eq!(overs, 1);
        let starts = log.iter().filter(|e| matches!(e, FightEvent::TurnStarted { .. })).count();
        assert_eq!(starts as u64, fight.turn_count());
    }
}

#[test]
fn recovery_cap_zero_forbids_getting_up() {
    let a = named("A", [3, 3, 3, 3, 1, 0, 5]);
    let b = named("B", [3, 3, 3, 3, 1, 0, 5]);
    for seed in 0..10u64 {
        let mut fight = Fight::with_rules(&[&a], &[&b], seed, 0, RECOVERY_ATTEMPTS);
        let mut log = Vec::new();
        fight.run(&mut log).unwrap();
        assert!(!log.iter().any(|e| matches!(e, FightEvent::Recovered { .. })));
        assert!(log.iter().any(|e| matches!(e, FightEvent::Eliminated { .. })));
    }
}

// B has no attack, yet every hit still deals `MIN_DAMAGE`; A's hit roll
// plus accuracy (at most 1000 + 5000) never reaches B's dodge, which
// saturates at 65535. So A never lands a hit, and B wins on minimum damage.
#[test]
fn dodge_dominance_scenario() {
    let a = named("A", [1000, 10, 0, 5, 50, 0, 0]);
    let b = named("B", [1, 0, 1000, 1, 0, 1000, 0]);
    let mut fight = Fight::new(&[&a], &[&b], 1);
    let mut log = Vec::new();
    let winner = fight.run(&mut log).expect("the match ends");
    let mut attacker = None;
    for e in &log {
        match e {
            FightEvent::Attack { attacker: who, .. } => attacker = Some(*who),
            FightEvent::Damage { damage, .. } => {
                assert_eq!(attacker, Some(1));
                assert!(*damage >= MIN_DAMAGE);
            }
            _ => {}
        }
    }
    assert!(log.iter().filter(|e| **e == FightEvent::Miss).count() > 0);
    assert!(std::ptr::eq(winner, &b));
}

fn scan(before: &[FightFighter], coins: &[bool]) -> (Option<usize>, usize) {
    let mut best: Option<usize> = None;
    let mut used = 0;
    for (i, f) in before.iter().enumerate() {
        if !f.is_alive() {
            continue;
        }
        match best {
            None => best = Some(i),
            Some(b) if f.speed_roll() < before[b].speed_roll() => best = Some(i),
            Some(b) if f.speed_roll() == before[b].speed_roll() => {
                if coins[used] {
                    best = Some(i);
                }
                used += 1;
            }
            _ => {}
        }
    }
    (best, used)
}

#[test]
fn attacker_follows_the_tie_breaking_scan() {
    let a = named("A", [3, 3, 3, 3, 2, 2, 2]);
    let b = named("B", [3, 3, 3, 3, 2, 2, 2]);
    let c = named("C", [3, 3, 3, 3, 2, 2, 2]);
    let d = named("D", [3, 3, 3, 3, 2, 2, 2]);
    let mut coins_seen = 0;
    for seed in 0..10u64 {
        let mut fight = Fight::new(&[&a, &b], &[&c, &d], seed);
        let mut log = Vec::new();
        while standing(&fight, 0) && standing(&fight, 1) {
            let before: Vec<_> = (0..fight.len()).map(|i| fight.fighter_state(i)).collect();
            let report = fight.run_tick(&mut log);
            assert_eq!(scan(&before, &report.tie_coins), (Some(report.attacker), report.tie_coins.len()));
            coins_seen += report.tie_coins.len();
            let (lo, hi) = if report.attacker < fight.team_size() {
                (fight.team_size(), fight.len())
            } else {
                (0, fight.team_size())
            };
            let living: Vec<usize> = (lo..hi).filter(|&i| before[i].is_alive()).collect();
            assert_eq!(living[report.defender_draw], report.defender);
        }
    }
    assert!(coins_seen > 0);
}

#[test]
fn each_turn_logs_its_events_in_order() {
    let a = named("A", [3, 3, 3, 3, 1, 0, 5]);
    let b = named("B", [1, 5, 1, 5, 5, 1, 0]);
    let mut fight = Fight::new(&[&a], &[&b], 5);
    let mut log = Vec::new();
    while standing(&fight, 0) && standing(&fight, 1) {
        let start = log.len();
        let report = fight.run_tick(&mut log);
        let turn = &log[start..];
        assert_eq!(turn[0], FightEvent::TurnStarted { turn: fight.turn_count() });
        assert_eq!(turn[1], FightEvent::Attack { attacker: report.attacker, defender: report.defender });
        assert!(matches!(turn[2], FightEvent::HitRoll { roll, .. } if roll == report.hit_roll));
        if !report.hit {
            assert_eq!(&turn[3..], &[FightEvent::Miss]);
            continue;
        }
        let mut k = 3;
        if report.crit {
            assert_eq!(turn[k], FightEvent::Critical);
            k += 1;
        }
        assert!(matches!(turn[k], FightEvent::Damage { damage, .. } if damage == report.damage));
        k += 1;
        let d = report.defender;
        if fight.fighter_state(d).is_alive() && report.recovered_on.is_none() {
            assert_eq!(
                &turn[k..],
                &[FightEvent::HealthLeft { fighter: d, health: fight.fighter_state(d).stat(Stat::Health) }]
            );
        } else {
            assert_eq!(turn[k], FightEvent::Down { fighter: d });
            let fails = report.recovered_on.unwrap_or(report.recovery_rolls.len());
            for n in 0..fails {
                assert_eq!(turn[k + 1 + n], FightEvent::Count { count: n as u16 + 1 });
            }
            let last = turn[k + 1 + fails];
            match report.recovered_on {
                Some(_) => assert_eq!(
                    last,
                    FightEvent::Recovered { fighter: d, health: fight.fighter_state(d).stat(Stat::Health) }
                ),
                None => assert_eq!(last, FightEvent::Eliminated { fighter: d }),
            }
            assert_eq!(turn.len(), k + 2 + fails);
        }
    }
}

#[test]
fn recovery_rolls_follow_the_configured_attempts() {
    let a = named("A", [3, 3, 3, 3, 1, 0, 5]);
    let b = named("B", [1, 5, 1, 5, 5, 1, 0]);
    for attempts in [1u16, 3] {
        for seed in 0..10u64 {
            let mut fight = Fight::with_rules(&[&a], &[&b], seed, RECOVERY_CAP, attempts);
            let mut log = Vec::new();
            while standing(&fight, 0) && standing(&fight, 1) {
                let before = fight.fighter_state(0);
                let report = fight.run_tick(&mut log);
                if report.recovery_rolls.is_empty() {
                    assert!(report.recovered_on.is_none());
                    continue;
                }
                assert_eq!(report.recovery_rolls.len(), attempts as usize);
                if report.defender == 0 {
                    let mut downed = before;
                    downed.take_damage(u16::MAX);
                    assert_eq!(
                        downed.first_recovery(&report.recovery_rolls, RECOVERY_CAP),
                        report.recovered_on
                    );
                }
                assert_eq!(report.recovery_roll, report.recovered_on.map(|i| report.recovery_rolls[i]));
            }
        }
    }
}
