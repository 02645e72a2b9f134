use kagen::{Band, Binary64, Governor, LadderError, Step, Zone, DOWN_AFTER, UP_AFTER};

#[derive(Debug, Clone, Copy, PartialEq, Eq)]
enum Q {
    Off,
    Low,
    Medium,
    High,
}

const ALL: &[Q] = &[Q::Off, Q::Low, Q::Medium, Q::High];

fn gov() -> Governor<Q> {
    Governor::new(ALL, Q::High).expect("fixture ladder is well-formed")
}

fn feed(g: &mut Governor<Q>, z: Zone, n: u32) -> Step<Q> {
    let mut last = Step::Hold { state: g.quality() };
    for _ in 0..n {
        last = g.advance(z);
    }
    last
}

#[test]
fn a_governor_starts_at_its_ceiling() {
    let g = gov();
    assert_eq!(g.quality(), Q::High);
    assert_eq!(g.ceiling(), Q::High);
}

#[test]
fn a_ceiling_off_the_ladder_is_refused_at_construction() {
    const PARTIAL: &[Q] = &[Q::Off, Q::Low];
    assert_eq!(Governor::new(PARTIAL, Q::High), Err(LadderError::CeilingNotOnLadder));
    assert_eq!(Governor::new(&[Q::High], Q::High), Err(LadderError::TooShort));
}

#[test]
fn n_down_consecutive_over_observations_step_down_exactly_once() {
    let mut g = gov();
    let before = feed(&mut g, Zone::Above, DOWN_AFTER - 1);
    assert_eq!(before, Step::Hold { state: Q::High }, "must not move early");
    assert_eq!(g.quality(), Q::High);

    let at = g.advance(Zone::Above);
    assert_eq!(at, Step::Stepped { from: Q::High, to: Q::Medium });
    assert_eq!(g.quality(), Q::Medium);

    assert_eq!(g.advance(Zone::Above), Step::Hold { state: Q::Medium });
}

#[test]
fn m_up_consecutive_calm_observations_step_up_clamped_to_the_ceiling() {
    let mut g = gov().with_streaks(3, 5);

    g.set_ceiling(Q::Medium).unwrap();
    assert_eq!(g.quality(), Q::Medium);

    feed(&mut g, Zone::Above, 3);
    assert_eq!(g.quality(), Q::Low, "pressure sheds one rung per matured streak");

    feed(&mut g, Zone::Below, 5);
    assert_eq!(g.quality(), Q::Medium, "calm reclaims it");

    let at = feed(&mut g, Zone::Below, 5);
    assert_eq!(at, Step::AtCeiling { state: Q::Medium });
    assert_eq!(g.quality(), Q::Medium);
}

#[test]
fn no_oscillation_on_mixed_or_noisy_observations() {
    let mut g = gov().with_streaks(4, 6);
    feed(&mut g, Zone::Above, 4); // High -> Medium: room to move either way
    let start = g.quality();
    assert_eq!(start, Q::Medium);
    assert!(start != g.ladder().floor() && start != g.ceiling(), "must be interior");

    for i in 0..1000 {
        g.advance(if i % 2 == 0 { Zone::Above } else { Zone::Below });
    }
    assert_eq!(g.quality(), start, "an alternating signal must not move the tier");
    assert_eq!(g.streaks(), (0, 1), "and neither streak may accumulate across it");
}

#[test]
fn the_shed_fast_reclaim_slow_asymmetry_stops_a_marginal_workload_hunting() {
    let mut g = gov();
    feed(&mut g, Zone::Above, DOWN_AFTER);
    assert_eq!(g.quality(), Q::Medium, "precondition: pressure sheds a rung");

    feed(&mut g, Zone::Below, DOWN_AFTER);
    assert_eq!(
        g.quality(),
        Q::Medium,
        "a calm no longer than the shed threshold must NOT reclaim the rung"
    );

    feed(&mut g, Zone::Below, UP_AFTER - DOWN_AFTER);
    assert_eq!(g.quality(), Q::High, "sustained calm does eventually reclaim it");
}

#[test]
fn the_default_thresholds_are_asymmetric_in_the_safe_direction() {
    assert!(
        UP_AFTER > DOWN_AFTER,
        "reclaiming must demand strictly more evidence than shedding"
    );
}

#[test]
fn a_neutral_observation_resets_both_streaks() {
    let mut g = gov();
    feed(&mut g, Zone::Above, DOWN_AFTER - 1);
    assert_eq!(g.streaks(), (DOWN_AFTER - 1, 0));
    g.advance(Zone::InBand);
    assert_eq!(g.streaks(), (0, 0), "neutral must clear the over streak");

    feed(&mut g, Zone::Below, 10);
    assert_eq!(g.streaks(), (0, 10));
    g.advance(Zone::InBand);
    assert_eq!(g.streaks(), (0, 0), "neutral must clear the calm streak too");
    assert_eq!(g.quality(), Q::High, "and none of that moved the tier");
}

#[test]
fn sustained_pressure_walks_down_to_the_floor_and_then_reports_at_floor() {
    let mut g = gov().with_streaks(2, 100);
    feed(&mut g, Zone::Above, 2);
    assert_eq!(g.quality(), Q::Medium);
    feed(&mut g, Zone::Above, 2);
    assert_eq!(g.quality(), Q::Low);
    feed(&mut g, Zone::Above, 2);
    assert_eq!(g.quality(), Q::Off);

    let spent = feed(&mut g, Zone::Above, 2);
    assert_eq!(spent, Step::AtFloor { state: Q::Off });
    assert!(!spent.changed());
}

#[test]
fn lowering_the_ceiling_pulls_a_richer_state_down_immediately() {
    let mut g = gov();
    assert_eq!(g.quality(), Q::High);
    g.set_ceiling(Q::Low).unwrap();
    assert_eq!(g.quality(), Q::Low);
}

#[test]
fn raising_the_ceiling_does_not_grant_quality_immediately() {
    let mut g = gov();
    g.set_ceiling(Q::Low).unwrap();
    assert_eq!(g.quality(), Q::Low);
    g.set_ceiling(Q::High).unwrap();
    assert_eq!(g.quality(), Q::Low, "a raised ceiling is permission, not a step");
}

#[test]
fn the_state_zone_matrix_is_total_and_never_leaves_the_ladder() {
    for &start in ALL {
        for &z in Zone::ALL {
            let mut g = gov().with_streaks(1, 1);
            g.set_ceiling(Q::High).unwrap();
            while g.quality() != start {
                g.advance(Zone::Above);
            }
            let out = g.advance(z);
            assert!(
                g.ladder().contains(g.quality()),
                "state left the ladder from {start:?} on {z:?}"
            );
            assert_eq!(out.state(), g.quality(), "Step::state must agree with the governor");
        }
    }
}

#[test]
fn streak_counters_saturate_rather_than_overflow() {
    let mut g = gov().with_streaks(u32::MAX, u32::MAX);
    for _ in 0..100 {
        g.advance(Zone::Above);
    }
    assert_eq!(g.streaks().0, 100);
}

#[test]
fn a_zero_streak_threshold_is_clamped_to_one() {
    let g = gov().with_streaks(0, 0);
    let mut g2 = g;
    assert_eq!(g2.advance(Zone::Above), Step::Stepped { from: Q::High, to: Q::Medium });
}

#[test]
fn a_new_governor_has_the_default_thresholds_and_no_streak() {
    let mut g = gov();
    assert_eq!(g.streaks(), (0, 0));
    assert_eq!(feed(&mut g, Zone::Below, UP_AFTER - 1), Step::Hold { state: Q::High });
    assert_eq!(g.streaks(), (0, 299));
    assert_eq!(g.advance(Zone::Below), Step::AtCeiling { state: Q::High });
    assert_eq!(g.streaks(), (0, 0));
    assert_eq!(feed(&mut g, Zone::Above, 30), Step::Stepped { from: Q::High, to: Q::Medium });
}

#[test]
fn a_repeated_rung_is_refused_at_construction() {
    const DUP: &[Q] = &[Q::Off, Q::Low, Q::Low];
    assert_eq!(Governor::new(DUP, Q::Low), Err(LadderError::Duplicate { first: 1, second: 2 }));
    assert_eq!(Governor::new(DUP, Q::High), Err(LadderError::Duplicate { first: 1, second: 2 }));
}

#[test]
fn a_refused_ceiling_changes_nothing() {
    const PARTIAL: &[Q] = &[Q::Off, Q::Low];
    let mut g = Governor::new(PARTIAL, Q::Low).unwrap();
    g.advance(Zone::Above);
    let before = g;
    assert_eq!(g.set_ceiling(Q::High), Err(LadderError::CeilingNotOnLadder));
    assert_eq!(g, before);
}

#[test]
fn a_lowered_ceiling_keeps_the_streaks() {
    let mut g = gov();
    feed(&mut g, Zone::Above, 7);
    g.set_ceiling(Q::Low).unwrap();
    assert_eq!(g.streaks(), (7, 0));
    assert_eq!(g.ceiling(), Q::Low);
    assert_eq!(feed(&mut g, Zone::Above, 23), Step::Stepped { from: Q::Low, to: Q::Off });
}

#[test]
fn a_shorter_threshold_counts_what_was_already_observed() {
    let mut g = gov();
    feed(&mut g, Zone::Above, 20);
    let mut g = g.with_streaks(10, 100);
    assert_eq!(g.streaks(), (20, 0));
    assert_eq!(g.advance(Zone::Above), Step::Stepped { from: Q::High, to: Q::Medium });
}

#[test]
fn each_trigger_clears_the_opposing_streak() {
    let mut g = gov();
    feed(&mut g, Zone::Above, 12);
    g.advance(Zone::Below);
    assert_eq!(g.streaks(), (0, 1));
    g.advance(Zone::Above);
    assert_eq!(g.streaks(), (1, 0));
}

#[test]
fn an_interrupted_signal_moves_nothing_however_long_it_lasts() {
    let mut g = gov().with_streaks(4, 6);
    feed(&mut g, Zone::Above, 4);
    for i in 0..2_000 {
        g.advance(if i % 4 == 3 { Zone::InBand } else { Zone::Above });
        assert_eq!(g.quality(), Q::Medium);
    }
}

#[test]
fn sustained_calm_climbs_to_the_ceiling_and_stops() {
    let mut g = gov().with_streaks(1, 3);
    feed(&mut g, Zone::Above, 3);
    assert_eq!(g.quality(), Q::Off);
    g.set_ceiling(Q::Medium).unwrap();
    feed(&mut g, Zone::Below, 6);
    assert_eq!(g.quality(), Q::Medium);
    assert_eq!(feed(&mut g, Zone::Below, 3), Step::AtCeiling { state: Q::Medium });
    assert_eq!(feed(&mut g, Zone::Below, 300), Step::AtCeiling { state: Q::Medium });
}

#[test]
fn ticks_classify_and_advance() {
    let mut g = gov().with_streaks(2, 3);
    assert_eq!(g.tick_frame(15_000, 16_666), Step::Hold { state: Q::High });
    assert_eq!(g.streaks(), (1, 0));
    assert_eq!(
        g.tick_frame(15_000, 16_666),
        Step::Stepped { from: Q::High, to: Q::Medium }
    );
    assert_eq!(g.tick_frame(12_000, 16_666), Step::Hold { state: Q::Medium });
    assert_eq!(g.streaks(), (0, 0));

    // 65 of 100 is calm for a resource and neutral for a frame.
    assert_eq!(g.tick(65, 100, Band::resource()), Step::Hold { state: Q::Medium });
    assert_eq!(g.streaks(), (0, 1));
    assert_eq!(g.tick(65, 100, Band::frame()), Step::Hold { state: Q::Medium });
    assert_eq!(g.streaks(), (0, 0));

    let tight = Band {
        above: Binary64 { bits: 0.5f64.to_bits() },
        below: Binary64 { bits: 0.25f64.to_bits() },
    };
    g.tick(51, 100, tight);
    assert_eq!(g.tick(51, 100, tight), Step::Stepped { from: Q::Medium, to: Q::Low });
}

#[test]
fn steps_report_where_the_governor_rests() {
    assert_eq!(Step::Hold { state: Q::Low }.state(), Q::Low);
    assert_eq!(Step::AtFloor { state: Q::Off }.state(), Q::Off);
    assert_eq!(Step::AtCeiling { state: Q::High }.state(), Q::High);
    let stepped = Step::Stepped { from: Q::High, to: Q::Medium };
    assert_eq!(stepped.state(), Q::Medium);
    assert!(stepped.changed());
    assert!(!Step::Hold { state: Q::Low }.changed());
    assert!(!Step::AtCeiling { state: Q::High }.changed());
}

#[test]
fn sustained_pressure_is_tallied_even_after_a_calm_start() {
    let mut g = gov().with_streaks(4, 50);
    feed(&mut g, Zone::Below, 7);
    assert_eq!(g.streaks(), (0, 7), "only the over streak need be zero");
    let (mut stepped, mut at_floor, mut held) = (0, 0, 0);
    for n in 0..20u32 {
        let (streaks, more) = (n / 4, n % 4);
        let step = g.advance(Zone::Above);
        if more < 3 {
            assert_eq!(step, Step::Hold { state: ALL[3 - streaks.min(3) as usize] });
            held += 1;
        } else if streaks < 3 {
            let from = 3 - streaks as usize;
            assert_eq!(step, Step::Stepped { from: ALL[from], to: ALL[from - 1] });
            stepped += 1;
        } else {
            assert_eq!(step, Step::AtFloor { state: Q::Off });
            at_floor += 1;
        }
        assert_eq!(g.streaks(), ((more + 1) % 4, 0));
    }
    assert_eq!((stepped, at_floor, held), (3, 2, 15));
    assert_eq!(g.quality(), Q::Off);
}

#[test]
fn sustained_calm_is_tallied_even_after_a_pressed_start() {
    let mut g = gov().with_streaks(1, 3);
    feed(&mut g, Zone::Above, 3);
    let mut g = g.with_streaks(50, 3);
    g.set_ceiling(Q::Medium).unwrap();
    feed(&mut g, Zone::Above, 9);
    assert_eq!(g.streaks(), (9, 0), "only the calm streak need be zero");
    let mut steps = Vec::new();
    for _ in 0..12 {
        let step = g.advance(Zone::Below);
        if step != (Step::Hold { state: g.quality() }) {
            steps.push(step);
        }
    }
    assert_eq!(
        steps,
        vec![
            Step::Stepped { from: Q::Off, to: Q::Low },
            Step::Stepped { from: Q::Low, to: Q::Medium },
            Step::AtCeiling { state: Q::Medium },
            Step::AtCeiling { state: Q::Medium },
        ]
    );
}

#[test]
fn any_history_keeps_the_governor_on_its_ladder_and_under_its_ceiling() {
    const PARTIAL: &[Q] = &[Q::Off, Q::Low, Q::Medium];
    let mut g = Governor::new(PARTIAL, Q::Medium).unwrap();
    let mut ceiling = Q::Medium;
    let mut seed: u32 = 1;
    for _ in 0..5_000 {
        seed = seed.wrapping_mul(1_664_525).wrapping_add(1_013_904_223);
        let pick = seed >> 16;
        match pick % 5 {
            0 => g = g.with_streaks(pick % 4, pick % 3),
            1 => {
                let wanted = ALL[(pick / 5 % 4) as usize];
                if g.set_ceiling(wanted).is_ok() {
                    ceiling = wanted;
                } else {
                    assert_eq!(wanted, Q::High);
                }
            }
            2 => {
                g.advance(Zone::ALL[(pick / 5 % 3) as usize]);
            }
            3 => {
                g.tick(u64::from(pick % 100), 100, Band::resource());
            }
            _ => {
                g.tick_frame(u64::from(pick % 20_000), 16_666);
            }
        }
        assert_eq!(g.ladder().rungs(), PARTIAL);
        assert_eq!(g.ceiling(), ceiling);
        assert!(g.ladder().rung(g.quality()).unwrap() <= g.ladder().rung(ceiling).unwrap());
        assert!(g.streaks().0 == 0 || g.streaks().1 == 0);
    }
}

#[test]
fn a_tick_is_the_advance_of_its_zone_and_no_capacity_never_sheds() {
    let mut ticked = gov().with_streaks(1, 2);
    let mut advanced = ticked;
    for used in 0..120u64 {
        let zone = kagen::zone(used, 100, Band::frame());
        let step = advanced.advance(zone);
        let mut framed = ticked;
        assert_eq!(ticked.tick(used, 100, Band::frame()), step);
        assert_eq!(framed.tick_frame(used, 100), step);
        assert_eq!(ticked, advanced);
        assert_eq!(framed, advanced);
    }
    let mut g = gov().with_streaks(1, 1);
    feed(&mut g, Zone::Above, 2);
    assert_eq!(g.tick(u64::MAX, 0, Band::frame()), Step::Stepped { from: Q::Low, to: Q::Medium });
}
