use kagen::{budget_us_for_fps, frame_zone, zone, Band, Binary64, Zone};

fn number(x: f64) -> Binary64 {
    Binary64 { bits: x.to_bits() }
}

fn band(above: f64, below: f64) -> Band {
    Band { above: number(above), below: number(below) }
}

/// The classification in the machine's own floating-point arithmetic.
fn measured(used: u64, capacity: u64, above: f64, below: f64) -> Zone {
    if capacity == 0 {
        return Zone::Below;
    }
    let ratio = used as f64 / capacity as f64;
    if ratio > above {
        Zone::Above
    } else if ratio < below {
        Zone::Below
    } else {
        Zone::InBand
    }
}

#[test]
fn the_upper_threshold_is_shared_not_merely_similar() {
    let (resource, frame) = (Band::resource(), Band::frame());
    assert!(
        (f64::from_bits(resource.above.bits) - f64::from_bits(frame.above.bits)).abs()
            < f64::EPSILON,
        "the resource and frame bands must share an upper threshold"
    );
    assert!(
        f64::from_bits(frame.below.bits) < f64::from_bits(resource.below.bits),
        "the frame band must be the WIDER of the two: a visible quality \
         flip costs a human more than a memory carve costs a pod"
    );
}

#[test]
fn both_shipped_bands_are_well_formed() {
    assert!(Band::resource().is_well_formed());
    assert!(Band::frame().is_well_formed());
}

#[test]
fn the_shipped_bands_hold_the_documented_thresholds() {
    assert_eq!(Band::resource(), band(0.85, 0.70));
    assert_eq!(Band::frame(), band(0.85, 0.60));
    assert_eq!(Band::frame().above.bits, 0.85f64.to_bits());
    assert_eq!(Band::frame().below.bits, 0.60f64.to_bits());
    assert_eq!(Band::resource().below.bits, 0.70f64.to_bits());
    assert_ne!(Band::resource(), Band::frame());
}

#[test]
fn an_inverted_band_is_detected() {
    assert!(!band(0.60, 0.85).is_well_formed());
    assert!(!band(f64::NAN, 0.1).is_well_formed());
    assert!(!band(1.0, -0.1).is_well_formed());
}

#[test]
fn bands_at_the_edge_of_being_well_formed() {
    assert!(band(0.0, -0.0).is_well_formed());
    assert!(band(-0.0, 0.0).is_well_formed());
    assert!(band(0.5, 0.5).is_well_formed());
    assert!(band(f64::MAX, f64::MIN_POSITIVE).is_well_formed());
    assert!(!band(f64::INFINITY, 0.5).is_well_formed());
    assert!(!band(0.5, f64::NEG_INFINITY).is_well_formed());
    assert!(!band(0.5, f64::NAN).is_well_formed());
}

#[test]
fn the_partition_is_total_and_matches_the_thresholds() {
    let b = Band::frame();
    assert_eq!(zone(90, 100, b), Zone::Above);
    assert_eq!(zone(70, 100, b), Zone::InBand);
    assert_eq!(zone(50, 100, b), Zone::Below);
}

#[test]
fn the_thresholds_themselves_are_in_band_because_both_bounds_are_strict() {
    let b = band(0.85, 0.60);
    assert_eq!(zone(85, 100, b), Zone::InBand);
    assert_eq!(zone(60, 100, b), Zone::InBand);
}

#[test]
fn zero_capacity_is_below_not_above() {
    assert_eq!(zone(16_000, 0, Band::frame()), Zone::Below);
    assert_eq!(zone(0, 0, Band::frame()), Zone::Below);
    assert_eq!(frame_zone(16_000, 0), Zone::Below);
}

#[test]
fn a_frame_over_budget_is_above_at_sixty_hertz() {
    let budget = budget_us_for_fps(60);
    assert_eq!(budget, 16_666);
    assert_eq!(frame_zone(15_000, budget), Zone::Above);
    assert_eq!(frame_zone(8_000, budget), Zone::Below);
}

#[test]
fn rebudgeting_to_120hz_flips_a_9ms_frame_from_below_to_above() {
    let nine_ms = 9_000;
    assert_eq!(frame_zone(nine_ms, budget_us_for_fps(60)), Zone::Below);
    assert_eq!(frame_zone(nine_ms, budget_us_for_fps(120)), Zone::Above);
}

#[test]
fn zero_fps_yields_no_budget_and_therefore_no_pressure() {
    assert_eq!(budget_us_for_fps(0), 0);
    assert_eq!(frame_zone(999_999, budget_us_for_fps(0)), Zone::Below);
}

#[test]
fn budgets_of_common_and_absurd_refresh_rates() {
    assert_eq!(budget_us_for_fps(1), 1_000_000);
    assert_eq!(budget_us_for_fps(144), 6_944);
    assert_eq!(budget_us_for_fps(1_000_000), 1);
    assert_eq!(budget_us_for_fps(1_000_001), 0);
    assert_eq!(budget_us_for_fps(u32::MAX), 0);
}

#[test]
fn zone_all_covers_every_variant() {
    assert_eq!(Zone::ALL.len(), 3);
    for z in Zone::ALL {
        assert!(matches!(z, Zone::Above | Zone::InBand | Zone::Below));
    }
}

#[test]
fn an_inverted_band_never_answers_in_band() {
    let inverted = band(0.60, 0.85);
    for used in 0..200 {
        assert_ne!(zone(used, 100, inverted), Zone::InBand);
    }
}

#[test]
fn more_use_is_never_calmer() {
    fn level(z: Zone) -> u8 {
        match z {
            Zone::Below => 0,
            Zone::InBand => 1,
            Zone::Above => 2,
        }
    }
    let mut last = 0;
    for used in 0..300 {
        let now = level(frame_zone(used, 200));
        assert!(now >= last);
        last = now;
    }
    assert_eq!(last, 2);
}

#[test]
fn the_frame_band_is_calm_only_where_the_resource_band_is() {
    for used in 0..200 {
        let frame = zone(used, 100, Band::frame());
        let resource = zone(used, 100, Band::resource());
        assert_eq!(frame == Zone::Above, resource == Zone::Above);
        assert!(frame != Zone::Below || resource == Zone::Below);
    }
    assert_eq!(zone(65, 100, Band::frame()), Zone::InBand);
    assert_eq!(zone(65, 100, Band::resource()), Zone::Below);
}

#[test]
fn the_shipped_bands_are_exact_hundredths_for_ordinary_capacities() {
    for &capacity in &[1u64, 7, 100, 16_666, 999_999_999_999_999, 1_000_000_000_000_000] {
        let near = [capacity / 5 * 3, capacity / 20 * 17, capacity / 10 * 7];
        for base in near {
            for used in base.saturating_sub(25)..base + 25 {
                let (u, c) = (u128::from(used) * 100, u128::from(capacity));
                let expected = if u > 85 * c {
                    Zone::Above
                } else if u < 60 * c {
                    Zone::Below
                } else {
                    Zone::InBand
                };
                assert_eq!(frame_zone(used, capacity), expected);
            }
        }
    }
}

#[test]
fn classification_agrees_with_machine_arithmetic() {
    let mut values: Vec<u64> = vec![0, 1, 2, 3, 5, 17, 20, 60, 85, 100, 16_666];
    for shift in [10u32, 31, 52, 53, 54, 55, 60, 63] {
        let power = 1u64 << shift;
        for offset in 0..6 {
            values.push(power + offset);
            values.push(power - offset);
            values.push(power / 20 * 17 + offset);
            values.push(power / 5 * 3 + offset);
        }
    }
    for offset in 0..4096 {
        if offset % 97 == 0 {
            values.push(u64::MAX - offset);
        }
    }
    let thresholds = [
        0.85,
        0.60,
        0.70,
        0.5,
        1.0,
        2.0,
        0.0,
        -0.0,
        -1.5,
        1.0 / 3.0,
        f64::MIN_POSITIVE,
        5e-324,
        f64::MAX,
        f64::INFINITY,
        f64::NEG_INFINITY,
        f64::NAN,
        18446744073709551616.0,
        5.421010862427522e-20,
    ];
    for &used in &values {
        for &capacity in &values {
            for (i, &above) in thresholds.iter().enumerate() {
                let below = thresholds[(i * 7 + 1) % thresholds.len()];
                assert_eq!(
                    zone(used, capacity, band(above, below)),
                    measured(used, capacity, above, below),
                    "{used} / {capacity} against {above} and {below}"
                );
            }
        }
    }
}

#[test]
fn a_threshold_that_is_the_ratio_itself_is_in_the_band() {
    // The rounded quotient as threshold: one unit in the last place decides.
    let mut used: u64 = 1;
    let mut capacity: u64 = 3;
    for _ in 0..2_000 {
        let ratio = used as f64 / capacity as f64;
        let up = f64::from_bits(ratio.to_bits() + 1);
        let down = f64::from_bits(ratio.to_bits() - 1);
        assert_eq!(zone(used, capacity, band(ratio, ratio)), Zone::InBand);
        assert_eq!(zone(used, capacity, band(down, down)), Zone::Above);
        assert_eq!(zone(used, capacity, band(up, up)), Zone::Below);
        used = used.wrapping_mul(6364136223846793005).wrapping_add(1442695040888963407) | 1;
        capacity = capacity.wrapping_mul(2862933555777941757).wrapping_add(3037000493) | 1;
        if used % 3 == 0 {
            used >>= 17;
        }
        if capacity % 5 == 0 {
            capacity >>= 23;
        }
        used |= 1;
        capacity |= 1;
    }
}

#[test]
fn numbers_compare_as_the_machine_compares_them() {
    let values = [
        0.0,
        -0.0,
        1.0,
        -1.0,
        0.85,
        5e-324,
        -5e-324,
        f64::MAX,
        f64::MIN,
        f64::INFINITY,
        f64::NEG_INFINITY,
        f64::NAN,
        -f64::NAN,
    ];
    for &a in &values {
        for &b in &values {
            assert_eq!(number(a).less_than(number(b)), a < b, "{a} < {b}");
            assert_eq!(number(a) == number(b), a == b, "{a} == {b}");
        }
        assert_eq!(number(a).is_finite(), a.is_finite());
        assert_eq!(number(a).is_nan(), a.is_nan());
    }
}
