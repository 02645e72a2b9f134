use kagen::{Ladder, LadderError};

#[derive(Debug, Clone, Copy, PartialEq, Eq)]
enum Q {
    Off,
    Low,
    Medium,
    High,
}

const ALL: &[Q] = &[Q::Off, Q::Low, Q::Medium, Q::High];

fn ladder() -> Ladder<Q> {
    Ladder::parse(ALL).expect("the fixture ladder is well-formed")
}

#[test]
fn a_registry_becomes_an_ordered_ladder() {
    let l = ladder();
    assert_eq!(l.len(), 4);
    assert_eq!(l.floor(), Q::Off);
    assert_eq!(l.top(), Q::High);
    assert_eq!(l.rung(Q::Medium), Some(2));
}

#[test]
fn a_one_rung_registry_is_refused() {
    const ONE: &[Q] = &[Q::High];
    assert_eq!(Ladder::parse(ONE), Err(LadderError::TooShort));
    const NONE: &[Q] = &[];
    assert_eq!(Ladder::parse(NONE), Err(LadderError::TooShort));
}

#[test]
fn a_duplicate_rung_is_refused_and_names_both_indices() {
    const DUP: &[Q] = &[Q::Off, Q::Low, Q::Off];
    assert_eq!(Ladder::parse(DUP), Err(LadderError::Duplicate { first: 0, second: 2 }));
}

#[test]
fn stepping_down_saturates_at_the_floor() {
    let l = ladder();
    assert_eq!(l.down(Q::High), Q::Medium);
    assert_eq!(l.down(Q::Low), Q::Off);
    assert_eq!(l.down(Q::Off), Q::Off, "the floor is a fixed point");
}

#[test]
fn stepping_up_saturates_at_the_declared_ceiling_not_the_top() {
    let l = ladder();
    assert_eq!(l.up(Q::Off, Q::High), Q::Low);
    assert_eq!(l.up(Q::Low, Q::Medium), Q::Medium);
    assert_eq!(
        l.up(Q::Medium, Q::Medium),
        Q::Medium,
        "the ceiling is a fixed point: a user's declared maximum is not a \
         suggestion the governor may exceed once it feels calm"
    );
}

#[test]
fn a_state_above_the_ceiling_is_pulled_down_to_it() {
    let l = ladder();
    assert_eq!(l.up(Q::High, Q::Low), Q::Low);
}

#[test]
fn an_unknown_rung_yields_the_floor_rather_than_a_panic() {
    const PARTIAL: &[Q] = &[Q::Off, Q::Low];
    let l = Ladder::parse(PARTIAL).unwrap();
    assert_eq!(l.down(Q::High), Q::Off);
    assert_eq!(l.up(Q::High, Q::Low), Q::Off);
    assert_eq!(l.up(Q::Off, Q::High), Q::Off, "an unplaceable ceiling never grants quality");
}

#[test]
fn down_then_up_returns_to_the_start_away_from_the_bounds() {
    let l = ladder();
    for &q in &ALL[1..] {
        assert_eq!(l.up(l.down(q), Q::High), q, "down-then-up must be identity for {q:?}");
    }
}

#[test]
fn up_then_down_returns_to_the_start_below_the_ceiling() {
    let l = ladder();
    for &q in &ALL[..3] {
        assert_eq!(l.down(l.up(q, Q::High)), q);
    }
}

#[test]
fn a_ceiling_off_the_ladder_is_reported() {
    const PARTIAL: &[Q] = &[Q::Off, Q::Low];
    let l = Ladder::parse(PARTIAL).unwrap();
    assert_eq!(l.validate_ceiling(Q::High), Err(LadderError::CeilingNotOnLadder));
    assert_eq!(l.validate_ceiling(Q::Low), Ok(()));
}

#[test]
fn errors_render_without_format_machinery() {
    assert!(LadderError::TooShort.to_string().contains("two rungs"));
    assert!(LadderError::Duplicate { first: 0, second: 2 }.to_string().contains("0 and 2"));
}

#[test]
fn every_error_has_its_exact_text() {
    assert_eq!(
        LadderError::TooShort.to_string(),
        "a ladder needs at least two rungs to have a step"
    );
    assert_eq!(
        LadderError::CeilingNotOnLadder.to_string(),
        "the ceiling is not a rung on this ladder"
    );
    assert_eq!(
        LadderError::Duplicate { first: 0, second: 1 }.to_string(),
        "duplicate rung at indices 0 and 1"
    );
    assert_eq!(
        LadderError::Duplicate { first: 1090, second: usize::MAX }.to_string(),
        format!("duplicate rung at indices 1090 and {}", usize::MAX)
    );
}

#[test]
fn the_earliest_repeated_rung_and_its_first_repetition_are_named() {
    const DUP: &[u8] = &[7, 3, 5, 5, 3, 3];
    assert_eq!(Ladder::parse(DUP), Err(LadderError::Duplicate { first: 1, second: 4 }));
}

#[test]
fn a_ladder_gives_back_its_registry() {
    let l = ladder();
    assert_eq!(l.rungs(), ALL);
    assert!(!l.is_empty());
    assert_eq!(l.rung(Q::Off), Some(0));
    assert!(l.contains(Q::Low));
    const PARTIAL: &[Q] = &[Q::Off, Q::Low];
    let partial = Ladder::parse(PARTIAL).unwrap();
    assert!(!partial.contains(Q::Medium));
    assert_eq!(partial.rung(Q::Medium), None);
    assert_eq!(partial.top(), Q::Low);
    assert_eq!(partial.len(), 2);
}

#[test]
fn a_rung_type_may_carry_data_that_equality_ignores() {
    #[derive(Debug, Clone, Copy)]
    struct Tagged(u8, u8);
    impl PartialEq for Tagged {
        fn eq(&self, other: &Self) -> bool {
            self.0 == other.0
        }
    }
    impl Eq for Tagged {}
    const RUNGS: &[Tagged] = &[Tagged(1, 10), Tagged(2, 20), Tagged(3, 30)];
    let l = Ladder::parse(RUNGS).unwrap();
    assert_eq!(l.down(Tagged(3, 99)).1, 20);
    assert_eq!(l.up(Tagged(2, 99), Tagged(3, 99)).1, 30);
}

#[test]
fn positions_and_rungs_are_inverse() {
    let l = ladder();
    for (i, &q) in l.rungs().iter().enumerate() {
        assert_eq!(l.rung(q), Some(i));
        assert!(l.contains(q));
    }
    assert_eq!(l.rung(l.floor()), Some(0));
    assert_eq!(l.rung(l.top()), Some(l.len() - 1));
}
