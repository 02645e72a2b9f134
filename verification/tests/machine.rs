use kagen::{Governor, GovernorMachine, Step, Zone};
use zenmai::Stateful;

#[derive(Debug, Clone, Copy, PartialEq, Eq)]
enum Q {
    Off,
    Low,
    Medium,
    High,
}

const ALL: &[Q] = &[Q::Off, Q::Low, Q::Medium, Q::High];

fn gov() -> Governor<Q> {
    Governor::new(ALL, Q::High).expect("fixture ladder is well-formed")
}

/// The reducer under the driver's trait.
struct Reducer;

impl zenmai::Machine for Reducer {
    type State = Governor<Q>;
    type Event = Zone;
    type Effect = Step<Q>;

    fn step(state: &Governor<Q>, event: Zone) -> (Governor<Q>, Vec<Step<Q>>) {
        GovernorMachine::step(state, event)
    }
}

#[test]
fn the_machine_is_inert_on_a_neutral_tick_at_rest() {
    zenmai::assert_total_inert::<Reducer>(gov(), Zone::InBand);
}

#[test]
fn the_machine_emits_an_effect_only_when_something_happened() {
    let mut s: Stateful<Reducer> = Stateful::new(gov().with_streaks(2, 2));
    assert!(s.dispatch(Zone::Above).is_empty(), "a building streak is not an effect");
    let effects = s.dispatch(Zone::Above);
    assert_eq!(effects, vec![Step::Stepped { from: Q::High, to: Q::Medium }]);
}

#[test]
fn the_machine_reports_saturation_and_leaves_its_input_alone() {
    let start = Governor::new(ALL, Q::Off).unwrap().with_streaks(1, 1);
    let (next, effects) = GovernorMachine::step(&start, Zone::Above);
    assert_eq!(effects, vec![Step::AtFloor { state: Q::Off }]);
    assert_eq!(next, start);
    let (next, effects) = GovernorMachine::step(&start, Zone::Below);
    assert_eq!(effects, vec![Step::AtCeiling { state: Q::Off }]);
    assert_eq!(next.quality(), Q::Off);
}

#[test]
fn the_machine_moves_as_the_governor_does() {
    let mut direct = gov().with_streaks(3, 4);
    let mut reduced = direct;
    for i in 0..500u32 {
        let zone = Zone::ALL[(i * i / 7 % 3) as usize];
        let step = direct.advance(zone);
        let (next, effects) = GovernorMachine::step(&reduced, zone);
        reduced = next;
        assert_eq!(reduced, direct);
        match effects.first() {
            Some(effect) => assert_eq!(*effect, step),
            None => assert_eq!(step, Step::Hold { state: direct.quality() }),
        }
    }
}
