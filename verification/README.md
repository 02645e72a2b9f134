# kagen (加減)

*"Adjustment by degrees; the right amount."*

The half of a homeostasis loop that selects a **named quality rung**: a dead-band
classifier, an ordered ladder, and a governor whose hysteresis makes tier
oscillation structurally hard. Written in Rust and proved in Verus.

```rust
use kagen::Governor;

#[derive(Debug, Clone, Copy, PartialEq, Eq)]
enum Quality { Off, Low, Medium, High }
const ALL: &[Quality] = &[Quality::Off, Quality::Low, Quality::Medium, Quality::High];

let mut g = Governor::new(ALL, Quality::High).unwrap();
let step = g.tick_frame(15_000, 16_666);   // 15 ms spent of a 16.6 ms budget
if step.changed() { /* push the new rung at the renderer */ }
```

## Layout

- `src/binary64.rs`: IEEE 754 binary64 numbers held by their bits; comparison, and
  the correctly rounded quotient of two integers, in integer arithmetic.
- `src/zone.rs`: `Band`, `Zone` and the classifier.
- `src/ladder.rs`: `Ladder` and `LadderError`.
- `src/governor.rs`: `Governor`, `Step`, and `GovernorMachine`, the governor as a
  pure reducer.
- `src/dynamics.rs`: theorems about sequences of observations.
- `app/`: `f64` thresholds, `std::error::Error`, and the `zenmai::Machine` impl.

## What is proved

- `Ladder::parse` accepts exactly the registries of two or more distinct rungs, and
  names the first repetition otherwise.
- `zone` answers exactly as binary64 division and comparison would, for every pair of
  integers and every pair of thresholds, NaNs and infinities included. For
  capacities up to 10^15 the shipped bands are exact hundredths.
- The governor never leaves its ladder and never exceeds its ceiling, whatever is
  observed.
- A signal in which neither pressure nor calm persists moves nothing. Pressure that
  persists sheds one rung per streak down to the floor; calm that persists climbs
  back to the ceiling, as slowly as the thresholds say.

Rungs are compared with their own `==`. What is proved about positions holds for rung
types whose `==` is an equivalence relation known to the verifier.

MIT.
