//! `kagen` (加減): adjustment by degrees; the right amount.
//!
//! The half of a homeostasis loop that selects a named quality rung: a two-sided
//! dead-band classifier ([`Zone`]), an ordered [`Ladder`] over a registry of rungs,
//! and a [`Governor`] whose hysteresis makes tier oscillation structurally hard.
//!
//! ```
//! use kagen::Governor;
//!
//! #[derive(Debug, Clone, Copy, PartialEq, Eq)]
//! enum Quality { Off, Low, Medium, High }
//! const ALL: &[Quality] = &[Quality::Off, Quality::Low, Quality::Medium, Quality::High];
//!
//! let mut g = Governor::new(ALL, Quality::High).unwrap();
//! // per frame: 15 ms spent against a 16.6 ms budget
//! let step = g.tick_frame(15_000, 16_666);
//! if step.changed() { /* push the new rung at the renderer */ }
//! ```
//!
//! Every function carries its contract, and Verus proves each body against it.
//!
//! - [`binary64`]: binary floating-point numbers by bit pattern, and the rounded
//!   quotient of two integers.
//! - [`zone`](mod@zone): the classifier, and what its thresholds mean.
//! - [`ladder`]: rungs, positions, and steps that saturate at both ends.
//! - [`governor`]: the state machine, one observation at a time.
//! - [`dynamics`]: what it guarantees over sequences of observations.
pub mod binary64;
pub mod dynamics;
pub mod governor;
pub mod ladder;
pub mod zone;

pub use binary64::Binary64;
pub use governor::{Governor, GovernorMachine, Step, DOWN_AFTER, UP_AFTER};
pub use ladder::{Ladder, LadderError};
pub use zone::{budget_us_for_fps, frame_zone, zone, Band, Zone};
