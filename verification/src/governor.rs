//! The tier governor: hysteresis over a [`Ladder`], driven by [`Zone`].
//!
//! A naive governor (over budget, step down; under budget, step up) is a flicker
//! generator: one step changes the cost, which changes the classification, which
//! steps back. Three mechanisms compose to prevent it.
//!
//! 1. The dead band. [`Zone::InBand`] is a third answer between the two triggers,
//!    so a ratio that merely drifts produces no movement.
//! 2. Asymmetric streaks. Shedding is fast ([`DOWN_AFTER`]), recovering is slow
//!    ([`UP_AFTER`]), so a marginal workload settles instead of hunting.
//! 3. The resets. Each zone clears the opposing streak, and [`Zone::InBand`] clears
//!    both.
//!
//! [`crate::dynamics`] states what the three guarantee over sequences of
//! observations.
use crate::ladder;
use crate::ladder::{Ladder, LadderError};
use crate::zone;
use crate::zone::{Band, Zone};
use vstd::prelude::*;
use vstd::std_specs::cmp::PartialEqSpec;

verus! {

/// Consecutive [`Zone::Above`] observations before a step down, about half a second
/// at 60 Hz. Shedding is deliberately fast: the cost of holding a blown budget is
/// paid every frame.
pub const DOWN_AFTER: u32 = 30;

/// Consecutive [`Zone::Below`] observations before a step up, about five seconds at
/// 60 Hz. Recovering slowly stops a marginal workload from hunting between two
/// rungs.
pub const UP_AFTER: u32 = 300;

/// The outcome of one [`Governor::advance`].
#[derive(Debug, Clone, Copy, PartialEq, Eq)]
#[non_exhaustive]
pub enum Step<T> {
    /// No movement. The streak is still building, or the zone was neutral.
    Hold {
        /// The unchanged rung.
        state: T,
    },
    /// The rung changed.
    Stepped {
        /// The rung before.
        from: T,
        /// The rung after.
        to: T,
    },
    /// A step down was earned, but the governor is already on the cheapest rung:
    /// there is nothing left to give.
    ///
    /// Not [`Step::Hold`]: "nothing to do" says that the system is fine, "nothing
    /// left to do" that the pressure is unresolved.
    AtFloor {
        /// The floor rung the governor is stuck on.
        state: T,
    },
    /// A step up was earned, but the governor is already at the declared ceiling.
    AtCeiling {
        /// The ceiling rung.
        state: T,
    },
}

impl<T> Step<T> {
    /// The rung the governor rests on after this step.
    pub open spec fn rests_on(self) -> T {
        match self {
            Step::Hold { state } => state,
            Step::Stepped { from: _, to } => to,
            Step::AtFloor { state } => state,
            Step::AtCeiling { state } => state,
        }
    }
}

impl<T: Copy> Step<T> {
    /// The rung the governor rests on after this step.
    pub fn state(self) -> (res: T)
        ensures
            res == self.rests_on(),
            res == match self {
                Step::Hold { state } => state,
                Step::Stepped { from: _, to } => to,
                Step::AtFloor { state } => state,
                Step::AtCeiling { state } => state,
            },
    {
        match self {
            Step::Hold { state } | Step::AtFloor { state } | Step::AtCeiling { state } => state,
            Step::Stepped { to, .. } => to,
        }
    }

    /// `true` if the rung actually changed: the caller has a new value to push.
    pub fn changed(self) -> (res: bool)
        ensures
            res == self is Stepped,
    {
        matches!(self, Step::Stepped { .. })
    }
}

/// One more observation on a streak; the counter saturates.
pub open spec fn bump(streak: nat) -> nat {
    if streak < u32::MAX {
        streak + 1
    } else {
        streak
    }
}

/// What a [`Governor`] holds, and how it moves.
#[verifier::ext_equal]
pub struct GovernorModel<T> {
    /// The rungs, cheapest first.
    pub rungs: Seq<T>,
    /// The current rung.
    pub state: T,
    /// The declared maximum.
    pub ceiling: T,
    /// Consecutive observations of pressure since the last reset.
    pub over_streak: nat,
    /// Consecutive calm observations since the last reset.
    pub calm_streak: nat,
    /// Observations of pressure that earn a step down.
    pub down_after: nat,
    /// Calm observations that earn a step up.
    pub up_after: nat,
}

impl<T: Eq> GovernorModel<T> {
    /// A new governor: it starts at its ceiling, at rest, with the default thresholds.
    pub open spec fn fresh(rungs: Seq<T>, ceiling: T) -> Self {
        GovernorModel {
            rungs,
            state: ceiling,
            ceiling,
            over_streak: 0,
            calm_streak: 0,
            down_after: DOWN_AFTER as nat,
            up_after: UP_AFTER as nat,
        }
    }

    /// The governor under other thresholds, a zero counting as one.
    pub open spec fn with_streaks(self, down_after: int, up_after: int) -> Self {
        GovernorModel {
            down_after: vstd::math::max(down_after, 1) as nat,
            up_after: vstd::math::max(up_after, 1) as nat,
            ..self
        }
    }

    /// The index of the current rung.
    pub open spec fn position(self) -> int {
        ladder::position(self.rungs, self.state)
    }

    /// The index of the ceiling.
    pub open spec fn cap(self) -> int {
        ladder::position(self.rungs, self.ceiling)
    }

    /// The ladder has a step; thresholds are positive; at most one streak is running.
    pub open spec fn counts_ok(self) -> bool {
        &&& self.rungs.len() >= 2
        &&& 1 <= self.down_after <= u32::MAX
        &&& 1 <= self.up_after <= u32::MAX
        &&& self.over_streak <= u32::MAX
        &&& self.calm_streak <= u32::MAX
        &&& self.over_streak == 0 || self.calm_streak == 0
    }

    /// No rung occurs twice; the state and the ceiling are rungs, and the state is
    /// not above the ceiling.
    pub open spec fn placed(self) -> bool {
        &&& ladder::distinct(self.rungs)
        &&& ladder::on_ladder(self.rungs, self.state)
        &&& ladder::on_ladder(self.rungs, self.ceiling)
        &&& self.position() <= self.cap()
    }

    /// What holds of every governor over a rung type with a lawful `==`.
    pub open spec fn valid(self) -> bool {
        self.counts_ok() && self.placed()
    }

    /// Neither streak is running.
    pub open spec fn at_rest(self) -> bool {
        self.over_streak == 0 && self.calm_streak == 0
    }

    /// An observation of `zone` completes the streak that it belongs to.
    pub open spec fn matures(self, zone: Zone) -> bool {
        match zone {
            Zone::Above => bump(self.over_streak) >= self.down_after,
            Zone::Below => bump(self.calm_streak) >= self.up_after,
            Zone::InBand => false,
        }
    }

    /// Both streaks after an observation of `zone`: the opposing one is cleared, a
    /// completed one starts over, and a neutral observation clears both.
    pub open spec fn streaks_after(self, zone: Zone) -> (nat, nat) {
        if self.matures(zone) {
            (0, 0)
        } else {
            match zone {
                Zone::Above => (bump(self.over_streak), 0),
                Zone::Below => (0, bump(self.calm_streak)),
                Zone::InBand => (0, 0),
            }
        }
    }

    /// The rung after an observation of `zone`: it changes by one, and only where a
    /// streak is completed away from the bound in its direction.
    pub open spec fn state_after(self, zone: Zone) -> T {
        if !self.matures(zone) {
            self.state
        } else if zone == Zone::Above && self.position() > 0 {
            self.rungs[self.position() - 1]
        } else if zone == Zone::Below && self.position() < self.cap() {
            self.rungs[self.position() + 1]
        } else {
            self.state
        }
    }

    /// The governor after an observation of `zone`.
    pub open spec fn advance(self, zone: Zone) -> Self {
        let (over_streak, calm_streak) = self.streaks_after(zone);
        GovernorModel { state: self.state_after(zone), over_streak, calm_streak, ..self }
    }

    /// What an observation of `zone` reports.
    pub open spec fn outcome(self, zone: Zone) -> Step<T> {
        if !self.matures(zone) {
            Step::Hold { state: self.state }
        } else if zone == Zone::Above && self.position() == 0 {
            Step::AtFloor { state: self.state }
        } else if zone == Zone::Below && self.position() == self.cap() {
            Step::AtCeiling { state: self.state }
        } else {
            Step::Stepped { from: self.state, to: self.state_after(zone) }
        }
    }

    /// What an observation of `zone` asks the caller to act on: what it reports, but
    /// for a [`Step::Hold`], which asks for nothing.
    pub open spec fn effects(self, zone: Zone) -> Seq<Step<T>> {
        if self.outcome(zone) is Hold {
            seq![]
        } else {
            seq![self.outcome(zone)]
        }
    }

    /// An observation of `zone` reports `step` and leaves `next`.
    ///
    /// The streaks, and whether there is a step to report at all, do not depend on
    /// how rungs compare; which rung is stepped to does, and with it whether a bound
    /// was hit.
    pub open spec fn moves(self, zone: Zone, step: Step<T>, next: Self) -> bool {
        &&& next == GovernorModel {
            state: step.rests_on(),
            over_streak: self.streaks_after(zone).0,
            calm_streak: self.streaks_after(zone).1,
            ..self
        }
        &&& step is Hold <==> !self.matures(zone)
        &&& step is AtFloor ==> zone == Zone::Above
        &&& step is AtCeiling ==> zone == Zone::Below
        &&& !(step is Stepped) ==> step.rests_on() == self.state
        &&& step matches Step::Stepped { from, to } ==> from == self.state && self.rungs.contains(
            to,
        )
        &&& ladder::lawful_eq::<T>() ==> step == self.outcome(zone) && next == self.advance(zone)
    }

    /// The governor under another ceiling: a state above it drops to it at once, any
    /// other stays.
    pub open spec fn with_ceiling(self, ceiling: T) -> Self {
        let state = if self.position() > ladder::position(self.rungs, ceiling) {
            ceiling
        } else {
            self.state
        };
        GovernorModel { state, ceiling, ..self }
    }
}

/// The rungs next to the current one lie one position away, and differ from it.
pub proof fn lemma_neighbours<T: Eq>(m: GovernorModel<T>)
    requires
        ladder::lawful_eq::<T>(),
        m.placed(),
    ensures
        0 <= m.position() <= m.cap() < m.rungs.len(),
        m.rungs[m.position()].eq_spec(&m.state),
        forall|i: int|
            #![trigger m.rungs[i]]
            0 <= i < m.rungs.len() ==> {
                &&& ladder::on_ladder(m.rungs, m.rungs[i])
                &&& ladder::position(m.rungs, m.rungs[i]) == i
                &&& m.rungs[i].eq_spec(&m.state) <==> i == m.position()
            },
{
    ladder::lemma_has_position(m.rungs, m.state);
    ladder::lemma_has_position(m.rungs, m.ceiling);
    assert forall|i: int| #![trigger m.rungs[i]] 0 <= i < m.rungs.len() implies {
        &&& ladder::on_ladder(m.rungs, m.rungs[i])
        &&& ladder::position(m.rungs, m.rungs[i]) == i
        &&& m.rungs[i].eq_spec(&m.state) <==> i == m.position()
    } by {
        ladder::lemma_position_is(m.rungs, m.rungs[i], i);
        if m.rungs[i].eq_spec(&m.state) {
            ladder::lemma_position_is(m.rungs, m.state, i);
        }
    }
}

/// What one observation does, from the fields of the governor before it.
///
/// Ladder, ceiling and thresholds stay, and the state is the one that the step rests
/// on. A neutral observation holds and clears both streaks. Pressure clears the calm
/// streak; if the streak of pressure is still short of its threshold with this one, it
/// grows by one and the step is a hold; if not, it starts over, and the step leads
/// from the rung at `i` to the rung at `i - 1`, or reports the floor at `0`. Calm does
/// the same towards the ceiling.
pub proof fn lemma_what_an_observation_does<T: Eq>(
    m: GovernorModel<T>,
    zone: Zone,
    step: Step<T>,
    next: GovernorModel<T>,
)
    requires
        m.counts_ok(),
        ladder::lawful_eq::<T>() ==> m.placed(),
        m.moves(zone, step, next),
    ensures
        ({
        &&& next.rungs == m.rungs
        &&& next.ceiling == m.ceiling
        &&& next.down_after == m.down_after
        &&& next.up_after == m.up_after
        &&& next.state == match step {
            Step::Hold { state } => state,
            Step::Stepped { from: _, to } => to,
            Step::AtFloor { state } => state,
            Step::AtCeiling { state } => state,
        }
        &&& zone == Zone::InBand ==> {
            &&& step == (Step::Hold { state: m.state })
            &&& next.over_streak == 0 && next.calm_streak == 0
        }
        &&& zone == Zone::Above ==> next.calm_streak == 0 && if m.over_streak + 1 < m.down_after {
            &&& step == (Step::Hold { state: m.state })
            &&& next.over_streak == m.over_streak + 1
        } else {
            &&& step is Stepped || step is AtFloor
            &&& next.over_streak == 0
            &&& ladder::lawful_eq::<T>() ==> forall|i: int|
                #![trigger m.rungs[i]]
                0 <= i < m.rungs.len() && m.rungs[i].eq_spec(&m.state) ==> step == if i == 0 {
                    Step::AtFloor { state: m.state }
                } else {
                    Step::Stepped { from: m.state, to: m.rungs[i - 1] }
                }
        }
        &&& zone == Zone::Below ==> next.over_streak == 0 && if m.calm_streak + 1 < m.up_after {
            &&& step == (Step::Hold { state: m.state })
            &&& next.calm_streak == m.calm_streak + 1
        } else {
            &&& step is Stepped || step is AtCeiling
            &&& next.calm_streak == 0
            &&& ladder::lawful_eq::<T>() ==> forall|i: int, cap: int|
                #![trigger m.rungs[i], m.rungs[cap]]
                0 <= i < m.rungs.len() && 0 <= cap < m.rungs.len() && m.rungs[i].eq_spec(
                    &m.state,
                ) && m.rungs[cap].eq_spec(&m.ceiling) ==> step == if i == cap {
                    Step::AtCeiling { state: m.state }
                } else {
                    Step::Stepped { from: m.state, to: m.rungs[i + 1] }
                }
        }
        }),
{
    if ladder::lawful_eq::<T>() {
        lemma_neighbours(m);
        lemma_placed_ceiling(m);
    }
}

/// Another ceiling: the state becomes the ceiling if its rung is further up than the
/// ceiling's, and stays otherwise; nothing else changes but the ceiling.
pub proof fn lemma_ceiling_pulls_down<T: Eq>(m: GovernorModel<T>, ceiling: T)
    requires
        ladder::lawful_eq::<T>(),
        m.placed(),
        ladder::on_ladder(m.rungs, ceiling),
    ensures
        forall|i: int, cap: int|
            #![trigger m.rungs[i], m.rungs[cap]]
            0 <= i < m.rungs.len() && 0 <= cap < m.rungs.len() && m.rungs[i].eq_spec(&m.state)
                && m.rungs[cap].eq_spec(&ceiling) ==> m.with_ceiling(ceiling).state == if i > cap {
                ceiling
            } else {
                m.state
            },
        m.with_ceiling(ceiling).ceiling == ceiling,
        m.with_ceiling(ceiling).rungs == m.rungs,
        m.with_ceiling(ceiling).over_streak == m.over_streak,
        m.with_ceiling(ceiling).calm_streak == m.calm_streak,
        m.with_ceiling(ceiling).down_after == m.down_after,
        m.with_ceiling(ceiling).up_after == m.up_after,
{
    assert forall|i: int, cap: int|
        #![trigger m.rungs[i], m.rungs[cap]]
        0 <= i < m.rungs.len() && 0 <= cap < m.rungs.len() && m.rungs[i].eq_spec(&m.state)
            && m.rungs[cap].eq_spec(&ceiling) implies m.with_ceiling(ceiling).state == if i > cap {
        ceiling
    } else {
        m.state
    } by {
        ladder::lemma_position_is(m.rungs, m.state, i);
        ladder::lemma_position_is(m.rungs, ceiling, cap);
    }
}

/// A new governor rests on the ceiling it was given, with no streak running and
/// thresholds of 30 and 300. Other thresholds are taken as they are, a zero as one,
/// and change nothing else.
pub proof fn lemma_new_governors_and_thresholds<T: Eq>(
    rungs: Seq<T>,
    ceiling: T,
    m: GovernorModel<T>,
    down_after: u32,
    up_after: u32,
)
    ensures
        GovernorModel::fresh(rungs, ceiling).rungs == rungs,
        GovernorModel::fresh(rungs, ceiling).state == ceiling,
        GovernorModel::fresh(rungs, ceiling).ceiling == ceiling,
        GovernorModel::fresh(rungs, ceiling).over_streak == 0,
        GovernorModel::fresh(rungs, ceiling).calm_streak == 0,
        GovernorModel::fresh(rungs, ceiling).down_after == 30,
        GovernorModel::fresh(rungs, ceiling).up_after == 300,
        ({
            let other = m.with_streaks(down_after as int, up_after as int);
            &&& other.down_after == if down_after == 0 {
                1
            } else {
                down_after as nat
            }
            &&& other.up_after == if up_after == 0 {
                1
            } else {
                up_after as nat
            }
            &&& other.rungs == m.rungs
            &&& other.state == m.state
            &&& other.ceiling == m.ceiling
            &&& other.over_streak == m.over_streak
            &&& other.calm_streak == m.calm_streak
        }),
{
}

/// What is valid: two rungs or more, no repetition, state and ceiling on the ladder
/// with the state not further up, positive thresholds, and at most one streak running.
pub proof fn lemma_valid_governors<T: Eq>(m: GovernorModel<T>, i: int, cap: int)
    requires
        ladder::lawful_eq::<T>(),
        m.rungs.len() >= 2,
        forall|i: int, j: int|
            #![trigger m.rungs[i], m.rungs[j]]
            0 <= i < j < m.rungs.len() ==> !m.rungs[i].eq_spec(&m.rungs[j]),
        0 <= i <= cap < m.rungs.len(),
        m.rungs[i].eq_spec(&m.state),
        m.rungs[cap].eq_spec(&m.ceiling),
        1 <= m.down_after <= u32::MAX,
        1 <= m.up_after <= u32::MAX,
        m.over_streak <= u32::MAX,
        m.calm_streak <= u32::MAX,
        m.over_streak == 0 || m.calm_streak == 0,
    ensures
        m.valid(),
        m.position() == i,
        m.cap() == cap,
{
    ladder::lemma_position_is(m.rungs, m.state, i);
    ladder::lemma_position_is(m.rungs, m.ceiling, cap);
}

/// What a valid governor is: the converse of [`lemma_valid_governors`].
pub proof fn lemma_what_is_valid<T: Eq>(m: GovernorModel<T>)
    requires
        ladder::lawful_eq::<T>(),
        m.valid(),
    ensures
        m.rungs.len() >= 2,
        forall|i: int, j: int|
            #![trigger m.rungs[i], m.rungs[j]]
            0 <= i < j < m.rungs.len() ==> !m.rungs[i].eq_spec(&m.rungs[j]),
        0 <= m.position() <= m.cap() < m.rungs.len(),
        m.rungs[m.position()].eq_spec(&m.state),
        m.rungs[m.cap()].eq_spec(&m.ceiling),
        1 <= m.down_after <= u32::MAX,
        1 <= m.up_after <= u32::MAX,
        m.over_streak <= u32::MAX,
        m.calm_streak <= u32::MAX,
        m.over_streak == 0 || m.calm_streak == 0,
{
    lemma_neighbours(m);
    lemma_placed_ceiling(m);
}

/// A governor over a rung type with a lawful `==` is well-formed where what it holds
/// is valid.
pub proof fn lemma_governors_hold_what_is_valid<T: Copy + Eq + 'static>(governor: Governor<T>)
    requires
        ladder::lawful_eq::<T>(),
    ensures
        governor.wf() <==> governor@.valid(),
{
}

/// The ceiling of a governor is equal to the rung at its position and to no other.
proof fn lemma_placed_ceiling<T: Eq>(m: GovernorModel<T>)
    requires
        ladder::lawful_eq::<T>(),
        m.placed(),
    ensures
        forall|i: int|
            #![trigger m.rungs[i]]
            0 <= i < m.rungs.len() && m.rungs[i].eq_spec(&m.ceiling) ==> i == m.cap(),
        0 <= m.cap() < m.rungs.len(),
        m.rungs[m.cap()].eq_spec(&m.ceiling),
{
    ladder::lemma_has_position(m.rungs, m.ceiling);
    assert forall|i: int|
        #![trigger m.rungs[i]]
        0 <= i < m.rungs.len() && m.rungs[i].eq_spec(&m.ceiling) implies i == m.cap() by {
        ladder::lemma_position_is(m.rungs, m.ceiling, i);
    }
}

/// A hysteresis governor over an ordered [`Ladder`].
///
/// `Copy` and allocation-free: a handful of integers plus a `&'static` slice.
#[derive(Debug, Clone, Copy, PartialEq, Eq)]
pub struct Governor<T: 'static> {
    ladder: Ladder<T>,
    state: T,
    ceiling: T,
    over_streak: u32,
    calm_streak: u32,
    down_after: u32,
    up_after: u32,
}

impl<T: 'static> View for Governor<T> {
    type V = GovernorModel<T>;

    closed spec fn view(&self) -> GovernorModel<T> {
        GovernorModel {
            rungs: self.ladder@,
            state: self.state,
            ceiling: self.ceiling,
            over_streak: self.over_streak as nat,
            calm_streak: self.calm_streak as nat,
            down_after: self.down_after as nat,
            up_after: self.up_after as nat,
        }
    }
}

impl<T: Copy + Eq + 'static> Governor<T> {
    /// The state is on the ladder and not above the ceiling, thresholds are
    /// positive, and at most one streak is running.
    pub open spec fn wf(self) -> bool {
        &&& self@.counts_ok()
        &&& ladder::lawful_eq::<T>() ==> self@.placed()
    }

    /// Builds a governor over `rungs`, starting at `ceiling` and never climbing above
    /// it.
    ///
    /// Starting at the ceiling gives the user what they asked for; quality is shed
    /// only once there is a measured reason to. A registry that is not a well-formed
    /// ladder is refused as [`Ladder::parse`] refuses it, and a ceiling that is not
    /// one of its rungs is [`LadderError::CeilingNotOnLadder`].
    pub fn new(rungs: &'static [T], ceiling: T) -> (res: Result<Self, LadderError>)
        ensures
            match res {
                Ok(governor) => {
                    &&& governor.wf()
                    &&& governor@ == GovernorModel::fresh(rungs@, ceiling)
                    &&& governor@.rungs == rungs@
                    &&& governor@.state == ceiling
                    &&& governor@.ceiling == ceiling
                    &&& governor@.over_streak == 0
                    &&& governor@.calm_streak == 0
                    &&& governor@.down_after == 30
                    &&& governor@.up_after == 300
                    &&& rungs@.len() >= 2
                },
                Err(LadderError::TooShort) => rungs@.len() < 2,
                Err(LadderError::Duplicate { first, second }) => {
                    &&& first < second < rungs@.len()
                    &&& ladder::lawful_eq::<T>() ==> ladder::is_first_duplicate(
                        rungs@,
                        first as int,
                        second as int,
                    )
                },
                Err(LadderError::CeilingNotOnLadder) => {
                    &&& rungs@.len() >= 2
                    &&& ladder::lawful_eq::<T>() ==> ladder::distinct(rungs@)
                        && !ladder::on_ladder(rungs@, ceiling)
                },
            },
            ladder::lawful_eq::<T>() ==> (res is Ok <==> rungs@.len() >= 2 && ladder::distinct(
                rungs@,
            ) && ladder::on_ladder(rungs@, ceiling)),
    {
        let ladder = Ladder::parse(rungs)?;
        ladder.validate_ceiling(ceiling)?;
        Ok(
            Self {
                ladder,
                state: ceiling,
                ceiling,
                over_streak: 0,
                calm_streak: 0,
                down_after: DOWN_AFTER,
                up_after: UP_AFTER,
            },
        )
    }

    /// Overrides the streak thresholds.
    ///
    /// `down_after` should stay well below `up_after`; inverting the asymmetry makes a
    /// governor that sheds reluctantly and reclaims eagerly, which hunts. A `0` is
    /// clamped to `1`, since a threshold of zero would remove the streak mechanism.
    #[must_use]
    pub fn with_streaks(self, down_after: u32, up_after: u32) -> (res: Self)
        ensures
            self.wf() ==> res.wf(),
            res@ == self@.with_streaks(down_after as int, up_after as int),
            down_after >= 1 ==> res@.down_after == down_after,
            down_after == 0 ==> res@.down_after == 1,
            up_after >= 1 ==> res@.up_after == up_after,
            up_after == 0 ==> res@.up_after == 1,
            res@.rungs == self@.rungs,
            res@.state == self@.state,
            res@.ceiling == self@.ceiling,
            res@.over_streak == self@.over_streak,
            res@.calm_streak == self@.calm_streak,
    {
        Self {
            down_after: if down_after == 0 {
                1
            } else {
                down_after
            },
            up_after: if up_after == 0 {
                1
            } else {
                up_after
            },
            ..self
        }
    }

    /// The current rung.
    pub fn quality(&self) -> (res: T)
        ensures
            res == self@.state,
    {
        self.state
    }

    /// The declared ceiling.
    pub fn ceiling(&self) -> (res: T)
        ensures
            res == self@.ceiling,
    {
        self.ceiling
    }

    /// The ladder this governor moves on.
    pub fn ladder(&self) -> (res: Ladder<T>)
        ensures
            res@ == self@.rungs,
            self.wf() ==> res.wf(),
    {
        self.ladder
    }

    /// Lowers or raises the user's declared maximum.
    ///
    /// If the new ceiling is below the current rung, the governor drops to it at once:
    /// a ceiling is a bound, and rendering on above one that was just lowered would be
    /// ignoring an instruction. A ceiling that is not a rung is
    /// [`LadderError::CeilingNotOnLadder`], and changes nothing.
    pub fn set_ceiling(&mut self, ceiling: T) -> (res: Result<(), LadderError>)
        requires
            old(self).wf(),
        ensures
            final(self).wf(),
            match res {
                Ok(()) => {
                    &&& final(self)@ == (GovernorModel {
                        state: final(self)@.state,
                        ceiling,
                        ..old(self)@
                    })
                    &&& final(self)@.state == old(self)@.state || final(self)@.state == ceiling
                },
                Err(e) => e == LadderError::CeilingNotOnLadder && final(self)@ == old(self)@,
            },
            ladder::lawful_eq::<T>() ==> (res is Ok <==> ladder::on_ladder(
                old(self)@.rungs,
                ceiling,
            )),
            ladder::lawful_eq::<T>() && res is Ok ==> final(self)@ == old(self)@.with_ceiling(
                ceiling,
            ),
    {
        self.ladder.validate_ceiling(ceiling)?;
        self.ceiling = ceiling;
        match (self.ladder.rung(self.state), self.ladder.rung(ceiling)) {
            (Some(cur), Some(cap)) => {
                if cur > cap {
                    self.state = ceiling;
                }
            },
            _ => {},
        }
        Ok(())
    }

    /// Feeds one classified observation and gives the resulting step.
    ///
    /// Total: every pair of state and zone is defined, and a pair that earns no
    /// movement is inert.
    pub fn advance(&mut self, zone: Zone) -> (res: Step<T>)
        requires
            old(self).wf(),
        ensures
            final(self).wf(),
            old(self)@.moves(zone, res, final(self)@),
    {
        proof {
            if ladder::lawful_eq::<T>() {
                lemma_neighbours(self@);
            }
        }
        match zone {
            Zone::Above => {
                self.calm_streak = 0;
                self.over_streak = self.over_streak.saturating_add(1);
                if self.over_streak < self.down_after {
                    return Step::Hold { state: self.state };
                }
                self.over_streak = 0;
                let next = self.ladder.down(self.state);
                if next == self.state {
                    Step::AtFloor { state: self.state }
                } else {
                    let from = self.state;
                    self.state = next;
                    Step::Stepped { from, to: next }
                }
            },
            Zone::Below => {
                self.over_streak = 0;
                self.calm_streak = self.calm_streak.saturating_add(1);
                if self.calm_streak < self.up_after {
                    return Step::Hold { state: self.state };
                }
                self.calm_streak = 0;
                let next = self.ladder.up(self.state, self.ceiling);
                if next == self.state {
                    Step::AtCeiling { state: self.state }
                } else {
                    let from = self.state;
                    self.state = next;
                    Step::Stepped { from, to: next }
                }
            },
            Zone::InBand => {
                self.over_streak = 0;
                self.calm_streak = 0;
                Step::Hold { state: self.state }
            },
        }
    }

    /// Classifies `used / capacity` against `band` and advances in one call.
    pub fn tick(&mut self, used: u64, capacity: u64, band: Band) -> (res: Step<T>)
        requires
            old(self).wf(),
        ensures
            final(self).wf(),
            old(self)@.moves(
                zone::zone_of(used as int, capacity as int, band),
                res,
                final(self)@,
            ),
    {
        self.advance(zone::zone(used, capacity, band))
    }

    /// Classifies a frame against a budget, both in microseconds, and advances:
    /// [`tick`](Self::tick) with [`Band::frame`] applied.
    pub fn tick_frame(&mut self, frame_us: u64, budget_us: u64) -> (res: Step<T>)
        requires
            old(self).wf(),
        ensures
            final(self).wf(),
            old(self)@.moves(
                zone::zone_of(frame_us as int, budget_us as int, Band::frame()),
                res,
                final(self)@,
            ),
    {
        self.advance(zone::frame_zone(frame_us, budget_us))
    }

    /// Both streak counters, `(over, calm)`. For diagnostics; a consumer should drive
    /// off [`Step`].
    pub fn streaks(&self) -> (res: (u32, u32))
        ensures
            res.0 == self@.over_streak,
            res.1 == self@.calm_streak,
    {
        (self.over_streak, self.calm_streak)
    }
}

/// A [`Governor`] as a pure reducer: a state and an event give the next state and
/// the effects.
///
/// [`Governor::advance`] is the allocation-free call for a render loop; this is for
/// consumers that drive state machines by `(state, event) -> (state, effects)`.
#[derive(Debug, Copy, PartialEq, Eq)]
pub struct GovernorMachine<T: 'static>(core::marker::PhantomData<T>);

impl<T: Clone + 'static> Clone for GovernorMachine<T> {
    fn clone(&self) -> (res: Self)
        ensures
            res == *self,
    {
        GovernorMachine(core::marker::PhantomData)
    }
}

impl<T: Copy + Eq + 'static> GovernorMachine<T> {
    /// One event.
    ///
    /// A [`Step::Hold`] is not an effect: nothing downstream must act on it. A step,
    /// or a saturation that the caller needs to know about, is the one effect.
    pub fn step(state: &Governor<T>, event: Zone) -> (res: (Governor<T>, Vec<Step<T>>))
        requires
            state.wf(),
        ensures
            res.0.wf(),
            if state@.matures(event) {
                res.1@.len() == 1 && state@.moves(event, res.1@[0], res.0@)
            } else {
                res.1@.len() == 0 && state@.moves(event, Step::Hold { state: state@.state }, res.0@)
            },
            res.1@.len() == match event {
                Zone::Above => if state@.over_streak + 1 < state@.down_after {
                    0nat
                } else {
                    1nat
                },
                Zone::Below => if state@.calm_streak + 1 < state@.up_after {
                    0nat
                } else {
                    1nat
                },
                Zone::InBand => 0nat,
            },
            forall|i: int| 0 <= i < res.1@.len() ==> !(#[trigger] res.1@[i] is Hold),
            ladder::lawful_eq::<T>() ==> {
                &&& res.0@ == state@.advance(event)
                &&& res.1@ == state@.effects(event)
            },
            event == Zone::InBand && state@.at_rest() ==> res.0@ == state@ && res.1@.len() == 0,
    {
        let mut next = *state;
        let outcome = next.advance(event);
        match outcome {
            Step::Hold { .. } => (next, Vec::new()),
            other => (next, vec![other]),
        }
    }
}

} // verus!
