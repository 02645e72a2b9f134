//! What a governor does over sequences of observations.
//!
//! A [`Governor`](crate::Governor) answers one observation at a time. The guarantee
//! it is built for is about many: that a signal which does not persist moves
//! nothing, that pressure which persists is answered, and that what was shed comes
//! back, slowly. Each is a proof function here, over [`GovernorModel`] and the
//! transition that [`Governor::advance`](crate::Governor::advance) is proved to
//! make.
use crate::governor::{GovernorModel, Step};
use crate::ladder;
use crate::zone;
use crate::zone::{Band, Zone};
use vstd::prelude::*;
use vstd::std_specs::cmp::PartialEqSpec;

verus! {

/// The governor after the observations `zones`, in order.
pub open spec fn run<T: Eq>(m: GovernorModel<T>, zones: Seq<Zone>) -> GovernorModel<T>
    decreases zones.len(),
{
    if zones.len() == 0 {
        m
    } else {
        run(m, zones.drop_last()).advance(zones.last())
    }
}

/// What the observations `zones` report, in order.
pub open spec fn reports<T: Eq>(m: GovernorModel<T>, zones: Seq<Zone>) -> Seq<Step<T>>
    decreases zones.len(),
{
    if zones.len() == 0 {
        seq![]
    } else {
        reports(m, zones.drop_last()).push(run(m, zones.drop_last()).outcome(zones.last()))
    }
}

/// How many of `steps` are of a kind.
pub open spec fn tally<T>(steps: Seq<Step<T>>, kind: spec_fn(Step<T>) -> bool) -> nat
    decreases steps.len(),
{
    if steps.len() == 0 {
        0
    } else {
        tally(steps.drop_last(), kind) + if kind(steps.last()) {
            1nat
        } else {
            0nat
        }
    }
}

/// `count` observations of `zone`.
pub open spec fn repeated(zone: Zone, count: nat) -> Seq<Zone> {
    Seq::new(count, |i: int| zone)
}

/// Pressure and calm in turn, pressure first.
pub open spec fn alternating(count: nat) -> Seq<Zone> {
    Seq::new(
        count,
        |i: int|
            if i % 2 == 0 {
                Zone::Above
            } else {
                Zone::Below
            },
    )
}

/// What the streaks of `m` have counted, and then `zones`: from rest, `zones` alone.
pub open spec fn seen<T: Eq>(m: GovernorModel<T>, zones: Seq<Zone>) -> Seq<Zone> {
    repeated(Zone::Above, m.over_streak) + repeated(Zone::Below, m.calm_streak) + zones
}

/// The `count` observations before index `end` are all of `zone`.
pub open spec fn sustained(zones: Seq<Zone>, zone: Zone, count: nat, end: int) -> bool {
    &&& count <= end <= zones.len()
    &&& forall|i: int| end - count <= i < end ==> #[trigger] zones[i] == zone
}

/// One observation keeps a governor valid, changes neither ladder, ceiling nor
/// thresholds, and moves the state by at most one position: pressure only down, calm
/// only up, a neutral observation not at all. It leaves at most one streak running,
/// and never the opposing one.
pub proof fn lemma_advance_is_one_small_step<T: Eq>(m: GovernorModel<T>, zone: Zone)
    requires
        ladder::lawful_eq::<T>(),
        m.valid(),
    ensures
        m.advance(zone).valid(),
        m.advance(zone).rungs == m.rungs,
        m.advance(zone).ceiling == m.ceiling,
        m.advance(zone).down_after == m.down_after,
        m.advance(zone).up_after == m.up_after,
        m.advance(zone).over_streak == 0 || m.advance(zone).calm_streak == 0,
        match zone {
            Zone::Above => {
                &&& -1 <= m.advance(zone).position() - m.position() <= 0
                &&& m.advance(zone).calm_streak == 0
            },
            Zone::Below => {
                &&& 0 <= m.advance(zone).position() - m.position() <= 1
                &&& m.advance(zone).over_streak == 0
            },
            Zone::InBand => m.advance(zone).position() == m.position()
                && m.advance(zone).at_rest(),
        },
{
    crate::governor::lemma_neighbours(m);
    let p = m.position();
    if m.matures(zone) && zone == Zone::Above && p > 0 {
        assert(ladder::position(m.rungs, m.rungs[p - 1]) == p - 1);
    }
    if m.matures(zone) && zone == Zone::Below && p < m.cap() {
        assert(ladder::position(m.rungs, m.rungs[p + 1]) == p + 1);
    }
}

/// The step reports the rung that the governor rests on, which is on the ladder. It
/// reports a change where and only where the rung changed, and then names the rung
/// before and the rung after, which differ.
pub proof fn lemma_steps_report_the_truth<T: Eq>(m: GovernorModel<T>, zone: Zone)
    requires
        ladder::lawful_eq::<T>(),
        m.valid(),
    ensures
        m.outcome(zone).rests_on() == m.advance(zone).state,
        ladder::on_ladder(m.rungs, m.outcome(zone).rests_on()),
        m.outcome(zone) is Stepped <==> !m.state.eq_spec(&m.advance(zone).state),
        m.outcome(zone) is Stepped <==> m.advance(zone).position() != m.position(),
        match m.outcome(zone) {
            Step::Stepped { from, to } => {
                &&& from == m.state
                &&& to == m.advance(zone).state
                &&& !from.eq_spec(&to)
            },
            Step::Hold { state } => state == m.state && m.advance(zone).state == m.state,
            Step::AtFloor { state } => state == m.state && m.advance(zone).state == m.state,
            Step::AtCeiling { state } => state == m.state && m.advance(zone).state == m.state,
        },
{
    crate::governor::lemma_neighbours(m);
    let p = m.position();
    assert(m.rungs[p].eq_spec(&m.state));
    if m.matures(zone) && zone == Zone::Above && p > 0 {
        assert(!m.rungs[p - 1].eq_spec(&m.state));
    }
    if m.matures(zone) && zone == Zone::Below && p < m.cap() {
        assert(!m.rungs[p + 1].eq_spec(&m.state));
    }
}

/// An observation has one outcome. So a tick does what advancing by its classified
/// ratio does, a frame tick what a tick against the frame band does, and the reducer
/// what the governor does: equal governors stay equal, and report the same.
pub proof fn lemma_moves_are_determined<T: Eq>(
    m: GovernorModel<T>,
    zone: Zone,
    step: Step<T>,
    next: GovernorModel<T>,
    step2: Step<T>,
    next2: GovernorModel<T>,
)
    requires
        ladder::lawful_eq::<T>(),
        m.moves(zone, step, next),
        m.moves(zone, step2, next2),
    ensures
        step == step2,
        next == next2,
{
}

/// Without a capacity every measurement counts as calm: it never makes the quality
/// cheaper, whatever was used.
pub proof fn lemma_no_capacity_never_sheds<T: Eq>(m: GovernorModel<T>, used: u64, band: Band)
    requires
        ladder::lawful_eq::<T>(),
        m.valid(),
    ensures
        zone::zone_of(used as int, 0, band) == Zone::Below,
        m.advance(zone::zone_of(used as int, 0, band)).position() >= m.position(),
{
    lemma_advance_is_one_small_step(m, Zone::Below);
}

/// Whatever is observed, and for however long, the governor stays on its ladder and
/// never climbs above its ceiling.
pub proof fn lemma_never_leaves_the_ladder<T: Eq>(m: GovernorModel<T>, zones: Seq<Zone>)
    requires
        ladder::lawful_eq::<T>(),
        m.valid(),
    ensures
        run(m, zones).valid(),
        ladder::on_ladder(m.rungs, run(m, zones).state),
        run(m, zones).position() <= m.cap(),
        run(m, zones).rungs == m.rungs,
        run(m, zones).ceiling == m.ceiling,
        run(m, zones).down_after == m.down_after,
        run(m, zones).up_after == m.up_after,
    decreases zones.len(),
{
    if zones.len() > 0 {
        lemma_never_leaves_the_ladder(m, zones.drop_last());
        lemma_advance_is_one_small_step(run(m, zones.drop_last()), zones.last());
    }
}

/// A neutral observation moves nothing, reports nothing and clears both streaks; on
/// a governor at rest it changes nothing at all.
pub proof fn lemma_neutral_rests<T: Eq>(m: GovernorModel<T>)
    ensures
        m.outcome(Zone::InBand) == (Step::Hold { state: m.state }),
        m.advance(Zone::InBand).state == m.state,
        m.advance(Zone::InBand).at_rest(),
        m.at_rest() ==> m.advance(Zone::InBand) == m,
{
}

/// Each trigger clears the opposing streak.
pub proof fn lemma_opposing_streak_is_cleared<T: Eq>(m: GovernorModel<T>)
    ensures
        m.advance(Zone::Above).calm_streak == 0,
        m.advance(Zone::Below).over_streak == 0,
{
}

/// A completed streak of pressure at the floor is reported as such, and nothing else
/// is: "nothing left to give" is never reported as "nothing to do". The same holds
/// of calm at the ceiling.
pub proof fn lemma_saturation_is_reported<T: Eq>(m: GovernorModel<T>, zone: Zone)
    requires
        ladder::lawful_eq::<T>(),
        m.valid(),
    ensures
        m.outcome(zone) is AtFloor <==> zone == Zone::Above && m.matures(zone) && m.position() == 0,
        m.outcome(zone) is AtCeiling <==> zone == Zone::Below && m.matures(zone) && m.position()
            == m.cap(),
        m.outcome(zone) is Hold <==> !m.matures(zone),
{
    crate::governor::lemma_neighbours(m);
}

/// Streaks count only what was just observed: the observations that a streak counts
/// are the latest ones, and all of its zone.
proof fn lemma_streaks_are_recent<T: Eq>(m: GovernorModel<T>, zones: Seq<Zone>)
    requires
        m.over_streak == 0 || m.calm_streak == 0,
    ensures
        ({
            let (all, after) = (seen(m, zones), run(m, zones));
            &&& sustained(all, Zone::Above, after.over_streak, all.len() as int)
            &&& sustained(all, Zone::Below, after.calm_streak, all.len() as int)
        }),
        run(m, zones).down_after == m.down_after,
        run(m, zones).up_after == m.up_after,
    decreases zones.len(),
{
    if zones.len() > 0 {
        let before = zones.drop_last();
        lemma_streaks_are_recent(m, before);
        lemma_seen_grows(m, before, zones.last());
        assert(before.push(zones.last()) == zones);
        let (all, earlier) = (seen(m, zones), seen(m, before));
        assert(forall|i: int| 0 <= i < earlier.len() ==> all[i] == earlier[i]);
        assert(all[earlier.len() as int] == zones.last());
    }
}

/// What was seen grows with what is observed.
proof fn lemma_seen_grows<T: Eq>(m: GovernorModel<T>, zones: Seq<Zone>, zone: Zone)
    ensures
        seen(m, zones.push(zone)) == seen(m, zones).push(zone),
{
    assert(seen(m, zones.push(zone)) =~= seen(m, zones).push(zone));
}

/// No movement without evidence: a step down is reported only at the end of
/// `down_after` consecutive observations of pressure, a step up only at the end of
/// `up_after` consecutive calm ones. One stray observation starts the count over.
pub proof fn lemma_steps_need_sustained_evidence<T: Eq>(
    m: GovernorModel<T>,
    zones: Seq<Zone>,
    zone: Zone,
)
    requires
        m.over_streak == 0 || m.calm_streak == 0,
        !(run(m, zones).outcome(zone) is Hold),
    ensures
        ({
            let all = seen(m, zones.push(zone));
            ||| zone == Zone::Above && sustained(all, Zone::Above, m.down_after, all.len() as int)
            ||| zone == Zone::Below && sustained(all, Zone::Below, m.up_after, all.len() as int)
        }),
{
    lemma_streaks_are_recent(m, zones);
    lemma_seen_grows(m, zones, zone);
    let (all, earlier) = (seen(m, zones.push(zone)), seen(m, zones));
    assert(forall|i: int| 0 <= i < earlier.len() ==> all[i] == earlier[i]);
    assert(all[earlier.len() as int] == zone);
}

/// No oscillation: a signal in which pressure never lasts for `down_after`
/// observations, nor calm for `up_after`, does not move the tier at all, at any
/// moment, however long it goes on. What a running streak has counted is part of the
/// signal.
pub proof fn lemma_unsustained_signal_moves_nothing<T: Eq>(m: GovernorModel<T>, zones: Seq<Zone>)
    requires
        m.over_streak == 0 || m.calm_streak == 0,
        forall|end: int| !#[trigger] sustained(seen(m, zones), Zone::Above, m.down_after, end),
        forall|end: int| !#[trigger] sustained(seen(m, zones), Zone::Below, m.up_after, end),
    ensures
        run(m, zones).state == m.state,
        forall|n: int|
            0 <= n <= zones.len() ==> run(m, #[trigger] zones.take(n)).state == m.state,
    decreases zones.len(),
{
    if zones.len() > 0 {
        let before = zones.drop_last();
        let last = zones.last();
        lemma_seen_grows(m, before, last);
        assert(before.push(last) == zones);
        let (all, earlier) = (seen(m, zones), seen(m, before));
        assert(forall|i: int| 0 <= i < earlier.len() ==> all[i] == earlier[i]);
        assert forall|end: int| !#[trigger] sustained(earlier, Zone::Above, m.down_after, end) by {
            if sustained(earlier, Zone::Above, m.down_after, end) {
                assert(sustained(all, Zone::Above, m.down_after, end));
            }
        }
        assert forall|end: int| !#[trigger] sustained(earlier, Zone::Below, m.up_after, end) by {
            if sustained(earlier, Zone::Below, m.up_after, end) {
                assert(sustained(all, Zone::Below, m.up_after, end));
            }
        }
        lemma_unsustained_signal_moves_nothing(m, before);
        lemma_streaks_are_recent(m, before);
        if !(run(m, before).outcome(last) is Hold) {
            lemma_steps_need_sustained_evidence(m, before, last);
        }
        assert forall|n: int| 0 <= n <= zones.len() implies run(m, #[trigger] zones.take(n)).state
            == m.state by {
            if n < zones.len() {
                assert(zones.take(n) == before.take(n));
            } else {
                assert(zones.take(n) == zones);
            }
        }
    } else {
        assert forall|n: int| 0 <= n <= zones.len() implies run(m, #[trigger] zones.take(n)).state
            == m.state by {
            assert(zones.take(n) == zones);
        }
    }
}

/// An alternating signal moves nothing and lets neither streak accumulate, for any
/// number of observations, wherever on its ladder the governor rests.
pub proof fn lemma_alternating_signal_moves_nothing<T: Eq>(m: GovernorModel<T>, count: nat)
    requires
        m.over_streak == 0,
        m.down_after >= 2,
        m.up_after >= 2,
    ensures
        run(m, alternating(count)).state == m.state,
        count > 0 && count % 2 == 0 ==> run(m, alternating(count)).over_streak == 0 && run(
            m,
            alternating(count),
        ).calm_streak == 1,
        count % 2 == 1 ==> run(m, alternating(count)).over_streak == 1 && run(
            m,
            alternating(count),
        ).calm_streak == 0,
        run(m, alternating(count)).down_after == m.down_after,
        run(m, alternating(count)).up_after == m.up_after,
    decreases count,
{
    let zones = alternating(count);
    if count > 0 {
        let less = (count - 1) as nat;
        assert(zones.drop_last() == alternating(less));
        assert(zones.last() == if less % 2 == 0 {
            Zone::Above
        } else {
            Zone::Below
        });
        lemma_alternating_signal_moves_nothing(m, less);
    }
}

/// Observing `first` and then `second` is observing the two in sequence.
proof fn lemma_run_in_two_parts<T: Eq>(m: GovernorModel<T>, first: Seq<Zone>, second: Seq<Zone>)
    ensures
        run(m, first + second) == run(run(m, first), second),
    decreases second.len(),
{
    let all = first + second;
    if second.len() == 0 {
        assert(all == first);
    } else {
        assert(all.drop_last() == first + second.drop_last());
        assert(all.last() == second.last());
        lemma_run_in_two_parts(m, first, second.drop_last());
    }
}

/// The rung after `streaks` completed streaks of pressure: one position per streak, as far
/// as the floor.
pub open spec fn shed<T: Eq>(m: GovernorModel<T>, streaks: nat) -> T {
    if streaks == 0 || m.position() == 0 {
        m.state
    } else {
        m.rungs[vstd::math::max(m.position() - streaks, 0)]
    }
}

/// The position of that rung.
proof fn lemma_position_shed<T: Eq>(m: GovernorModel<T>, streaks: nat)
    requires
        ladder::lawful_eq::<T>(),
        m.valid(),
    ensures
        ladder::position(m.rungs, shed(m, streaks)) == vstd::math::max(m.position() - streaks, 0),
        m.rungs[vstd::math::max(m.position() - streaks, 0)].eq_spec(
            &shed(m, streaks),
        ),
        0 <= m.position() <= m.cap(),
{
    crate::governor::lemma_neighbours(m);
    let p = vstd::math::max(m.position() - streaks, 0);
    assert(ladder::position(m.rungs, m.rungs[p]) == p);
}

/// Pressure that persists, call by call. With no streak of pressure running,
/// `streaks * down_after + more` observations of it complete `streaks` streaks and leave
/// `more` on the next. Each completed streak moves the state by one rung until
/// the floor is reached, and from then on the state stays there.
///
/// The observation that follows reports a hold, unless it completes a streak: then it
/// reports the step, or, once the floor is reached, that it is.
pub proof fn lemma_sustained_pressure_walks_down<T: Eq>(
    m: GovernorModel<T>,
    streaks: nat,
    more: nat,
)
    requires
        ladder::lawful_eq::<T>(),
        m.valid(),
        m.over_streak == 0,
        more < m.down_after,
    ensures
        ({
            let count = streaks * m.down_after + more;
            let after = run(m, repeated(Zone::Above, count));
            &&& after == GovernorModel {
                state: shed(m, streaks),
                over_streak: more,
                calm_streak: if count == 0 {
                    m.calm_streak
                } else {
                    0
                },
                ..m
            }
            &&& after.position() == vstd::math::max(m.position() - streaks, 0)
            &&& m.rungs[vstd::math::max(m.position() - streaks, 0)].eq_spec(&after.state)
            &&& after.outcome(Zone::Above) == if more + 1 < m.down_after {
                Step::Hold { state: shed(m, streaks) }
            } else if streaks < m.position() {
                Step::Stepped {
                    from: shed(m, streaks),
                    to: m.rungs[m.position() - streaks - 1],
                }
            } else {
                Step::AtFloor { state: shed(m, streaks) }
            }
        }),
    decreases streaks, more,
{
    let d = m.down_after;
    let count = streaks * d + more;
    let zones = repeated(Zone::Above, count);
    lemma_position_shed(m, streaks);
    assert(count >= more) by (nonlinear_arith)
        requires
            count == streaks * d + more,
    ;
    if more > 0 {
        let less = (more - 1) as nat;
        lemma_sustained_pressure_walks_down(m, streaks, less);
        assert(zones.drop_last() == repeated(Zone::Above, streaks * d + less));
    } else if streaks > 0 {
        let less = (streaks - 1) as nat;
        lemma_sustained_pressure_walks_down(m, less, (d - 1) as nat);
        lemma_position_shed(m, less);
        assert(count == less * d + (d - 1) + 1) by (nonlinear_arith)
            requires
                count == streaks * d,
                streaks == less + 1,
        ;
        assert(zones.drop_last() == repeated(Zone::Above, less * d + (d - 1) as nat));
    } else {
        assert(0 * d == 0) by (nonlinear_arith);
    }
}

/// The tally of pressure that persists: of the observations, `streaks` complete a streak
/// and all others are holds. Of those that complete one, as many are steps as there are
/// rungs on the way to the floor, and all further ones report that it is reached.
pub proof fn lemma_tally_of_sustained_pressure<T: Eq>(m: GovernorModel<T>, streaks: nat, more: nat)
    requires
        ladder::lawful_eq::<T>(),
        m.valid(),
        m.over_streak == 0,
        more < m.down_after,
    ensures
        ({
            let count = streaks * m.down_after + more;
            let all = reports(m, repeated(Zone::Above, count));
            let moved = vstd::math::min(m.position(), streaks as int);
            &&& all.len() == count
            &&& tally(all, |step: Step<T>| step is Stepped) == moved
            &&& tally(all, |step: Step<T>| step is AtFloor) == streaks - moved
            &&& tally(all, |step: Step<T>| step is Hold) == count - streaks
        }),
    decreases streaks, more,
{
    let d = m.down_after;
    let count = streaks * d + more;
    let zones = repeated(Zone::Above, count);
    lemma_position_shed(m, streaks);
    assert(count >= more) by (nonlinear_arith)
        requires
            count == streaks * d + more,
    ;
    if more > 0 {
        let less = (more - 1) as nat;
        lemma_sustained_pressure_walks_down(m, streaks, less);
        lemma_tally_of_sustained_pressure(m, streaks, less);
        let before = repeated(Zone::Above, streaks * d + less);
        assert(zones.drop_last() == before);
        assert(reports(m, zones).drop_last() == reports(m, before));
    } else if streaks > 0 {
        let less = (streaks - 1) as nat;
        lemma_sustained_pressure_walks_down(m, less, (d - 1) as nat);
        lemma_tally_of_sustained_pressure(m, less, (d - 1) as nat);
        assert(count == less * d + (d - 1) + 1) by (nonlinear_arith)
            requires
                count == streaks * d,
                streaks == less + 1,
        ;
        let before = repeated(Zone::Above, less * d + (d - 1) as nat);
        assert(zones.drop_last() == before);
        assert(reports(m, zones).drop_last() == reports(m, before));
    } else {
        assert(0 * d == 0) by (nonlinear_arith);
    }
}

/// The rung after `streaks` completed streaks of calm: one position per streak, as far
/// as the ceiling.
pub open spec fn climbed<T: Eq>(m: GovernorModel<T>, streaks: nat) -> T {
    if streaks == 0 || m.position() == m.cap() {
        m.state
    } else {
        m.rungs[vstd::math::min(m.position() + streaks, m.cap())]
    }
}

/// The position of that rung.
proof fn lemma_position_climbed<T: Eq>(m: GovernorModel<T>, streaks: nat)
    requires
        ladder::lawful_eq::<T>(),
        m.valid(),
    ensures
        ladder::position(m.rungs, climbed(m, streaks)) == vstd::math::min(
            m.position() + streaks,
            m.cap(),
        ),
        m.rungs[vstd::math::min(m.position() + streaks, m.cap())].eq_spec(
            &climbed(m, streaks),
        ),
        0 <= m.position() <= m.cap(),
{
    crate::governor::lemma_neighbours(m);
    let p = vstd::math::min(m.position() + streaks, m.cap());
    assert(ladder::position(m.rungs, m.rungs[p]) == p);
}

/// Calm that persists, call by call. With no streak of calm running,
/// `streaks * up_after + more` observations of it complete `streaks` streaks and leave
/// `more` on the next. Each completed streak moves the state by one rung until
/// the ceiling is reached, and from then on the state stays there.
///
/// The observation that follows reports a hold, unless it completes a streak: then it
/// reports the step, or, once the ceiling is reached, that it is.
pub proof fn lemma_sustained_calm_climbs_to_the_ceiling<T: Eq>(
    m: GovernorModel<T>,
    streaks: nat,
    more: nat,
)
    requires
        ladder::lawful_eq::<T>(),
        m.valid(),
        m.calm_streak == 0,
        more < m.up_after,
    ensures
        ({
            let count = streaks * m.up_after + more;
            let after = run(m, repeated(Zone::Below, count));
            &&& after == GovernorModel {
                state: climbed(m, streaks),
                calm_streak: more,
                over_streak: if count == 0 {
                    m.over_streak
                } else {
                    0
                },
                ..m
            }
            &&& after.position() == vstd::math::min(m.position() + streaks, m.cap())
            &&& m.rungs[vstd::math::min(m.position() + streaks, m.cap())].eq_spec(&after.state)
            &&& after.outcome(Zone::Below) == if more + 1 < m.up_after {
                Step::Hold { state: climbed(m, streaks) }
            } else if m.position() + streaks < m.cap() {
                Step::Stepped {
                    from: climbed(m, streaks),
                    to: m.rungs[m.position() + streaks + 1],
                }
            } else {
                Step::AtCeiling { state: climbed(m, streaks) }
            }
        }),
    decreases streaks, more,
{
    let d = m.up_after;
    let count = streaks * d + more;
    let zones = repeated(Zone::Below, count);
    lemma_position_climbed(m, streaks);
    assert(count >= more) by (nonlinear_arith)
        requires
            count == streaks * d + more,
    ;
    if more > 0 {
        let less = (more - 1) as nat;
        lemma_sustained_calm_climbs_to_the_ceiling(m, streaks, less);
        assert(zones.drop_last() == repeated(Zone::Below, streaks * d + less));
    } else if streaks > 0 {
        let less = (streaks - 1) as nat;
        lemma_sustained_calm_climbs_to_the_ceiling(m, less, (d - 1) as nat);
        lemma_position_climbed(m, less);
        assert(count == less * d + (d - 1) + 1) by (nonlinear_arith)
            requires
                count == streaks * d,
                streaks == less + 1,
        ;
        assert(zones.drop_last() == repeated(Zone::Below, less * d + (d - 1) as nat));
    } else {
        assert(0 * d == 0) by (nonlinear_arith);
    }
}

/// The tally of calm that persists: of the observations, `streaks` complete a streak
/// and all others are holds. Of those that complete one, as many are steps as there are
/// rungs on the way to the ceiling, and all further ones report that it is reached.
pub proof fn lemma_tally_of_sustained_calm<T: Eq>(m: GovernorModel<T>, streaks: nat, more: nat)
    requires
        ladder::lawful_eq::<T>(),
        m.valid(),
        m.calm_streak == 0,
        more < m.up_after,
    ensures
        ({
            let count = streaks * m.up_after + more;
            let all = reports(m, repeated(Zone::Below, count));
            let moved = vstd::math::min(m.cap() - m.position(), streaks as int);
            &&& all.len() == count
            &&& tally(all, |step: Step<T>| step is Stepped) == moved
            &&& tally(all, |step: Step<T>| step is AtCeiling) == streaks - moved
            &&& tally(all, |step: Step<T>| step is Hold) == count - streaks
        }),
    decreases streaks, more,
{
    let d = m.up_after;
    let count = streaks * d + more;
    let zones = repeated(Zone::Below, count);
    lemma_position_climbed(m, streaks);
    assert(count >= more) by (nonlinear_arith)
        requires
            count == streaks * d + more,
    ;
    if more > 0 {
        let less = (more - 1) as nat;
        lemma_sustained_calm_climbs_to_the_ceiling(m, streaks, less);
        lemma_tally_of_sustained_calm(m, streaks, less);
        let before = repeated(Zone::Below, streaks * d + less);
        assert(zones.drop_last() == before);
        assert(reports(m, zones).drop_last() == reports(m, before));
    } else if streaks > 0 {
        let less = (streaks - 1) as nat;
        lemma_sustained_calm_climbs_to_the_ceiling(m, less, (d - 1) as nat);
        lemma_tally_of_sustained_calm(m, less, (d - 1) as nat);
        assert(count == less * d + (d - 1) + 1) by (nonlinear_arith)
            requires
                count == streaks * d,
                streaks == less + 1,
        ;
        let before = repeated(Zone::Below, less * d + (d - 1) as nat);
        assert(zones.drop_last() == before);
        assert(reports(m, zones).drop_last() == reports(m, before));
    } else {
        assert(0 * d == 0) by (nonlinear_arith);
    }
}

/// Shed fast, reclaim slow: a rung that was shed stays shed for as long as the calm
/// that follows is shorter than `up_after`, and comes back when it is not. With
/// `down_after < up_after`, a calm as long as the pressure that shed the rung is too
/// short to reclaim it.
pub proof fn lemma_shed_then_reclaimed<T: Eq>(m: GovernorModel<T>, calm: nat)
    requires
        ladder::lawful_eq::<T>(),
        m.valid(),
        m.over_streak == 0,
        m.position() > 0,
        calm <= m.up_after,
    ensures
        ({
            let after = run(
                m,
                repeated(Zone::Above, m.down_after) + repeated(Zone::Below, calm),
            );
            if calm < m.up_after {
                after.state == m.rungs[m.position() - 1]
            } else {
                after.state == m.rungs[m.position()] && after.state.eq_spec(&m.state)
            }
        }),
{
    let pressure = repeated(Zone::Above, m.down_after);
    let d = m.down_after;
    let u = m.up_after;
    let shed_once = run(m, pressure);
    assert(1 * d + 0 == d && 1 * u + 0 == u && 0 * u == 0) by (nonlinear_arith);
    lemma_run_in_two_parts(m, pressure, repeated(Zone::Below, calm));
    lemma_sustained_pressure_walks_down(m, 1, 0);
    lemma_never_leaves_the_ladder(m, pressure);
    crate::governor::lemma_neighbours(m);
    if calm < m.up_after {
        lemma_sustained_calm_climbs_to_the_ceiling(shed_once, 0, calm);
    } else {
        lemma_sustained_calm_climbs_to_the_ceiling(shed_once, 1, 0);
    }
}

/// A ceiling is a bound: lowered below the current rung it pulls the state down at
/// once, and raised it grants nothing. Either way the governor stays valid.
pub proof fn lemma_ceiling_is_a_bound<T: Eq>(m: GovernorModel<T>, ceiling: T)
    requires
        ladder::lawful_eq::<T>(),
        m.valid(),
        ladder::on_ladder(m.rungs, ceiling),
    ensures
        m.with_ceiling(ceiling).valid(),
        m.with_ceiling(ceiling).position() == vstd::math::min(
            m.position(),
            ladder::position(m.rungs, ceiling),
        ),
        ladder::position(m.rungs, ceiling) >= m.position() ==> m.with_ceiling(ceiling).state
            == m.state,
{
}

/// Lowering the ceiling and raising it again does not give back what the lower
/// ceiling took: that has to be earned.
pub proof fn lemma_raised_ceiling_is_only_permission<T: Eq>(
    m: GovernorModel<T>,
    lower: T,
    higher: T,
)
    requires
        ladder::lawful_eq::<T>(),
        m.valid(),
        ladder::on_ladder(m.rungs, lower),
        ladder::on_ladder(m.rungs, higher),
        ladder::position(m.rungs, lower) <= ladder::position(m.rungs, higher),
    ensures
        m.with_ceiling(lower).with_ceiling(higher).state == m.with_ceiling(lower).state,
        m.with_ceiling(lower).with_ceiling(higher).ceiling == higher,
{
    lemma_ceiling_is_a_bound(m, lower);
}

/// A call that can change a governor.
pub enum Call<T> {
    /// [`Governor::with_streaks`](crate::Governor::with_streaks).
    WithStreaks { down_after: u32, up_after: u32 },
    /// [`Governor::set_ceiling`](crate::Governor::set_ceiling).
    SetCeiling { ceiling: T },
    /// [`Governor::advance`](crate::Governor::advance).
    Advance { zone: Zone },
    /// [`Governor::tick`](crate::Governor::tick).
    Tick { used: u64, capacity: u64, band: Band },
    /// [`Governor::tick_frame`](crate::Governor::tick_frame).
    TickFrame { frame_us: u64, budget_us: u64 },
}

/// The governor after one call; a ceiling that is refused changes nothing.
pub open spec fn after_call<T: Eq>(m: GovernorModel<T>, call: Call<T>) -> GovernorModel<T> {
    match call {
        Call::WithStreaks { down_after, up_after } => m.with_streaks(
            down_after as int,
            up_after as int,
        ),
        Call::SetCeiling { ceiling } => if ladder::on_ladder(m.rungs, ceiling) {
            m.with_ceiling(ceiling)
        } else {
            m
        },
        Call::Advance { zone } => m.advance(zone),
        Call::Tick { used, capacity, band } => m.advance(
            zone::zone_of(used as int, capacity as int, band),
        ),
        Call::TickFrame { frame_us, budget_us } => m.advance(
            zone::zone_of(frame_us as int, budget_us as int, Band::frame()),
        ),
    }
}

/// The governor after `calls`, in order.
pub open spec fn after_calls<T: Eq>(m: GovernorModel<T>, calls: Seq<Call<T>>) -> GovernorModel<T>
    decreases calls.len(),
{
    if calls.len() == 0 {
        m
    } else {
        after_call(after_calls(m, calls.drop_last()), calls.last())
    }
}

/// The last ceiling among `calls` that is on the ladder, or `ceiling` if none is.
pub open spec fn last_ceiling<T: Eq>(rungs: Seq<T>, ceiling: T, calls: Seq<Call<T>>) -> T
    decreases calls.len(),
{
    if calls.len() == 0 {
        ceiling
    } else if calls.last() is SetCeiling && ladder::on_ladder(
        rungs,
        calls.last()->SetCeiling_ceiling,
    ) {
        calls.last()->SetCeiling_ceiling
    } else {
        last_ceiling(rungs, ceiling, calls.drop_last())
    }
}

/// Whatever is called on a new governor, refused ceilings included: it keeps its
/// ladder, its ceiling is the last one that was accepted, both its state and its
/// ceiling are on the ladder, and the state is never above the ceiling. At most one
/// streak is running.
pub proof fn lemma_every_history_keeps_the_governor_valid<T: Eq>(
    rungs: Seq<T>,
    ceiling: T,
    calls: Seq<Call<T>>,
)
    requires
        ladder::lawful_eq::<T>(),
        rungs.len() >= 2,
        ladder::distinct(rungs),
        ladder::on_ladder(rungs, ceiling),
    ensures
        ({
            let m = after_calls(GovernorModel::fresh(rungs, ceiling), calls);
            &&& m.valid()
            &&& m.rungs == rungs
            &&& m.ceiling == last_ceiling(rungs, ceiling, calls)
            &&& ladder::on_ladder(rungs, m.state)
            &&& ladder::on_ladder(rungs, m.ceiling)
            &&& ladder::position(rungs, m.state) <= ladder::position(rungs, m.ceiling)
            &&& m.over_streak == 0 || m.calm_streak == 0
        }),
    decreases calls.len(),
{
    if calls.len() > 0 {
        lemma_every_history_keeps_the_governor_valid(rungs, ceiling, calls.drop_last());
        let before = after_calls(GovernorModel::fresh(rungs, ceiling), calls.drop_last());
        match calls.last() {
            Call::WithStreaks { down_after, up_after } => {},
            Call::SetCeiling { ceiling } => {
                if ladder::on_ladder(rungs, ceiling) {
                    lemma_ceiling_is_a_bound(before, ceiling);
                }
            },
            Call::Advance { zone } => lemma_advance_is_one_small_step(before, zone),
            Call::Tick { used, capacity, band } => lemma_advance_is_one_small_step(
                before,
                zone::zone_of(used as int, capacity as int, band),
            ),
            Call::TickFrame { frame_us, budget_us } => lemma_advance_is_one_small_step(
                before,
                zone::zone_of(frame_us as int, budget_us as int, Band::frame()),
            ),
        }
    }
}

/// Observing one after another: nothing observed changes nothing, and one more
/// observation is one more step from where the others led.
pub proof fn lemma_run_is_step_by_step<T: Eq>(m: GovernorModel<T>, zones: Seq<Zone>, zone: Zone)
    ensures
        run(m, seq![]) == m,
        run(m, zones.push(zone)) == run(m, zones).advance(zone),
        reports(m, zones.push(zone)) == reports(m, zones).push(run(m, zones).outcome(zone)),
{
    assert(zones.push(zone).drop_last() == zones);
}

/// The model moves as the governor does: what it says of an observation is what an
/// observation reports and leaves. With [`lemma_moves_are_determined`], nothing else is.
pub proof fn lemma_model_moves_as_the_governor<T: Eq>(m: GovernorModel<T>, zone: Zone)
    requires
        ladder::lawful_eq::<T>(),
        m.valid(),
    ensures
        m.moves(zone, m.outcome(zone), m.advance(zone)),
        m.effects(zone).len() <= 1,
        m.effects(zone).len() == 0 <==> m.outcome(zone) is Hold,
        m.effects(zone).len() == 1 ==> m.effects(zone)[0] == m.outcome(zone),
{
    crate::governor::lemma_neighbours(m);
    let p = m.position();
    if m.matures(zone) && zone == Zone::Above && p > 0 {
        assert(m.rungs.contains(m.rungs[p - 1]));
    }
    if m.matures(zone) && zone == Zone::Below && p < m.cap() {
        assert(m.rungs.contains(m.rungs[p + 1]));
    }
}

/// Thresholds that were overridden are in force as given: with no streak of pressure
/// running, fewer than `down_after` observations of it report only holds and move
/// nothing, and the one that makes `down_after` is no hold. The same is true of calm
/// and `up_after`.
pub proof fn lemma_overridden_thresholds_are_in_force<T: Eq>(
    m: GovernorModel<T>,
    down_after: u32,
    up_after: u32,
    count: nat,
)
    requires
        ladder::lawful_eq::<T>(),
        m.valid(),
    ensures
        m.over_streak == 0 && count < down_after ==> {
            let after = run(
                m.with_streaks(down_after as int, up_after as int),
                repeated(Zone::Above, count),
            );
            &&& after.outcome(Zone::Above) is Hold <==> count + 1 < down_after
            &&& after.state == m.state
        },
        m.calm_streak == 0 && count < up_after ==> {
            let after = run(
                m.with_streaks(down_after as int, up_after as int),
                repeated(Zone::Below, count),
            );
            &&& after.outcome(Zone::Below) is Hold <==> count + 1 < up_after
            &&& after.state == m.state
        },
{
    let g = m.with_streaks(down_after as int, up_after as int);
    let (d, u) = (g.down_after, g.up_after);
    assert(0 * d + count == count && 0 * u + count == count) by (nonlinear_arith);
    if m.over_streak == 0 && count < down_after {
        lemma_sustained_pressure_walks_down(g, 0, count);
    }
    if m.calm_streak == 0 && count < up_after {
        lemma_sustained_calm_climbs_to_the_ceiling(g, 0, count);
    }
}

/// A new governor rests on the ceiling it was given; it holds through 29 observations
/// of pressure and answers the 30th, and holds through 299 calm ones and answers the
/// 300th, from the ceiling: a step down to the rung before it, or that it is reached.
pub proof fn lemma_new_governor_waits_and_answers<T: Eq>(
    rungs: Seq<T>,
    ceiling: T,
    i: int,
    count: nat,
)
    requires
        ladder::lawful_eq::<T>(),
        rungs.len() >= 2,
        ladder::distinct(rungs),
        0 < i < rungs.len(),
        rungs[i].eq_spec(&ceiling),
    ensures
        ({
            let new = GovernorModel::fresh(rungs, ceiling);
            &&& count < 30 ==> run(new, repeated(Zone::Above, count)).outcome(Zone::Above)
                == if count < 29 {
                Step::Hold { state: ceiling }
            } else {
                Step::Stepped { from: ceiling, to: rungs[i - 1] }
            }
            &&& count < 300 ==> run(new, repeated(Zone::Below, count)).outcome(Zone::Below)
                == if count < 299 {
                Step::Hold { state: ceiling }
            } else {
                Step::AtCeiling { state: ceiling }
            }
        }),
{
    let new = GovernorModel::fresh(rungs, ceiling);
    ladder::lemma_position_is(rungs, ceiling, i);
    assert(0 * new.down_after + count == count && 0 * new.up_after + count == count)
        by (nonlinear_arith);
    if count < 30 {
        lemma_sustained_pressure_walks_down(new, 0, count);
    }
    if count < 300 {
        lemma_sustained_calm_climbs_to_the_ceiling(new, 0, count);
    }
}

} // verus!
