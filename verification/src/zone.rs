//! The two-sided dead-band classifier.
//!
//! A ratio `used / capacity` is held against two thresholds and lands in one of
//! three zones. One measurement is bytes against a memory limit, another is
//! microseconds against a frame budget; the classifier is the same, and so is the
//! upper threshold of the two bands that ship with it.
//!
//! The classifier, and nothing else, lives here: what to do about a zone differs
//! between consumers.
use crate::binary64;
use crate::binary64::Binary64;
use vstd::arithmetic::power2::*;
use vstd::prelude::*;
use vstd::std_specs::cmp::PartialEqSpec;

verus! {

/// The bits of the binary64 number nearest to 0.85.
pub const ABOVE_BITS: u64 = 0x3FEB_3333_3333_3333;

/// The bits of the binary64 number nearest to 0.70.
pub const RESOURCE_BELOW_BITS: u64 = 0x3FE6_6666_6666_6666;

/// The bits of the binary64 number nearest to 0.60.
pub const FRAME_BELOW_BITS: u64 = 0x3FE3_3333_3333_3333;

/// A two-sided dead band: the pair of utilization thresholds that partition a
/// `used / capacity` ratio into [`Zone::Above`], [`Zone::InBand`] and
/// [`Zone::Below`].
///
/// The gap between the two is the dead zone: a ratio that merely drifts inside the
/// band produces no movement at all.
#[derive(Debug, Clone, Copy)]
pub struct Band {
    /// A ratio strictly above this is [`Zone::Above`]: the system is under pressure
    /// and something must give.
    pub above: Binary64,
    /// A ratio strictly below this is [`Zone::Below`]: the system is calm and could
    /// afford more.
    pub below: Binary64,
}

impl PartialEq for Band {
    /// Both thresholds are equal as numbers.
    fn eq(&self, other: &Self) -> (res: bool) {
        self.above == other.above && self.below == other.below
    }
}

impl vstd::std_specs::cmp::PartialEqSpecImpl for Band {
    open spec fn obeys_eq_spec() -> bool {
        true
    }

    open spec fn eq_spec(&self, other: &Self) -> bool {
        self.above.same_number(other.above) && self.below.same_number(other.below)
    }
}

impl Band {
    /// `0 <= below <= above`, both finite.
    pub open spec fn well_formed(self) -> bool {
        &&& self.above.finite()
        &&& self.below.finite()
        &&& 0 <= self.below.scaled() <= self.above.scaled()
    }

    /// The resource band, 0.70 to 0.85: bytes against a limit.
    #[verifier::allow_in_spec]
    pub fn resource() -> Self
        returns
            (Band {
                above: Binary64 { bits: ABOVE_BITS },
                below: Binary64 { bits: RESOURCE_BELOW_BITS },
            }),
    {
        Band {
            above: Binary64 { bits: ABOVE_BITS },
            below: Binary64 { bits: RESOURCE_BELOW_BITS },
        }
    }

    /// The frame band, 0.60 to 0.85: a frame time against a frame budget.
    ///
    /// It shares its upper threshold with [`resource`](Self::resource) and has the
    /// wider dead zone: a visibly degraded frame costs a human attention, so this
    /// band climbs back more reluctantly.
    #[verifier::allow_in_spec]
    pub fn frame() -> Self
        returns
            (Band {
                above: Binary64 { bits: ABOVE_BITS },
                below: Binary64 { bits: FRAME_BELOW_BITS },
            }),
    {
        Band {
            above: Binary64 { bits: ABOVE_BITS },
            below: Binary64 { bits: FRAME_BELOW_BITS },
        }
    }

    /// `true` if the band is well-formed: `0 <= below <= above`, both finite.
    ///
    /// An inverted band makes [`Zone::InBand`] unreachable and turns the dead zone
    /// into a trigger zone; see [`lemma_inverted_band_has_no_dead_zone`].
    #[must_use]
    pub fn is_well_formed(self) -> (res: bool)
        ensures
            res == self.well_formed(),
            res == (self.above.finite() && self.below.finite() && 0 <= self.below.scaled()
                <= self.above.scaled()),
    {
        let zero = Binary64 { bits: 0 };
        self.above.is_finite() && self.below.is_finite() && !self.below.less_than(zero)
            && !self.above.less_than(self.below)
    }
}

/// Which side of a [`Band`] a `used / capacity` ratio falls on.
///
/// Named for the measurement, not for the reaction: whether the right response to
/// [`Zone::Above`] is to grow the capacity or to shed the demand differs between
/// consumers.
#[derive(Debug, Clone, Copy, PartialEq, Eq, Hash, Structural)]
pub enum Zone {
    /// Strictly above [`Band::above`]: under pressure.
    Above,
    /// Within the dead band, inclusive of both thresholds: leave it alone.
    InBand,
    /// Strictly below [`Band::below`]: calm.
    Below,
}

impl Zone {
    /// Every variant, in declaration order.
    pub const ALL: &'static [Self; 3] = &[Self::Above, Self::InBand, Self::Below];
}

/// Every zone is listed once.
pub proof fn lemma_every_zone_is_listed_once(zone: Zone)
    ensures
        exists|i: int| 0 <= i < 3 && #[trigger] Zone::ALL@[i] == zone,
        forall|i: int, j: int|
            #![trigger Zone::ALL@[i], Zone::ALL@[j]]
            0 <= i < j < 3 ==> Zone::ALL@[i] != Zone::ALL@[j],
{
    let all = Zone::ALL@;
    assert(all[0] == Zone::Above && all[1] == Zone::InBand && all[2] == Zone::Below);
}

/// The zone of `used / capacity` in `band`; a capacity of zero is always below.
pub open spec fn zone_of(used: int, capacity: int, band: Band) -> Zone {
    let ratio = crate::binary64::ratio(used, capacity);
    if capacity == 0 {
        Zone::Below
    } else if band.above.lt(ratio) {
        Zone::Above
    } else if ratio.lt(band.below) {
        Zone::Below
    } else {
        Zone::InBand
    }
}

/// Classifies `used / capacity` against `band`.
///
/// The ratio is the binary64 quotient of the two: see [`crate::binary64::ratio`].
/// A `capacity` of `0` is [`Zone::Below`]: there is no budget to be under pressure
/// against.
#[must_use]
pub fn zone(used: u64, capacity: u64, band: Band) -> (res: Zone)
    ensures
        res == zone_of(used as int, capacity as int, band),
        capacity == 0 ==> res == Zone::Below,
        capacity > 0 ==> {
            let ratio = binary64::ratio(used as int, capacity as int).scaled();
            let over = !band.above.nan() && ratio > band.above.scaled();
            let under = !band.below.nan() && ratio < band.below.scaled();
            &&& res == Zone::Above <==> over
            &&& res == Zone::Below <==> !over && under
            &&& res == Zone::InBand <==> !over && !under
        },
{
    proof {
        if capacity > 0 {
            binary64::lemma_ratio(used, capacity);
        }
    }
    if capacity == 0 {
        return Zone::Below;
    }
    let ratio = Binary64::ratio_of(used, capacity);
    if band.above.less_than(ratio) {
        Zone::Above
    } else if ratio.less_than(band.below) {
        Zone::Below
    } else {
        Zone::InBand
    }
}

/// Classifies a frame against a budget, both in microseconds: [`zone`] with
/// [`Band::frame`] applied.
#[must_use]
pub fn frame_zone(frame_us: u64, budget_us: u64) -> (res: Zone)
    ensures
        res == zone_of(frame_us as int, budget_us as int, Band::frame()),
        budget_us == 0 ==> res == Zone::Below,
        0 < budget_us <= 1_000_000_000_000_000 ==> {
            &&& res == Zone::Above <==> 100 * frame_us > 85 * budget_us
            &&& res == Zone::Below <==> 100 * frame_us < 60 * budget_us
        },
        budget_us > 0 ==> {
            let ratio = binary64::ratio(frame_us as int, budget_us as int).scaled();
            let above = (Binary64 { bits: 0x3FEB_3333_3333_3333 }).scaled();
            let below = (Binary64 { bits: 0x3FE3_3333_3333_3333 }).scaled();
            &&& res == Zone::Above <==> ratio > above
            &&& res == Zone::Below <==> ratio < below
        },
{
    proof {
        lemma_shipped_bands();
        if 0 < budget_us <= 1_000_000_000_000_000 {
            lemma_shipped_bands_are_decimal(frame_us, budget_us);
        }
    }
    zone(frame_us, budget_us, Band::frame())
}

/// The frame budget for a target refresh rate, in microseconds.
pub open spec fn budget_us(fps: int) -> int {
    if fps == 0 {
        0
    } else {
        1_000_000int / fps
    }
}

/// The frame budget for a target refresh rate, in microseconds.
///
/// `0` fps yields `0`, which [`zone`] reads as [`Zone::Below`]: an unknown refresh
/// rate is never reported as budget pressure.
#[must_use]
pub fn budget_us_for_fps(fps: u32) -> (res: u64)
    ensures
        res == budget_us(fps as int),
        fps == 0 ==> res == 0,
        fps > 0 ==> res * fps <= 1_000_000 < (res + 1) * fps,
{
    proof {
        lemma_budget_is_the_frame_time(fps);
    }
    if fps == 0 {
        0
    } else {
        1_000_000 / fps as u64
    }
}

/// How rich a zone's evidence of pressure is: below, in the band, above.
pub open spec fn pressure(zone: Zone) -> int {
    match zone {
        Zone::Below => 0,
        Zone::InBand => 1,
        Zone::Above => 2,
    }
}

/// An unknown refresh rate is never reported as pressure, whatever the frame took.
pub proof fn lemma_unknown_refresh_rate_is_no_pressure(frame_us: u64)
    ensures
        zone_of(frame_us as int, budget_us(0), Band::frame()) == Zone::Below,
{
}

/// The budget of a known refresh rate is the whole number of microseconds that one of
/// `fps` equal parts of a second lasts: `fps` budgets fit into a second, and with one
/// microsecond more they do not.
pub proof fn lemma_budget_is_the_frame_time(fps: u32)
    ensures
        budget_us(0) == 0,
        fps > 0 ==> budget_us(fps as int) * fps <= 1_000_000 < (budget_us(fps as int) + 1) * fps,
{
    if fps > 0 {
        let f = fps as int;
        let b = 1_000_000int / f;
        assert(b * f <= 1_000_000 < (b + 1) * f) by (nonlinear_arith)
            requires
                b == 1_000_000int / f,
                f > 0,
        ;
    }
}

/// A band with finite thresholds that are not negative is well-formed unless it is
/// inverted; no other band is.
pub proof fn lemma_well_formed_unless_inverted(band: Band)
    ensures
        band.above.finite() && band.below.finite() && band.above.scaled() >= 0
            && band.below.scaled() >= 0 ==> (band.well_formed() <==> !band.above.lt(band.below)),
        band.well_formed() ==> band.above.finite() && band.below.finite() && 0
            <= band.below.scaled() <= band.above.scaled(),
{
}

/// Two bands are equal where both thresholds are equal as numbers; a band with a NaN
/// for a threshold equals none.
pub proof fn lemma_band_equality(x: Band, y: Band)
    ensures
        Band::obeys_eq_spec(),
        x.eq_spec(&y) <==> {
            &&& !x.above.nan() && !y.above.nan() && x.above.scaled() == y.above.scaled()
            &&& !x.below.nan() && !y.below.nan() && x.below.scaled() == y.below.scaled()
        },
{
}

/// The zone of every measurement against every band, well-formed or not: with no
/// capacity it is below; otherwise it is above where and only where the binary64
/// quotient exceeds the upper threshold, below where and only where it does not but
/// falls short of the lower one, and in the band everywhere else. A threshold that is
/// a NaN is neither exceeded nor fallen short of.
pub proof fn lemma_zones_partition_the_ratio(used: u64, capacity: u64, band: Band)
    ensures
        zone_of(used as int, 0, band) == Zone::Below,
        capacity > 0 ==> {
            let zone = zone_of(used as int, capacity as int, band);
            let ratio = binary64::ratio(used as int, capacity as int).scaled();
            let over = !band.above.nan() && ratio > band.above.scaled();
            let under = !band.below.nan() && ratio < band.below.scaled();
            &&& zone == Zone::Above <==> over
            &&& zone == Zone::Below <==> !over && under
            &&& zone == Zone::InBand <==> !over && !under
        },
{
    if capacity > 0 {
        binary64::lemma_ratio(used, capacity);
    }
}

/// What must trigger, in exact fractions, for operands below `2^53` and any band: a
/// fraction that reaches any number greater than the upper threshold is above; one
/// that does not exceed some number less than the lower threshold is below, unless
/// the upper one is exceeded too. Such numbers are the neighbours of the thresholds.
pub proof fn lemma_past_a_threshold_triggers(
    used: u64,
    capacity: u64,
    band: Band,
    more: Binary64,
    less: Binary64,
)
    requires
        used < 2 * binary64::HIDDEN_BIT,
        0 < capacity < 2 * binary64::HIDDEN_BIT,
        more.finite(),
        less.finite(),
        less.scaled() >= 0,
    ensures
        !band.above.nan() && band.above.scaled() < more.scaled() && used * binary64::one()
            >= more.scaled() * capacity ==> zone_of(used as int, capacity as int, band)
            == Zone::Above,
        !band.below.nan() && less.scaled() < band.below.scaled() && used * binary64::one()
            <= less.scaled() * capacity ==> zone_of(used as int, capacity as int, band)
            != Zone::InBand,
        !band.below.nan() && !band.above.nan() && less.scaled() < band.below.scaled()
            <= band.above.scaled() && used * binary64::one() <= less.scaled() * capacity
            ==> zone_of(used as int, capacity as int, band) == Zone::Below,
{
    let x = binary64::ratio(used as int, capacity as int);
    let u = binary64::one();
    let (a, b) = (used * u, capacity * u);
    binary64::lemma_ratio(used, capacity);
    binary64::lemma_conversion_exact(used);
    binary64::lemma_conversion_exact(capacity);
    lemma_pow2_pos(1074);
    if more.scaled() >= 0 && used * u >= more.scaled() * capacity {
        let m = binary64::lemma_itself(more);
        let sm = m.scaled();
        assert(sm * b <= a * u) by (nonlinear_arith)
            requires
                a >= sm * capacity,
                b == capacity * u,
                u > 0,
        ;
        binary64::lemma_nearest_monotone(sm, u, m, a, b, x);
    }
    if used * u <= less.scaled() * capacity {
        let l = binary64::lemma_itself(less);
        let sl = l.scaled();
        assert(a * u <= sl * b) by (nonlinear_arith)
            requires
                a <= sl * capacity,
                b == capacity * u,
                u > 0,
        ;
        binary64::lemma_nearest_monotone(a, b, x, sl, u, l);
    }
}

/// More use, or less capacity, never moves a measurement to a calmer zone, as long
/// as there is a capacity at all.
pub proof fn lemma_zone_is_monotone(
    used: u64,
    capacity: u64,
    used2: u64,
    capacity2: u64,
    band: Band,
)
    requires
        used <= used2,
        capacity >= capacity2 > 0,
    ensures
        pressure(zone_of(used as int, capacity as int, band)) <= pressure(
            zone_of(used2 as int, capacity2 as int, band),
        ),
{
    binary64::lemma_ratio(used, capacity);
    binary64::lemma_ratio(used2, capacity2);
    binary64::lemma_ratio_monotone(used, capacity, used2, capacity2);
}

/// An inverted band has no dead zone: every ratio triggers one way or the other.
pub proof fn lemma_inverted_band_has_no_dead_zone(used: u64, capacity: u64, band: Band)
    requires
        band.above.lt(band.below),
    ensures
        zone_of(used as int, capacity as int, band) != Zone::InBand,
{
    if capacity > 0 {
        binary64::lemma_ratio(used, capacity);
    }
}

/// Both shipped bands are well-formed, share the upper threshold, and the frame
/// band reaches further down.
pub proof fn lemma_shipped_bands()
    ensures
        Band::resource().well_formed(),
        Band::frame().well_formed(),
        Band::resource().above == Band::frame().above,
        Band::frame().below.lt(Band::resource().below),
        Band::resource().above.bits == 0x3FEB_3333_3333_3333,
        Band::resource().below.bits == 0x3FE6_6666_6666_6666,
        Band::frame().below.bits == 0x3FE3_3333_3333_3333,
{
    binary64::lemma_scaled_magnitude_increases(0, FRAME_BELOW_BITS as int);
    binary64::lemma_scaled_magnitude_increases(
        FRAME_BELOW_BITS as int,
        RESOURCE_BELOW_BITS as int,
    );
    binary64::lemma_scaled_magnitude_increases(RESOURCE_BELOW_BITS as int, ABOVE_BITS as int);
}

/// The frame band is the wider one: it reports pressure exactly where the resource
/// band does, and calm only where the resource band does too.
pub proof fn lemma_frame_band_is_wider(used: u64, capacity: u64)
    ensures
        zone_of(used as int, capacity as int, Band::frame()) == Zone::Above <==> zone_of(
            used as int,
            capacity as int,
            Band::resource(),
        ) == Zone::Above,
        zone_of(used as int, capacity as int, Band::frame()) == Zone::Below ==> zone_of(
            used as int,
            capacity as int,
            Band::resource(),
        ) == Zone::Below,
{
    lemma_shipped_bands();
    if capacity > 0 {
        binary64::lemma_ratio(used, capacity);
    }
}

/// Both thresholds are strict. For operands below `2^53`, where conversion is exact,
/// a ratio that is reported above exceeds the upper threshold and one that is
/// reported below falls short of the lower one, as exact fractions; so every
/// fraction from threshold to threshold, both included, is in the band.
pub proof fn lemma_thresholds_are_strict(used: u64, capacity: u64, band: Band)
    requires
        used < 2 * binary64::HIDDEN_BIT,
        0 < capacity < 2 * binary64::HIDDEN_BIT,
        band.above.finite(),
        band.below.finite(),
        0 <= band.below.scaled() <= band.above.scaled(),
    ensures
        ({
            let zone = zone_of(used as int, capacity as int, band);
            let fraction = used * binary64::one();
            &&& zone == Zone::Above ==> fraction > band.above.scaled() * capacity
            &&& zone == Zone::Below ==> fraction < band.below.scaled() * capacity
            &&& band.below.scaled() * capacity <= fraction <= band.above.scaled() * capacity
                ==> zone == Zone::InBand
        }),
{
    let x = binary64::ratio(used as int, capacity as int);
    let u = binary64::one();
    let (a, b) = (used * u, capacity * u);
    binary64::lemma_ratio(used, capacity);
    binary64::lemma_conversion_exact(used);
    binary64::lemma_conversion_exact(capacity);
    lemma_pow2_pos(1074);
    let above = binary64::lemma_itself(band.above);
    let below = binary64::lemma_itself(band.below);
    let (sa, sb) = (above.scaled(), below.scaled());
    if used * u <= sa * capacity {
        assert(a * u <= sa * b) by (nonlinear_arith)
            requires
                a <= sa * capacity,
                b == capacity * u,
                u > 0,
        ;
        binary64::lemma_nearest_monotone(a, b, x, sa, u, above);
    }
    if used * u >= sb * capacity {
        assert(sb * b <= a * u) by (nonlinear_arith)
            requires
                a >= sb * capacity,
                b == capacity * u,
                u > 0,
        ;
        binary64::lemma_nearest_monotone(sb, u, below, a, b, x);
    }
}

/// For operands below `2^53`: how the ratio compares with two neighbouring numbers
/// `m / 2^53` and `(m + 1) / 2^53` in `[1/2, 1)` is decided by the exact fraction
/// and their midpoint `(2 * m + 1) / 2^54`.
proof fn lemma_against_midpoint(
    used: u64,
    capacity: u64,
    lo: Binary64,
    hi: Binary64,
    m: int,
    midpoint: int,
)
    requires
        used < 2 * binary64::HIDDEN_BIT,
        0 < capacity < 2 * binary64::HIDDEN_BIT,
        binary64::HIDDEN_BIT <= m < 2 * binary64::HIDDEN_BIT,
        lo.bits == 1021 * binary64::HIDDEN_BIT + m,
        hi.bits == lo.bits + 1,
        midpoint == (2 * m + 1) * capacity,
    ensures
        ({
            let ratio = binary64::ratio(used as int, capacity as int);
            &&& used * 0x40_0000_0000_0000 > midpoint ==> ratio.scaled() >= hi.scaled()
            &&& used * 0x40_0000_0000_0000 < midpoint ==> ratio.scaled() <= lo.scaled()
        }),
        lo.scaled() < hi.scaled(),
        !lo.nan(),
        !hi.nan(),
{
    let x = binary64::ratio(used as int, capacity as int);
    let u = binary64::one();
    let p = pow2(1021) as int;
    let (a, b) = (used * u, capacity * u);
    binary64::lemma_ratio(used, capacity);
    binary64::lemma_conversion_exact(used);
    binary64::lemma_conversion_exact(capacity);
    binary64::lemma_encoding(m, 1021, lo);
    binary64::lemma_encoding(m + 1, 1021, hi);
    binary64::lemma_midpoint(a, b, x, lo, hi);
    lemma_pow2_adds(53, 1021);
    lemma_pow2_pos(1021);
    lemma2_to64_rest();
    let c = 0x40_0000_0000_0000int;
    let mid = midpoint;
    assert(m * p < (m + 1) * p) by (nonlinear_arith)
        requires
            p > 0,
    ;
    assert(2 * (a * u) == (used * c) * p * u) by (nonlinear_arith)
        requires
            a == used * u,
            2 * u == c * p,
    ;
    assert((m * p + (m + 1) * p) * b == mid * p * u) by (nonlinear_arith)
        requires
            b == capacity * u,
            mid == (2 * m + 1) * capacity,
    ;
    let scale = p * u;
    assert(scale > 0) by (nonlinear_arith)
        requires
            scale == p * u,
            p > 0,
            u > 0,
    ;
    let n = used * c;
    assert(n * p * u == n * scale && mid * p * u == mid * scale) by (nonlinear_arith)
        requires
            scale == p * u,
    ;
    if n > mid {
        assert(n * scale > mid * scale) by (nonlinear_arith)
            requires
                n > mid,
                scale > 0,
        ;
    }
    if n < mid {
        assert(n * scale < mid * scale) by (nonlinear_arith)
            requires
                n < mid,
                scale > 0,
        ;
    }
}

/// For capacities up to `10^15` the shipped bands mean what their decimal names say:
/// the ratio is held against 85, 70 and 60 hundredths exactly, with no rounding to
/// be seen.
pub proof fn lemma_shipped_bands_are_decimal(used: u64, capacity: u64)
    requires
        0 < capacity <= 1_000_000_000_000_000,
    ensures
        zone_of(used as int, capacity as int, Band::frame()) == (if 100 * used > 85 * capacity {
            Zone::Above
        } else if 100 * used < 60 * capacity {
            Zone::Below
        } else {
            Zone::InBand
        }),
        zone_of(used as int, capacity as int, Band::resource()) == (if 100 * used > 85 * capacity {
            Zone::Above
        } else if 100 * used < 70 * capacity {
            Zone::Below
        } else {
            Zone::InBand
        }),
    decreases used,
{
    lemma_shipped_bands();
    if used < 2 * binary64::HIDDEN_BIT {
        binary64::lemma_ratio(used, capacity);
        // 0.85 and the number after it.
        assert(0x36_6666_6666_6667 * capacity == (2 * 0x1B_3333_3333_3333 + 1) * capacity)
            by (nonlinear_arith);
        lemma_against_midpoint(
            used,
            capacity,
            Binary64 { bits: ABOVE_BITS },
            Binary64 { bits: (ABOVE_BITS + 1) as u64 },
            0x1B_3333_3333_3333,
            0x36_6666_6666_6667 * capacity,
        );
        // The number before 0.60, and 0.60.
        assert(0x26_6666_6666_6665 * capacity == (2 * 0x13_3333_3333_3332 + 1) * capacity)
            by (nonlinear_arith);
        lemma_against_midpoint(
            used,
            capacity,
            Binary64 { bits: (FRAME_BELOW_BITS - 1) as u64 },
            Binary64 { bits: FRAME_BELOW_BITS },
            0x13_3333_3333_3332,
            0x26_6666_6666_6665 * capacity,
        );
        // The number before 0.70, and 0.70.
        assert(0x2C_CCCC_CCCC_CCCB * capacity == (2 * 0x16_6666_6666_6665 + 1) * capacity)
            by (nonlinear_arith);
        lemma_against_midpoint(
            used,
            capacity,
            Binary64 { bits: (RESOURCE_BELOW_BITS - 1) as u64 },
            Binary64 { bits: RESOURCE_BELOW_BITS },
            0x16_6666_6666_6665,
            0x2C_CCCC_CCCC_CCCB * capacity,
        );
    } else {
        // Past 2^53 the ratio is at least as large as at 2^53 - 1, which is above.
        let most = (2 * binary64::HIDDEN_BIT - 1) as u64;
        lemma_shipped_bands_are_decimal(most, capacity);
        lemma_zone_is_monotone(most, capacity, used, capacity, Band::frame());
        lemma_zone_is_monotone(most, capacity, used, capacity, Band::resource());
    }
}

} // verus!
