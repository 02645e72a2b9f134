//! Binary floating-point numbers held by their bit pattern.
//!
//! A [`Binary64`] stands for an IEEE 754 binary64 number. It is compared, and the
//! ratio of two integers is rounded to it, in integer arithmetic alone, so that
//! every answer can be stated and proved over the integers.
//!
//! A finite binary64 number is an integer multiple of `2^-1074`, the smallest
//! positive one. The specification measures every number in that unit: see
//! [`Binary64::scaled`].
use vstd::arithmetic::power2::*;
use vstd::prelude::*;
use vstd::std_specs::cmp::PartialEqSpec;

verus! {

/// `2^52`: the weight of the bit above the fraction field.
pub const HIDDEN_BIT: u64 = 0x0010_0000_0000_0000;

/// `2^63`: the sign bit.
pub const SIGN_BIT: u64 = 0x8000_0000_0000_0000;

/// The bits of positive infinity. Larger magnitudes are NaNs.
pub const INFINITY_BITS: u64 = 0x7FF0_0000_0000_0000;

/// `2^1074`: the number one, in units of the smallest positive number.
pub open spec fn one() -> int {
    pow2(1074) as int
}

/// An IEEE 754 binary64 number, held by its bit pattern.
#[derive(Debug, Clone, Copy)]
pub struct Binary64 {
    /// Sign, exponent and fraction fields, from the most significant bit down.
    pub bits: u64,
}

/// The absolute value, in units of `2^-1074`, of the number whose exponent and
/// fraction fields are `magnitude`.
///
/// By the same formula infinity measures `2^2098`, more than any finite number.
pub open spec fn scaled_magnitude(magnitude: int) -> int {
    let exponent = magnitude / HIDDEN_BIT as int;
    let fraction = magnitude % HIDDEN_BIT as int;
    if exponent == 0 {
        fraction
    } else {
        (HIDDEN_BIT + fraction) * pow2((exponent - 1) as nat)
    }
}

impl Binary64 {
    /// The sign bit is set.
    pub open spec fn negative(self) -> bool {
        self.bits >= SIGN_BIT
    }

    /// The bits without the sign.
    pub open spec fn magnitude(self) -> int {
        self.bits as int % SIGN_BIT as int
    }

    /// Neither a number nor an infinity.
    pub open spec fn nan(self) -> bool {
        self.magnitude() > INFINITY_BITS
    }

    /// A number, neither infinite nor a NaN.
    pub open spec fn finite(self) -> bool {
        self.magnitude() < INFINITY_BITS
    }

    /// The number in units of `2^-1074`; both zeros are `0`, and the infinities lie
    /// beyond every finite number. Without meaning for a NaN.
    pub open spec fn scaled(self) -> int {
        if self.negative() {
            -scaled_magnitude(self.magnitude())
        } else {
            scaled_magnitude(self.magnitude())
        }
    }

    /// `self < other`; false where either is a NaN.
    pub open spec fn lt(self, other: Self) -> bool {
        !self.nan() && !other.nan() && self.scaled() < other.scaled()
    }

    /// `self == other` as numbers: the zeros are equal, a NaN equals nothing.
    pub open spec fn same_number(self, other: Self) -> bool {
        !self.nan() && !other.nan() && self.scaled() == other.scaled()
    }
}

/// How far `x` is from `num / den`, in units of `2^-1074 / den`.
pub open spec fn error(num: int, den: int, x: Binary64) -> nat {
    vstd::math::abs(num * one() - x.scaled() * den)
}

/// `x` is `num / den` rounded to nearest, ties to even: no finite number is closer,
/// and where another one is as close, the last bit of `x` is zero. A zero result
/// has a clear sign.
pub open spec fn is_nearest(num: int, den: int, x: Binary64) -> bool {
    &&& x.finite()
    &&& !x.negative()
    &&& forall|y: Binary64|
        #![trigger error(num, den, y)]
        y.finite() ==> {
            ||| error(num, den, x) < error(num, den, y)
            ||| error(num, den, x) == error(num, den, y) && (x.scaled() == y.scaled() || x.bits % 2
                == 0)
        }
}

/// `num / den` rounded to a binary64 number, to nearest, ties to even.
pub open spec fn nearest(num: int, den: int) -> Binary64 {
    choose|x: Binary64| is_nearest(num, den, x)
}

/// The quotient of two integers as binary64 arithmetic computes it: each integer is
/// rounded to a binary64 number, and the quotient of the two is rounded again.
pub open spec fn ratio(num: int, den: int) -> Binary64 {
    nearest(nearest(num, 1).scaled(), nearest(den, 1).scaled())
}

/// `q + r / d` rounded to an integer, ties to even.
pub open spec fn half_even(q: int, r: int, d: int) -> int {
    if 2 * r < d {
        q
    } else if 2 * r > d {
        q + 1
    } else {
        q + q % 2
    }
}

/// A larger bit pattern is a larger magnitude.
pub proof fn lemma_scaled_magnitude_increases(a: int, b: int)
    requires
        0 <= a < b < SIGN_BIT,
    ensures
        0 <= scaled_magnitude(a) < scaled_magnitude(b),
{
    let h = HIDDEN_BIT as int;
    let (ea, fa) = (a / h, a % h);
    let (eb, fb) = (b / h, b % h);
    assert(ea <= eb && (ea == eb ==> fa < fb));
    if ea > 0 {
        lemma_pow2_pos((ea - 1) as nat);
        let p = pow2((ea - 1) as nat) as int;
        assert(0 <= (h + fa) * p) by (nonlinear_arith)
            requires
                p > 0,
                h + fa >= 0,
        ;
        if ea == eb {
            assert((h + fa) * p < (h + fb) * p) by (nonlinear_arith)
                requires
                    p > 0,
                    fa < fb,
            ;
        } else {
            let k = (eb - ea) as nat;
            lemma_pow2_adds((ea - 1) as nat, k);
            lemma2_to64();
            if k > 1 {
                lemma_pow2_strictly_increases(1, k);
            }
            let pb = pow2((eb - 1) as nat) as int;
            let pk = pow2(k) as int;
            assert(pb == p * pk);
            assert((h + fa) * p < (h + fb) * pb) by (nonlinear_arith)
                requires
                    p > 0,
                    pb == p * pk,
                    pk >= 2,
                    0 <= fa < h,
                    0 <= fb,
            ;
        }
    } else if eb > 0 {
        lemma_pow2_pos((eb - 1) as nat);
        let pb = pow2((eb - 1) as nat) as int;
        assert(h <= (h + fb) * pb) by (nonlinear_arith)
            requires
                pb > 0,
                h > 0,
                fb >= 0,
        ;
    }
}

/// The number with significand `m` and shift `s`, that is `m * 2^s` units, is the
/// one whose bits are `s * 2^52 + m`. This holds up to and with the carry into the
/// next exponent.
pub proof fn lemma_encoding(m: int, s: int, x: Binary64)
    requires
        HIDDEN_BIT <= m <= 2 * HIDDEN_BIT,
        0 <= s <= 2044,
        x.bits == s * HIDDEN_BIT + m,
    ensures
        x.finite(),
        !x.negative(),
        x.scaled() == m * pow2(s as nat),
        x.bits % 2 == m % 2,
{
    let h = HIDDEN_BIT as int;
    if m < 2 * h {
        assert(x.magnitude() / h == s + 1 && x.magnitude() % h == m - h);
    } else {
        assert(x.magnitude() / h == s + 2 && x.magnitude() % h == 0);
        lemma_pow2_adds(s as nat, 1);
        lemma2_to64();
        let p = pow2(s as nat) as int;
        assert(h * (p * 2) == m * p) by (nonlinear_arith)
            requires
                m == 2 * h,
        ;
    }
}

/// A finite number is below `2^52 * 2^s` units or a multiple of `2^s` units.
proof fn lemma_grid(y: Binary64, s: int) -> (k: int)
    requires
        y.finite(),
        s >= 0,
    ensures
        y.scaled() < HIDDEN_BIT * pow2(s as nat) || y.scaled() == k * pow2(s as nat),
{
    let h = HIDDEN_BIT as int;
    let e = y.magnitude() / h;
    let f = y.magnitude() % h;
    lemma_pow2_pos(s as nat);
    let p = pow2(s as nat) as int;
    assert(h * p >= h) by (nonlinear_arith)
        requires
            p > 0,
            h > 0,
    ;
    if y.negative() {
        if y.magnitude() > 0 {
            lemma_scaled_magnitude_increases(0, y.magnitude());
        }
        0
    } else if e == 0 {
        0
    } else if e - 1 >= s {
        let t = (e - 1 - s) as nat;
        lemma_pow2_adds(s as nat, t);
        let pt = pow2(t) as int;
        assert((h + f) * (p * pt) == ((h + f) * pt) * p) by (nonlinear_arith);
        (h + f) * pt
    } else {
        let t = (s - (e - 1)) as nat;
        lemma_pow2_adds((e - 1) as nat, t);
        lemma2_to64();
        if t > 1 {
            lemma_pow2_strictly_increases(1, t);
        }
        let pe = pow2((e - 1) as nat) as int;
        lemma_pow2_pos((e - 1) as nat);
        let pt = pow2(t) as int;
        assert((h + f) * pe < h * p) by (nonlinear_arith)
            requires
                p == pe * pt,
                pe > 0,
                pt >= 2,
                0 <= f < h,
        ;
        0
    }
}

/// Rounding to an integer picks a closest one, an even one on a tie.
proof fn lemma_half_even(q: int, r: int, d: int, k: int)
    requires
        0 <= r < d,
    ensures
        ({
            let m = half_even(q, r, d);
            let here = vstd::math::abs(q * d + r - m * d);
            let there = vstd::math::abs(q * d + r - k * d);
            here < there || here == there && (k == m || m % 2 == 0)
        }),
{
    let m = half_even(q, r, d);
    let j = q - k;
    assert(q * d + r - k * d == j * d + r) by (nonlinear_arith)
        requires
            j == q - k,
    ;
    assert(q * d + r - m * d == (q - m) * d + r) by (nonlinear_arith);
    assert(0 * d == 0 && (-1) * d == -d);
    if j >= 1 {
        assert(j * d >= d) by (nonlinear_arith)
            requires
                j >= 1,
                d > 0,
        ;
    } else if j <= -2 {
        assert(j * d <= -2 * d) by (nonlinear_arith)
            requires
                j <= -2,
                d > 0,
        ;
    }
}

/// If `num / den` is `(q + r / d) * 2^s` units with `q` of exactly 53 bits, then
/// `q + r / d` rounded to an integer is the significand of the nearest number.
proof fn lemma_rounded_is_nearest(
    num: int,
    den: int,
    q: int,
    r: int,
    d: int,
    s: int,
    x: Binary64,
)
    requires
        den > 0,
        0 <= r < d,
        HIDDEN_BIT <= q < 2 * HIDDEN_BIT,
        0 <= s <= 2044,
        num * one() * d == (q * d + r) * pow2(s as nat) * den,
        x.bits == s * HIDDEN_BIT + half_even(q, r, d),
    ensures
        is_nearest(num, den, x),
{
    let m = half_even(q, r, d);
    let h = HIDDEN_BIT as int;
    let p = pow2(s as nat) as int;
    let w = num * one();
    let n = q * d + r;
    lemma_encoding(m, s, x);
    lemma_pow2_pos(s as nat);
    let ex = error(num, den, x) as int;
    // Measured in units of 1/d, the error of x is den * p * |n - m * d|.
    let here = vstd::math::abs(n - m * d) as int;
    assert(ex * d == den * p * here) by {
        lemma_scale_error(w, den, d, x.scaled(), n * p);
        assert((m * p) * d == (m * d) * p) by (nonlinear_arith);
        lemma_abs_scale(n, m * d, p);
        assert(den * (p * here) == den * p * here) by (nonlinear_arith);
    }
    assert forall|y: Binary64| #![trigger error(num, den, y)] y.finite() implies {
        ||| error(num, den, x) < error(num, den, y)
        ||| error(num, den, x) == error(num, den, y) && (x.scaled() == y.scaled() || x.bits % 2
            == 0)
    } by {
        let ey = error(num, den, y) as int;
        lemma_scale_error(w, den, d, y.scaled(), n * p);
        let k = lemma_grid(y, s);
        if y.scaled() < h * p {
            lemma_half_even(q, r, d, h);
            let there = vstd::math::abs(n - h * d) as int;
            assert(n - h * d >= 0) by (nonlinear_arith)
                requires
                    n == q * d + r,
                    q >= h,
                    d > 0,
                    r >= 0,
            ;
            let ys = y.scaled();
            assert(n * p - ys * d > there * p) by (nonlinear_arith)
                requires
                    ys < h * p,
                    there == n - h * d,
                    d > 0,
            ;
            assert(ey * d > den * p * here) by (nonlinear_arith)
                requires
                    ey * d == den * vstd::math::abs(n * p - ys * d),
                    n * p - ys * d > there * p,
                    there >= here >= 0,
                    p > 0,
                    den > 0,
            ;
            assert(ex < ey) by (nonlinear_arith)
                requires
                    ex * d < ey * d,
                    d > 0,
            ;
        } else {
            lemma_half_even(q, r, d, k);
            let there = vstd::math::abs(n - k * d) as int;
            assert((k * p) * d == (k * d) * p) by (nonlinear_arith);
            lemma_abs_scale(n, k * d, p);
            assert(ey * d == den * p * there) by (nonlinear_arith)
                requires
                    ey * d == den * (p * there),
            ;
            if here < there {
                assert(ex < ey) by (nonlinear_arith)
                    requires
                        ex * d == den * p * here,
                        ey * d == den * p * there,
                        here < there,
                        den > 0,
                        p > 0,
                        d > 0,
                ;
            } else {
                assert(ex == ey) by (nonlinear_arith)
                    requires
                        ex * d == den * p * here,
                        ey * d == den * p * here,
                        d > 0,
                ;
            }
        }
    }
}

/// `|w - x * den| * d` where `w * d` is `den * v`.
proof fn lemma_scale_error(w: int, den: int, d: int, x: int, v: int)
    requires
        w * d == v * den,
        d > 0,
        den > 0,
    ensures
        vstd::math::abs(w - x * den) * d == den * vstd::math::abs(v - x * d),
{
    lemma_abs_scale(w, x * den, d);
    lemma_abs_scale(v, x * d, den);
    assert((x * den) * d == (x * d) * den) by (nonlinear_arith);
    let a = vstd::math::abs(w - x * den) as int;
    assert(a * d == d * a) by (nonlinear_arith);
}

/// `|a * p - b * p|` is `p * |a - b|`.
proof fn lemma_abs_scale(a: int, b: int, p: int)
    requires
        p > 0,
    ensures
        vstd::math::abs(a * p - b * p) == p * vstd::math::abs(a - b),
{
    assert(a * p - b * p == p * (a - b)) by (nonlinear_arith);
    if a >= b {
        assert(p * (a - b) >= 0) by (nonlinear_arith)
            requires
                p > 0,
                a >= b,
        ;
    } else {
        assert(p * (a - b) < 0) by (nonlinear_arith)
            requires
                p > 0,
                a < b,
        ;
        assert(p * (b - a) == -(p * (a - b))) by (nonlinear_arith);
    }
}

/// Of two finite numbers the one with the larger bits is the larger, if neither
/// is negative.
proof fn lemma_order_of_bits(x: Binary64, y: Binary64)
    requires
        !x.negative(),
        !y.negative(),
    ensures
        x.bits < y.bits <==> x.scaled() < y.scaled(),
        x.bits == y.bits <==> x.scaled() == y.scaled(),
        x.scaled() >= 0,
{
    if x.bits < y.bits {
        lemma_scaled_magnitude_increases(x.bits as int, y.bits as int);
    } else if y.bits < x.bits {
        lemma_scaled_magnitude_increases(y.bits as int, x.bits as int);
    }
    if x.bits > 0 {
        lemma_scaled_magnitude_increases(0, x.bits as int);
    }
}

/// Rounding has one result.
pub proof fn lemma_nearest_unique(num: int, den: int, x: Binary64, y: Binary64)
    requires
        den > 0,
        is_nearest(num, den, x),
        is_nearest(num, den, y),
    ensures
        x == y,
{
    lemma_nearest_not_below(num, den, x, y);
    lemma_nearest_not_below(num, den, y, x);
}

/// Of two nearest numbers the first is not the smaller: both would have even bits,
/// and the number whose bits follow those of the first would be closer.
proof fn lemma_nearest_not_below(num: int, den: int, x: Binary64, y: Binary64)
    requires
        den > 0,
        is_nearest(num, den, x),
        is_nearest(num, den, y),
    ensures
        x.bits >= y.bits,
{
    if x.bits < y.bits {
        assert(error(num, den, x) == error(num, den, y));
        let z = Binary64 { bits: (x.bits + 1) as u64 };
        lemma_order_of_bits(x, y);
        lemma_order_of_bits(x, z);
        lemma_order_of_bits(z, y);
        let (xs, ys, zs) = (x.scaled(), y.scaled(), z.scaled());
        assert(x.bits % 2 == 0 && y.bits % 2 == 0);
        assert(xs * den < zs * den && zs * den < ys * den) by (nonlinear_arith)
            requires
                xs < zs < ys,
                den > 0,
        ;
        assert(error(num, den, z) < error(num, den, x));
    }
}

/// What is nearest to `num / den` is what `nearest` gives.
pub proof fn lemma_nearest_is(num: int, den: int, x: Binary64)
    requires
        den > 0,
        is_nearest(num, den, x),
    ensures
        nearest(num, den) == x,
        is_nearest(num, den, nearest(num, den)),
{
    lemma_nearest_unique(num, den, x, nearest(num, den));
}

/// A number that equals `num / den` is nearest to it.
pub proof fn lemma_exact(num: int, den: int, x: Binary64)
    requires
        den > 0,
        x.finite(),
        !x.negative(),
        x.scaled() * den == num * one(),
    ensures
        is_nearest(num, den, x),
{
    assert forall|y: Binary64| #![trigger error(num, den, y)] y.finite() implies {
        ||| error(num, den, x) < error(num, den, y)
        ||| error(num, den, x) == error(num, den, y) && (x.scaled() == y.scaled() || x.bits % 2
            == 0)
    } by {
        let (xs, ys) = (x.scaled(), y.scaled());
        if error(num, den, y) == 0 {
            assert(xs == ys) by (nonlinear_arith)
                requires
                    xs * den == ys * den,
                    den > 0,
            ;
        }
    }
}

/// A finite number that is not below zero is the nearest to itself, but for the
/// sign of a zero.
pub proof fn lemma_itself(x: Binary64) -> (y: Binary64)
    requires
        x.finite(),
        x.scaled() >= 0,
    ensures
        y.scaled() == x.scaled(),
        is_nearest(x.scaled(), one(), y),
{
    let y = Binary64 {
        bits: if x.negative() {
            0
        } else {
            x.bits
        },
    };
    if x.negative() && x.magnitude() > 0 {
        lemma_scaled_magnitude_increases(0, x.magnitude());
    }
    lemma_pow2_pos(1074);
    lemma_exact(x.scaled(), one(), y);
    y
}

/// Rounding keeps order: a larger quotient does not round to a smaller number.
pub proof fn lemma_nearest_monotone(
    num: int,
    den: int,
    x: Binary64,
    num2: int,
    den2: int,
    x2: Binary64,
)
    requires
        den > 0,
        den2 > 0,
        is_nearest(num, den, x),
        is_nearest(num2, den2, x2),
        num * den2 <= num2 * den,
    ensures
        x.scaled() <= x2.scaled(),
{
    let (w, w2) = (num * one(), num2 * one());
    let (xs, xs2) = (x.scaled(), x2.scaled());
    lemma_pow2_pos(1074);
    assert(w * den2 <= w2 * den) by (nonlinear_arith)
        requires
            num * den2 <= num2 * den,
            w == num * one(),
            w2 == num2 * one(),
            one() > 0,
    ;
    if xs > xs2 {
        // Both quotients are then the midpoint of the two numbers.
        let sum = xs + xs2;
        assert(error(num, den, x) <= error(num, den, x2));
        assert(error(num2, den2, x2) <= error(num2, den2, x));
        assert(xs * den > xs2 * den && xs * den2 > xs2 * den2) by (nonlinear_arith)
            requires
                xs > xs2,
                den > 0,
                den2 > 0,
        ;
        assert(sum * den == xs * den + xs2 * den && sum * den2 == xs * den2 + xs2 * den2)
            by (nonlinear_arith)
            requires
                sum == xs + xs2,
        ;
        assert(2 * w >= sum * den);
        assert(2 * w2 <= sum * den2);
        assert(2 * w == sum * den && 2 * w2 == sum * den2) by (nonlinear_arith)
            requires
                2 * w >= sum * den,
                2 * w2 <= sum * den2,
                w * den2 <= w2 * den,
                den > 0,
                den2 > 0,
        ;
        assert(error(num, den, x) == error(num, den, x2));
        assert(error(num2, den2, x2) == error(num2, den2, x));
        assert forall|y: Binary64| #![trigger error(num, den, y)] y.finite() implies {
            ||| error(num, den, x2) < error(num, den, y)
            ||| error(num, den, x2) == error(num, den, y) && (x2.scaled() == y.scaled()
                || x2.bits % 2 == 0)
        } by {
            assert(error(num, den, x) <= error(num, den, y));
        }
        lemma_nearest_unique(num, den, x, x2);
    }
}

/// A quotient between the smallest normal number and the largest power of two has
/// a nearest number.
proof fn lemma_nearest_exists(num: int, den: int, s: int)
    requires
        den > 0,
        0 <= s <= 2044,
        HIDDEN_BIT * pow2(s as nat) * den <= num * one(),
        num * one() < HIDDEN_BIT * pow2(2045) * den,
    ensures
        is_nearest(num, den, nearest(num, den)),
    decreases 2045 - s,
{
    let h = HIDDEN_BIT as int;
    let p = pow2(s as nat) as int;
    let w = num * one();
    lemma_pow2_pos(s as nat);
    lemma_pow2_adds(s as nat, 1);
    lemma2_to64();
    let p2 = pow2((s + 1) as nat) as int;
    assert(h * p2 * den == 2 * (h * p * den)) by (nonlinear_arith)
        requires
            p2 == p * 2,
    ;
    if h * p2 * den <= w {
        lemma_nearest_exists(num, den, s + 1);
    } else {
        let d = p * den;
        assert(d > 0) by (nonlinear_arith)
            requires
                d == p * den,
                p > 0,
                den > 0,
        ;
        assert(h * p * den == h * d) by (nonlinear_arith)
            requires
                d == p * den,
        ;
        let (q, r) = (w / d, w % d);
        assert(w == q * d + r && h <= q < 2 * h) by (nonlinear_arith)
            requires
                q == w / d,
                r == w % d,
                d > 0,
                h * d <= w < 2 * (h * d),
        ;
        assert(w * d == (q * d + r) * p * den) by (nonlinear_arith)
            requires
                w == q * d + r,
                d == p * den,
        ;
        let x = Binary64 { bits: (s * h + half_even(q, r, d)) as u64 };
        assert(0 <= s * h + half_even(q, r, d) <= u64::MAX) by (nonlinear_arith)
            requires
                0 <= s <= 2044,
                h == 0x0010_0000_0000_0000,
                0 <= half_even(q, r, d) <= 2 * h,
        ;
        lemma_rounded_is_nearest(num, den, q, r, d, s, x);
        lemma_nearest_is(num, den, x);
    }
}

/// Every integer of 64 bits has a nearest number, at least one if the integer is.
pub proof fn lemma_conversion(n: u64)
    ensures
        is_nearest(n as int, 1, nearest(n as int, 1)),
        n == 0 ==> nearest(n as int, 1).scaled() == 0,
        n > 0 ==> one() <= nearest(n as int, 1).scaled() <= pow2(64) * one(),
{
    lemma2_to64();
    lemma2_to64_rest();
    lemma_pow2_pos(1074);
    let h = HIDDEN_BIT as int;
    if n == 0 {
        let zero = Binary64 { bits: 0 };
        lemma_exact(0, 1, zero);
        lemma_nearest_is(0, 1, zero);
    } else {
        let low = Binary64 { bits: (1023 * h) as u64 };
        let high = Binary64 { bits: (1087 * h) as u64 };
        lemma_encoding(h, 1022, low);
        lemma_encoding(h, 1086, high);
        lemma_pow2_adds(52, 1022);
        lemma_pow2_adds(52, 1086);
        lemma_pow2_adds(64, 1074);
        lemma_exact(1, 1, low);
        assert(high.scaled() * 1 == pow2(64) * one());
        lemma_exact(pow2(64) as int, 1, high);
        assert(n * one() >= one()) by (nonlinear_arith)
            requires
                n >= 1,
                one() > 0,
        ;
        assert(n * one() < pow2(64) * one()) by (nonlinear_arith)
            requires
                n < pow2(64),
                one() > 0,
        ;
        lemma_pow2_strictly_increases(64 + 1074, 2045);
        lemma_pow2_pos(2045);
        let far = pow2(2045) as int;
        assert(h * far * 1 >= far) by (nonlinear_arith)
            requires
                h >= 1,
                far > 0,
        ;
        lemma_nearest_exists(n as int, 1, 1022);
        let x = nearest(n as int, 1);
        lemma_nearest_monotone(1, 1, low, n as int, 1, x);
        lemma_nearest_monotone(n as int, 1, x, pow2(64) as int, 1, high);
    }
}

/// Integers below `2^53` are converted without error.
pub proof fn lemma_conversion_exact(n: u64)
    requires
        n < 2 * HIDDEN_BIT,
    ensures
        nearest(n as int, 1).scaled() == n * one(),
{
    lemma2_to64();
    lemma2_to64_rest();
    if n == 0 {
        lemma_conversion(n);
        assert(0 * one() == 0);
    } else {
        assert(n * pow2(0) == n) by (nonlinear_arith)
            requires
                pow2(0) == 1,
        ;
        let x = lemma_representation(n, n as int, 1074);
        lemma_exact(n as int, 1, x);
        lemma_nearest_is(n as int, 1, x);
    }
}

/// The number that equals `n`, where `m` is `n` shifted left by `1074 - s`.
proof fn lemma_representation(n: u64, m: int, s: int) -> (x: Binary64)
    requires
        0 < m < 2 * HIDDEN_BIT,
        0 < n,
        0 <= s <= 1074,
        m == n * pow2((1074 - s) as nat),
    ensures
        x.finite(),
        !x.negative(),
        x.scaled() == n * one(),
    decreases s,
{
    let h = HIDDEN_BIT as int;
    let k = (1074 - s) as nat;
    let pk = pow2(k) as int;
    lemma2_to64();
    lemma2_to64_rest();
    if m >= h {
        let x = Binary64 { bits: (s * h + m) as u64 };
        lemma_encoding(m, s, x);
        lemma_pow2_adds(k, s as nat);
        let ps = pow2(s as nat) as int;
        assert(n * (pk * ps) == (n * pk) * ps) by (nonlinear_arith);
        x
    } else {
        if k >= 52 {
            if k > 52 {
                lemma_pow2_strictly_increases(52, k);
            }
            assert(n * pk >= h) by (nonlinear_arith)
                requires
                    n > 0,
                    pk >= h,
                    h > 0,
            ;
        }
        lemma_pow2_adds(k, 1);
        assert(n * (pk * 2) == 2 * (n * pk)) by (nonlinear_arith);
        lemma_representation(n, 2 * m, s - 1)
    }
}

/// The ratio of two integers of 64 bits is a number, and is never negative.
pub proof fn lemma_ratio(num: u64, den: u64)
    requires
        den > 0,
    ensures
        is_nearest(
            nearest(num as int, 1).scaled(),
            nearest(den as int, 1).scaled(),
            ratio(num as int, den as int),
        ),
        nearest(den as int, 1).scaled() > 0,
        !ratio(num as int, den as int).nan(),
        ratio(num as int, den as int).scaled() >= 0,
{
    lemma_conversion(num);
    lemma_conversion(den);
    lemma_pow2_pos(1074);
    lemma2_to64();
    lemma2_to64_rest();
    let a = nearest(num as int, 1).scaled();
    let b = nearest(den as int, 1).scaled();
    let u = one();
    let h = HIDDEN_BIT as int;
    if num == 0 {
        let zero = Binary64 { bits: 0 };
        assert(0 * b == 0 * u) by (nonlinear_arith);
        lemma_exact(0, b, zero);
        lemma_nearest_is(0, b, zero);
    } else {
        let t = pow2(64) as int;
        lemma_pow2_adds(64, 52);
        lemma_pow2_strictly_increases(64 + 52, 1074);
        let p0 = pow2(0) as int;
        assert(h * p0 * b <= a * u) by (nonlinear_arith)
            requires
                p0 == 1,
                h > 0,
                t > 0,
                0 < b <= t * u,
                0 < u <= a,
                t * h <= u,
        ;
        let far = pow2(2045) as int;
        lemma_pow2_adds(64, 1074);
        lemma_pow2_strictly_increases(64 + 1074, 2045);
        assert(a * u < h * far * b) by (nonlinear_arith)
            requires
                0 < a <= t * u,
                0 < u <= b,
                t * u < far,
                h >= 1,
                far > 0,
        ;
        lemma_nearest_exists(a, b, 0);
    }
    lemma_order_of_bits(ratio(num as int, den as int), Binary64 { bits: 0 });
}

/// The ratio grows with the numerator and falls with the denominator.
pub proof fn lemma_ratio_monotone(num: u64, den: u64, num2: u64, den2: u64)
    requires
        num <= num2,
        den >= den2 > 0,
    ensures
        ratio(num as int, den as int).scaled() <= ratio(num2 as int, den2 as int).scaled(),
{
    lemma_conversion(num);
    lemma_conversion(den);
    lemma_conversion(num2);
    lemma_conversion(den2);
    lemma_ratio(num, den);
    lemma_ratio(num2, den2);
    let (a, b) = (nearest(num as int, 1), nearest(den as int, 1));
    let (a2, b2) = (nearest(num2 as int, 1), nearest(den2 as int, 1));
    lemma_nearest_monotone(num as int, 1, a, num2 as int, 1, a2);
    lemma_nearest_monotone(den2 as int, 1, b2, den as int, 1, b);
    lemma_order_of_bits(a, a);
    let (sa, sb, sa2, sb2) = (a.scaled(), b.scaled(), a2.scaled(), b2.scaled());
    assert(sa * sb2 <= sa2 * sb) by (nonlinear_arith)
        requires
            0 <= sa <= sa2,
            0 < sb2 <= sb,
    ;
    lemma_nearest_monotone(
        sa,
        sb,
        ratio(num as int, den as int),
        sa2,
        sb2,
        ratio(num2 as int, den2 as int),
    );
}

/// A quotient past the midpoint of two neighbours rounds to the upper one or
/// beyond, one short of it to the lower one or below, and the midpoint itself to the
/// one of the two whose last bit is zero.
pub proof fn lemma_midpoint(num: int, den: int, x: Binary64, lo: Binary64, hi: Binary64)
    requires
        den > 0,
        is_nearest(num, den, x),
        lo.finite(),
        hi.finite(),
        !lo.negative(),
        !hi.negative(),
        hi.bits == lo.bits + 1,
    ensures
        x.finite(),
        x.scaled() >= 0,
        2 * (num * one()) > (lo.scaled() + hi.scaled()) * den ==> x.scaled() >= hi.scaled(),
        2 * (num * one()) < (lo.scaled() + hi.scaled()) * den ==> x.scaled() <= lo.scaled(),
        2 * (num * one()) == (lo.scaled() + hi.scaled()) * den ==> x.bits == (if lo.bits % 2 == 0 {
            lo.bits
        } else {
            hi.bits
        }),
{
    lemma_order_of_bits(x, lo);
    lemma_order_of_bits(x, hi);
    lemma_order_of_bits(lo, hi);
    let w = num * one();
    let (xs, ls, hs) = (x.scaled(), lo.scaled(), hi.scaled());
    assert((ls + hs) * den == ls * den + hs * den) by (nonlinear_arith);
    assert(ls * den < hs * den) by (nonlinear_arith)
        requires
            ls < hs,
            den > 0,
    ;
    if 2 * w > ls * den + hs * den && xs < hs {
        assert(xs <= ls);
        assert(xs * den <= ls * den) by (nonlinear_arith)
            requires
                xs <= ls,
                den > 0,
        ;
        assert(error(num, den, hi) < error(num, den, x));
    }
    if 2 * w < ls * den + hs * den && xs > ls {
        assert(xs >= hs);
        assert(xs * den >= hs * den) by (nonlinear_arith)
            requires
                xs >= hs,
                den > 0,
        ;
        assert(error(num, den, lo) < error(num, den, x));
    }
    if 2 * w == ls * den + hs * den {
        assert(error(num, den, lo) == error(num, den, hi));
        if xs < ls {
            assert(xs * den < ls * den) by (nonlinear_arith)
                requires
                    xs < ls,
                    den > 0,
            ;
            assert(error(num, den, lo) < error(num, den, x));
        }
        if xs > hs {
            assert(xs * den > hs * den) by (nonlinear_arith)
                requires
                    xs > hs,
                    den > 0,
            ;
            assert(error(num, den, hi) < error(num, den, x));
        }
        assert(x.bits == lo.bits || x.bits == hi.bits);
    }
}

/// The numbers in units of `2^-1074`: zero is no unit, the smallest positive number
/// is one unit, and the number one is `2^1074` units. The sign bit negates. One more
/// in the exponent field doubles a normal number, and between two powers of two the
/// numbers are evenly spaced.
pub proof fn lemma_number_line(x: Binary64)
    ensures
        (Binary64 { bits: 0 }).scaled() == 0,
        (Binary64 { bits: 1 }).scaled() == 1,
        (Binary64 { bits: 0x3FF0_0000_0000_0000 }).scaled() == pow2(1074),
        one() == pow2(1074),
        x.bits < 0x8000_0000_0000_0000 ==> (Binary64 {
            bits: (x.bits + 0x8000_0000_0000_0000) as u64,
        }).scaled() == -x.scaled(),
        0x0010_0000_0000_0000 <= x.bits < 0x7FE0_0000_0000_0000 ==> (Binary64 {
            bits: (x.bits + 0x0010_0000_0000_0000) as u64,
        }).scaled() == 2 * x.scaled(),
        x.bits < 0x7FF0_0000_0000_0000 - 1 && (x.bits + 1) % 0x0010_0000_0000_0000 != 0 ==> {
            let next = Binary64 { bits: (x.bits + 1) as u64 };
            let after = Binary64 { bits: (x.bits + 2) as u64 };
            after.scaled() - next.scaled() == next.scaled() - x.scaled()
        },
{
    let h = HIDDEN_BIT as int;
    lemma2_to64();
    lemma2_to64_rest();
    assert(0x3FF0_0000_0000_0000int / h == 1023 && 0x3FF0_0000_0000_0000int % h == 0);
    lemma_pow2_adds(52, 1022);
    if 0x0010_0000_0000_0000 <= x.bits < 0x7FE0_0000_0000_0000 {
        let e = x.bits as int / h;
        let f = x.bits as int % h;
        let twice = Binary64 { bits: (x.bits + 0x0010_0000_0000_0000) as u64 };
        assert(twice.bits as int / h == e + 1 && twice.bits as int % h == f);
        lemma_pow2_adds((e - 1) as nat, 1);
        let p = pow2((e - 1) as nat) as int;
        assert((h + f) * (p * 2) == 2 * ((h + f) * p)) by (nonlinear_arith);
    }
    if x.bits < 0x7FF0_0000_0000_0000 - 1 && (x.bits + 1) % 0x0010_0000_0000_0000 != 0 {
        let e = x.bits as int / h;
        let f = x.bits as int % h;
        let next = Binary64 { bits: (x.bits + 1) as u64 };
        let after = Binary64 { bits: (x.bits + 2) as u64 };
        assert(f + 1 < h && next.bits as int / h == e && next.bits as int % h == f + 1);
        if f + 2 < h {
            assert(after.bits as int / h == e && after.bits as int % h == f + 2);
        } else {
            assert(after.bits as int / h == e + 1 && after.bits as int % h == 0);
        }
        if e > 0 {
            lemma_pow2_adds((e - 1) as nat, 1);
            let p = pow2((e - 1) as nat) as int;
            assert((h + (f + 1)) * p - (h + f) * p == p) by (nonlinear_arith);
            assert((h + (f + 2)) * p - (h + (f + 1)) * p == p) by (nonlinear_arith);
            assert(h * (p * 2) == (h + h) * p) by (nonlinear_arith);
        }
    }
}

/// What the comparisons mean: a NaN is what lies past infinity in either direction, it
/// is not less than, greater than or equal to anything; of two other numbers exactly
/// one of less, equal and greater holds, and it is the order of their values. `==`
/// answers so.
pub proof fn lemma_comparisons(x: Binary64, y: Binary64)
    ensures
        Binary64::obeys_eq_spec(),
        x.nan() <==> x.bits % 0x8000_0000_0000_0000 > 0x7FF0_0000_0000_0000,
        x.finite() <==> x.bits % 0x8000_0000_0000_0000 < 0x7FF0_0000_0000_0000,
        x.nan() ==> !x.lt(y) && !y.lt(x) && !x.eq_spec(&y) && !y.eq_spec(&x),
        !x.nan() && !y.nan() ==> {
            &&& x.lt(y) <==> x.scaled() < y.scaled()
            &&& x.eq_spec(&y) <==> x.scaled() == y.scaled()
        },
{
}

impl PartialEq for Binary64 {
    /// Equality of numbers: the zeros are equal, a NaN equals nothing.
    fn eq(&self, other: &Self) -> (res: bool) {
        if self.is_nan() || other.is_nan() {
            return false;
        }
        let here: u64 = self.bits % SIGN_BIT;
        let there: u64 = other.bits % SIGN_BIT;
        proof {
            if here < there {
                lemma_scaled_magnitude_increases(here as int, there as int);
            } else if there < here {
                lemma_scaled_magnitude_increases(there as int, here as int);
            }
            if here > 0 {
                lemma_scaled_magnitude_increases(0, here as int);
            }
        }
        self.bits == other.bits || here == 0 && there == 0
    }
}

impl vstd::std_specs::cmp::PartialEqSpecImpl for Binary64 {
    open spec fn obeys_eq_spec() -> bool {
        true
    }

    open spec fn eq_spec(&self, other: &Self) -> bool {
        self.same_number(*other)
    }
}

/// `q + r / d` rounded to an integer, ties to even.
fn round_half_even(q: u64, r: u64, d: u64) -> (m: u64)
    requires
        r < d,
        q < u64::MAX,
    ensures
        m == half_even(q as int, r as int, d as int),
{
    if r < d - r {
        q
    } else if r > d - r {
        q + 1
    } else {
        q + q % 2
    }
}

impl Binary64 {
    /// `true` if this is neither infinite nor a NaN.
    #[must_use]
    pub fn is_finite(self) -> (res: bool)
        ensures
            res == self.finite(),
            res == (self.bits % 0x8000_0000_0000_0000 < 0x7FF0_0000_0000_0000),
    {
        self.bits % SIGN_BIT < INFINITY_BITS
    }

    /// `true` if this is not a number.
    #[must_use]
    pub fn is_nan(self) -> (res: bool)
        ensures
            res == self.nan(),
            res == (self.bits % 0x8000_0000_0000_0000 > 0x7FF0_0000_0000_0000),
    {
        self.bits % SIGN_BIT > INFINITY_BITS
    }

    /// `true` if this is less than `other`; a NaN is neither less nor greater than
    /// anything.
    #[must_use]
    pub fn less_than(self, other: Self) -> (res: bool)
        ensures
            res == self.lt(other),
            res == (!self.nan() && !other.nan() && self.scaled() < other.scaled()),
    {
        if self.is_nan() || other.is_nan() {
            return false;
        }
        let here: u64 = self.bits % SIGN_BIT;
        let there: u64 = other.bits % SIGN_BIT;
        proof {
            if here < there {
                lemma_scaled_magnitude_increases(here as int, there as int);
            } else if there < here {
                lemma_scaled_magnitude_increases(there as int, here as int);
            }
            if here > 0 {
                lemma_scaled_magnitude_increases(0, here as int);
            }
            if there > 0 {
                lemma_scaled_magnitude_increases(0, there as int);
            }
        }
        if self.bits >= SIGN_BIT {
            if other.bits >= SIGN_BIT {
                there < here
            } else {
                here > 0 || there > 0
            }
        } else {
            other.bits < SIGN_BIT && here < there
        }
    }

    /// `n` rounded to a binary64 number.
    pub(crate) fn from_u64(n: u64) -> (x: Self)
        ensures
            is_nearest(n as int, 1, x),
            n == 0 ==> x.bits == 0,
            n > 0 ==> 1023 * HIDDEN_BIT <= x.bits < 1088 * HIDDEN_BIT,
    {
        proof {
            lemma2_to64();
            lemma2_to64_rest();
        }
        if n == 0 {
            let zero = Binary64 { bits: 0 };
            proof {
                lemma_exact(0, 1, zero);
            }
            return zero;
        }
        let mut m: u64 = n;
        let mut s: u64 = 1074;
        assert(n * pow2(0) == n) by (nonlinear_arith)
            requires
                pow2(0) == 1,
        ;
        while m < HIDDEN_BIT
            invariant
                1022 <= s <= 1074,
                n > 0,
                m == n * pow2((1074 - s) as nat),
                m < 2 * HIDDEN_BIT || m == n && s == 1074,
                pow2(52) == HIDDEN_BIT,
                pow2(1) == 2,
            decreases s,
        {
            proof {
                let k = (1074 - s) as nat;
                if k >= 52 {
                    if k > 52 {
                        lemma_pow2_strictly_increases(52, k);
                    }
                    assert(m >= HIDDEN_BIT) by (nonlinear_arith)
                        requires
                            m == n * pow2(k),
                            n > 0,
                            pow2(k) >= HIDDEN_BIT,
                    ;
                }
                lemma_pow2_adds(k, 1);
                assert(n * (pow2(k) * 2) == 2 * (n * pow2(k))) by (nonlinear_arith);
            }
            m = m * 2;
            s = s - 1;
        }
        if m < 2 * HIDDEN_BIT {
            let x = Binary64 { bits: s * HIDDEN_BIT + m };
            proof {
                let k = (1074 - s) as nat;
                lemma_pow2_adds(k, s as nat);
                let (pk, ps) = (pow2(k) as int, pow2(s as nat) as int);
                assert(n * (pk * ps) == (n * pk) * ps) by (nonlinear_arith);
                assert(m * 1 + 0 == m);
                lemma_rounded_is_nearest(n as int, 1, m as int, 0, 1, s as int, x);
            }
            return x;
        }
        let mut unit: u64 = 2;
        s = 1075;
        while n / unit >= 2 * HIDDEN_BIT
            invariant
                1075 <= s <= 1085,
                2 <= unit <= 2048,
                unit * HIDDEN_BIT <= n,
                unit == pow2((s - 1074) as nat),
                pow2(1) == 2,
                pow2(11) == 2048,
            decreases 2048 - unit,
        {
            proof {
                assert(unit * (2 * HIDDEN_BIT) <= n) by (nonlinear_arith)
                    requires
                        n / unit >= 2 * HIDDEN_BIT,
                        unit > 0,
                ;
                assert(unit < 2048) by (nonlinear_arith)
                    requires
                        unit * (2 * HIDDEN_BIT) <= n,
                        n < 2048 * (2 * HIDDEN_BIT),
                ;
                let k = (s - 1074) as nat;
                lemma_pow2_adds(k, 1);
                if k > 11 {
                    lemma_pow2_strictly_increases(11, k);
                } else if k + 1 < 11 {
                    lemma_pow2_strictly_increases(k + 1, 11);
                }
            }
            unit = unit * 2;
            s = s + 1;
        }
        let q: u64 = n / unit;
        let r: u64 = n % unit;
        proof {
            assert(q >= HIDDEN_BIT) by (nonlinear_arith)
                requires
                    unit * HIDDEN_BIT <= n,
                    q == n / unit,
                    unit > 0,
            ;
        }
        let m2: u64 = round_half_even(q, r, unit);
        let x = Binary64 { bits: s * HIDDEN_BIT + m2 };
        proof {
            let k = (s - 1074) as nat;
            lemma_pow2_adds(1074, k);
            let ps = pow2(s as nat) as int;
            assert(q * unit + r == n) by (nonlinear_arith)
                requires
                    q == n / unit,
                    r == n % unit,
                    unit > 0,
            ;
            assert(n * one() * unit == n * ps) by (nonlinear_arith)
                requires
                    ps == one() * unit,
            ;
            lemma_rounded_is_nearest(n as int, 1, q as int, r as int, unit as int, s as int, x);
        }
        x
    }

    /// The quotient of two numbers of the range that [`from_u64`](Self::from_u64)
    /// gives, rounded to a binary64 number.
    pub(crate) fn divide(self, den: Self) -> (x: Self)
        requires
            self.bits == 0 || 1023 * HIDDEN_BIT <= self.bits < 1088 * HIDDEN_BIT,
            1023 * HIDDEN_BIT <= den.bits < 1088 * HIDDEN_BIT,
        ensures
            den.scaled() > 0,
            is_nearest(self.scaled(), den.scaled(), x),
    {
        proof {
            lemma2_to64();
            lemma2_to64_rest();
            lemma_scaled_magnitude_increases(0, den.bits as int);
        }
        if self.bits == 0 {
            let zero = Binary64 { bits: 0 };
            proof {
                let d = den.scaled();
                assert(0 * d == 0 * one()) by (nonlinear_arith);
                lemma_exact(0, d, zero);
            }
            return zero;
        }
        let m1: u64 = HIDDEN_BIT + self.bits % HIDDEN_BIT;
        let m2: u64 = HIDDEN_BIT + den.bits % HIDDEN_BIT;
        let s1: u64 = self.bits / HIDDEN_BIT - 1;
        let s2: u64 = den.bits / HIDDEN_BIT - 1;
        let t: u64 = if m1 >= m2 {
            52
        } else {
            53
        };
        let lift: u64 = if m1 >= m2 {
            HIDDEN_BIT
        } else {
            2 * HIDDEN_BIT
        };
        proof {
            assert(m1 * lift <= (2 * HIDDEN_BIT) * (2 * HIDDEN_BIT)) by (nonlinear_arith)
                requires
                    m1 <= 2 * HIDDEN_BIT,
                    lift <= 2 * HIDDEN_BIT,
            ;
        }
        let n: u128 = m1 as u128 * lift as u128;
        let wide_q: u128 = n / m2 as u128;
        let wide_r: u128 = n % m2 as u128;
        proof {
            assert(HIDDEN_BIT <= wide_q < 2 * HIDDEN_BIT) by (nonlinear_arith)
                requires
                    wide_q == n / m2 as u128,
                    n == m1 * lift,
                    HIDDEN_BIT <= m1 < 2 * HIDDEN_BIT,
                    HIDDEN_BIT <= m2 < 2 * HIDDEN_BIT,
                    m1 >= m2 && lift == HIDDEN_BIT || m1 < m2 && lift == 2 * HIDDEN_BIT,
            ;
        }
        let q: u64 = wide_q as u64;
        let r: u64 = wide_r as u64;
        let s: u64 = s1 + 1074 - s2 - t;
        let m: u64 = round_half_even(q, r, m2);
        let x = Binary64 { bits: s * HIDDEN_BIT + m };
        proof {
            let (p1, p2, pt, ps) = (
                pow2(s1 as nat) as int,
                pow2(s2 as nat) as int,
                pow2(t as nat) as int,
                pow2(s as nat) as int,
            );
            lemma_pow2_adds(s1 as nat, 1074);
            lemma_pow2_adds(t as nat, s as nat);
            lemma_pow2_adds((t + s) as nat, s2 as nat);
            assert(s1 + 1074 == t + s + s2);
            assert(p1 * one() == pt * ps * p2);
            assert(lift == pt);
            assert(q * m2 + r == m1 * lift) by (nonlinear_arith)
                requires
                    q == n / m2 as u128,
                    r == n % m2 as u128,
                    n == m1 * lift,
                    m2 > 0,
            ;
            let num = self.scaled();
            let d = den.scaled();
            assert(num == m1 * p1);
            assert(d == m2 * p2);
            assert(num * one() * m2 == (q * m2 + r) * ps * d) by (nonlinear_arith)
                requires
                    num == m1 * p1,
                    d == m2 * p2,
                    q * m2 + r == m1 * pt,
                    p1 * one() == pt * ps * p2,
            ;
            lemma_rounded_is_nearest(num, d, q as int, r as int, m2 as int, s as int, x);
        }
        x
    }

    /// The quotient of two integers as binary64 arithmetic computes it.
    pub(crate) fn ratio_of(num: u64, den: u64) -> (x: Self)
        requires
            den > 0,
        ensures
            x == ratio(num as int, den as int),
            x.finite(),
    {
        let a = Self::from_u64(num);
        let b = Self::from_u64(den);
        let x = a.divide(b);
        proof {
            lemma_nearest_is(num as int, 1, a);
            lemma_nearest_is(den as int, 1, b);
            lemma_nearest_is(a.scaled(), b.scaled(), x);
        }
        x
    }
}

} // verus!
