//! Fixed-point "ticks": the 16-bit encoding in which the sensors take
//! compensation inputs. A domain `[min, max]` of a physical quantity is
//! spread evenly over `0 ..= 65535`, rounding half up.
//!
//! Inputs outside the domain saturate at its nearest end; nothing wraps.

use vstd::prelude::*;

verus! {

/// The tick value that stands for the upper end of a domain.
pub const FULL_SCALE: u16 = 65535;

/// Lowest temperature, in degrees Celsius, that the tick encoding covers.
pub const TEMPERATURE_MIN: i16 = -45;

/// Highest temperature, in degrees Celsius, that the tick encoding covers.
pub const TEMPERATURE_MAX: i16 = 130;

/// Highest relative humidity, in percent, that the tick encoding covers.
pub const HUMIDITY_MAX: u8 = 100;

/// `n / d` rounded to the nearest integer by the remainder of the integer
/// division: a remainder of at least half the divisor rounds up.
pub open spec fn round_half_up(n: int, d: int) -> int
    recommends
        n >= 0,
        d > 0,
{
    n / d + if 2 * (n % d) >= d {
        1int
    } else {
        0int
    }
}

/// `value` moved to the nearest point of `[min, max]`.
pub open spec fn clamp(value: int, min: int, max: int) -> int
    recommends
        min <= max,
{
    if value < min {
        min
    } else if value > max {
        max
    } else {
        value
    }
}

/// The tick encoding of `value` over the domain `[min, max]`.
pub open spec fn ticks_of(value: int, min: int, max: int) -> int
    recommends
        min < max,
{
    round_half_up((clamp(value, min, max) - min) * 65535, max - min)
}

/// The tick encoding of a relative humidity in percent, over `[0, 100]`.
pub open spec fn humidity_ticks(value: int) -> int {
    round_half_up(clamp(value, 0, 100) * 65535, 100)
}

/// The tick encoding of a temperature in degrees Celsius, over
/// `[-45, 130]`.
pub open spec fn temperature_ticks(value: int) -> int {
    round_half_up((clamp(value, -45, 130) + 45) * 65535, 175)
}

/// The value of the domain `[min, max]` nearest to what `ticks` encodes.
pub open spec fn value_of(ticks: int, min: int, max: int) -> int
    recommends
        0 <= ticks <= 65535,
        min < max,
{
    min + round_half_up(ticks * (max - min), 65535)
}

/// Rounding half up is the floor of the quotient plus one half.
pub proof fn lemma_round_half_up_is_floor(n: int, d: int)
    requires
        n >= 0,
        d > 0,
    ensures
        round_half_up(n, d) == (2 * n + d) / (2 * d),
{
    let q = n / d;
    let r = n % d;
    let up = if 2 * r >= d { 1int } else { 0int };
    vstd::arithmetic::div_mod::lemma_fundamental_div_mod(n, d);
    vstd::arithmetic::div_mod::lemma_mod_bound(n, d);
    let rest = 2 * r + d - up * (2 * d);
    assert(2 * n + d == (q + up) * (2 * d) + rest) by (nonlinear_arith)
        requires
            n == d * q + r,
            rest == 2 * r + d - up * (2 * d),
    ;
    assert(0 <= rest < 2 * d);
    vstd::arithmetic::div_mod::lemma_fundamental_div_mod_converse(2 * n + d, 2 * d, q + up, rest);
}

/// A rounded quotient lies within half a divisor of the exact one.
pub proof fn lemma_round_half_up_error(n: int, d: int)
    requires
        n >= 0,
        d > 0,
    ensures
        -d < 2 * (round_half_up(n, d) * d - n) <= d,
{
    let q = n / d;
    let r = n % d;
    vstd::arithmetic::div_mod::lemma_fundamental_div_mod(n, d);
    vstd::arithmetic::div_mod::lemma_mod_bound(n, d);
    assert((q + 1) * d == q * d + d) by (nonlinear_arith);
    assert(d * q == q * d) by (nonlinear_arith);
}

/// Quotient and remainder of `x` by `y` in one call.
pub fn div_rem(x: u32, y: u32) -> (r: (u32, u32))
    requires
        y != 0,
    ensures
        r.0 == x / y,
        r.1 == x % y,
{
    let quot: u32 = x / y;
    let rem: u32 = x % y;
    (quot, rem)
}

/// Encodes `value` as ticks over the domain `[domain_min, domain_max]`:
/// the domain's lower end gives 0, its upper end 65535, and the values
/// between are spaced evenly, rounding half up. A `value` outside the
/// domain is encoded as the end it lies beyond.
pub fn value_to_ticks(value: i32, domain_min: i32, domain_max: i32) -> (ticks: u16)
    requires
        domain_min < domain_max,
    ensures
        ticks == ticks_of(value as int, domain_min as int, domain_max as int),
{
    let clamped: i32 = if value < domain_min {
        domain_min
    } else if value > domain_max {
        domain_max
    } else {
        value
    };
    let span: u64 = (domain_max as i64 - domain_min as i64) as u64;
    let offset: u64 = (clamped as i64 - domain_min as i64) as u64;
    let scaled: u64 = offset * 65535;
    let quot: u64 = scaled / span;
    let rem: u64 = scaled % span;
    proof {
        let n = scaled as int;
        let d = span as int;
        assert(n <= 65535 * d) by (nonlinear_arith)
            requires
                n == offset * 65535,
                offset <= d,
        ;
        vstd::arithmetic::div_mod::lemma_fundamental_div_mod(n, d);
        assert(n / d <= 65535 && (n % d > 0 ==> n / d < 65535)) by (nonlinear_arith)
            requires
                n == d * (n / d) + n % d,
                n <= 65535 * d,
                d > 0,
                n % d >= 0,
        ;
    }
    if 2 * rem >= span {
        (quot + 1) as u16
    } else {
        quot as u16
    }
}

/// Decodes `ticks` over the domain `[domain_min, domain_max]` to the
/// nearest whole value, rounding half up.
pub fn ticks_to_value(ticks: u16, domain_min: i32, domain_max: i32) -> (value: i32)
    requires
        domain_min < domain_max,
    ensures
        value == value_of(ticks as int, domain_min as int, domain_max as int),
        domain_min <= value <= domain_max,
{
    let span: u64 = (domain_max as i64 - domain_min as i64) as u64;
    assert(ticks * span <= 65535 * span) by (nonlinear_arith)
        requires
            ticks <= 65535,
            span >= 0,
    ;
    let scaled: u64 = ticks as u64 * span;
    let quot: u64 = scaled / 65535;
    let rem: u64 = scaled % 65535;
    proof {
        let n = scaled as int;
        let d = span as int;
        assert(n <= 65535 * d) by (nonlinear_arith)
            requires
                n == ticks * d,
                ticks <= 65535,
                d > 0,
        ;
        vstd::arithmetic::div_mod::lemma_fundamental_div_mod(n, 65535);
        assert(n / 65535 <= d && (n % 65535 > 0 ==> n / 65535 < d));
    }
    let steps: u64 = if 2 * rem >= 65535 {
        quot + 1
    } else {
        quot
    };
    (domain_min as i64 + steps as i64) as i32
}

/// Encodes a relative humidity in percent as ticks over `[0, 100]`.
/// A value above 100 is encoded as 100.
pub fn humidity_to_ticks(value: u8) -> (ticks: u16)
    ensures
        ticks == humidity_ticks(value as int),
        ticks == ticks_of(value as int, 0, 100),
{
    value_to_ticks(value as i32, 0, HUMIDITY_MAX as i32)
}

/// Encodes a temperature in degrees Celsius as ticks over `[-45, 130]`.
/// A value below -45 is encoded as -45, one above 130 as 130.
pub fn temperature_to_ticks(value: i16) -> (ticks: u16)
    ensures
        ticks == temperature_ticks(value as int),
        ticks == ticks_of(value as int, -45, 130),
{
    value_to_ticks(value as i32, TEMPERATURE_MIN as i32, TEMPERATURE_MAX as i32)
}

/// The encoding is the nearest tick: it lies within half a tick of the
/// exact, unrounded position of the value in its domain.
pub proof fn lemma_ticks_nearest(value: int, min: int, max: int)
    requires
        min <= value <= max,
        min < max,
    ensures
        0 <= ticks_of(value, min, max) <= 65535,
        -(max - min) < 2 * (ticks_of(value, min, max) * (max - min) - (value - min) * 65535) <= max
            - min,
{
    let span = max - min;
    let n = (value - min) * 65535;
    assert(0 <= n <= span * 65535) by (nonlinear_arith)
        requires
            n == (value - min) * 65535,
            0 <= value - min <= span,
    ;
    lemma_round_half_up_error(n, span);
    let t = round_half_up(n, span);
    assert(t >= 0 && t <= 65535) by (nonlinear_arith)
        requires
            -span < 2 * (t * span - n) <= span,
            0 <= n <= span * 65535,
            span > 0,
    ;
}

/// Encoding a value of the domain and decoding the ticks gives the value
/// back, for every domain no wider than the tick range.
pub proof fn lemma_ticks_round_trip(value: int, min: int, max: int)
    requires
        min <= value <= max,
        min < max,
        max - min <= 65535,
    ensures
        value_of(ticks_of(value, min, max), min, max) == value,
{
    let span = max - min;
    let x = value - min;
    let t = ticks_of(value, min, max);
    lemma_ticks_nearest(value, min, max);
    // 2 * (t * span) lies in (2 * x * 65535 - span, 2 * x * 65535 + span],
    // so 2 * (t * span) + 65535 lies in [x * 131070, (x + 1) * 131070).
    assert(0 <= t * span) by (nonlinear_arith)
        requires
            0 <= t,
            0 < span,
    ;
    lemma_round_half_up_is_floor(t * span, 65535);
    let drift = t * span - x * 65535;
    assert(-span < 2 * drift <= span);
    assert(span == 65535 ==> drift == 0) by (nonlinear_arith)
        requires
            drift == t * span - x * 65535,
            -span < 2 * drift <= span,
    ;
    let rest = 2 * drift + 65535;
    assert(0 <= rest < 131070);
    assert(2 * (t * span) + 65535 == x * 131070 + rest);
    vstd::arithmetic::div_mod::lemma_fundamental_div_mod_converse(
        2 * (t * span) + 65535,
        131070,
        x,
        rest,
    );
}

/// A greater value never gets fewer ticks.
pub proof fn lemma_ticks_monotonic(lower: int, upper: int, min: int, max: int)
    requires
        lower <= upper,
        min < max,
    ensures
        0 <= ticks_of(lower, min, max) <= ticks_of(upper, min, max) <= 65535,
{
    let span = max - min;
    let a = (clamp(lower, min, max) - min) * 65535;
    let b = (clamp(upper, min, max) - min) * 65535;
    lemma_ticks_nearest(clamp(lower, min, max), min, max);
    lemma_ticks_nearest(clamp(upper, min, max), min, max);
    lemma_round_half_up_is_floor(a, span);
    lemma_round_half_up_is_floor(b, span);
    vstd::arithmetic::div_mod::lemma_div_is_ordered(2 * a + span, 2 * b + span, 2 * span);
}

} // verus!
