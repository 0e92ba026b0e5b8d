//! How media times follow from timestamps, in exact numbers.

use crate::accuracy_laws::{
    law_integers_are_accurate, law_sums_are_accurate, lemma_nearest_accurate, size,
};
use crate::geometry_laws::lemma_not_negative;
use crate::ieee::{
    lemma_scaled_magnitude_monotone, scaled_magnitude, Binary64, INFINITY_64, ONE_64,
};
use crate::media_time::{
    half_even, lemma_known_patterns, lemma_media_time_is_finite, lemma_timeline_bounds,
    lemma_timeline_without_scale, timeline_seconds, MediaTime, LARGEST_TIMESTAMP,
};
use crate::numbers::{lemma_nearest_bounded, lemma_nearest_exists, nearest_pattern};
use crate::rounding::lemma_scaled_magnitude_of_parts;
use vstd::arithmetic::power2::{
    lemma2_to64, lemma2_to64_rest, lemma_pow2_adds, lemma_pow2_pos, lemma_pow2_strictly_increases,
    pow2,
};
use vstd::prelude::*;

verus! {

/// A media time in nanoseconds.
pub open spec fn nanoseconds(time: MediaTime) -> int {
    time.seconds * 1_000_000_000 + time.nanos
}

/// Whether a media time is the nearest nanosecond to `value / scale` seconds, up to the rounding of
/// that quotient to a number of seconds: off by no more than half a nanosecond and three parts in
/// `2^52`.
pub open spec fn nearest_time(time: MediaTime, value: int, scale: int) -> bool {
    &&& time.nanos < 1_000_000_000
    &&& 2 * pow2(52) * size(nanoseconds(time) * scale - value * 1_000_000_000) <= pow2(52) * scale + 6
        * (value * 1_000_000_000)
}

/// Whether a number of seconds is `value / scale`, give or take two parts in `2^52`.
pub open spec fn near_ratio(seconds: Binary64, value: int, scale: int) -> bool {
    pow2(52) * size(seconds.scaled() * scale - value * pow2(1074)) <= 3 * (value * pow2(1074))
}

/// Two integers without their signs, and a timestamp of them.
proof fn lemma_ratio(value: int, scale: int, number: Binary64)
    requires
        1 <= value <= 0x8000_0000_0000_0000,
        1 <= scale <= 0x8000_0000,
        number.magnitude() == Binary64::of_integer(value).quotient(
            Binary64::of_integer(scale),
        ).magnitude(),
        !number.negative(),
    ensures
        number.finite(),
        number.scaled() > 0,
        near_ratio(number, value, scale),
{
    let a = Binary64::of_integer(value);
    let b = Binary64::of_integer(scale);
    let unit = pow2(1074) as int;
    let infinity = INFINITY_64 as int;
    let x = a.scaled();
    let y = b.scaled();
    lemma2_to64();
    lemma2_to64_rest();
    lemma_known_patterns();
    lemma_pow2_pos(1074);
    law_integers_are_accurate(value);
    law_integers_are_accurate(scale);
    assert(y == scale * unit);
    assert(a.magnitude() >= ONE_64 && b.magnitude() >= ONE_64);
    if a.magnitude() > ONE_64 {
        lemma_scaled_magnitude_monotone(ONE_64 as int, a.magnitude(), 52);
    }
    assert(x >= unit);
    assert(x == scaled_magnitude(a.magnitude(), 52) && y == scaled_magnitude(b.magnitude(), 52));
    assert(y > 0) by (nonlinear_arith)
        requires
            y == scale * unit,
            scale >= 1,
            unit > 0,
    ;
    assert(x * unit >= 0) by (nonlinear_arith)
        requires
            x >= unit,
            unit > 0,
    ;
    lemma_nearest_exists(x * unit, y, 52, infinity);
    let m = nearest_pattern(x * unit, y, 52, infinity);
    // The quotient is a normal number.
    let hidden = pow2(52) as int;
    lemma_scaled_magnitude_of_parts(hidden, 0, 52);
    assert(0 * hidden == 0 && hidden * 1 == hidden) by (nonlinear_arith);
    lemma_pow2_strictly_increases(83, 1074);
    lemma_pow2_adds(31, 52);
    assert(x * unit >= hidden * y) by (nonlinear_arith)
        requires
            x >= unit,
            y == scale * unit,
            1 <= scale <= 0x8000_0000,
            unit > 0x8000_0000 * hidden,
            hidden > 0,
    ;
    lemma_nearest_bounded(x * unit, y, m, hidden, 52, infinity);
    // And it is finite.
    lemma_timeline_finite(value, scale);
    assert(number.magnitude() == m);
    lemma_nearest_accurate(x * unit, y, m, 52, infinity);
    let q = scaled_magnitude(m, 52);
    assert(q == number.scaled());
    lemma_scaled_magnitude_monotone(0, m, 52);
    // Everything is off by small parts of itself.
    let e2 = size(q * scale - x);
    assert(2 * hidden * e2 <= q * scale) by (nonlinear_arith)
        requires
            2 * hidden * size(q * y - x * unit) <= y * q,
            y == scale * unit,
            e2 == size(q * scale - x),
            unit > 0,
            hidden > 0,
    {
        assert(q * y - x * unit == (q * scale - x) * unit);
        assert(size((q * scale - x) * unit) == size(q * scale - x) * unit);
        assert(2 * hidden * (e2 * unit) <= (q * scale) * unit);
    }
    let target = value * unit;
    let e1 = size(x - target);
    assert(2 * hidden * e1 <= x);
    assert(hidden == 0x10_0000_0000_0000);
    lemma_two_errors(q * scale, x, target);
}

/// Two roundings of one part in `2^53` each.
proof fn lemma_two_errors(rounded: int, between: int, exact: int)
    requires
        0x20_0000_0000_0000 * size(rounded - between) <= rounded,
        0x20_0000_0000_0000 * size(between - exact) <= between,
    ensures
        0x10_0000_0000_0000 * size(rounded - exact) <= 3 * exact,
{
}

proof fn lemma_timeline_finite(value: int, scale: int)
    requires
        1 <= value <= 0x8000_0000_0000_0000,
        1 <= scale <= 0x8000_0000,
    ensures
        Binary64::of_integer(value).quotient(Binary64::of_integer(scale)).finite(),
{
    let a = Binary64::of_integer(value);
    let b = Binary64::of_integer(scale);
    let unit = pow2(1074) as int;
    let infinity = INFINITY_64 as int;
    let top = a.magnitude();
    lemma_known_patterns();
    lemma_pow2_pos(1074);
    law_integers_are_accurate(value);
    law_integers_are_accurate(scale);
    let x = scaled_magnitude(a.magnitude(), 52);
    let y = scaled_magnitude(b.magnitude(), 52);
    if b.magnitude() > ONE_64 {
        lemma_scaled_magnitude_monotone(ONE_64 as int, b.magnitude(), 52);
    }
    lemma_scaled_magnitude_monotone(0, top, 52);
    assert(0 <= x * unit <= x * y) by (nonlinear_arith)
        requires
            x >= 0,
            0 < unit <= y,
    ;
    lemma_nearest_exists(x * unit, y, 52, infinity);
    lemma_nearest_bounded(
        x * unit,
        y,
        nearest_pattern(x * unit, y, 52, infinity),
        top,
        52,
        infinity,
    );
}

/// An integer and its opposite have the same pattern but for the sign.
proof fn lemma_integer_magnitude(value: int)
    requires
        value > 0,
    ensures
        Binary64::of_integer(-value).magnitude() == Binary64::of_integer(value).magnitude(),
{
    let unit = pow2(1074) as int;
    lemma_pow2_pos(1074);
    assert(value * unit >= 0) by (nonlinear_arith)
        requires
            value > 0,
            unit > 0,
    ;
    lemma_nearest_exists(value * unit, 1, 52, INFINITY_64 as int);
}

/// A timestamp in seconds is the quotient of its value and its scale, of the right sign, up to two
/// roundings; without a scale it is no number of seconds.
pub proof fn law_timestamps_are_quotients(value: i64, scale: i32)
    ensures
        ({
            let seconds = timeline_seconds(value, scale);
            &&& value == 0 && scale != 0 ==> seconds.scaled() == 0 && seconds.finite()
            &&& value != 0 && scale != 0 ==> {
                &&& seconds.finite()
                &&& seconds.negative() == ((value < 0) != (scale < 0))
                &&& near_ratio(seconds.unsigned(), size(value as int), size(scale as int))
            }
            &&& scale == 0 ==> !seconds.finite()
            &&& scale == 0 ==> (seconds.nan() <==> value == 0)
            &&& scale == 0 && value != 0 ==> seconds.negative() == (value < 0)
        }),
{
    let a = Binary64::of_integer(value as int);
    let b = Binary64::of_integer(scale as int);
    let seconds = timeline_seconds(value, scale);
    law_integers_are_accurate(value as int);
    law_integers_are_accurate(scale as int);
    lemma_known_patterns();
    lemma_pow2_pos(1074);
    lemma2_to64_rest();
    assert(0 * pow2(1074) == 0) by (nonlinear_arith);
    if a.magnitude() > 0 {
        lemma_scaled_magnitude_monotone(0, a.magnitude(), 52);
    }
    if b.magnitude() > 0 {
        lemma_scaled_magnitude_monotone(0, b.magnitude(), 52);
    }
    if scale != 0 {
        lemma_timeline_bounds(value, scale);
        if value != 0 {
            let v = size(value as int);
            let s = size(scale as int);
            lemma_integer_magnitude(v);
            lemma_integer_magnitude(s);
            law_integers_are_accurate(v);
            law_integers_are_accurate(s);
            assert(seconds.unsigned().magnitude() == seconds.magnitude());
            let c = Binary64::of_integer(v).quotient(Binary64::of_integer(s));
            let x = scaled_magnitude(a.magnitude(), 52);
            let y = scaled_magnitude(b.magnitude(), 52);
            assert(x * pow2(1074) >= 0) by (nonlinear_arith)
                requires
                    x >= 0,
            ;
            lemma_nearest_exists(x * pow2(1074), y, 52, INFINITY_64 as int);
            assert(c.magnitude() == seconds.magnitude());
            lemma_ratio(v, s, seconds.unsigned());
        } else {
            let y = scaled_magnitude(b.magnitude(), 52);
            assert(0 * pow2(1074) == 0 && 0 * y == 0) by (nonlinear_arith);
            lemma_nearest_exists(0, y, 52, INFINITY_64 as int);
            let m = nearest_pattern(0, y, 52, INFINITY_64 as int);
            lemma_nearest_bounded(0, y, m, 0, 52, INFINITY_64 as int);
            assert(seconds.magnitude() == 0);
        }
    }
}

/// The media time of a timestamp is the nearest to the quotient of its value and its scale, and zero
/// where that is not above zero.
pub proof fn law_media_times_are_nearest(value: i64, scale: i32)
    requires
        scale != 0 || value <= 0,
    ensures
        ({
            let time = MediaTime::of_seconds(timeline_seconds(value, scale));
            &&& time.wf()
            &&& (value < 0) != (scale < 0) || value == 0 || scale == 0 ==> nanoseconds(time) == 0
            &&& (value < 0) == (scale < 0) && scale != 0 ==> nearest_time(
                time,
                size(value as int),
                size(scale as int),
            )
        }),
{
    let seconds = timeline_seconds(value, scale);
    let time = MediaTime::of_seconds(seconds);
    let unit = pow2(1074) as int;
    law_timestamps_are_quotients(value, scale);
    lemma_known_patterns();
    lemma_pow2_pos(1074);
    if scale == 0 {
        lemma_timeline_without_scale(value);
    } else {
        lemma_timeline_bounds(value, scale);
        if seconds.magnitude() > 0 {
            lemma_scaled_magnitude_monotone(0, seconds.magnitude(), 52);
        }
    }
    if value == 0 && scale > 0 {
        assert(pow2(52) * scale >= 0 && nanoseconds(time) == 0);
        assert(0 * (scale as int) == 0 && 2 * pow2(52) * 0 == 0) by (nonlinear_arith);
    }
    if (value < 0) == (scale < 0) && value != 0 && scale != 0 {
        let v = size(value as int);
        let s = size(scale as int);
        let q = seconds.scaled();
        assert(seconds.unsigned() == seconds);
        assert(q >= 0);
        let hidden = pow2(52) as int;
        lemma2_to64_rest();
        assert(v * unit >= unit && s >= 1) by (nonlinear_arith)
            requires
                v >= 1,
                s >= 1,
                unit > 0,
        ;
        assert(hidden == 0x10_0000_0000_0000);
        if q == 0 {
            assert(q * s == 0) by (nonlinear_arith)
                requires
                    q == 0,
            ;
            assert(hidden * (v * unit) <= 3 * (v * unit));
        }
        assert(q > 0);
        let num = q * 1_000_000_000;
        let total = half_even(num, unit);
        lemma_half_even_near(num, unit);
        lemma_time_fits(seconds, total);
        assert(nanoseconds(time) == total);
        assert(hidden * size(q * s - v * unit) <= 3 * (v * unit));
        let nano = 1_000_000_000int;
        assert(2 * hidden * size(total * s - v * nano) <= hidden * s + 6 * (v * nano))
            by (nonlinear_arith)
            requires
                2 * size(total * unit - num) <= unit,
                num == q * nano,
                hidden * size(q * s - v * unit) <= 3 * (v * unit),
                hidden > 0,
                unit > 0,
                s >= 1,
                v >= 1,
                nano == 1_000_000_000,
        {
            // unit * (total * s - v * nano) == s * (total * unit - num) + nano * (q * s - v * unit)
            let d = total * unit - num;
            let e = q * s - v * unit;
            let f = total * s - v * nano;
            assert(unit * f == s * d + nano * e);
            assert(size(unit * f) == unit * size(f));
            assert(size(s * d) == s * size(d));
            assert(size(nano * e) == nano * size(e));
            assert(unit * size(f) <= s * size(d) + nano * size(e));
            assert(2 * hidden * (unit * size(f)) <= hidden * (s * (2 * size(d))) + 2 * nano * (
            hidden * size(e)));
            assert(s * (2 * size(d)) <= s * unit);
            assert(hidden * (s * (2 * size(d))) <= hidden * (s * unit));
            assert(2 * hidden * (unit * size(f)) <= (hidden * s + 6 * (v * nano)) * unit);
        }
    }
}

proof fn lemma_half_even_near(num: int, den: int)
    requires
        num >= 0,
        den > 0,
    ensures
        2 * size(half_even(num, den) * den - num) <= den,
        half_even(num, den) >= 0,
{
    let low = num / den;
    let rest = num % den;
    vstd::arithmetic::div_mod::lemma_fundamental_div_mod(num, den);
    assert(0 <= rest < den && low >= 0) by (nonlinear_arith)
        requires
            num >= 0,
            den > 0,
            low == num / den,
            rest == num % den,
    ;
    assert(low * den - num == -rest && (low + 1) * den - num == den - rest) by (nonlinear_arith)
        requires
            num == den * low + rest,
    ;
}

/// A number of seconds up to the largest timestamp fits a media time.
proof fn lemma_time_fits(seconds: Binary64, total: int)
    requires
        !seconds.nan(),
        seconds.scaled() > 0,
        seconds.magnitude() <= LARGEST_TIMESTAMP,
        total == half_even(seconds.scaled() * 1_000_000_000, pow2(1074) as int),
    ensures
        nanoseconds(MediaTime::of_seconds(seconds)) == total,
        MediaTime::of_seconds(seconds).wf(),
{
    let unit = pow2(1074) as int;
    let top = LARGEST_TIMESTAMP as int;
    let scaled = seconds.scaled();
    lemma_known_patterns();
    lemma_pow2_pos(1074);
    lemma_not_negative(seconds);
    if seconds.magnitude() < top {
        lemma_scaled_magnitude_monotone(seconds.magnitude(), top, 52);
    }
    lemma_half_even_near(scaled * 1_000_000_000, unit);
    assert(total <= 0x8000_0000_0000_0000 * 1_000_000_000 + 1) by (nonlinear_arith)
        requires
            2 * size(total * unit - scaled * 1_000_000_000) <= unit,
            scaled <= 0x8000_0000_0000_0000 * unit,
            unit > 0,
    ;
    assert(total / 1_000_000_000 <= 0x8000_0000_0000_0000);
}

/// A media time as a number of seconds is off by no more than five parts in `2^52`.
pub proof fn law_media_times_are_accurate_seconds(time: MediaTime)
    ensures
        ({
            let seconds = time.as_seconds();
            let exact = nanoseconds(time) * pow2(1074);
            &&& seconds.finite()
            &&& !seconds.negative()
            &&& pow2(52) * size(seconds.scaled() * 1_000_000_000 - exact) <= 5 * exact
        }),
{
    let unit = pow2(1074) as int;
    let hidden = pow2(52) as int;
    let nano = 1_000_000_000int;
    let whole = Binary64::of_integer(time.seconds as int);
    let part = timeline_seconds(time.nanos as i64, 1_000_000_000);
    let seconds = time.as_seconds();
    lemma_known_patterns();
    lemma_pow2_pos(1074);
    lemma2_to64_rest();
    lemma_media_time_is_finite(time);
    law_integers_are_accurate(time.seconds as int);
    law_timestamps_are_quotients(time.nanos as i64, 1_000_000_000);
    lemma_timeline_bounds(time.nanos as i64, 1_000_000_000);
    assert(seconds == whole.sum(part));
    law_sums_are_accurate(whole, part);
    if whole.magnitude() > 0 {
        lemma_scaled_magnitude_monotone(0, whole.magnitude(), 52);
    }
    if part.magnitude() > 0 {
        lemma_scaled_magnitude_monotone(0, part.magnitude(), 52);
    }
    assert(part.unsigned() == part);
    let a = whole.scaled();
    let b = part.scaled();
    let r = seconds.scaled();
    let s = time.seconds * unit;
    let n = time.nanos * unit;
    assert(s >= 0 && n >= 0) by (nonlinear_arith)
        requires
            s == time.seconds * unit,
            n == time.nanos * unit,
            unit > 0,
    ;
    if time.seconds == 0 {
        assert(0 * unit == 0) by (nonlinear_arith);
    }
    if time.nanos == 0 {
        assert(0 * unit == 0) by (nonlinear_arith);
    }
    assert(2 * hidden * size(a - s) <= a);
    assert(hidden * size(b * nano - n) <= 3 * n);
    // The sum is zero, or so large that half a subnormal number does not matter.
    assert(2 * hidden * size(r - (a + b)) <= r + hidden);
    lemma_pow2_strictly_increases(128, 1074);
    lemma_pow2_adds(64, 64);
    assert(time.seconds > 0 ==> s >= unit) by (nonlinear_arith)
        requires
            s == time.seconds * unit,
            unit > 0,
    ;
    assert(time.nanos > 0 ==> n >= unit) by (nonlinear_arith)
        requires
            n == time.nanos * unit,
            unit > 0,
    ;
    assert(nanoseconds(time) * unit == s * nano + n) by (nonlinear_arith)
        requires
            s == time.seconds * unit,
            n == time.nanos * unit,
            nanoseconds(time) == time.seconds * nano + time.nanos,
    ;
    assert(hidden == 0x10_0000_0000_0000);
    assert(unit > 0x1_0000_0000_0000_0000 * 0x1_0000_0000_0000_0000);
    if a + b == 0 {
        assert(r == 0);
    }
}

/// A number of seconds becomes the nearest nanosecond, the even one of two that are equally near; one
/// that is not above zero becomes zero.
pub proof fn law_seconds_become_the_nearest_nanosecond(seconds: Binary64)
    requires
        seconds.positive() ==> seconds.magnitude() <= LARGEST_TIMESTAMP,
    ensures
        ({
            let time = MediaTime::of_seconds(seconds);
            let off = nanoseconds(time) * pow2(1074) - seconds.scaled() * 1_000_000_000;
            &&& time.wf()
            &&& !seconds.positive() ==> nanoseconds(time) == 0
            &&& seconds.positive() ==> 2 * size(off) <= pow2(1074)
            &&& seconds.positive() && 2 * size(off) == pow2(1074) ==> nanoseconds(time) % 2 == 0
        }),
{
    let unit = pow2(1074) as int;
    lemma_pow2_pos(1074);
    if seconds.positive() {
        let num = seconds.scaled() * 1_000_000_000;
        let total = half_even(num, unit);
        lemma_half_even_near(num, unit);
        lemma_time_fits(seconds, total);
        let low = num / unit;
        let rest = num % unit;
        vstd::arithmetic::div_mod::lemma_fundamental_div_mod(num, unit);
        assert(low * unit - num == -rest && (low + 1) * unit - num == unit - rest)
            by (nonlinear_arith)
            requires
                num == unit * low + rest,
        ;
        assert(low >= 0) by (nonlinear_arith)
            requires
                num >= 0,
                unit > 0,
                low == num / unit,
        ;
    }
}

} // verus!
