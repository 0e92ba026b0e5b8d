//! Media times, and how they follow from rational timestamps.

use crate::ieee::{
    lemma_scaled_magnitude_monotone, scaled_magnitude, Binary64, INFINITY_64, ONE_64,
};
use crate::numbers::{
    binary64_format, lemma_nearest_bounded, lemma_nearest_exists, nearest_pattern,
};
use crate::rounding::{lemma_pow2_127, lemma_scaled_magnitude_of_parts, power_of_two};
use vstd::arithmetic::power2::{
    lemma2_to64, lemma2_to64_rest, lemma_pow2_adds, lemma_pow2_pos, lemma_pow2_strictly_increases,
    pow2,
};
use vstd::prelude::*;

verus! {

pub const NANOS_PER_SECOND: u32 = 1_000_000_000;

/// A time since the start of the media, in whole seconds and nanoseconds.
#[derive(Clone, Copy, Debug, PartialEq, Eq, Structural)]
pub struct MediaTime {
    pub seconds: u64,
    pub nanos: u32,
}

/// The whole number nearest to `num / den`, the even one of two that are equally near.
pub open spec fn half_even(num: int, den: int) -> int {
    let low = num / den;
    let rest = num % den;
    if 2 * rest > den || (2 * rest == den && low % 2 == 1) {
        low + 1
    } else {
        low
    }
}

/// A rational timestamp in seconds: the quotient of its value and its scale as binary64 numbers.
pub open spec fn timeline_seconds(value: i64, scale: i32) -> Binary64 {
    Binary64::of_integer(value as int).quotient(Binary64::of_integer(scale as int))
}

/// The binary64 pattern of `9223372036854775808.0`, the largest size of an `i64`.
pub const LARGEST_TIMESTAMP: u64 = 0x43e0_0000_0000_0000;

impl MediaTime {
    pub open spec fn wf(self) -> bool {
        self.nanos < NANOS_PER_SECOND
    }

    /// The media time nearest to a number of seconds; zero for a negative number and for a NaN.
    pub open spec fn of_seconds(seconds: Binary64) -> MediaTime {
        let nanos = if seconds.nan() || seconds.scaled() <= 0 {
            0
        } else {
            half_even(seconds.scaled() * 1_000_000_000, pow2(1074) as int)
        };
        MediaTime { seconds: (nanos / 1_000_000_000) as u64, nanos: (nanos % 1_000_000_000) as u32 }
    }

    /// The number of seconds, rounded as `Duration::as_secs_f64` rounds it.
    pub open spec fn as_seconds(self) -> Binary64 {
        Binary64::of_integer(self.seconds as int).sum(
            Binary64::of_integer(self.nanos as int).quotient(Binary64::of_integer(1_000_000_000)),
        )
    }

    /// The media time nearest to a number of seconds; zero for a negative number and for a NaN.
    pub fn from_seconds(seconds: Binary64) -> (time: MediaTime)
        requires
            seconds.positive() ==> seconds.magnitude() <= LARGEST_TIMESTAMP,
        ensures
            time == Self::of_seconds(seconds),
            time.wf(),
    {
        if !seconds.is_positive() {
            return MediaTime { seconds: 0, nanos: 0 };
        }
        let (digits, weight) = binary64_format().decode(seconds.bits);
        let scaled_digits: u128 = (digits as u128) * 1_000_000_000;
        let ghost num = seconds.scaled() * 1_000_000_000;
        let ghost unit = pow2(1074) as int;
        proof {
            lemma_pow2_pos(1074);
            lemma_pow2_pos(weight as nat);
            assert(num == scaled_digits * pow2(weight as nat)) by (nonlinear_arith)
                requires
                    num == (digits * pow2(weight as nat)) * 1_000_000_000,
                    scaled_digits == digits * 1_000_000_000,
            ;
            lemma_known_patterns();
            if seconds.magnitude() < LARGEST_TIMESTAMP {
                lemma_scaled_magnitude_monotone(
                    seconds.magnitude(),
                    LARGEST_TIMESTAMP as int,
                    52,
                );
            }
            lemma_half_even_bounded(num, unit, 0x8000_0000_0000_0000int * 1_000_000_000);
        }
        let total: u128 = if weight >= 1074 {
            proof {
                lemma_timestamp_weight(digits as int, weight as nat, seconds.scaled());
                lemma2_to64();
                let f = pow2((weight - 1074) as nat) as int;
                if weight < 1085 {
                    lemma_pow2_strictly_increases((weight - 1074) as nat, 11);
                }
                lemma_pow2_pos((weight - 1074) as nat);
                assert(scaled_digits * f <= (0x20_0000_0000_0000 * 1_000_000_000) * 0x800)
                    by (nonlinear_arith)
                    requires
                        0 <= scaled_digits <= 0x20_0000_0000_0000 * 1_000_000_000,
                        0 < f <= 0x800,
                ;
                lemma_half_even_whole(scaled_digits as int, weight as nat);
            }
            scaled_digits * power_of_two(weight - 1074)
        } else if 1074 - weight >= 128 {
            proof {
                lemma_half_even_small(scaled_digits as int, weight as nat);
            }
            0
        } else {
            let gap: u32 = 1074 - weight;
            let factor: u128 = power_of_two(gap);
            proof {
                lemma_pow2_127();
                if gap < 127 {
                    lemma_pow2_strictly_increases(gap as nat, 127);
                }
                lemma_pow2_pos(gap as nat);
                lemma_half_even_scaled(scaled_digits as int, weight as nat, gap as nat);
            }
            let low: u128 = scaled_digits / factor;
            let rest: u128 = scaled_digits % factor;
            if 2 * rest > factor || (2 * rest == factor && low % 2 == 1) {
                low + 1
            } else {
                low
            }
        };
        MediaTime {
            seconds: (total / 1_000_000_000) as u64,
            nanos: (total % 1_000_000_000) as u32,
        }
    }

    /// The number of seconds.
    pub fn to_seconds(self) -> (seconds: Binary64)
        ensures
            seconds == self.as_seconds(),
    {
        let whole = Binary64::from_unsigned(self.seconds);
        let part = Binary64::from_unsigned(self.nanos as u64).over(
            Binary64::from_unsigned(1_000_000_000),
        );
        whole.plus(part)
    }
}

/// A timestamp in seconds.
pub fn seconds_of(value: i64, scale: i32) -> (seconds: Binary64)
    ensures
        seconds == timeline_seconds(value, scale),
{
    Binary64::from_signed(value).over(Binary64::from_signed(scale as i64))
}

/// An integer of at most 64 bits with a sign becomes a finite number of the same sign, at least one
/// in size where the integer is not zero, and not beyond the largest timestamp.
proof fn lemma_integer_bounds(value: int)
    requires
        -0x8000_0000_0000_0000 <= value <= 0x8000_0000_0000_0000,
    ensures
        ({
            let number = Binary64::of_integer(value);
            &&& number.magnitude() <= LARGEST_TIMESTAMP
            &&& number.negative() == (value < 0)
            &&& value == 0 ==> number.magnitude() == 0
            &&& value != 0 ==> number.magnitude() >= ONE_64
        }),
{
    let size = if value < 0 {
        -value
    } else {
        value
    };
    let unit = pow2(1074) as int;
    lemma_pow2_pos(1074);
    assert(size * unit >= 0) by (nonlinear_arith)
        requires
            size >= 0,
            unit > 0,
    ;
    lemma_nearest_exists(size * unit, 1, 52, INFINITY_64 as int);
    let m = nearest_pattern(size * unit, 1, 52, INFINITY_64 as int);
    lemma_known_patterns();
    lemma_nearest_bounded(size * unit, 1, m, LARGEST_TIMESTAMP as int, 52, INFINITY_64 as int);
    lemma_nearest_bounded(size * unit, 1, m, ONE_64 as int, 52, INFINITY_64 as int);
    lemma_nearest_bounded(size * unit, 1, m, 0, 52, INFINITY_64 as int);
    assert(size * unit <= 0x8000_0000_0000_0000 * unit) by (nonlinear_arith)
        requires
            size <= 0x8000_0000_0000_0000,
            unit > 0,
    ;
    if size == 0 {
        assert(size * unit == 0) by (nonlinear_arith)
            requires
                size == 0,
        ;
    } else {
        assert(size * unit >= unit) by (nonlinear_arith)
            requires
                size >= 1,
                unit > 0,
        ;
    }
}

/// The values of the patterns of zero, of one and of the largest timestamp.
pub proof fn lemma_known_patterns()
    ensures
        scaled_magnitude(0, 52) == 0,
        scaled_magnitude(ONE_64 as int, 52) == pow2(1074),
        scaled_magnitude(LARGEST_TIMESTAMP as int, 52) == 0x8000_0000_0000_0000 * pow2(1074),
{
    lemma2_to64();
    lemma2_to64_rest();
    lemma_scaled_magnitude_of_parts(0, 0, 52);
    lemma_scaled_magnitude_of_parts(0x10_0000_0000_0000, 1022, 52);
    lemma_scaled_magnitude_of_parts(0x10_0000_0000_0000, 1085, 52);
    lemma_pow2_adds(52, 1022);
    lemma_pow2_adds(52, 1085);
    lemma_pow2_adds(63, 1074);
}

/// A timestamp whose scale is not zero is a finite number of seconds, not beyond the largest, and
/// negative only where the value and the scale have different signs.
pub proof fn lemma_timeline_bounds(value: i64, scale: i32)
    requires
        scale != 0,
    ensures
        timeline_seconds(value, scale).magnitude() <= LARGEST_TIMESTAMP,
        timeline_seconds(value, scale).negative() == ((value < 0) != (scale < 0)),
        !timeline_seconds(value, scale).nan(),
{
    let a = Binary64::of_integer(value as int);
    let b = Binary64::of_integer(scale as int);
    lemma_integer_bounds(value as int);
    lemma_integer_bounds(scale as int);
    lemma_known_patterns();
    let va = scaled_magnitude(a.magnitude(), 52);
    let vb = scaled_magnitude(b.magnitude(), 52);
    let unit = pow2(1074) as int;
    let top = scaled_magnitude(LARGEST_TIMESTAMP as int, 52);
    lemma_pow2_pos(1074);
    if a.magnitude() < LARGEST_TIMESTAMP {
        lemma_scaled_magnitude_monotone(a.magnitude(), LARGEST_TIMESTAMP as int, 52);
    }
    if a.magnitude() > 0 {
        lemma_scaled_magnitude_monotone(0, a.magnitude(), 52);
    }
    if b.magnitude() > ONE_64 {
        lemma_scaled_magnitude_monotone(ONE_64 as int, b.magnitude(), 52);
    }
    assert(0 <= va <= top && vb >= unit);
    assert(0 <= va * unit <= top * vb) by (nonlinear_arith)
        requires
            0 <= va <= top,
            0 < unit <= vb,
    ;
    lemma_nearest_exists(va * unit, vb, 52, INFINITY_64 as int);
    lemma_nearest_bounded(
        va * unit,
        vb,
        nearest_pattern(va * unit, vb, 52, INFINITY_64 as int),
        LARGEST_TIMESTAMP as int,
        52,
        INFINITY_64 as int,
    );
}

/// A timestamp without a scale is not above zero unless its value is.
pub proof fn lemma_timeline_without_scale(value: i64)
    requires
        value <= 0,
    ensures
        !timeline_seconds(value, 0).positive(),
{
    lemma_integer_bounds(value as int);
    lemma_integer_bounds(0);
    if value < 0 {
        lemma_known_patterns();
        lemma_scaled_magnitude_monotone(0, INFINITY_64 as int, 52);
    }
}

/// Every media time is a finite number of seconds.
pub proof fn lemma_media_time_is_finite(time: MediaTime)
    ensures
        time.as_seconds().finite(),
{
    let infinity = INFINITY_64 as int;
    let unit = pow2(1074) as int;
    let second_bound: int = 0x43f0_0000_0000_0000;
    let sum_bound: int = 0x4400_0000_0000_0000;
    lemma_known_patterns();
    lemma2_to64();
    lemma2_to64_rest();
    lemma_pow2_pos(1074);
    lemma_scaled_magnitude_of_parts(0x10_0000_0000_0000, 1086, 52);
    lemma_scaled_magnitude_of_parts(0x10_0000_0000_0000, 1087, 52);
    lemma_pow2_adds(52, 1086);
    lemma_pow2_adds(52, 1087);
    lemma_pow2_adds(64, 1074);
    lemma_pow2_adds(1, 1138);
    assert(0 <= time.seconds * unit <= 0x1_0000_0000_0000_0000 * unit) by (nonlinear_arith)
        requires
            0 <= time.seconds <= 0x1_0000_0000_0000_0000int,
            unit > 0,
    ;
    lemma_nearest_exists(time.seconds * unit, 1, 52, infinity);
    let whole = nearest_pattern(time.seconds * unit, 1, 52, infinity);
    lemma_nearest_bounded(time.seconds * unit, 1, whole, second_bound, 52, infinity);
    if whole < second_bound {
        lemma_scaled_magnitude_monotone(whole, second_bound, 52);
    }
    if whole > 0 {
        lemma_scaled_magnitude_monotone(0, whole, 52);
    }
    let part = timeline_seconds(time.nanos as i64, 1_000_000_000);
    lemma_timeline_bounds(time.nanos as i64, 1_000_000_000);
    if part.magnitude() < LARGEST_TIMESTAMP {
        lemma_scaled_magnitude_monotone(part.magnitude(), LARGEST_TIMESTAMP as int, 52);
    }
    if part.magnitude() > 0 {
        lemma_scaled_magnitude_monotone(0, part.magnitude(), 52);
    }
    let exact = scaled_magnitude(whole, 52) + part.scaled();
    assert(Binary64::of_integer(time.seconds as int).scaled() == scaled_magnitude(whole, 52));
    assert(0 <= exact <= scaled_magnitude(sum_bound, 52));
    lemma_nearest_exists(exact, 1, 52, infinity);
    lemma_nearest_bounded(
        exact,
        1,
        nearest_pattern(exact, 1, 52, infinity),
        sum_bound,
        52,
        infinity,
    );
}

proof fn lemma_half_even_bounded(num: int, den: int, bound: int)
    requires
        0 <= num,
        den > 0,
    ensures
        0 <= half_even(num, den),
        num <= bound * den ==> half_even(num, den) <= bound,
{
    let low = num / den;
    let rest = num % den;
    vstd::arithmetic::div_mod::lemma_fundamental_div_mod(num, den);
    assert(low >= 0 && 0 <= rest < den) by (nonlinear_arith)
        requires
            num >= 0,
            den > 0,
            low == num / den,
            rest == num % den,
    ;
    if num <= bound * den {
        assert(low <= bound) by (nonlinear_arith)
            requires
                den * low + rest <= bound * den,
                rest >= 0,
                den > 0,
        ;
        if low == bound {
            assert(rest == 0) by (nonlinear_arith)
                requires
                    den * low + rest <= bound * den,
                    low == bound,
                    rest >= 0,
            ;
        }
    }
}

/// A number of seconds up to the largest timestamp has digits of a bounded weight.
proof fn lemma_timestamp_weight(digits: int, weight: nat, scaled: int)
    requires
        weight >= 1074,
        digits >= pow2(52),
        scaled == digits * pow2(weight),
        scaled <= 0x8000_0000_0000_0000 * pow2(1074),
    ensures
        weight <= 1085,
{
    if weight > 1085 {
        let f = pow2((weight - 1074) as nat) as int;
        let unit = pow2(1074) as int;
        lemma_pow2_pos(1074);
        lemma_pow2_adds(1074, (weight - 1074) as nat);
        lemma2_to64();
        lemma2_to64_rest();
        if weight > 1086 {
            lemma_pow2_strictly_increases(12, (weight - 1074) as nat);
        }
        assert(digits * (unit * f) >= (0x10_0000_0000_0000 * 0x1000) * unit) by (nonlinear_arith)
            requires
                digits >= 0x10_0000_0000_0000,
                f >= 0x1000,
                unit > 0,
        ;
        assert(scaled == digits * (unit * f));
        assert((0x10_0000_0000_0000 * 0x1000) * unit > 0x8000_0000_0000_0000 * unit)
            by (nonlinear_arith)
            requires
                unit > 0,
        ;
    }
}

proof fn lemma_half_even_whole(digits: int, weight: nat)
    requires
        weight >= 1074,
    ensures
        half_even(digits * pow2(weight), pow2(1074) as int) == digits * pow2(
            (weight - 1074) as nat,
        ),
{
    let unit = pow2(1074) as int;
    let f = pow2((weight - 1074) as nat) as int;
    lemma_pow2_pos(1074);
    lemma_pow2_adds(1074, (weight - 1074) as nat);
    assert(digits * (unit * f) == (digits * f) * unit) by (nonlinear_arith);
    vstd::arithmetic::div_mod::lemma_fundamental_div_mod_converse(
        digits * pow2(weight),
        unit,
        digits * f,
        0,
    );
}

proof fn lemma_half_even_small(digits: int, weight: nat)
    requires
        0 <= digits < 0x20_0000_0000_0000 * 1_000_000_000,
        weight + 128 <= 1074,
    ensures
        half_even(digits * pow2(weight), pow2(1074) as int) == 0,
{
    let unit = pow2(1074) as int;
    let g = pow2(weight) as int;
    lemma_pow2_pos(weight);
    lemma_pow2_127();
    lemma_pow2_adds(weight, 127);
    lemma_pow2_strictly_increases(weight + 127, 1074);
    assert(0 <= 2 * (digits * g) < unit) by (nonlinear_arith)
        requires
            0 <= digits < 0x20_0000_0000_0000 * 1_000_000_000,
            g > 0,
            g * 0x8000_0000_0000_0000_0000_0000_0000_0000 < unit,
    ;
    vstd::arithmetic::div_mod::lemma_fundamental_div_mod_converse(
        digits * g,
        unit,
        0,
        digits * g,
    );
}

proof fn lemma_half_even_scaled(digits: int, weight: nat, gap: nat)
    requires
        0 <= digits,
        weight + gap == 1074,
    ensures
        half_even(digits * pow2(weight), pow2(1074) as int) == half_even(digits, pow2(gap) as int),
{
    let g = pow2(weight) as int;
    let f = pow2(gap) as int;
    lemma_pow2_pos(weight);
    lemma_pow2_pos(gap);
    lemma_pow2_adds(weight, gap);
    let low = digits / f;
    let rest = digits % f;
    vstd::arithmetic::div_mod::lemma_fundamental_div_mod(digits, f);
    assert(0 <= rest * g < g * f) by (nonlinear_arith)
        requires
            0 <= rest < f,
            g > 0,
    ;
    assert(digits * g == low * (g * f) + rest * g) by (nonlinear_arith)
        requires
            digits == f * low + rest,
    ;
    vstd::arithmetic::div_mod::lemma_fundamental_div_mod_converse(
        digits * g,
        g * f,
        low,
        rest * g,
    );
    assert(2 * rest > f <==> 2 * (rest * g) > g * f) by (nonlinear_arith)
        requires
            g > 0,
    ;
    assert(2 * rest == f <==> 2 * (rest * g) == g * f) by (nonlinear_arith)
        requires
            g > 0,
    ;
}

} // verus!
