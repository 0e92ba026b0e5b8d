//! What holds of the geometry of outputs that are turned by quarters, or not at all.

use crate::geometry::{OutputInfo, SMALLEST_ASPECT};
use crate::ieee::{
    lemma_scaled_magnitude_monotone, scaled_magnitude, Binary32, Binary64, INFINITY_32,
    INFINITY_64, ONE_32, ONE_64, SIGN_32,
};
use crate::media_time::lemma_known_patterns;
use crate::numbers::{
    law_representable_values_are_exact, lemma_nearest_bounded, lemma_nearest_exists, nearest_pattern,
};
use crate::rounding::lemma_scaled_magnitude_of_parts;
use vstd::arithmetic::power2::{
    lemma2_to64, lemma2_to64_rest, lemma_pow2_adds, lemma_pow2_pos, lemma_pow2_strictly_increases,
    pow2,
};
use vstd::prelude::*;

verus! {

pub open spec fn zero64() -> Binary64 {
    Binary64 { bits: 0 }
}

pub open spec fn one64() -> Binary64 {
    Binary64 { bits: ONE_64 }
}

/// Facts about a positive finite number and the numbers zero and one.
proof fn lemma_units(x: Binary64)
    requires
        x.positive_finite(),
    ensures
        !x.negative(),
        x.magnitude() > 0,
        one64().product(x) == x,
        zero64().product(x) == zero64(),
        x.sum(zero64()) == x,
        zero64().sum(x) == x,
        x.quotient(x) == one64(),
        zero64().quotient(x) == zero64(),
        one64().opposite().product(x) == x.opposite(),
        x.opposite().quotient(x) == one64().opposite(),
        zero64().opposite().product(x) == zero64().opposite(),
        zero64().opposite().quotient(x) == zero64().opposite(),
{
    lemma_known_patterns();
    lemma_pow2_pos(1074);
    let unit = pow2(1074) as int;
    let m = x.magnitude();
    let v = scaled_magnitude(m, 52);
    let inf = INFINITY_64 as int;
    if m > 0 {
        lemma_scaled_magnitude_monotone(0, m, 52);
    }
    assert(v > 0 && m == x.bits);
    law_representable_values_are_exact(m, unit, 52, inf);
    law_representable_values_are_exact(m, 1, 52, inf);
    law_representable_values_are_exact(0, unit, 52, inf);
    law_representable_values_are_exact(0, v, 52, inf);
    law_representable_values_are_exact(ONE_64 as int, v, 52, inf);
    assert(unit * v == v * unit && 0 * v == 0 && 0 * unit == 0 && v * 1 == v) by (nonlinear_arith);
}

/// Zero, and one of either sign, as binary32 numbers.
proof fn lemma_narrowed_units()
    ensures
        one64().narrowed() == (Binary32 { bits: ONE_32 }),
        one64().opposite().narrowed() == (Binary32 { bits: (ONE_32 + SIGN_32) as u32 }),
        zero64().narrowed() == (Binary32 { bits: 0 }),
        zero64().opposite().narrowed() == (Binary32 { bits: SIGN_32 }),
{
    lemma_known_patterns();
    lemma2_to64();
    lemma_pow2_pos(925);
    lemma_pow2_adds(149, 925);
    lemma_scaled_magnitude_of_parts(0, 0, 23);
    lemma_scaled_magnitude_of_parts(0x80_0000, 126, 23);
    lemma_pow2_adds(23, 126);
    law_representable_values_are_exact(0, pow2(925) as int, 23, INFINITY_32 as int);
    law_representable_values_are_exact(
        ONE_32 as int,
        pow2(925) as int,
        23,
        INFINITY_32 as int,
    );
    assert(0 * pow2(925) == 0) by (nonlinear_arith);
}

/// A picture that is not turned is displayed in its own size, and the matrix is the identity.
pub proof fn law_unturned_picture_keeps_its_size(info: OutputInfo)
    requires
        info.square_width().positive_finite(),
        info.square_height().positive_finite(),
    ensures
        info.display_width(zero64(), one64()) == info.square_width(),
        info.display_height(zero64(), one64()) == info.square_height(),
        info.inverse_matrix(zero64(), one64()) == seq![
            Binary32 { bits: ONE_32 },
            Binary32 { bits: 0 },
            Binary32 { bits: SIGN_32 },
            Binary32 { bits: ONE_32 },
        ],
{
    lemma_units(info.square_width());
    lemma_units(info.square_height());
    lemma_narrowed_units();
    assert(zero64().unsigned() == zero64() && one64().unsigned() == one64());
}

/// A quarter turn swaps the width and the height of the picture, and the matrix turns back.
pub proof fn law_quarter_turn_swaps_width_and_height(info: OutputInfo)
    requires
        info.square_width().positive_finite(),
        info.square_height().positive_finite(),
    ensures
        info.display_width(one64(), zero64()) == info.square_height(),
        info.display_height(one64(), zero64()) == info.square_width(),
        info.inverse_matrix(one64(), zero64()) == seq![
            Binary32 { bits: 0 },
            Binary32 { bits: ONE_32 },
            Binary32 { bits: (ONE_32 + SIGN_32) as u32 },
            Binary32 { bits: 0 },
        ],
{
    lemma_units(info.square_width());
    lemma_units(info.square_height());
    lemma_narrowed_units();
    assert(zero64().unsigned() == zero64() && one64().unsigned() == one64());
}

/// The largest side of a picture, in pixels, that the laws on turned pictures speak of.
pub const LARGEST_SIDE: u32 = 0x4_0000;

/// Whether a number is a whole number of pixels.
pub open spec fn whole(number: Binary64, pixels: int) -> bool {
    number.finite() && number.scaled() == pixels * pow2(1074)
}

/// Whether a number is a whole number, give or take `2^-21`.
pub open spec fn near(number: Binary64, value: int) -> bool {
    number.finite() && value * pow2(1074) - pow2(1053) <= number.scaled() <= value * pow2(1074)
        + pow2(1053)
}

/// The binary64 pattern of `2^-21`: how far a sine or cosine may be off the number it stands for.
pub const TURN_TOLERANCE: u64 = 0x3ea0_0000_0000_0000;

/// A number of size one, or of a size up to the tolerance, is near the whole number it stands for.
pub proof fn law_sizes_of_quarter_turns_are_near(number: Binary64)
    ensures
        number.magnitude() <= TURN_TOLERANCE ==> near(number, 0),
        number.magnitude() == ONE_64 ==> near(
            number,
            if number.negative() {
                -1
            } else {
                1
            },
        ),
{
    let m = number.magnitude();
    lemma_known_patterns();
    lemma2_to64_rest();
    lemma_pow2_pos(1053);
    lemma_scaled_magnitude_of_parts(0x10_0000_0000_0000, 1001, 52);
    lemma_pow2_adds(52, 1001);
    if m > 0 {
        lemma_scaled_magnitude_monotone(0, m, 52);
    }
    if m < TURN_TOLERANCE {
        lemma_scaled_magnitude_monotone(m, TURN_TOLERANCE as int, 52);
    }
    assert(1 * pow2(1074) == pow2(1074) && -1 * pow2(1074) == -pow2(1074) && 0 * pow2(1074) == 0)
        by (nonlinear_arith);
}

/// The sine of a number of quarter turns.
pub open spec fn quarter_sine(quarters: int) -> int {
    if quarters % 4 == 1 {
        1
    } else if quarters % 4 == 3 {
        -1
    } else {
        0
    }
}

/// The cosine of a number of quarter turns.
pub open spec fn quarter_cosine(quarters: int) -> int {
    quarter_sine(quarters + 1)
}

/// Whether a sine and a cosine are those of a number of quarter turns, give or take `2^-21` each.
pub open spec fn quarters_turned(quarters: int, sin: Binary64, cos: Binary64) -> bool {
    near(sin, quarter_sine(quarters)) && near(cos, quarter_cosine(quarters))
}

impl OutputInfo {
    /// Whether the cropped picture with square pixels has whole sides: the crop is at least one pixel
    /// wide, and its aspect is not below the smallest.
    pub open spec fn whole_picture(self, width: int, height: int) -> bool {
        &&& 1 <= width <= LARGEST_SIDE
        &&& 1 <= height <= LARGEST_SIDE
        &&& self.crop[2].finite()
        &&& self.crop[2].scaled() >= pow2(1074)
        &&& self.aspect.finite()
        &&& self.aspect.scaled() >= (Binary64 { bits: SMALLEST_ASPECT }).scaled()
        &&& whole(self.crop[2].product(self.aspect), width)
        &&& whole(self.crop[3], height)
    }
}

/// The place of the highest digit of a number.
proof fn lemma_length(n: int, limit: nat) -> (length: nat)
    requires
        1 <= n < pow2(limit),
    ensures
        1 <= length <= limit,
        pow2((length - 1) as nat) <= n < pow2(length),
    decreases limit,
{
    lemma2_to64();
    if limit == 0 {
        0
    } else if pow2((limit - 1) as nat) <= n {
        limit
    } else {
        lemma_length(n, (limit - 1) as nat)
    }
}

/// A number of at most 53 digits, of a weight near that of one, is a binary64 number.
pub proof fn lemma_representable(n: int, weight: nat) -> (magnitude: int)
    requires
        1 <= n < pow2(53),
        53 <= weight <= 1074,
    ensures
        0 < magnitude < INFINITY_64,
        scaled_magnitude(magnitude, 52) == n * pow2(weight),
{
    let length = lemma_length(n, 53);
    let up = (53 - length) as nat;
    let q = (weight - up) as nat;
    let f = pow2(up) as int;
    let t = n * f;
    lemma2_to64_rest();
    lemma_pow2_pos(up);
    lemma_pow2_adds((length - 1) as nat, up);
    lemma_pow2_adds(length, up);
    lemma_pow2_adds(up, q);
    let low = pow2((length - 1) as nat) as int;
    let high = pow2(length) as int;
    assert(low * f <= t < high * f) by (nonlinear_arith)
        requires
            t == n * f,
            low <= n < high,
            f > 0,
    ;
    lemma_scaled_magnitude_of_parts(t, q, 52);
    assert(t * pow2(q) == n * (f * pow2(q))) by (nonlinear_arith)
        requires
            t == n * f,
    ;
    q * pow2(52) + t
}

/// A product that is a whole number of pixels is not rounded.
pub proof fn law_whole_products_are_exact(a: Binary64, b: Binary64, pixels: int)
    requires
        a.positive_finite(),
        b.positive_finite(),
        1 <= pixels <= LARGEST_SIDE,
        a.scaled() * b.scaled() == (pixels * pow2(1074)) * pow2(1074),
    ensures
        whole(a.product(b), pixels),
{
    let unit = pow2(1074) as int;
    lemma_pow2_pos(1074);
    lemma2_to64_rest();
    lemma_not_negative(a);
    lemma_not_negative(b);
    let m = lemma_representable(pixels, 1074);
    law_representable_values_are_exact(m, unit, 52, INFINITY_64 as int);
    assert(a.product(b).magnitude() == m && !a.product(b).negative());
}

/// A number that is not below a floor above zero stays as it is.
proof fn lemma_not_raised(number: Binary64, floor: Binary64)
    requires
        number.finite(),
        floor.positive_finite(),
        number.scaled() >= floor.scaled(),
    ensures
        number.raised(floor) == number,
{
    lemma_not_negative(number);
    lemma_not_negative(floor);
    if number.bits < floor.bits {
        lemma_scaled_magnitude_monotone(number.magnitude(), floor.magnitude(), 52);
    }
    if floor.bits < number.bits {
        lemma_scaled_magnitude_monotone(floor.magnitude(), number.magnitude(), 52);
    }
}

/// A whole picture has the width of its crop, times the aspect, and the height of its crop.
pub proof fn law_whole_picture_has_its_size(info: OutputInfo, width: int, height: int)
    requires
        info.whole_picture(width, height),
    ensures
        info.square_width() == info.crop[2].product(info.aspect),
        info.square_height() == info.crop[3],
        info.square_width().whole_pixels() == width,
        info.square_height().whole_pixels() == height,
{
    let unit = pow2(1074) as int;
    lemma_known_patterns();
    lemma_pow2_pos(1074);
    lemma_scaled_magnitude_monotone(0, SMALLEST_ASPECT as int, 52);
    assert(height * unit >= unit) by (nonlinear_arith)
        requires
            height >= 1,
            unit > 0,
    ;
    lemma_not_raised(info.crop[2], one64());
    lemma_not_raised(info.crop[3], one64());
    lemma_not_raised(info.aspect, Binary64 { bits: SMALLEST_ASPECT });
    lemma_pixels(info.square_width(), width);
    lemma_pixels(info.square_height(), height);
}

/// A number above zero has no sign.
pub proof fn lemma_not_negative(number: Binary64)
    requires
        number.scaled() > 0,
    ensures
        !number.negative(),
        number.magnitude() > 0,
{
    lemma_known_patterns();
    if number.magnitude() > 0 {
        lemma_scaled_magnitude_monotone(0, number.magnitude(), 52);
    }
}

/// A number no further than a quarter from a whole number is displayed as that many pixels.
proof fn lemma_pixels(number: Binary64, pixels: int)
    requires
        1 <= pixels <= LARGEST_SIDE,
        number.finite(),
        4 * (pixels * pow2(1074)) - pow2(1074) <= 4 * number.scaled() <= 4 * (pixels * pow2(1074))
            + pow2(1074),
    ensures
        number.whole_pixels() == pixels,
        number.positive_finite(),
{
    let unit = pow2(1074) as int;
    let scaled = number.scaled();
    lemma_pow2_pos(1074);
    assert(scaled > 0) by (nonlinear_arith)
        requires
            4 * (pixels * unit) - unit <= 4 * scaled,
            pixels >= 1,
            unit > 0,
    ;
    let rest = 2 * scaled + unit - pixels * (2 * unit);
    assert(0 <= rest < 2 * unit) by (nonlinear_arith)
        requires
            rest == 2 * scaled + unit - pixels * (2 * unit),
            4 * (pixels * unit) - unit <= 4 * scaled <= 4 * (pixels * unit) + unit,
            unit > 0,
    ;
    vstd::arithmetic::div_mod::lemma_fundamental_div_mod_converse(
        2 * scaled + unit,
        2 * unit,
        pixels,
        rest,
    );
}

/// The value of a number without its sign, where it is near zero or near one in size.
proof fn lemma_unsigned_near(number: Binary64, value: int)
    requires
        near(number, value),
        -1 <= value <= 1,
    ensures
        ({
            let size = number.unsigned();
            let whole = if value == 0 {
                0int
            } else {
                1int
            };
            &&& size.finite()
            &&& !size.negative()
            &&& near(size, whole)
            &&& size.scaled() >= 0
        }),
{
    lemma_known_patterns();
    lemma_pow2_pos(1053);
    lemma_pow2_strictly_increases(1053, 1074);
    let size = number.unsigned();
    assert(size.magnitude() == number.magnitude() && !size.negative());
    if number.magnitude() > 0 {
        lemma_scaled_magnitude_monotone(0, number.magnitude(), 52);
    }
    assert(1 * pow2(1074) == pow2(1074) && -1 * pow2(1074) == -pow2(1074) && 0 * pow2(1074) == 0)
        by (nonlinear_arith);
}

/// A side times a factor that is near zero, or near one, is off by no more than an eighth of a pixel.
proof fn lemma_scaled_side(factor: Binary64, value: int, side: Binary64, pixels: int)
    requires
        0 <= value <= 1,
        near(factor, value),
        !factor.negative(),
        whole(side, pixels),
        1 <= pixels <= LARGEST_SIDE,
    ensures
        ({
            let scaled = factor.product(side);
            &&& scaled.finite()
            &&& !scaled.negative()
            &&& 8 * (value * pixels * pow2(1074)) - pow2(1074) <= 8 * scaled.scaled() <= 8 * (value
                * pixels * pow2(1074)) + pow2(1074)
        }),
{
    let unit = pow2(1074) as int;
    let tolerance = pow2(1053) as int;
    let eighth = pow2(1071) as int;
    let infinity = INFINITY_64 as int;
    lemma_known_patterns();
    lemma2_to64();
    lemma2_to64_rest();
    lemma_pow2_pos(1074);
    lemma_pow2_pos(1053);
    lemma_pow2_pos(1071);
    lemma_pow2_adds(18, 1053);
    lemma_pow2_adds(3, 1071);
    let m = factor.magnitude();
    let v = scaled_magnitude(m, 52);
    if m > 0 {
        lemma_scaled_magnitude_monotone(0, m, 52);
    }
    assert(pixels * unit > 0) by (nonlinear_arith)
        requires
            pixels >= 1,
            unit > 0,
    ;
    lemma_not_negative(side);
    let target = value * pixels * unit;
    let exact = v * (pixels * unit);
    assert((target - eighth) * unit <= exact <= (target + eighth) * unit) by (nonlinear_arith)
        requires
            exact == v * (pixels * unit),
            target == value * pixels * unit,
            value * unit - tolerance <= v <= value * unit + tolerance,
            1 <= pixels <= 0x4_0000,
            eighth == 0x4_0000 * tolerance,
            tolerance > 0,
            unit > 0,
    ;
    assert(exact >= 0) by (nonlinear_arith)
        requires
            exact == v * (pixels * unit),
            v >= 0,
            pixels * unit > 0,
    ;
    assert(unit == 8 * eighth);
    let place = 8 * (value * pixels);
    assert(target == place * eighth) by (nonlinear_arith)
        requires
            target == value * pixels * unit,
            place == 8 * (value * pixels),
            unit == 8 * eighth,
    ;
    assert(0 <= value * pixels <= 0x4_0000) by (nonlinear_arith)
        requires
            0 <= value <= 1,
            1 <= pixels <= 0x4_0000,
    ;
    assert((place + 1) * eighth == target + eighth && (place - 1) * eighth == target - eighth)
        by (nonlinear_arith)
        requires
            target == place * eighth,
    ;
    let high = lemma_representable(place + 1, 1071);
    lemma_nearest_exists(exact, unit, 52, infinity);
    let r = nearest_pattern(exact, unit, 52, infinity);
    lemma_nearest_bounded(exact, unit, r, high, 52, infinity);
    if r < high {
        lemma_scaled_magnitude_monotone(r, high, 52);
    }
    if r > 0 {
        lemma_scaled_magnitude_monotone(0, r, 52);
    }
    if place > 0 {
        let low = lemma_representable(place - 1, 1071);
        lemma_nearest_bounded(exact, unit, r, low, 52, infinity);
        if low < r {
            lemma_scaled_magnitude_monotone(low, r, 52);
        }
    } else {
        assert(value * pixels * unit == 0) by (nonlinear_arith)
            requires
                value * pixels == 0,
        ;
    }
    let scaled = factor.product(side);
    assert(scaled.magnitude() == r && !scaled.negative());
}

/// Two such products, of which one stands for a side and the other for nothing, add up to the side.
proof fn lemma_sum_of_scaled_sides(side: Binary64, remnant: Binary64, pixels: int)
    requires
        1 <= pixels <= LARGEST_SIDE,
        side.finite(),
        !side.negative(),
        8 * (pixels * pow2(1074)) - pow2(1074) <= 8 * side.scaled() <= 8 * (pixels * pow2(1074))
            + pow2(1074),
        remnant.finite(),
        !remnant.negative(),
        8 * remnant.scaled() <= pow2(1074),
    ensures
        side.sum(remnant).whole_pixels() == pixels,
        remnant.sum(side).whole_pixels() == pixels,
{
    let unit = pow2(1074) as int;
    let eighth = pow2(1071) as int;
    let infinity = INFINITY_64 as int;
    lemma_known_patterns();
    lemma2_to64();
    lemma2_to64_rest();
    lemma_pow2_pos(1074);
    lemma_pow2_adds(3, 1071);
    if remnant.magnitude() > 0 {
        lemma_scaled_magnitude_monotone(0, remnant.magnitude(), 52);
    }
    let low = lemma_representable(8 * pixels - 1, 1071);
    let high = lemma_representable(8 * pixels + 2, 1071);
    let exact = side.scaled() + remnant.scaled();
    assert(unit <= pixels * unit) by (nonlinear_arith)
        requires
            pixels >= 1,
            unit > 0,
    ;
    assert(8 * ((8 * pixels - 1) * eighth) == 8 * (pixels * unit) - unit && 8 * ((8 * pixels + 2)
        * eighth) == 8 * (pixels * unit) + 2 * unit) by (nonlinear_arith)
        requires
            unit == 8 * eighth,
    ;
    lemma_nearest_exists(exact, 1, 52, infinity);
    let r = nearest_pattern(exact, 1, 52, infinity);
    lemma_nearest_bounded(exact, 1, r, low, 52, infinity);
    lemma_nearest_bounded(exact, 1, r, high, 52, infinity);
    if low < r {
        lemma_scaled_magnitude_monotone(low, r, 52);
    }
    if r < high {
        lemma_scaled_magnitude_monotone(r, high, 52);
    }
    let sum = side.sum(remnant);
    assert(sum == remnant.sum(side));
    assert(sum.magnitude() == r && !sum.negative());
    lemma_pixels(sum, pixels);
}

/// A picture of whole sides that is turned by quarters is displayed in its own size after an even
/// number of them, and with its sides exchanged after an odd number, for any sine and cosine that are
/// off those of the turn by no more than `2^-21`.
pub proof fn law_turned_picture_keeps_or_swaps_its_sides(
    info: OutputInfo,
    quarters: int,
    sin: Binary64,
    cos: Binary64,
    width: int,
    height: int,
)
    requires
        1 <= width <= LARGEST_SIDE,
        1 <= height <= LARGEST_SIDE,
        whole(info.square_width(), width),
        whole(info.square_height(), height),
        quarters_turned(quarters, sin, cos),
    ensures
        info.square_width().whole_pixels() == width,
        info.square_height().whole_pixels() == height,
        quarters % 2 == 0 ==> info.display_width(sin, cos).whole_pixels() == width
            && info.display_height(sin, cos).whole_pixels() == height,
        quarters % 2 == 1 ==> info.display_width(sin, cos).whole_pixels() == height
            && info.display_height(sin, cos).whole_pixels() == width,
{
    let w = info.square_width();
    let h = info.square_height();
    let s = if quarters % 2 == 0 {
        0int
    } else {
        1int
    };
    let c = 1 - s;
    let unit = pow2(1074);
    lemma_pow2_pos(1074);
    lemma_pixels(w, width);
    lemma_pixels(h, height);
    lemma_unsigned_near(sin, quarter_sine(quarters));
    lemma_unsigned_near(cos, quarter_cosine(quarters));
    lemma_scaled_side(sin.unsigned(), s, w, width);
    lemma_scaled_side(sin.unsigned(), s, h, height);
    lemma_scaled_side(cos.unsigned(), c, w, width);
    lemma_scaled_side(cos.unsigned(), c, h, height);
    assert(0 * width * unit == 0 && 0 * height * unit == 0 && 1 * width * unit == width * unit && 1
        * height * unit == height * unit) by (nonlinear_arith);
    if quarters % 2 == 0 {
        lemma_sum_of_scaled_sides(cos.unsigned().product(w), sin.unsigned().product(h), width);
        lemma_sum_of_scaled_sides(cos.unsigned().product(h), sin.unsigned().product(w), height);
    } else {
        lemma_sum_of_scaled_sides(sin.unsigned().product(h), cos.unsigned().product(w), height);
        lemma_sum_of_scaled_sides(sin.unsigned().product(w), cos.unsigned().product(h), width);
    }
}

/// Of two outputs that differ in their rotation alone, by a quarter turn, one is displayed with the
/// sides of the other exchanged; after an even number of quarters the size is that of the picture.
/// The crop is the same.  The sine and the cosine of either rotation may be off by `2^-21`.
pub proof fn law_quarter_turn_exchanges_the_displayed_sides(
    a: OutputInfo,
    a_sin: Binary64,
    a_cos: Binary64,
    b: OutputInfo,
    b_sin: Binary64,
    b_cos: Binary64,
    quarters: int,
    width: int,
    height: int,
)
    requires
        a.whole_picture(width, height),
        a.rotation == Binary64::of_integer(90 * quarters),
        b == (OutputInfo { rotation: Binary64::of_integer(90 * (quarters + 1)), ..a }),
        quarters_turned(quarters, a_sin, a_cos),
        quarters_turned(quarters + 1, b_sin, b_cos),
    ensures
        b.display_width(b_sin, b_cos).whole_pixels() == a.display_height(
            a_sin,
            a_cos,
        ).whole_pixels(),
        b.display_height(b_sin, b_cos).whole_pixels() == a.display_width(
            a_sin,
            a_cos,
        ).whole_pixels(),
        quarters % 2 == 0 ==> a.display_width(a_sin, a_cos).whole_pixels() == width
            && a.display_height(a_sin, a_cos).whole_pixels() == height,
        b.crop_fractions() == a.crop_fractions(),
{
    law_whole_picture_has_its_size(a, width, height);
    law_whole_picture_has_its_size(b, width, height);
    law_turned_picture_keeps_or_swaps_its_sides(a, quarters, a_sin, a_cos, width, height);
    law_turned_picture_keeps_or_swaps_its_sides(b, quarters + 1, b_sin, b_cos, width, height);
}

} // verus!
