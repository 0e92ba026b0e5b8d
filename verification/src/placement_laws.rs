//! Where an output is placed on the display, in exact numbers.

use crate::accuracy_laws::{
    accurate, law_narrow_quotients_are_accurate, law_narrowings_are_accurate,
    law_products_are_accurate, law_quotients_are_accurate, law_sums_are_accurate,
    lemma_nearest_accurate, size,
};
use crate::geometry::{OutputInfo, SMALLEST_ASPECT};
use crate::geometry_laws::lemma_not_negative;
use crate::ieee::{
    lemma_scaled_magnitude_monotone, scaled_magnitude, Binary32, Binary64, INFINITY_32,
    INFINITY_64, ONE_64,
};
use crate::media_time::lemma_known_patterns;
use crate::numbers::{
    lemma_nearest_bounded, lemma_nearest_exists, lemma_scaled_zero, nearest_pattern, rounded32,
};
use crate::rounding::{lemma_nearest_unique, lemma_scaled_magnitude_of_parts, nearest};
use vstd::arithmetic::power2::{
    lemma2_to64, lemma2_to64_rest, lemma_pow2_adds, lemma_pow2_pos, lemma_pow2_strictly_increases,
    pow2,
};
use vstd::prelude::*;

verus! {

/// The size of the output that a side of the crop is a fraction of: its width for the left and the
/// width, its height for the top and the height.
pub open spec fn matching_size(info: OutputInfo, side: int) -> u32 {
    if side == 0 || side == 2 {
        info.width
    } else {
        info.height
    }
}

/// Every fraction of the crop depends on its own side and on the matching size of the output alone.
pub proof fn law_crop_fractions_are_independent(a: OutputInfo, b: OutputInfo, side: int)
    requires
        0 <= side < 4,
        a.crop[side] == b.crop[side],
        matching_size(a, side) == matching_size(b, side),
    ensures
        a.crop_fractions().len() == 4,
        a.crop_fractions()[side] == b.crop_fractions()[side],
{
}

/// Equal sides of the crop, of equal sizes of the output, are equal fractions, wherever they stand.
pub proof fn law_crop_fractions_are_alike(a: OutputInfo, b: OutputInfo, side: int, other: int)
    requires
        0 <= side < 4,
        0 <= other < 4,
        a.crop[side] == b.crop[other],
        matching_size(a, side) == matching_size(b, other),
    ensures
        a.crop_fractions()[side] == b.crop_fractions()[other],
{
}

/// A number that is not too large and not too small becomes a normal binary32 number that is off by no
/// more than one part in `2^24`.
proof fn lemma_normal(num: int, den: int, m: int)
    requires
        den > 0,
        num >= 0,
        nearest(num, den, m, 23, INFINITY_32 as int),
        pow2(23) * den <= num <= pow2(253) * den,
    ensures
        m < INFINITY_32,
        scaled_magnitude(m, 23) > 0,
        0x100_0000 * size(scaled_magnitude(m, 23) * den - num) <= den * scaled_magnitude(m, 23),
{
    let hidden = pow2(23) as int;
    lemma2_to64();
    lemma_scaled_magnitude_of_parts(hidden, 0, 23);
    assert(0 * hidden == 0 && hidden * 1 == hidden) by (nonlinear_arith);
    lemma_nearest_bounded(num, den, m, hidden, 23, INFINITY_32 as int);
    lemma_scaled_magnitude_of_parts(0x80_0000, 230, 23);
    lemma_pow2_adds(23, 230);
    let cap: int = 0x7380_0000;
    lemma_nearest_bounded(num, den, m, cap, 23, INFINITY_32 as int);
    lemma_nearest_accurate(num, den, m, 23, INFINITY_32 as int);
    lemma_scaled_zero(23);
    lemma_scaled_magnitude_monotone(0, m, 23);
}

/// Every fraction of the crop, times the matching size of the output, is its side of the crop, of the
/// same sign, up to one part in `2^22`: for every side between `2^-60` and `2^100` in size.  A side of
/// zero is a fraction of zero.
pub proof fn law_crop_fractions_are_parts_of_the_output(info: OutputInfo, side: int)
    requires
        0 <= side < 4,
        matching_size(info, side) > 0,
        info.crop[side].finite(),
        info.crop[side].magnitude() == 0 || pow2(1014) <= size(info.crop[side].scaled()) <= pow2(
            1174,
        ),
    ensures
        ({
            let fraction = info.crop_fractions()[side];
            let pixels = matching_size(info, side);
            let length = info.crop[side].scaled();
            &&& fraction.finite()
            &&& fraction.negative() == info.crop[side].negative()
            &&& 0x40_0000 * size(fraction.scaled() * pixels * pow2(925) - length) <= size(length)
            &&& info.crop[side].magnitude() == 0 ==> fraction.magnitude() == 0
        }),
{
    let crop = info.crop[side];
    let n = matching_size(info, side) as int;
    let x = crop.narrowed();
    let y = rounded32(false, n * pow2(149), 1);
    let f = x.quotient(y);
    assert(info.crop_fractions()[side] == f);
    let c = size(crop.scaled());
    let p = pow2(925) as int;
    let u = pow2(149) as int;
    let infinity = INFINITY_32 as int;
    lemma_scaled_zero(23);
    lemma_scaled_zero(52);
    lemma_pow2_pos(925);
    lemma_pow2_pos(149);
    lemma2_to64();
    law_narrowings_are_accurate(crop);
    // The size of the output.
    assert(n * u >= u && n * u <= 0x1_0000_0000 * u) by (nonlinear_arith)
        requires
            1 <= n <= 0x1_0000_0000,
            u > 0,
    ;
    lemma_nearest_exists(n * u, 1, 23, infinity);
    assert(y.magnitude() == nearest_pattern(n * u, 1, 23, infinity) && !y.negative());
    lemma_pow2_strictly_increases(23, 149);
    lemma_pow2_adds(32, 149);
    lemma_pow2_strictly_increases(181, 253);
    assert(pow2(23) * 1 == pow2(23) && pow2(253) * 1 == pow2(253)) by (nonlinear_arith);
    lemma_normal(n * u, 1, y.magnitude());
    let ys = scaled_magnitude(y.magnitude(), 23);
    assert(y.scaled() == ys && ys > 0);
    if crop.magnitude() == 0 {
        assert(0 * p == 0 && 0 * u == 0 && 0 * ys == 0 && 0 * n * p == 0) by (nonlinear_arith);
        lemma_nearest_bounded(0, p, x.magnitude(), 0, 23, infinity);
        assert(x.magnitude() == 0);
        law_narrow_quotients_are_accurate(x, y);
        lemma_nearest_bounded(0, ys, f.magnitude(), 0, 23, infinity);
        assert(f.scaled() == 0);
        assert(f.scaled() * n * p == 0) by (nonlinear_arith)
            requires
                f.scaled() == 0,
        ;
    } else {
        lemma_pow2_adds(23, 925);
        lemma_pow2_adds(253, 925);
        lemma_pow2_strictly_increases(948, 1014);
        lemma_pow2_strictly_increases(1174, 1178);
        lemma_normal(c, p, x.magnitude());
        let xs = scaled_magnitude(x.magnitude(), 23);
        assert(size(x.scaled()) == xs);
        law_narrow_quotients_are_accurate(x, y);
        lemma_quotient_in_range(c, n, xs, ys);
        lemma_normal(xs * u, ys, f.magnitude());
        let fs = scaled_magnitude(f.magnitude(), 23);
        assert(size(f.scaled()) == fs);
        lemma_fraction_of_parts(c, n, xs, ys, fs, p, u);
        assert((-fs) * n * p == -(fs * n * p)) by (nonlinear_arith);
        lemma_scaled_magnitude_monotone(0, crop.magnitude(), 52);
    }
}

/// The quotient of a side of ordinary size and a number of pixels is of ordinary size.
proof fn lemma_quotient_in_range(c: int, n: int, xs: int, ys: int)
    requires
        pow2(1014) <= c <= pow2(1174),
        1 <= n <= 0x1_0000_0000,
        xs > 0,
        ys > 0,
        0x100_0000 * size(xs * pow2(925) - c) <= pow2(925) * xs,
        0x100_0000 * size(ys * 1 - n * pow2(149)) <= 1 * ys,
    ensures
        pow2(23) * ys <= xs * pow2(149) <= pow2(253) * ys,
{
    let p = pow2(925) as int;
    let u = pow2(149) as int;
    lemma2_to64();
    lemma_pow2_pos(925);
    lemma_pow2_pos(149);
    lemma_pow2_pos(88);
    lemma_pow2_pos(250);
    lemma_pow2_adds(1, 1013);
    lemma_pow2_adds(1, 1174);
    lemma_pow2_adds(88, 925);
    lemma_pow2_adds(250, 925);
    lemma_pow2_adds(1, 148);
    lemma_pow2_adds(32, 149);
    lemma_pow2_adds(1, 181);
    lemma_pow2_adds(88, 149);
    lemma_pow2_adds(250, 149);
    lemma_pow2_adds(23, 182);
    lemma_pow2_adds(253, 148);
    lemma_pow2_strictly_increases(205, 237);
    lemma_pow2_strictly_increases(399, 401);
    assert(p * xs == xs * p) by (nonlinear_arith);
    assert(2 * c >= xs * p && 2 * (xs * p) >= c);
    let low = pow2(88) as int;
    let high = pow2(250) as int;
    assert(xs >= low) by (nonlinear_arith)
        requires
            xs * p >= low * p,
            p > 0,
    ;
    assert(xs <= high) by (nonlinear_arith)
        requires
            xs * p <= high * p,
            p > 0,
    ;
    assert(u <= n * u <= 0x1_0000_0000 * u) by (nonlinear_arith)
        requires
            1 <= n <= 0x1_0000_0000,
            u > 0,
    ;
    assert(ys <= 2 * (n * u) && 2 * ys >= n * u);
    assert(pow2(148) <= ys <= pow2(182));
    assert(low * u <= xs * u <= high * u) by (nonlinear_arith)
        requires
            low <= xs <= high,
            u > 0,
    ;
    let a = pow2(23) as int;
    let b = pow2(253) as int;
    lemma_pow2_pos(253);
    assert(a * ys <= a * pow2(182)) by (nonlinear_arith)
        requires
            ys <= pow2(182),
            a > 0,
    ;
    assert(b * pow2(148) <= b * ys) by (nonlinear_arith)
        requires
            ys >= pow2(148),
            b > 0,
    ;
}

/// Three roundings of one part in `2^24` each.
proof fn lemma_fraction_of_parts(c: int, n: int, xs: int, ys: int, fs: int, p: int, u: int)
    requires
        p > 0,
        u > 0,
        n >= 1,
        xs > 0,
        ys > 0,
        fs > 0,
        0x100_0000 * size(xs * p - c) <= p * xs,
        0x100_0000 * size(ys * 1 - n * u) <= 1 * ys,
        0x100_0000 * size(fs * ys - xs * u) <= ys * fs,
    ensures
        0x40_0000 * size(fs * n * p - c) <= c,
{
    let big = 0x100_0000int;
    let fy = fs * ys;
    let xu = xs * u;
    let fnu = (fs * n) * u;
    // How far the fraction times the size is off the side, in parts of `u`.
    let g = n * u - ys;
    assert(fnu - fy == fs * g) by (nonlinear_arith)
        requires
            fnu == (fs * n) * u,
            fy == fs * ys,
            g == n * u - ys,
    ;
    assert(big * size(fs * g) <= fy) by (nonlinear_arith)
        requires
            big * size(g) <= ys,
            fy == fs * ys,
            fs > 0,
            big > 0,
    {
        assert(size(fs * g) == fs * size(g));
        assert(fs * (big * size(g)) <= fs * ys);
    }
    assert(ys * fs == fy) by (nonlinear_arith)
        requires
            fy == fs * ys,
    ;
    assert(big * size(fnu - xu) <= 2 * fy);
    assert(0xff_ffff * fy <= 0x100_0000 * xu);
    let d = fs * n - xs;
    assert(fnu - xu == d * u) by (nonlinear_arith)
        requires
            fnu == (fs * n) * u,
            xu == xs * u,
            d == fs * n - xs,
    ;
    assert(0xff_ffff * size(fnu - xu) <= 2 * xu);
    assert(0xff_ffff * size(d) <= 2 * xs) by (nonlinear_arith)
        requires
            0xff_ffff * size(d * u) <= 2 * (xs * u),
            u > 0,
    {
        assert(size(d * u) == size(d) * u);
    }
    let xp = xs * p;
    assert(p * xs == xp) by (nonlinear_arith)
        requires
            xp == xs * p,
    ;
    assert(0xff_ffff * size(d * p) <= 2 * xp) by (nonlinear_arith)
        requires
            0xff_ffff * size(d) <= 2 * xs,
            xp == xs * p,
            p > 0,
    {
        assert(size(d * p) == size(d) * p);
    }
    assert(fs * n * p - c == d * p + (xp - c)) by (nonlinear_arith)
        requires
            d == fs * n - xs,
            xp == xs * p,
    ;
    assert(0xff_ffff * xp <= 0x100_0000 * c);
}

/// Every fraction of the crop is the nearest binary32 number to the quotient of its side and the
/// matching size of the output, each rounded to the nearest binary32 number first, and has the sign of
/// the side.  An infinite side is an infinite fraction.
pub proof fn law_crop_fractions_are_rounded_quotients(
    info: OutputInfo,
    side: int,
    length: Binary32,
    pixels: Binary32,
)
    requires
        0 <= side < 4,
        matching_size(info, side) > 0,
        !pixels.negative(),
        nearest(
            matching_size(info, side) * pow2(149),
            1,
            pixels.magnitude(),
            23,
            INFINITY_32 as int,
        ),
        length.negative() == info.crop[side].negative(),
        info.crop[side].finite() ==> nearest(
            size(info.crop[side].scaled()),
            pow2(925) as int,
            length.magnitude(),
            23,
            INFINITY_32 as int,
        ),
    ensures
        ({
            let fraction = info.crop_fractions()[side];
            &&& info.crop[side].finite() && length.finite() ==> {
                &&& fraction.negative() == info.crop[side].negative()
                &&& nearest(
                    size(length.scaled()) * pow2(149),
                    pixels.scaled(),
                    fraction.magnitude(),
                    23,
                    INFINITY_32 as int,
                )
            }
            &&& info.crop[side].magnitude() == INFINITY_64 || (info.crop[side].finite()
                && !length.finite()) ==> fraction.magnitude() == INFINITY_32 && fraction.negative()
                == info.crop[side].negative()
        }),
{
    let crop = info.crop[side];
    let n = matching_size(info, side) as int;
    let x = crop.narrowed();
    let y = rounded32(false, n * pow2(149), 1);
    let u = pow2(149) as int;
    let infinity = INFINITY_32 as int;
    lemma_pow2_pos(149);
    lemma_pow2_pos(925);
    lemma2_to64();
    lemma_scaled_zero(23);
    assert(info.crop_fractions()[side] == x.quotient(y));
    assert(n * u >= u && n * u <= 0x1_0000_0000 * u) by (nonlinear_arith)
        requires
            1 <= n <= 0x1_0000_0000,
            u > 0,
    ;
    lemma_nearest_exists(n * u, 1, 23, infinity);
    lemma_nearest_unique(n * u, 1, pixels.magnitude(), y.magnitude(), 23, infinity);
    assert(pixels == y);
    lemma_pow2_strictly_increases(23, 149);
    lemma_pow2_adds(32, 149);
    lemma_pow2_strictly_increases(181, 253);
    assert(pow2(23) * 1 == pow2(23) && pow2(253) * 1 == pow2(253)) by (nonlinear_arith);
    lemma_normal(n * u, 1, y.magnitude());
    if crop.finite() {
        law_narrowings_are_accurate(crop);
        lemma_nearest_unique(
            size(crop.scaled()),
            pow2(925) as int,
            length.magnitude(),
            x.magnitude(),
            23,
            infinity,
        );
        assert(length == x);
        if length.finite() {
            law_narrow_quotients_are_accurate(x, y);
        }
    }
}

/// A side of an output without a size is no fraction: infinite, or a NaN where the side is zero.  A
/// side that is a NaN is a NaN.
pub proof fn law_nothing_has_no_fractions(info: OutputInfo, side: int)
    requires
        0 <= side < 4,
    ensures
        matching_size(info, side) == 0 && info.crop[side].magnitude() == 0
            ==> info.crop_fractions()[side].nan(),
        matching_size(info, side) == 0 && info.crop[side].finite() && size(
            info.crop[side].scaled(),
        ) >= pow2(1014) ==> info.crop_fractions()[side].magnitude() == INFINITY_32,
        info.crop[side].nan() ==> info.crop_fractions()[side].nan(),
{
    let crop = info.crop[side];
    let x = crop.narrowed();
    let n = matching_size(info, side) as int;
    let y = rounded32(false, n * pow2(149), 1);
    let infinity = INFINITY_32 as int;
    lemma_scaled_zero(23);
    lemma_scaled_zero(52);
    lemma_pow2_pos(925);
    lemma_pow2_pos(149);
    assert(info.crop_fractions()[side] == x.quotient(y));
    if n == 0 {
        assert(n * pow2(149) == 0) by (nonlinear_arith)
            requires
                n == 0,
        ;
        lemma_nearest_exists(0, 1, 23, infinity);
        assert(0 * 1 == 0) by (nonlinear_arith);
        lemma_nearest_bounded(0, 1, y.magnitude(), 0, 23, infinity);
        assert(y.magnitude() == 0);
        if crop.finite() {
            law_narrowings_are_accurate(crop);
            let c = size(crop.scaled());
            if crop.magnitude() == 0 {
                assert(0 * pow2(925) == 0) by (nonlinear_arith);
                lemma_nearest_bounded(0, pow2(925) as int, x.magnitude(), 0, 23, infinity);
                lemma_pow2_pos(1014);
            } else if c >= pow2(1014) {
                lemma2_to64();
                lemma_scaled_magnitude_of_parts(1, 0, 23);
                assert(0 * pow2(23) == 0 && 1 * pow2(0) == 1) by (nonlinear_arith)
                    requires
                        pow2(0) == 1,
                ;
                lemma_pow2_strictly_increases(925, 1014);
                assert(scaled_magnitude(1, 23) == 1);
                assert(1 * pow2(925) == pow2(925)) by (nonlinear_arith);
                lemma_nearest_bounded(c, pow2(925) as int, x.magnitude(), 1, 23, infinity);
            }
        }
    }
}

/// The sides of the picture depend on its own crop and aspect alone, and so do the box around the turned
/// picture and the matrix back.
pub proof fn law_placement_depends_on_crop_and_aspect(
    a: OutputInfo,
    b: OutputInfo,
    sin: Binary64,
    cos: Binary64,
)
    requires
        a.crop[2] == b.crop[2],
        a.crop[3] == b.crop[3],
        a.aspect == b.aspect,
    ensures
        a.square_width() == b.square_width(),
        a.square_height() == b.square_height(),
        a.display_width(sin, cos) == b.display_width(sin, cos),
        a.display_height(sin, cos) == b.display_height(sin, cos),
        a.inverse_matrix(sin, cos) == b.inverse_matrix(sin, cos),
{
}

/// The larger of two numbers.
pub open spec fn larger(a: int, b: int) -> int {
    if a < b {
        b
    } else {
        a
    }
}

/// The height of the picture is that of its crop, and at least one; its width is that of its crop, at
/// least one, times its aspect, at least a ten-thousandth.  A side that is no number counts as the
/// least.
pub proof fn law_picture_has_the_sides_of_its_crop(info: OutputInfo)
    ensures
        nearest(pow2(1074) as int, 10_000, SMALLEST_ASPECT as int, 52, INFINITY_64 as int),
        !info.crop[3].nan() ==> info.square_height().scaled() == larger(
            info.crop[3].scaled(),
            pow2(1074) as int,
        ),
        info.crop[3].nan() ==> info.square_height().scaled() == pow2(1074),
        ({
            let least = (Binary64 { bits: SMALLEST_ASPECT }).scaled();
            let width = if info.crop[2].nan() {
                pow2(1074) as int
            } else {
                larger(info.crop[2].scaled(), pow2(1074) as int)
            };
            let aspect = if info.aspect.nan() {
                least
            } else {
                larger(info.aspect.scaled(), least)
            };
            info.crop[2].magnitude() != INFINITY_64 && info.aspect.magnitude() != INFINITY_64
                && info.square_width().finite() ==> accurate(
                info.square_width().scaled(),
                width * aspect,
                pow2(1074) as int,
                52,
            ) && !info.square_width().negative()
        }),
{
    lemma_known_patterns();
    lemma2_to64();
    lemma2_to64_rest();
    lemma_pow2_pos(1008);
    lemma_pow2_adds(66, 1008);
    lemma_pow2_adds(2, 64);
    let w = pow2(1008) as int;
    assert(pow2(66) == 0x4_0000_0000_0000_0000);
    assert(pow2(1074) == 0x4_0000_0000_0000_0000 * w);
    lemma_scaled_magnitude_of_parts(0x1a_36e2_eb1c_432d, 1008, 52);
    lemma_scaled_magnitude_of_parts(0x1a_36e2_eb1c_432e, 1008, 52);
    lemma_scaled_magnitude_of_parts(0x1a_36e2_eb1c_432c, 1008, 52);
    let one = Binary64 { bits: ONE_64 };
    let least = Binary64 { bits: SMALLEST_ASPECT };
    lemma_scaled_magnitude_monotone(0, SMALLEST_ASPECT as int, 52);
    lemma_pow2_pos(1074);
    let crop = info.crop[2].raised(one);
    let aspect = info.aspect.raised(least);
    lemma_not_negative(crop);
    lemma_not_negative(aspect);
    if info.crop[2].magnitude() != INFINITY_64 && info.aspect.magnitude() != INFINITY_64 {
        assert(crop.finite() && aspect.finite());
        law_products_are_accurate(crop, aspect);
    }
}

/// Whether a number is the sum of two exact products, of one size each, but for the roundings of a few
/// parts in `2^53`.
pub open spec fn sum_of_products(value: int, a: int, b: int, c: int, d: int) -> bool {
    let unit = pow2(1074) as int;
    let exact = size(a) * size(b) + size(c) * size(d);
    0x8_0000_0000_0000 * size(value * unit - exact) <= exact + 0x20_0000_0000_0000 * unit
}

/// The product of a number without its sign and a side.
proof fn lemma_unsigned_product(factor: Binary64, side: Binary64)
    requires
        !side.negative(),
        factor.unsigned().product(side).finite(),
    ensures
        factor.finite() && side.finite(),
        ({
            let r = factor.unsigned().product(side);
            let unit = pow2(1074) as int;
            &&& r.scaled() >= 0
            &&& !r.negative()
            &&& 0x20_0000_0000_0000 * size(
                r.scaled() * unit - size(factor.scaled()) * size(side.scaled()),
            ) <= unit * (r.scaled() + 0x10_0000_0000_0000)
        }),
{
    let a = factor.unsigned();
    let r = a.product(side);
    assert(a.magnitude() == factor.magnitude() && !a.negative());
    assert(!a.nan() && !side.nan());
    lemma_scaled_zero(52);
    lemma2_to64_rest();
    if a.magnitude() > 0 {
        lemma_scaled_magnitude_monotone(0, a.magnitude(), 52);
    }
    if side.magnitude() > 0 {
        lemma_scaled_magnitude_monotone(0, side.magnitude(), 52);
    }
    if r.magnitude() > 0 {
        lemma_scaled_magnitude_monotone(0, r.magnitude(), 52);
    }
    law_products_are_accurate(a, side);
}

/// A side of the box: the sum of two such products.
proof fn lemma_box_side(first: Binary64, w: Binary64, second: Binary64, h: Binary64)
    requires
        !w.negative(),
        !h.negative(),
        first.unsigned().product(w).sum(second.unsigned().product(h)).finite(),
    ensures
        sum_of_products(
            first.unsigned().product(w).sum(second.unsigned().product(h)).scaled(),
            first.scaled(),
            w.scaled(),
            second.scaled(),
            h.scaled(),
        ),
{
    let p = first.unsigned().product(w);
    let q = second.unsigned().product(h);
    let r = p.sum(q);
    let unit = pow2(1074) as int;
    assert(p.finite() && q.finite());
    lemma_unsigned_product(first, w);
    lemma_unsigned_product(second, h);
    law_sums_are_accurate(p, q);
    lemma2_to64_rest();
    lemma_pow2_pos(1074);
    let ps = p.scaled();
    let qs = q.scaled();
    let rs = r.scaled();
    let x = size(first.scaled()) * size(w.scaled());
    let y = size(second.scaled()) * size(h.scaled());
    lemma_scaled_zero(52);
    if r.magnitude() > 0 {
        lemma_scaled_magnitude_monotone(0, r.magnitude(), 52);
    }
    assert(rs >= 0);
    let big = 0x20_0000_0000_0000int;
    assert(big * size(rs * 1 - (ps + qs)) <= 1 * (rs + 0x10_0000_0000_0000));
    let e = rs - (ps + qs);
    assert(big * size(e * unit) <= rs * unit + 0x10_0000_0000_0000 * unit) by (nonlinear_arith)
        requires
            big * size(e) <= rs + 0x10_0000_0000_0000,
            unit > 0,
    {
        assert(size(e * unit) == size(e) * unit);
    }
    assert(rs * unit == e * unit + ps * unit + qs * unit) by (nonlinear_arith)
        requires
            e == rs - (ps + qs),
    ;
    assert(unit * (ps + 0x10_0000_0000_0000) == ps * unit + 0x10_0000_0000_0000 * unit && unit * (qs
        + 0x10_0000_0000_0000) == qs * unit + 0x10_0000_0000_0000 * unit) by (nonlinear_arith);
    lemma_three_errors(rs * unit, ps * unit, qs * unit, x, y, unit);
}

proof fn lemma_three_errors(r: int, p: int, q: int, x: int, y: int, unit: int)
    requires
        unit > 0,
        p >= 0,
        q >= 0,
        r >= 0,
        0x20_0000_0000_0000 * size(r - p - q) <= r + 0x10_0000_0000_0000 * unit,
        0x20_0000_0000_0000 * size(p - x) <= p + 0x10_0000_0000_0000 * unit,
        0x20_0000_0000_0000 * size(q - y) <= q + 0x10_0000_0000_0000 * unit,
    ensures
        0x8_0000_0000_0000 * size(r - (x + y)) <= (x + y) + 0x20_0000_0000_0000 * unit,
{
}

/// The sides of a picture have no sign.
proof fn lemma_sides_have_no_sign(info: OutputInfo)
    ensures
        !info.square_width().negative(),
        !info.square_height().negative(),
{
    lemma_known_patterns();
    lemma_pow2_pos(1074);
    lemma_scaled_magnitude_monotone(0, SMALLEST_ASPECT as int, 52);
    let crop = info.crop[2].raised(Binary64 { bits: ONE_64 });
    let aspect = info.aspect.raised(Binary64 { bits: SMALLEST_ASPECT });
    lemma_not_negative(crop);
    lemma_not_negative(aspect);
    lemma_not_negative(info.square_height());
    if crop.finite() && aspect.finite() {
        law_products_are_accurate(crop, aspect);
    }
}

/// The box around the turned picture is as wide as the cosine of its width and the sine of its height
/// together, and as high as the sine of its width and the cosine of its height, all without their
/// signs.
pub proof fn law_box_holds_the_turned_picture(info: OutputInfo, sin: Binary64, cos: Binary64)
    ensures
        info.display_width(sin, cos).finite() ==> sum_of_products(
            info.display_width(sin, cos).scaled(),
            cos.scaled(),
            info.square_width().scaled(),
            sin.scaled(),
            info.square_height().scaled(),
        ),
        info.display_height(sin, cos).finite() ==> sum_of_products(
            info.display_height(sin, cos).scaled(),
            sin.scaled(),
            info.square_width().scaled(),
            cos.scaled(),
            info.square_height().scaled(),
        ),
{
    lemma_sides_have_no_sign(info);
    if info.display_width(sin, cos).finite() {
        lemma_box_side(cos, info.square_width(), sin, info.square_height());
    }
    if info.display_height(sin, cos).finite() {
        lemma_box_side(sin, info.square_width(), cos, info.square_height());
    }
}

/// Turning the other way, or by another half turn, does not change the box.
pub proof fn law_box_does_not_depend_on_signs(info: OutputInfo, sin: Binary64, cos: Binary64)
    ensures
        info.display_width(sin.opposite(), cos) == info.display_width(sin, cos),
        info.display_width(sin, cos.opposite()) == info.display_width(sin, cos),
        info.display_height(sin.opposite(), cos) == info.display_height(sin, cos),
        info.display_height(sin, cos.opposite()) == info.display_height(sin, cos),
{
    assert(sin.opposite().unsigned() == sin.unsigned());
    assert(cos.opposite().unsigned() == cos.unsigned());
}

/// The displayed number of pixels is the nearest whole number, of two that are equally near the larger,
/// but at least one and at most the largest; a NaN is one pixel.
pub proof fn law_displayed_pixels_are_nearest(number: Binary64)
    ensures
        ({
            let pixels = number.whole_pixels();
            let unit = pow2(1074) as int;
            let twice = 2 * number.scaled();
            &&& number.nan() || twice < 3 * unit ==> pixels == 1
            &&& !number.nan() && twice >= 3 * unit && twice < 0x1_ffff_ffff * unit ==> (2
                * pixels - 1) * unit <= twice < (2 * pixels + 1) * unit
            &&& !number.nan() && twice >= 0x1_ffff_ffff * unit ==> pixels == u32::MAX
        }),
{
    let unit = pow2(1074) as int;
    let scaled = number.scaled();
    lemma_pow2_pos(1074);
    if !number.nan() && scaled > 0 {
        let sum = 2 * scaled + unit;
        let den = 2 * unit;
        let whole = sum / den;
        vstd::arithmetic::div_mod::lemma_fundamental_div_mod(sum, den);
        let rest = sum % den;
        assert(0 <= rest < den) by (nonlinear_arith)
            requires
                rest == sum % den,
                den > 0,
        ;
        assert((2 * whole - 1) * unit <= 2 * scaled < (2 * whole + 1) * unit) by (nonlinear_arith)
            requires
                sum == den * whole + rest,
                0 <= rest < den,
                den == 2 * unit,
                sum == 2 * scaled + unit,
        ;
        assert(2 * scaled < 3 * unit ==> whole <= 1) by (nonlinear_arith)
            requires
                (2 * whole - 1) * unit <= 2 * scaled,
                unit > 0,
        ;
        assert(2 * scaled >= 3 * unit ==> whole >= 2) by (nonlinear_arith)
            requires
                2 * scaled < (2 * whole + 1) * unit,
                unit > 0,
        ;
        assert(2 * scaled < 0x1_ffff_ffff * unit ==> whole <= 0xffff_ffff) by (nonlinear_arith)
            requires
                (2 * whole - 1) * unit <= 2 * scaled,
                unit > 0,
        ;
        assert(2 * scaled >= 0x1_ffff_ffff * unit ==> whole > 0xffff_ffff) by (nonlinear_arith)
            requires
                2 * scaled < (2 * whole + 1) * unit,
                unit > 0,
        ;
        let pixels = number.whole_pixels();
        assert(1 <= whole <= 0xffff_ffff ==> pixels == whole);
        assert(whole <= 1 ==> pixels == 1);
        assert(whole > 0xffff_ffff ==> pixels == u32::MAX);
    }
}

/// Whether an entry of the matrix, times a side of the picture, is a factor times a side of the box, but
/// for one part in `2^22` of it and the smallest binary32 number.
pub open spec fn undoes(entry: Binary32, side: int, factor: int, box_side: int) -> bool {
    let exact = factor * box_side;
    0x40_0000 * size(entry.scaled() * pow2(925) * side - exact) <= size(exact) + 0x40_0000 * (size(
        side,
    ) * pow2(925) + pow2(1074))
}

proof fn lemma_entry(factor: Binary64, box_side: Binary64, side: Binary64)
    requires
        side.positive_finite(),
        factor.product(box_side).quotient(side).narrowed().finite(),
    ensures
        undoes(
            factor.product(box_side).quotient(side).narrowed(),
            side.scaled(),
            factor.scaled(),
            box_side.scaled(),
        ),
{
    let p = factor.product(box_side);
    let q = p.quotient(side);
    let m = q.narrowed();
    let unit = pow2(1074) as int;
    let f = pow2(925) as int;
    lemma_pow2_pos(1074);
    lemma_pow2_pos(925);
    lemma2_to64();
    lemma2_to64_rest();
    lemma_not_negative(side);
    assert(q.finite());
    assert(p.finite());
    assert(factor.finite() && box_side.finite());
    law_products_are_accurate(factor, box_side);
    law_quotients_are_accurate(p, side);
    law_narrowings_are_accurate(q);
    let w = side.scaled();
    let ps = p.scaled();
    let qs = q.scaled();
    let ms = m.scaled();
    let exact = factor.scaled() * box_side.scaled();
    lemma_signed_quotient(p, side);
    let x = ms * f * w;
    let y = qs * w;
    let z = ps * unit;
    // The three errors.
    let h = 0x10_0000_0000_0000int;
    assert(2 * h * size(z - exact) <= size(z) + h * unit) by (nonlinear_arith)
        requires
            2 * h * size(z - exact) <= unit * (size(ps) + h),
            z == ps * unit,
            unit > 0,
    {
        assert(size(ps * unit) == size(ps) * unit);
    }
    assert(2 * h * size(y - z) <= size(y) + h * w) by (nonlinear_arith)
        requires
            2 * h * size(y - z) <= w * (size(qs) + h),
            y == qs * w,
            w > 0,
    {
        assert(size(qs * w) == size(qs) * w);
    }
    let k = 0x80_0000int;
    let d = ms * f - qs;
    assert(x - y == d * w) by (nonlinear_arith)
        requires
            x == ms * f * w,
            y == qs * w,
            d == ms * f - qs,
    ;
    assert(2 * k * size(d * w) <= size(x) + k * (w * f)) by (nonlinear_arith)
        requires
            2 * k * size(d) <= f * (size(ms) + k),
            x == ms * f * w,
            f > 0,
            w > 0,
    {
        assert(size(d * w) == size(d) * w);
        assert(size(ms * f * w) == size(ms) * f * w);
        assert((2 * k * size(d)) * w <= (f * (size(ms) + k)) * w);
    }
    let v = w * f;
    lemma_pow2_strictly_increases(1, 925);
    assert(2 * w <= v) by (nonlinear_arith)
        requires
            v == w * f,
            w > 0,
            f >= 2,
    ;
    lemma_entry_errors(x, y, z, exact, v, w, unit);
    assert(size(w) == w && ms * f * w == x);
}

proof fn lemma_entry_errors(x: int, y: int, z: int, exact: int, v: int, w: int, unit: int)
    requires
        unit > 0,
        0 < 2 * w <= v,
        0x100_0000 * size(x - y) <= size(x) + 0x80_0000 * v,
        0x20_0000_0000_0000 * size(y - z) <= size(y) + 0x10_0000_0000_0000 * w,
        0x20_0000_0000_0000 * size(z - exact) <= size(z) + 0x10_0000_0000_0000 * unit,
    ensures
        0x40_0000 * size(x - exact) <= size(exact) + 0x40_0000 * (v + unit),
{
}

/// The quotient by a number above zero, with its sign.
proof fn lemma_signed_quotient(p: Binary64, side: Binary64)
    requires
        p.finite(),
        side.positive_finite(),
        p.quotient(side).finite(),
    ensures
        0x20_0000_0000_0000 * size(
            p.quotient(side).scaled() * side.scaled() - p.scaled() * pow2(1074),
        ) <= side.scaled() * (size(p.quotient(side).scaled()) + 0x10_0000_0000_0000),
{
    let q = p.quotient(side);
    let unit = pow2(1074) as int;
    let w = side.scaled();
    lemma_not_negative(side);
    lemma2_to64_rest();
    law_quotients_are_accurate(p, side);
    lemma_scaled_zero(52);
    if p.magnitude() > 0 {
        lemma_scaled_magnitude_monotone(0, p.magnitude(), 52);
    }
    if q.magnitude() > 0 {
        lemma_scaled_magnitude_monotone(0, q.magnitude(), 52);
    }
    let a = size(q.scaled());
    let b = size(p.scaled());
    assert(size(a * w - b * unit) == size((-a) * w - (-b) * unit)) by (nonlinear_arith);
}

/// The matrix takes places in the box back into the picture: each of its entries, times the side of the
/// picture, is the cosine or the sine times the side of the box, the sine against the turn in the third.
pub proof fn law_matrix_undoes_the_turn(info: OutputInfo, sin: Binary64, cos: Binary64)
    requires
        info.square_width().positive_finite(),
        info.square_height().positive_finite(),
    ensures
        ({
            let m = info.inverse_matrix(sin, cos);
            let w = info.square_width().scaled();
            let h = info.square_height().scaled();
            let dw = info.display_width(sin, cos).scaled();
            let dh = info.display_height(sin, cos).scaled();
            &&& m.len() == 4
            &&& m[0].finite() ==> undoes(m[0], w, cos.scaled(), dw)
            &&& m[1].finite() ==> undoes(m[1], w, sin.scaled(), dh)
            &&& m[2].finite() ==> undoes(m[2], h, -sin.scaled(), dw)
            &&& m[3].finite() ==> undoes(m[3], h, cos.scaled(), dh)
        }),
{
    let m = info.inverse_matrix(sin, cos);
    let dw = info.display_width(sin, cos);
    let dh = info.display_height(sin, cos);
    let w = info.square_width();
    let h = info.square_height();
    assert(sin.opposite().scaled() == -sin.scaled()) by {
        assert(sin.opposite().magnitude() == sin.magnitude());
    }
    if m[0].finite() {
        lemma_entry(cos, dw, w);
    }
    if m[1].finite() {
        lemma_entry(sin, dh, w);
    }
    if m[2].finite() {
        lemma_entry(sin.opposite(), dw, h);
    }
    if m[3].finite() {
        lemma_entry(cos, dh, h);
    }
}

/// What does not exceed a power of two does not exceed it when rounded.
proof fn lemma_below_power(num: int, den: int, exponent: nat)
    requires
        den > 0,
        52 <= exponent <= 1200,
        0 <= num <= pow2(exponent) * den,
    ensures
        0 <= nearest_pattern(num, den, 52, INFINITY_64 as int) < INFINITY_64,
        0 <= scaled_magnitude(nearest_pattern(num, den, 52, INFINITY_64 as int), 52) <= pow2(
            exponent,
        ),
{
    let infinity = INFINITY_64 as int;
    let q = (exponent - 52) as nat;
    let bound = (q * 0x10_0000_0000_0000 + 0x10_0000_0000_0000) as int;
    lemma2_to64_rest();
    lemma_scaled_magnitude_of_parts(0x10_0000_0000_0000, q, 52);
    lemma_pow2_adds(52, q);
    lemma_nearest_exists(num, den, 52, infinity);
    let m = nearest_pattern(num, den, 52, infinity);
    lemma_nearest_bounded(num, den, m, bound, 52, infinity);
    lemma_scaled_zero(52);
    if m < bound {
        lemma_scaled_magnitude_monotone(m, bound, 52);
    }
    if m > 0 {
        lemma_scaled_magnitude_monotone(0, m, 52);
    }
}

/// The product of a number of size up to one and a side does not exceed the bound of the side.
proof fn lemma_product_below(factor: Binary64, side: Binary64, exponent: nat)
    requires
        factor.magnitude() <= ONE_64,
        side.finite(),
        52 <= exponent <= 1200,
        size(side.scaled()) <= pow2(exponent),
    ensures
        factor.product(side).finite(),
        size(factor.product(side).scaled()) <= pow2(exponent),
{
    let unit = pow2(1074) as int;
    let x = scaled_magnitude(factor.magnitude(), 52);
    let y = scaled_magnitude(side.magnitude(), 52);
    lemma_known_patterns();
    lemma_pow2_pos(1074);
    if factor.magnitude() < ONE_64 {
        lemma_scaled_magnitude_monotone(factor.magnitude(), ONE_64 as int, 52);
    }
    if side.magnitude() > 0 {
        lemma_scaled_magnitude_monotone(0, side.magnitude(), 52);
    }
    assert(0 <= x * y <= pow2(exponent) * unit) by (nonlinear_arith)
        requires
            0 <= x <= unit,
            0 <= y <= pow2(exponent),
    ;
    lemma_below_power(x * y, unit, exponent);
    let r = factor.product(side);
    assert(r.magnitude() == nearest_pattern(x * y, unit, 52, INFINITY_64 as int));
}

/// Pictures of ordinary size, with sides from `2^-20` to `2^40`, have a finite box and matrix for every
/// sine and cosine of size up to one.
pub proof fn law_placement_is_finite(info: OutputInfo, sin: Binary64, cos: Binary64)
    requires
        info.square_width().finite(),
        info.square_height().finite(),
        pow2(1054) <= info.square_width().scaled() <= pow2(1114),
        pow2(1054) <= info.square_height().scaled() <= pow2(1114),
        sin.magnitude() <= ONE_64,
        cos.magnitude() <= ONE_64,
    ensures
        info.display_width(sin, cos).finite(),
        info.display_height(sin, cos).finite(),
        forall|i: int| 0 <= i < 4 ==> (#[trigger] info.inverse_matrix(sin, cos)[i]).finite(),
{
    let w = info.square_width();
    let h = info.square_height();
    let dw = info.display_width(sin, cos);
    let dh = info.display_height(sin, cos);
    lemma_pow2_pos(1054);
    lemma_box_below(cos, w, sin, h);
    lemma_box_below(sin, w, cos, h);
    assert(sin.opposite().magnitude() == sin.magnitude());
    lemma_entry_finite(cos, dw, w);
    lemma_entry_finite(sin, dh, w);
    lemma_entry_finite(sin.opposite(), dw, h);
    lemma_entry_finite(cos, dh, h);
}

proof fn lemma_box_below(first: Binary64, w: Binary64, second: Binary64, h: Binary64)
    requires
        first.magnitude() <= ONE_64,
        second.magnitude() <= ONE_64,
        w.finite(),
        h.finite(),
        size(w.scaled()) <= pow2(1114),
        size(h.scaled()) <= pow2(1114),
    ensures
        first.unsigned().product(w).sum(second.unsigned().product(h)).finite(),
        size(first.unsigned().product(w).sum(second.unsigned().product(h)).scaled()) <= pow2(1115),
{
    let p = first.unsigned().product(w);
    let q = second.unsigned().product(h);
    assert(first.unsigned().magnitude() == first.magnitude());
    assert(second.unsigned().magnitude() == second.magnitude());
    lemma_product_below(first.unsigned(), w, 1114);
    lemma_product_below(second.unsigned(), h, 1114);
    lemma2_to64();
    lemma_pow2_adds(1, 1114);
    lemma_scaled_zero(52);
    let exact = p.scaled() + q.scaled();
    lemma_below_power(size(exact), 1, 1115);
    let r = p.sum(q);
    if exact != 0 {
        assert(r.magnitude() == nearest_pattern(size(exact), 1, 52, INFINITY_64 as int));
    } else {
        assert(r.magnitude() == 0);
        lemma_pow2_pos(1115);
    }
}

proof fn lemma_entry_finite(factor: Binary64, box_side: Binary64, side: Binary64)
    requires
        factor.magnitude() <= ONE_64,
        box_side.finite(),
        size(box_side.scaled()) <= pow2(1115),
        side.finite(),
        side.scaled() >= pow2(1054),
    ensures
        factor.product(box_side).quotient(side).narrowed().finite(),
{
    let p = factor.product(box_side);
    let q = p.quotient(side);
    let unit = pow2(1074) as int;
    lemma_pow2_pos(1054);
    lemma_pow2_pos(1074);
    lemma_pow2_pos(925);
    lemma_not_negative(side);
    lemma_product_below(factor, box_side, 1115);
    let x = scaled_magnitude(p.magnitude(), 52);
    let y = scaled_magnitude(side.magnitude(), 52);
    lemma_scaled_zero(52);
    if p.magnitude() > 0 {
        lemma_scaled_magnitude_monotone(0, p.magnitude(), 52);
    }
    lemma_pow2_adds(1115, 1074);
    lemma_pow2_adds(1135, 1054);
    assert(0 <= x * unit <= pow2(1135) * y) by (nonlinear_arith)
        requires
            0 <= x <= pow2(1115),
            y >= pow2(1054),
            unit > 0,
            pow2(1115) * unit == pow2(1135) * pow2(1054),
            pow2(1135) >= 0,
    ;
    lemma_below_power(x * unit, y, 1135);
    assert(q.magnitude() == nearest_pattern(x * unit, y, 52, INFINITY_64 as int));
    law_narrowings_are_accurate(q);
    let c = size(q.scaled());
    let m = q.narrowed().magnitude();
    lemma2_to64();
    lemma_pow2_adds(253, 925);
    lemma_pow2_strictly_increases(1135, 1178);
    lemma_scaled_magnitude_of_parts(0x80_0000, 230, 23);
    lemma_pow2_adds(23, 230);
    lemma_nearest_bounded(c, pow2(925) as int, m, 0x7380_0000, 23, INFINITY_32 as int);
}

} // verus!
