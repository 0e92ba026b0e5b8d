//! How near the results of arithmetic are to the exact ones.
//!
//! A result that is off the exact one by no more than half the distance to its neighbours is off by
//! no more than one part in `2^53` of itself, or by half the smallest subnormal number.

use crate::geometry_laws::lemma_representable;
use crate::ieee::{
    lemma_scaled_magnitude_monotone, scaled_magnitude, Binary32, Binary64, INFINITY_32,
    INFINITY_64, ONE_64,
};
use crate::media_time::lemma_known_patterns;
use crate::numbers::{
    law_representable_values_are_exact, lemma_nearest_bounded, lemma_nearest_exists,
    lemma_scaled_zero, nearest_pattern, rounded32, rounded64,
};
use crate::rounding::{lemma_scaled_magnitude_of_parts, nearest};
use vstd::arithmetic::power2::{
    lemma2_to64, lemma2_to64_rest, lemma_pow2_adds, lemma_pow2_pos, pow2,
};
use vstd::prelude::*;

verus! {

/// The size of a number.
pub open spec fn size(x: int) -> int {
    if x < 0 {
        -x
    } else {
        x
    }
}

/// Whether `value` is near `num / den` for a format with the given fraction width: off by no more than
/// half the distance between neighbours.
pub open spec fn accurate(value: int, num: int, den: int, fraction_bits: nat) -> bool {
    2 * pow2(fraction_bits) * size(value * den - num) <= den * (size(value) + pow2(fraction_bits))
}

/// How far a pattern is from the next one.
proof fn lemma_gap(m: int, p: nat)
    requires
        m >= 0,
    ensures
        ({
            let gap = scaled_magnitude(m + 1, p) - scaled_magnitude(m, p);
            &&& gap >= 1
            &&& pow2(p) * gap <= scaled_magnitude(m, p) + pow2(p)
            &&& m >= pow2(p) ==> pow2(p) * gap <= scaled_magnitude(m, p)
        }),
{
    let hidden = pow2(p) as int;
    lemma_pow2_pos(p);
    lemma2_to64();
    let e = m / hidden;
    let f = m % hidden;
    assert(m == e * hidden + f && 0 <= f < hidden && e >= 0) by (nonlinear_arith)
        requires
            hidden > 0,
            m >= 0,
            e == m / hidden,
            f == m % hidden,
    ;
    lemma_scaled_magnitude_monotone(m, m + 1, p);
    if e == 0 {
        lemma_scaled_magnitude_of_parts(f, 0, p);
        lemma_scaled_magnitude_of_parts(f + 1, 0, p);
        assert(0 * hidden == 0) by (nonlinear_arith);
        assert(hidden * 1 == hidden) by (nonlinear_arith);
    } else {
        let q = (e - 1) as nat;
        let t = hidden + f;
        let w = pow2(q) as int;
        lemma_pow2_pos(q);
        assert(m == q * hidden + t) by (nonlinear_arith)
            requires
                m == e * hidden + f,
                q == e - 1,
                t == hidden + f,
        ;
        lemma_scaled_magnitude_of_parts(t, q, p);
        lemma_scaled_magnitude_of_parts(t + 1, q, p);
        assert((t + 1) * w - t * w == w && hidden * w <= t * w) by (nonlinear_arith)
            requires
                t >= hidden,
                w > 0,
        ;
    }
}

/// The nearest pattern is accurate, and more so where it is not subnormal.
pub proof fn lemma_nearest_accurate(num: int, den: int, m: int, p: nat, infinity: int)
    requires
        num >= 0,
        den > 0,
        m < infinity,
        nearest(num, den, m, p, infinity),
    ensures
        accurate(scaled_magnitude(m, p), num, den, p),
        m >= pow2(p) ==> 2 * pow2(p) * size(scaled_magnitude(m, p) * den - num) <= den
            * scaled_magnitude(m, p),
        scaled_magnitude(m, p) >= 0,
{
    let here = scaled_magnitude(m, p);
    let above = scaled_magnitude(m + 1, p);
    let h = pow2(p) as int;
    lemma_pow2_pos(p);
    lemma_scaled_zero(p);
    lemma_scaled_magnitude_monotone(m, m + 1, p);
    lemma_gap(m, p);
    let bound = if m >= h {
        here
    } else {
        here + h
    };
    assert(den * bound <= den * (here + h)) by (nonlinear_arith)
        requires
            bound <= here + h,
            den > 0,
    ;
    let gap = above - here;
    assert(2 * h * (num - here * den) <= den * bound) by (nonlinear_arith)
        requires
            2 * num <= den * (here + above),
            gap == above - here,
            h * gap <= bound,
            den > 0,
            h > 0,
    ;
    if m > 0 {
        let below = scaled_magnitude(m - 1, p);
        lemma_gap(m - 1, p);
        let step = here - below;
        assert(h * step <= bound) by {
            if m >= h {
                if m - 1 < h {
                    assert(m == h);
                    lemma_scaled_magnitude_of_parts(h, 0, p);
                    lemma_scaled_magnitude_of_parts(h - 1, 0, p);
                    lemma2_to64();
                    assert(0 * h == 0 && h * 1 == h && (h - 1) * 1 == h - 1) by (nonlinear_arith);
                }
            }
        }
        assert(2 * h * (here * den - num) <= den * bound) by (nonlinear_arith)
            requires
                den * (below + here) <= 2 * num,
                step == here - below,
                h * step <= bound,
                den > 0,
                h > 0,
        ;
    } else {
        assert(here == 0);
        assert(2 * h * (0 * den - num) <= 0) by (nonlinear_arith)
            requires
                num >= 0,
                h > 0,
        ;
        assert(0 * den == 0) by (nonlinear_arith);
        assert(den * bound >= 0) by (nonlinear_arith)
            requires
                den > 0,
                bound >= 0,
        ;
    }
}

/// A number that is too large for the format: at least halfway from the largest number to infinity.
pub open spec fn beyond(num: int, den: int, fraction_bits: nat, infinity: int) -> bool {
    2 * num >= den * (scaled_magnitude(infinity - 1, fraction_bits) + scaled_magnitude(
        infinity,
        fraction_bits,
    ))
}

/// What rounding `num / den` gives, with the sign of the result.
proof fn lemma_rounded64(negative: bool, num: int, den: int)
    requires
        num >= 0,
        den > 0,
    ensures
        ({
            let r = rounded64(negative, num, den);
            &&& !r.nan()
            &&& r.negative() == negative
            &&& nearest(num, den, r.magnitude(), 52, INFINITY_64 as int)
            &&& r.finite() <==> !beyond(num, den, 52, INFINITY_64 as int)
            &&& r.finite() ==> accurate(
                r.scaled(),
                if negative {
                    -num
                } else {
                    num
                },
                den,
                52,
            )
        }),
{
    let infinity = INFINITY_64 as int;
    lemma_nearest_exists(num, den, 52, infinity);
    let m = nearest_pattern(num, den, 52, infinity);
    let r = rounded64(negative, num, den);
    assert(r.magnitude() == m && r.negative() == negative);
    if m < infinity {
        lemma_nearest_accurate(num, den, m, 52, infinity);
        let v = scaled_magnitude(m, 52);
        assert((-v) * den - (-num) == -(v * den - num)) by (nonlinear_arith);
        if beyond(num, den, 52, infinity) {
            let a = scaled_magnitude(m, 52);
            let b = scaled_magnitude(m + 1, 52);
            let y = scaled_magnitude(infinity - 1, 52);
            let z = scaled_magnitude(infinity, 52);
            lemma_scaled_magnitude_monotone(infinity - 1, infinity, 52);
            if m < infinity - 1 {
                lemma_scaled_magnitude_monotone(m, infinity - 1, 52);
                if m + 1 < infinity - 1 {
                    lemma_scaled_magnitude_monotone(m + 1, infinity - 1, 52);
                }
                assert(den * (a + b) < den * (y + z)) by (nonlinear_arith)
                    requires
                        a + b < y + z,
                        den > 0,
                ;
            } else {
                assert(m % 2 == 1);
            }
        }
    }
}

/// The sum of two finite numbers has the nearest value to the exact sum, and is infinite only where
/// that is too large. The order of the two does not matter.
pub proof fn law_sums_are_accurate(a: Binary64, b: Binary64)
    requires
        a.finite(),
        b.finite(),
    ensures
        ({
            let r = a.sum(b);
            let exact = a.scaled() + b.scaled();
            &&& !r.nan()
            &&& r == b.sum(a)
            &&& r.finite() <==> !beyond(size(exact), 1, 52, INFINITY_64 as int)
            &&& r.finite() ==> accurate(r.scaled(), exact, 1, 52)
            &&& nearest(size(exact), 1, r.magnitude(), 52, INFINITY_64 as int)
            &&& exact > 0 ==> !r.negative()
            &&& exact < 0 ==> r.negative()
            &&& exact == 0 ==> r.magnitude() == 0 && r.negative() == (a.negative() && b.negative())
        }),
{
    let exact = a.scaled() + b.scaled();
    lemma_scaled_zero(52);
    lemma_pow2_pos(52);
    if exact == 0 {
        assert(2 * pow2(52) * 0 == 0 && 0 * 1 == 0) by (nonlinear_arith);
        lemma_nearest_exists(0, 1, 52, INFINITY_64 as int);
        lemma_nearest_bounded(
            0,
            1,
            nearest_pattern(0, 1, 52, INFINITY_64 as int),
            0,
            52,
            INFINITY_64 as int,
        );
        lemma_scaled_magnitude_monotone(0, INFINITY_64 as int, 52);
        lemma_scaled_magnitude_monotone(0, INFINITY_64 - 1, 52);
    } else {
        lemma_rounded64(exact < 0, size(exact), 1);
    }
}

/// The difference of two finite numbers has the nearest value to the exact difference, and is infinite
/// only where that is too large.
pub proof fn law_differences_are_accurate(a: Binary64, b: Binary64)
    requires
        a.finite(),
        b.finite(),
    ensures
        ({
            let r = a.difference(b);
            let exact = a.scaled() - b.scaled();
            &&& !r.nan()
            &&& r.finite() <==> !beyond(size(exact), 1, 52, INFINITY_64 as int)
            &&& r.finite() ==> accurate(r.scaled(), exact, 1, 52)
            &&& nearest(size(exact), 1, r.magnitude(), 52, INFINITY_64 as int)
            &&& exact > 0 ==> !r.negative()
            &&& exact < 0 ==> r.negative()
            &&& exact == 0 ==> r.magnitude() == 0 && r.negative() == (a.negative() && !b.negative())
        }),
{
    let other = b.opposite();
    assert(other.magnitude() == b.magnitude() && other.scaled() == -b.scaled());
    law_sums_are_accurate(a, other);
}

/// The sizes of values and of patterns are the same.
proof fn lemma_sizes(a: Binary64)
    ensures
        scaled_magnitude(a.magnitude(), 52) >= 0,
        size(a.scaled()) == scaled_magnitude(a.magnitude(), 52),
        a.scaled() == (if a.negative() {
            -scaled_magnitude(a.magnitude(), 52)
        } else {
            scaled_magnitude(a.magnitude(), 52)
        }),
{
    lemma_scaled_zero(52);
    if a.magnitude() > 0 {
        lemma_scaled_magnitude_monotone(0, a.magnitude(), 52);
    }
}

/// The product of two finite numbers has the nearest value to the exact product, and is infinite only
/// where that is too large.
pub proof fn law_products_are_accurate(a: Binary64, b: Binary64)
    requires
        a.finite(),
        b.finite(),
    ensures
        ({
            let r = a.product(b);
            let exact = a.scaled() * b.scaled();
            &&& !r.nan()
            &&& r == b.product(a)
            &&& r.negative() == (a.negative() != b.negative())
            &&& r.finite() <==> !beyond(
                size(exact),
                pow2(1074) as int,
                52,
                INFINITY_64 as int,
            )
            &&& r.finite() ==> accurate(r.scaled(), exact, pow2(1074) as int, 52)
            &&& nearest(
                size(exact),
                pow2(1074) as int,
                r.magnitude(),
                52,
                INFINITY_64 as int,
            )
        }),
{
    lemma_sizes(a);
    lemma_sizes(b);
    lemma_pow2_pos(1074);
    let x = scaled_magnitude(a.magnitude(), 52);
    let y = scaled_magnitude(b.magnitude(), 52);
    assert(x * y == y * x && (-x) * y == -(x * y) && x * (-y) == -(x * y) && (-x) * (-y) == x * y
        && x * y >= 0) by (nonlinear_arith)
        requires
            x >= 0,
            y >= 0,
    ;
    lemma_rounded64(a.negative() != b.negative(), x * y, pow2(1074) as int);
}

/// The quotient of two finite numbers, the second not zero, has the nearest value to the exact
/// quotient, and is infinite only where that is too large.
pub proof fn law_quotients_are_accurate(a: Binary64, b: Binary64)
    requires
        a.finite(),
        b.finite(),
        b.magnitude() > 0,
    ensures
        ({
            let r = a.quotient(b);
            &&& !r.nan()
            &&& r.negative() == (a.negative() != b.negative())
            &&& r.finite() <==> !beyond(
                size(a.scaled()) * pow2(1074),
                size(b.scaled()),
                52,
                INFINITY_64 as int,
            )
            &&& r.finite() ==> accurate(
                size(r.scaled()),
                size(a.scaled()) * pow2(1074),
                size(b.scaled()),
                52,
            )
            &&& nearest(
                size(a.scaled()) * pow2(1074),
                size(b.scaled()),
                r.magnitude(),
                52,
                INFINITY_64 as int,
            )
        }),
{
    lemma_sizes(a);
    lemma_sizes(b);
    lemma_pow2_pos(1074);
    lemma_scaled_zero(52);
    lemma_scaled_magnitude_monotone(0, b.magnitude(), 52);
    let x = scaled_magnitude(a.magnitude(), 52);
    let y = scaled_magnitude(b.magnitude(), 52);
    let negative = a.negative() != b.negative();
    assert(x * pow2(1074) >= 0) by (nonlinear_arith)
        requires
            x >= 0,
            pow2(1074) > 0,
    ;
    let r = a.quotient(b);
    let unsigned = rounded64(false, x * pow2(1074), y);
    lemma_rounded64(negative, x * pow2(1074), y);
    lemma_rounded64(false, x * pow2(1074), y);
    lemma_nearest_exists(x * pow2(1074), y, 52, INFINITY_64 as int);
    assert(r == rounded64(negative, x * pow2(1074), y));
    assert(r.magnitude() == unsigned.magnitude());
    lemma_sizes(r);
    lemma_sizes(unsigned);
}

/// An integer of at most 64 bits becomes the nearest number, of the same sign, and itself where it has
/// no more than 53 digits.
pub proof fn law_integers_are_accurate(value: int)
    requires
        -0x1_0000_0000_0000_0000 <= value <= 0x1_0000_0000_0000_0000,
    ensures
        ({
            let r = Binary64::of_integer(value);
            &&& r.finite()
            &&& r.negative() == (value < 0)
            &&& accurate(r.scaled(), value * pow2(1074), 1, 52)
            &&& nearest(size(value) * pow2(1074), 1, r.magnitude(), 52, INFINITY_64 as int)
            &&& size(value) < pow2(53) ==> r.scaled() == value * pow2(1074)
            &&& value != 0 ==> r.magnitude() >= ONE_64 && 2 * pow2(52) * size(
                r.scaled() - value * pow2(1074),
            ) <= size(r.scaled())
        }),
{
    let unit = pow2(1074) as int;
    let infinity = INFINITY_64 as int;
    let n = size(value);
    lemma_known_patterns();
    lemma_pow2_pos(1074);
    lemma2_to64();
    lemma2_to64_rest();
    let r = Binary64::of_integer(value);
    assert((-value) * unit == -(value * unit)) by (nonlinear_arith);
    assert(n * unit >= 0) by (nonlinear_arith)
        requires
            n >= 0,
            unit > 0,
    ;
    lemma_rounded64(value < 0, n * unit, 1);
    lemma_sizes(r);
    let top: int = 0x43f0_0000_0000_0000;
    lemma_scaled_magnitude_of_parts(0x10_0000_0000_0000, 1086, 52);
    lemma_pow2_adds(52, 1086);
    lemma_pow2_adds(64, 1074);
    lemma_nearest_exists(n * unit, 1, 52, infinity);
    let m = nearest_pattern(n * unit, 1, 52, infinity);
    assert(n * unit <= 0x1_0000_0000_0000_0000 * unit) by (nonlinear_arith)
        requires
            n <= 0x1_0000_0000_0000_0000,
            unit > 0,
    ;
    lemma_nearest_bounded(n * unit, 1, m, top, 52, infinity);
    assert(r.magnitude() == m);
    if n > 0 {
        assert(n * unit >= unit) by (nonlinear_arith)
            requires
                n >= 1,
                unit > 0,
        ;
        lemma_nearest_bounded(n * unit, 1, m, ONE_64 as int, 52, infinity);
        lemma_nearest_accurate(n * unit, 1, m, 52, infinity);
        if n < pow2(53) {
            let exact = lemma_representable(n, 1074);
            law_representable_values_are_exact(exact, 1, 52, infinity);
        }
    } else {
        assert(0 * unit == 0) by (nonlinear_arith);
        lemma_nearest_bounded(0, 1, m, 0, 52, infinity);
    }
}

/// What rounding `num / den` to a binary32 number gives, with the sign of the result.
proof fn lemma_rounded32(negative: bool, num: int, den: int)
    requires
        num >= 0,
        den > 0,
    ensures
        ({
            let r = rounded32(negative, num, den);
            let v = scaled_magnitude(r.magnitude(), 23);
            &&& !r.nan()
            &&& r.negative() == negative
            &&& nearest(num, den, r.magnitude(), 23, INFINITY_32 as int)
            &&& v >= 0
            &&& r.scaled() == (if negative {
                -v
            } else {
                v
            })
            &&& r.finite() ==> accurate(v, num, den, 23)
        }),
{
    let infinity = INFINITY_32 as int;
    lemma_nearest_exists(num, den, 23, infinity);
    let m = nearest_pattern(num, den, 23, infinity);
    let r = rounded32(negative, num, den);
    assert(r.magnitude() == m && r.negative() == negative);
    lemma_scaled_zero(23);
    if m > 0 {
        lemma_scaled_magnitude_monotone(0, m, 23);
    }
    if m < infinity {
        lemma_nearest_accurate(num, den, m, 23, infinity);
    }
}

/// A finite number becomes a binary32 number of its sign and the nearest value, which is finite where
/// the number is not too large.
pub proof fn law_narrowings_are_accurate(number: Binary64)
    requires
        number.finite(),
    ensures
        ({
            let r = number.narrowed();
            &&& !r.nan()
            &&& r.negative() == number.negative()
            &&& r.finite() ==> accurate(r.scaled(), number.scaled(), pow2(925) as int, 23)
            &&& nearest(
                size(number.scaled()),
                pow2(925) as int,
                r.magnitude(),
                23,
                INFINITY_32 as int,
            )
        }),
{
    let x = scaled_magnitude(number.magnitude(), 52);
    let den = pow2(925) as int;
    lemma_sizes(number);
    lemma_pow2_pos(925);
    lemma_rounded32(number.negative(), x, den);
    let v = scaled_magnitude(number.narrowed().magnitude(), 23);
    assert((-v) * den - (-x) == -(v * den - x)) by (nonlinear_arith);
}

/// The quotient of two finite binary32 numbers, the second not zero, has the nearest value to the exact
/// quotient, and the sign of it.
pub proof fn law_narrow_quotients_are_accurate(a: Binary32, b: Binary32)
    requires
        a.finite(),
        b.finite(),
        b.magnitude() > 0,
    ensures
        ({
            let r = a.quotient(b);
            &&& !r.nan()
            &&& r.negative() == (a.negative() != b.negative())
            &&& nearest(
                size(a.scaled()) * pow2(149),
                size(b.scaled()),
                r.magnitude(),
                23,
                INFINITY_32 as int,
            )
            &&& r.finite() ==> accurate(
                size(r.scaled()),
                size(a.scaled()) * pow2(149),
                size(b.scaled()),
                23,
            )
        }),
{
    lemma_scaled_zero(23);
    lemma_pow2_pos(149);
    lemma_scaled_magnitude_monotone(0, b.magnitude(), 23);
    if a.magnitude() > 0 {
        lemma_scaled_magnitude_monotone(0, a.magnitude(), 23);
    }
    let x = scaled_magnitude(a.magnitude(), 23);
    let y = scaled_magnitude(b.magnitude(), 23);
    assert(x * pow2(149) >= 0) by (nonlinear_arith)
        requires
            x >= 0,
            pow2(149) > 0,
    ;
    lemma_rounded32(a.negative() != b.negative(), x * pow2(149), y);
}

/// The nearest pattern is no further from the exact value than any other, and even where another one is
/// as near.
pub proof fn law_no_pattern_is_nearer(num: int, den: int, m: int, other: int, p: nat, infinity: int)
    requires
        den > 0,
        nearest(num, den, m, p, infinity),
        0 <= other <= infinity,
        other != m,
        m < infinity || scaled_magnitude(infinity, p) * den >= num,
    ensures
        size(scaled_magnitude(m, p) * den - num) <= size(scaled_magnitude(other, p) * den - num),
        size(scaled_magnitude(m, p) * den - num) == size(scaled_magnitude(other, p) * den - num)
            ==> m % 2 == 0,
{
    let here = scaled_magnitude(m, p) * den;
    let there = scaled_magnitude(other, p) * den;
    if other > m {
        let above = scaled_magnitude(m + 1, p);
        lemma_scaled_magnitude_monotone(m, m + 1, p);
        if m + 1 < other {
            lemma_scaled_magnitude_monotone(m + 1, other, p);
        }
        let v = scaled_magnitude(m, p);
        let w = scaled_magnitude(other, p);
        assert(den * (v + above) == v * den + above * den && v * den < above * den && above * den <= w
            * den) by (nonlinear_arith)
            requires
                v < above <= w,
                den > 0,
        ;
    } else {
        let below = scaled_magnitude(m - 1, p);
        lemma_scaled_magnitude_monotone(m - 1, m, p);
        if other < m - 1 {
            lemma_scaled_magnitude_monotone(other, m - 1, p);
        }
        let v = scaled_magnitude(m, p);
        let w = scaled_magnitude(other, p);
        assert(den * (below + v) == below * den + v * den && below * den < v * den && w * den
            <= below * den) by (nonlinear_arith)
            requires
                w <= below < v,
                den > 0,
        ;
    }
}

/// A sum is a NaN exactly where one of the two is, or where they are opposite infinities; otherwise an
/// infinity stays.
pub proof fn law_sums_of_infinities(a: Binary64, b: Binary64)
    ensures
        a.sum(b).nan() <==> (a.nan() || b.nan() || (a.magnitude() == INFINITY_64 && b.magnitude()
            == INFINITY_64 && a.negative() != b.negative())),
        a.magnitude() == INFINITY_64 && !a.sum(b).nan() ==> a.sum(b) == a,
        b.magnitude() == INFINITY_64 && !a.sum(b).nan() ==> a.sum(b) == b,
{
    if a.finite() && b.finite() {
        law_sums_are_accurate(a, b);
    }
}

/// A product is a NaN exactly where one of the two is, or where one is infinite and the other zero;
/// otherwise that of an infinity is infinite, with the sign of the product.
pub proof fn law_products_of_infinities(a: Binary64, b: Binary64)
    ensures
        a.product(b).nan() <==> (a.nan() || b.nan() || (a.magnitude() == INFINITY_64
            && b.magnitude() == 0) || (a.magnitude() == 0 && b.magnitude() == INFINITY_64)),
        (a.magnitude() == INFINITY_64 || b.magnitude() == INFINITY_64) && !a.product(b).nan()
            ==> a.product(b).magnitude() == INFINITY_64 && a.product(b).negative() == (a.negative()
            != b.negative()),
{
    if a.finite() && b.finite() {
        law_products_are_accurate(a, b);
    }
}

/// A quotient is a NaN exactly where one of the two is, where both are zero or where both are infinite;
/// otherwise an infinity over a number, and a number over zero, is infinite, and a number over an
/// infinity is zero.
pub proof fn law_quotients_of_infinities(a: Binary64, b: Binary64)
    ensures
        a.quotient(b).nan() <==> (a.nan() || b.nan() || (a.magnitude() == 0 && b.magnitude() == 0) || (
        a.magnitude() == INFINITY_64 && b.magnitude() == INFINITY_64)),
        (a.magnitude() == INFINITY_64 || b.magnitude() == 0) && !a.quotient(b).nan() ==> a.quotient(
            b,
        ).magnitude() == INFINITY_64,
        b.magnitude() == INFINITY_64 && !a.quotient(b).nan() ==> a.quotient(b).magnitude() == 0,
        !a.quotient(b).nan() ==> a.quotient(b).negative() == (a.negative() != b.negative()),
{
    if a.finite() && b.finite() && b.magnitude() > 0 {
        law_quotients_are_accurate(a, b);
    }
}

/// A NaN becomes a binary32 NaN, and an infinity the infinity of its sign.
pub proof fn law_narrowings_of_infinities(number: Binary64)
    ensures
        number.narrowed().nan() <==> number.nan(),
        number.magnitude() == INFINITY_64 ==> number.narrowed().magnitude() == INFINITY_32
            && number.narrowed().negative() == number.negative(),
{
    if number.finite() {
        law_narrowings_are_accurate(number);
    }
}

/// The opposite of a number has the opposite value, and its size is without a sign; either is undone by
/// taking it again.
pub proof fn law_signs(number: Binary64)
    ensures
        number.opposite().scaled() == -number.scaled(),
        number.opposite().opposite() == number,
        number.unsigned().scaled() == size(number.scaled()),
        number.unsigned().unsigned() == number.unsigned(),
        !number.unsigned().negative(),
{
    assert(number.opposite().magnitude() == number.magnitude());
    assert(number.unsigned().magnitude() == number.magnitude());
    lemma_sizes(number);
}

} // verus!
