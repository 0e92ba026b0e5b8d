//! Rounding an exact value to the nearest number of a binary format.
//!
//! The numbers of a format without their signs are the patterns from zero to that of infinity, in
//! the order of their values (see [`crate::ieee::scaled_magnitude`]).  Rounding to nearest with ties
//! to even therefore means: take the pattern whose value is nearest, and of two patterns that are
//! equally near the even one.

use crate::ieee::{lemma_scaled_magnitude_monotone, scaled_magnitude};
use vstd::arithmetic::power2::{
    lemma2_to64, lemma2_to64_rest, lemma_pow2_adds, lemma_pow2_pos, lemma_pow2_strictly_increases,
    pow2,
};
use vstd::prelude::*;

verus! {

/// Whether `magnitude` is the pattern nearest to `num / den`, counted in units of the smallest
/// subnormal number of a format with the given fraction width and pattern of infinity.  Ties go to
/// the even pattern; infinity stands for the power of two that follows the largest finite number.
pub open spec fn nearest(
    num: int,
    den: int,
    magnitude: int,
    fraction_bits: nat,
    infinity: int,
) -> bool {
    let here = scaled_magnitude(magnitude, fraction_bits);
    &&& 0 <= magnitude <= infinity
    &&& magnitude < infinity ==> {
        let above = scaled_magnitude(magnitude + 1, fraction_bits);
        2 * num < den * (here + above) || (2 * num == den * (here + above) && magnitude % 2 == 0)
    }
    &&& magnitude > 0 ==> {
        let below = scaled_magnitude(magnitude - 1, fraction_bits);
        den * (below + here) < 2 * num || (den * (below + here) == 2 * num && magnitude % 2 == 0)
    }
}

/// There is only one nearest pattern.
pub proof fn lemma_nearest_unique(
    num: int,
    den: int,
    a: int,
    b: int,
    fraction_bits: nat,
    infinity: int,
)
    requires
        den > 0,
        nearest(num, den, a, fraction_bits, infinity),
        nearest(num, den, b, fraction_bits, infinity),
    ensures
        a == b,
{
    if a < b {
        lemma_nearest_excludes_above(num, den, a, b, fraction_bits, infinity);
    }
    if b < a {
        lemma_nearest_excludes_above(num, den, b, a, fraction_bits, infinity);
    }
}

proof fn lemma_nearest_excludes_above(
    num: int,
    den: int,
    a: int,
    b: int,
    fraction_bits: nat,
    infinity: int,
)
    requires
        den > 0,
        a < b,
        nearest(num, den, a, fraction_bits, infinity),
    ensures
        !nearest(num, den, b, fraction_bits, infinity),
{
    let va = scaled_magnitude(a, fraction_bits);
    let va1 = scaled_magnitude(a + 1, fraction_bits);
    let vb1 = scaled_magnitude(b - 1, fraction_bits);
    let vb = scaled_magnitude(b, fraction_bits);
    lemma_scaled_magnitude_monotone(a, a + 1, fraction_bits);
    lemma_scaled_magnitude_monotone(b - 1, b, fraction_bits);
    if a + 1 < b {
        if a + 1 < b - 1 {
            lemma_scaled_magnitude_monotone(a + 1, b - 1, fraction_bits);
        }
        assert(va + va1 < vb1 + vb);
        assert(den * (va + va1) < den * (vb1 + vb)) by (nonlinear_arith)
            requires
                den > 0,
                va + va1 < vb1 + vb,
        ;
    }
}

/// The pattern whose value is `t` units of weight `2^q`.
pub proof fn lemma_scaled_magnitude_of_parts(t: int, q: nat, fraction_bits: nat)
    requires
        0 <= t <= 2 * pow2(fraction_bits),
        q > 0 ==> pow2(fraction_bits) <= t,
    ensures
        scaled_magnitude(q * pow2(fraction_bits) + t, fraction_bits) == t * pow2(q),
{
    let hidden = pow2(fraction_bits) as int;
    lemma_pow2_pos(fraction_bits);
    lemma2_to64();
    let m = q * hidden + t;
    if t < hidden {
        vstd::arithmetic::div_mod::lemma_fundamental_div_mod_converse(m, hidden, 0, t);
    } else if t < 2 * hidden {
        assert(m == (q + 1) * hidden + (t - hidden)) by (nonlinear_arith)
            requires
                m == q * hidden + t,
        ;
        vstd::arithmetic::div_mod::lemma_fundamental_div_mod_converse(
            m,
            hidden,
            q as int + 1,
            t - hidden,
        );
    } else {
        assert(m == (q + 2) * hidden) by (nonlinear_arith)
            requires
                m == q * hidden + t,
                t == 2 * hidden,
        ;
        vstd::arithmetic::div_mod::lemma_fundamental_div_mod_converse(m, hidden, q as int + 2, 0);
        lemma_pow2_adds(1, q);
        assert(hidden * (2 * pow2(q)) == (2 * hidden) * pow2(q)) by (nonlinear_arith);
    }
}

/// Two to the power of a small number.
pub fn power_of_two(exponent: u32) -> (power: u128)
    requires
        exponent <= 127,
    ensures
        power == pow2(exponent as nat),
{
    proof {
        lemma2_to64();
    }
    let mut power: u128 = 1;
    let mut k: u32 = 0;
    while k < exponent
        invariant
            k <= exponent <= 127,
            power == pow2(k as nat),
        decreases exponent - k,
    {
        proof {
            lemma2_to64();
            lemma_pow2_adds(1, k as nat);
            if k < 126 {
                lemma_pow2_strictly_increases(k as nat, 126);
            }
            lemma_pow2_adds(63, 63);
            assert(pow2(126) == 0x8000_0000_0000_0000 * 0x8000_0000_0000_0000) by {
                lemma2_to64_rest();
            }
        }
        power = power * 2;
        k = k + 1;
    }
    power
}

/// The number of binary digits of a value.
pub fn bit_length(value: u128) -> (length: u32)
    ensures
        length <= 128,
        value < pow2(length as nat),
        length > 0 ==> pow2((length - 1) as nat) <= value,
        length == 0 <==> value == 0,
{
    proof {
        lemma2_to64();
    }
    let mut rest: u128 = value;
    let mut length: u32 = 0;
    while rest > 0
        invariant
            length <= 128,
            rest * pow2(length as nat) <= value < (rest + 1) * pow2(length as nat),
            length > 0 && rest == 0 ==> pow2((length - 1) as nat) <= value,
            length == 0 ==> rest == value,
        decreases rest,
    {
        let half: u128 = rest / 2;
        proof {
            let p = pow2(length as nat) as int;
            lemma_pow2_pos(length as nat);
            lemma2_to64();
            lemma2_to64_rest();
            lemma_pow2_adds(1, length as nat);
            assert(half * (2 * p) <= rest * p && (rest + 1) * p <= (half + 1) * (2 * p))
                by (nonlinear_arith)
                requires
                    p > 0,
                    2 * half <= rest <= 2 * half + 1,
            ;
            assert(p <= rest * p) by (nonlinear_arith)
                requires
                    rest >= 1,
                    p > 0,
            ;
            if length == 128 {
                lemma_pow2_adds(64, 64);
            }
        }
        rest = half;
        length = length + 1;
    }
    proof {
        assert((0 + 1) * pow2(length as nat) == pow2(length as nat)) by (nonlinear_arith);
        if length > 0 {
            lemma_pow2_pos((length - 1) as nat);
        }
    }
    length
}

/// `2^exponent` for an exponent of zero or more, and one for a negative exponent.
pub open spec fn scale_up(exponent: int) -> int {
    if exponent >= 0 {
        pow2(exponent as nat) as int
    } else {
        1
    }
}

/// `2^-exponent` for a negative exponent, and one for an exponent of zero or more.
pub open spec fn scale_down(exponent: int) -> int {
    if exponent < 0 {
        pow2((-exponent) as nat) as int
    } else {
        1
    }
}

/// Whether `num / den` is `digits * 2^exponent`, or, where it is inexact, lies strictly between
/// that and `(digits + 1) * 2^exponent`.
pub open spec fn stands_for(
    digits: int,
    exponent: int,
    inexact: bool,
    num: int,
    den: int,
) -> bool {
    let value = num * scale_down(exponent);
    let low = den * digits * scale_up(exponent);
    let high = den * (digits + 1) * scale_up(exponent);
    if inexact {
        low < value < high
    } else {
        value == low
    }
}

/// A value below half of the smallest subnormal number rounds to zero.
proof fn lemma_round_small(
    digits: int,
    exponent: int,
    inexact: bool,
    num: int,
    den: int,
    fraction_bits: nat,
)
    requires
        den > 0,
        fraction_bits >= 1,
        stands_for(digits, exponent, inexact, num, den),
        0 <= digits < pow2(127),
        exponent <= -128 || (digits == 0 && !inexact),
    ensures
        forall|infinity: int| 0 <= infinity ==> nearest(num, den, 0, fraction_bits, infinity),
{
    let down = scale_down(exponent);
    let up = scale_up(exponent);
    lemma2_to64();
    if exponent < 0 {
        lemma_pow2_pos((-exponent) as nat);
    } else {
        lemma_pow2_pos(exponent as nat);
    }
    lemma_scaled_magnitude_of_parts(0, 0, fraction_bits);
    lemma_pow2_pos(fraction_bits);
    lemma_scaled_magnitude_of_parts(1, 0, fraction_bits);
    assert(scaled_magnitude(0, fraction_bits) == 0 && scaled_magnitude(1, fraction_bits) == 1);
    if exponent <= -128 {
        let h = pow2(127) as int;
        lemma_pow2_adds(1, 127);
        if exponent < -128 {
            lemma_pow2_strictly_increases(128, (-exponent) as nat);
        }
        assert(den * (digits + 1) <= den * h) by (nonlinear_arith)
            requires
                digits + 1 <= h,
                den > 0,
        ;
        assert(den * digits < den * h) by (nonlinear_arith)
            requires
                digits < h,
                den > 0,
        ;
        assert(2 * num < den) by (nonlinear_arith)
            requires
                num * down < den * h,
                down >= 2 * h,
                h > 0,
                den > 0,
        ;
    } else {
        assert(den * digits * up == 0) by (nonlinear_arith)
            requires
                digits == 0,
        ;
        assert(num == 0) by (nonlinear_arith)
            requires
                num * down == 0,
                down > 0,
        ;
    }
}

proof fn lemma_left_shift_bounds(digits: int, length: nat, shift: nat, limit: nat)
    requires
        0 <= digits < pow2(length),
        length + shift <= limit,
    ensures
        0 <= digits * pow2(shift) < pow2(limit),
{
    lemma_pow2_pos(shift);
    lemma_pow2_adds(length, shift);
    assert(0 <= digits * pow2(shift) < pow2(length) * pow2(shift)) by (nonlinear_arith)
        requires
            0 <= digits < pow2(length),
            pow2(shift) > 0,
    ;
    if length + shift < limit {
        lemma_pow2_strictly_increases(length + shift, limit);
    }
}

/// What remains to be shown once the leading digits `kept`, of weight `2^weight`, and the direction
/// of rounding are known.
proof fn lemma_round_parts(
    num: int,
    den: int,
    kept: int,
    weight: nat,
    up: bool,
    fraction_bits: nat,
    infinity: int,
)
    requires
        den > 0,
        fraction_bits >= 1,
        infinity >= 0,
        infinity % 2 == 0,
        0 <= kept < 2 * pow2(fraction_bits),
        weight > 0 ==> pow2(fraction_bits) <= kept,
        den * kept * pow2(weight) <= num < den * (kept + 1) * pow2(weight),
        up ==> 2 * num >= den * (2 * kept + 1) * pow2(weight),
        up && 2 * num == den * (2 * kept + 1) * pow2(weight) ==> kept % 2 == 1,
        !up ==> 2 * num <= den * (2 * kept + 1) * pow2(weight),
        !up && 2 * num == den * (2 * kept + 1) * pow2(weight) ==> kept % 2 == 0,
    ensures
        ({
            let pattern = weight * pow2(fraction_bits) + kept + if up {
                1int
            } else {
                0int
            };
            nearest(
                num,
                den,
                if pattern < infinity {
                    pattern
                } else {
                    infinity
                },
                fraction_bits,
                infinity,
            )
        }),
{
    let hidden = pow2(fraction_bits) as int;
    let w = pow2(weight) as int;
    lemma_pow2_pos(fraction_bits);
    lemma_pow2_pos(weight);
    let low = weight * hidden + kept;
    assert(low >= 0) by (nonlinear_arith)
        requires
            low == weight * hidden + kept,
            hidden > 0,
            kept >= 0,
    ;
    lemma_scaled_magnitude_of_parts(kept, weight, fraction_bits);
    lemma_scaled_magnitude_of_parts(kept + 1, weight, fraction_bits);
    let v = scaled_magnitude(low, fraction_bits);
    let v1 = scaled_magnitude(low + 1, fraction_bits);
    assert(v == kept * w && v1 == (kept + 1) * w);
    assert(den * (v + v1) == den * (2 * kept + 1) * w && den * v == den * kept * w && den * v1
        == den * (kept + 1) * w) by (nonlinear_arith)
        requires
            v == kept * w,
            v1 == (kept + 1) * w,
    ;
    // An even weight of one pattern step keeps the parity of the digits.
    lemma_pow2_adds(1, (fraction_bits - 1) as nat);
    lemma2_to64();
    assert(low % 2 == kept % 2) by {
        let h = pow2((fraction_bits - 1) as nat) as int;
        assert(weight * hidden == 2 * (weight * h)) by (nonlinear_arith)
            requires
                hidden == 2 * h,
        ;
    }
    let pattern = if up {
        low + 1
    } else {
        low
    };
    lemma_scaled_magnitude_monotone(low, low + 1, fraction_bits);
    lemma_scaled_magnitude_monotone(low + 1, low + 2, fraction_bits);
    let v2 = scaled_magnitude(low + 2, fraction_bits);
    assert(den * v1 < den * v2 && den * v < den * v1) by (nonlinear_arith)
        requires
            den > 0,
            v < v1 < v2,
    ;
    assert(den * (v1 + v2) == den * v1 + den * v2) by (nonlinear_arith);
    assert(den * (v + v1) == den * v + den * v1) by (nonlinear_arith);
    if low > 0 {
        let v0 = scaled_magnitude(low - 1, fraction_bits);
        lemma_scaled_magnitude_monotone(low - 1, low, fraction_bits);
        assert(den * (v0 + v) == den * v0 + den * v) by (nonlinear_arith);
        assert(den * v0 < den * v) by (nonlinear_arith)
            requires
                den > 0,
                v0 < v,
        ;
    }
    if pattern >= infinity {
        if infinity > 0 {
            // The value is at least that of the pattern below, which is at least the midpoint.
            let a = scaled_magnitude(infinity - 1, fraction_bits);
            let b = scaled_magnitude(infinity, fraction_bits);
            lemma_scaled_magnitude_monotone(infinity - 1, infinity, fraction_bits);
            if infinity <= low {
                if infinity < low {
                    lemma_scaled_magnitude_monotone(infinity, low, fraction_bits);
                }
                assert(a + b < 2 * v);
                assert(den * (a + b) < den * (2 * v)) by (nonlinear_arith)
                    requires
                        den > 0,
                        a + b < 2 * v,
                ;
                assert(den * (2 * v) == 2 * (den * v)) by (nonlinear_arith);
            }
        }
    }
}

/// Digits cut off below a weight leave a value between two neighbours of that weight, and the rest
/// tells on which side of the midpoint.
proof fn lemma_cut_digits(
    digits: int,
    exponent: int,
    inexact: bool,
    num: int,
    den: int,
    kept: int,
    rest: int,
    weight: int,
)
    requires
        den > 0,
        stands_for(digits, exponent, inexact, num, den),
        weight >= 0,
        weight - exponent >= 1,
        digits == kept * pow2((weight - exponent) as nat) + rest,
        0 <= rest < pow2((weight - exponent) as nat),
        kept >= 0,
    ensures
        den * kept * pow2(weight as nat) <= num < den * (kept + 1) * pow2(weight as nat),
        ({
            let half = pow2((weight - exponent - 1) as nat) as int;
            let middle = den * (2 * kept + 1) * pow2(weight as nat);
            &&& rest > half || (rest == half && inexact) ==> 2 * num > middle
            &&& rest == half && !inexact ==> 2 * num == middle
            &&& rest < half ==> 2 * num < middle
        }),
{
    let shift = (weight - exponent) as nat;
    let half = pow2((shift - 1) as nat) as int;
    let g = pow2(weight as nat) as int;
    let u = scale_up(exponent);
    let d = scale_down(exponent);
    lemma2_to64();
    lemma_pow2_pos(weight as nat);
    lemma_pow2_pos((shift - 1) as nat);
    lemma_pow2_adds(1, (shift - 1) as nat);
    assert(pow2(shift) == 2 * half);
    if exponent < 0 {
        lemma_pow2_pos((-exponent) as nat);
        lemma_pow2_adds(weight as nat, (-exponent) as nat);
    } else {
        lemma_pow2_pos(exponent as nat);
        lemma_pow2_adds(exponent as nat, shift);
        assert(u * (2 * half) == (2 * half) * u) by (nonlinear_arith);
    }
    assert(g * d == (2 * half) * u);
    let value = num * d;
    let top = if inexact {
        digits + 1
    } else {
        digits
    };
    let du = den * u;
    assert(du > 0) by (nonlinear_arith)
        requires
            den > 0,
            u > 0,
            du == den * u,
    ;
    assert(den * digits * u == du * digits && den * (digits + 1) * u == du * (digits + 1))
        by (nonlinear_arith)
        requires
            du == den * u,
    ;
    // Everything below is compared after multiplying by `d`.
    assert(den * kept * g * d == du * (2 * half * kept)) by (nonlinear_arith)
        requires
            g * d == (2 * half) * u,
            du == den * u,
    ;
    assert(den * (kept + 1) * g * d == du * (2 * half * (kept + 1))) by (nonlinear_arith)
        requires
            g * d == (2 * half) * u,
            du == den * u,
    ;
    assert(den * (2 * kept + 1) * g * d == 2 * (du * (half * (2 * kept + 1)))) by (nonlinear_arith)
        requires
            g * d == (2 * half) * u,
            du == den * u,
    ;
    assert(kept * (2 * half) == 2 * half * kept && 2 * half * (kept + 1) == 2 * half * kept + 2
        * half && half * (2 * kept + 1) == 2 * half * kept + half) by (nonlinear_arith);
    let base = 2 * half * kept;
    assert(digits == base + rest);
    lemma_scaled_compare(du, base, digits);
    lemma_scaled_compare(du, digits, base + 2 * half);
    lemma_scaled_compare(du, digits + 1, base + 2 * half);
    lemma_scaled_compare(du, digits, base + half);
    lemma_scaled_compare(du, digits + 1, base + half);
    lemma_scaled_compare(du, base + half, digits);
    lemma_cancel(den * kept * g, num, d);
    lemma_cancel(num, den * (kept + 1) * g, d);
    lemma_cancel(2 * num, den * (2 * kept + 1) * g, d);
    lemma_cancel(den * (2 * kept + 1) * g, 2 * num, d);
    assert(2 * num * d == 2 * value) by (nonlinear_arith)
        requires
            value == num * d,
    ;
}

proof fn lemma_scaled_compare(factor: int, a: int, b: int)
    requires
        factor > 0,
    ensures
        a <= b ==> factor * a <= factor * b,
        a < b ==> factor * a < factor * b,
{
    assert(a <= b ==> factor * a <= factor * b) by (nonlinear_arith)
        requires
            factor > 0,
    ;
    assert(a < b ==> factor * a < factor * b) by (nonlinear_arith)
        requires
            factor > 0,
    ;
}

/// A common factor above zero does not change how two numbers compare.
pub proof fn lemma_cancel(a: int, b: int, factor: int)
    requires
        factor > 0,
    ensures
        a * factor <= b * factor ==> a <= b,
        a * factor < b * factor ==> a < b,
        a * factor == b * factor ==> a == b,
{
    assert(a * factor <= b * factor ==> a <= b) by (nonlinear_arith)
        requires
            factor > 0,
    ;
    assert(a * factor < b * factor ==> a < b) by (nonlinear_arith)
        requires
            factor > 0,
    ;
    assert(a * factor == b * factor ==> a == b) by (nonlinear_arith)
        requires
            factor > 0,
    ;
}

pub proof fn lemma_pow2_127()
    ensures
        pow2(127) == 0x8000_0000_0000_0000_0000_0000_0000_0000,
{
    lemma2_to64_rest();
    lemma_pow2_adds(63, 64);
}

/// The leading digits fit the format, and fill it where their weight is not the smallest.
proof fn lemma_kept_bounds(
    digits: int,
    length: nat,
    shift: int,
    kept: int,
    fraction_bits: nat,
    full: bool,
)
    requires
        length > 0,
        pow2((length - 1) as nat) <= digits < pow2(length),
        shift >= length - fraction_bits - 1,
        full ==> shift == length - fraction_bits - 1,
        shift <= 0 ==> kept == digits * pow2((-shift) as nat),
        shift > 0 ==> kept == digits / (pow2(shift as nat) as int),
    ensures
        0 <= kept < pow2(fraction_bits + 1),
        full ==> pow2(fraction_bits) <= kept,
{
    lemma_pow2_pos((length - 1) as nat);
    if shift <= 0 {
        let s = (-shift) as nat;
        lemma_left_shift_bounds(digits, length, s, fraction_bits + 1);
        if full {
            lemma_pow2_adds((length - 1) as nat, s);
            lemma_pow2_pos(s);
            assert(pow2((length - 1) as nat) * pow2(s) <= digits * pow2(s)) by (nonlinear_arith)
                requires
                    pow2((length - 1) as nat) <= digits,
                    pow2(s) > 0,
            ;
        }
    } else {
        let s = shift as nat;
        let f = pow2(s) as int;
        lemma_pow2_pos(s);
        lemma_pow2_adds(fraction_bits + 1, s);
        if length < fraction_bits + 1 + s {
            lemma_pow2_strictly_increases(length, fraction_bits + 1 + s);
        }
        let top = pow2(fraction_bits + 1) as int;
        assert(0 <= digits / f < top) by (nonlinear_arith)
            requires
                0 <= digits < top * f,
                f > 0,
        ;
        if full {
            lemma_pow2_adds(fraction_bits, s);
            let bottom = pow2(fraction_bits) as int;
            assert(bottom <= digits / f) by (nonlinear_arith)
                requires
                    bottom * f <= digits,
                    f > 0,
            ;
        }
    }
}

/// Digits that are shifted up stand for the same value.
proof fn lemma_exact_digits(
    digits: int,
    exponent: int,
    num: int,
    den: int,
    kept: int,
    weight: int,
)
    requires
        den > 0,
        stands_for(digits, exponent, false, num, den),
        0 <= weight <= exponent,
        kept == digits * pow2((exponent - weight) as nat),
        kept >= 0,
    ensures
        num == den * kept * pow2(weight as nat),
        num < den * (kept + 1) * pow2(weight as nat),
        2 * num < den * (2 * kept + 1) * pow2(weight as nat),
{
    let g = pow2(weight as nat) as int;
    let f = pow2((exponent - weight) as nat) as int;
    lemma_pow2_pos(weight as nat);
    lemma_pow2_adds(weight as nat, (exponent - weight) as nat);
    assert(num == den * digits * (g * f));
    assert(den * digits * (g * f) == den * (digits * f) * g) by (nonlinear_arith);
    assert(den * kept * g < den * (kept + 1) * g && 2 * (den * kept * g) < den * (2 * kept + 1)
        * g) by (nonlinear_arith)
        requires
            den > 0,
            g > 0,
    ;
}

/// The leading digits and the direction of rounding lead to the nearest pattern of whatever value the
/// digits stand for.
proof fn lemma_round_correct(
    digits: int,
    exponent: int,
    inexact: bool,
    kept: int,
    lost: int,
    weight: int,
    up: bool,
    fraction_bits: nat,
    infinity: int,
)
    requires
        fraction_bits >= 1,
        infinity >= 0,
        infinity % 2 == 0,
        weight >= 0,
        0 <= kept < 2 * pow2(fraction_bits),
        weight > 0 ==> pow2(fraction_bits) <= kept,
        weight <= exponent ==> !inexact && !up && kept == digits * pow2((exponent - weight) as nat),
        weight > exponent ==> digits == kept * pow2((weight - exponent) as nat) + lost,
        weight > exponent ==> 0 <= lost < pow2((weight - exponent) as nat),
        weight > exponent ==> up == (lost > pow2((weight - exponent - 1) as nat) || (lost == pow2(
            (weight - exponent - 1) as nat,
        ) && (inexact || kept % 2 == 1))),
    ensures
        ({
            let pattern = weight * pow2(fraction_bits) + kept + if up {
                1int
            } else {
                0int
            };
            forall|num: int, den: int|
                den > 0 && #[trigger] stands_for(digits, exponent, inexact, num, den) ==> nearest(
                    num,
                    den,
                    if pattern < infinity {
                        pattern
                    } else {
                        infinity
                    },
                    fraction_bits,
                    infinity,
                )
        }),
{
    let pattern = weight * pow2(fraction_bits) + kept + if up {
        1int
    } else {
        0int
    };
    assert forall|num: int, den: int|
        den > 0 && #[trigger] stands_for(digits, exponent, inexact, num, den) implies nearest(
        num,
        den,
        if pattern < infinity {
            pattern
        } else {
            infinity
        },
        fraction_bits,
        infinity,
    ) by {
        if weight <= exponent {
            lemma_exact_digits(digits, exponent, num, den, kept, weight);
        } else {
            lemma_cut_digits(digits, exponent, inexact, num, den, kept, lost, weight);
        }
        lemma_round_parts(num, den, kept, weight as nat, up, fraction_bits, infinity);
    }
}

/// A binary format: its fraction width and its pattern of infinity.
#[derive(Clone, Copy, Debug, PartialEq, Eq, Structural)]
pub struct Format {
    pub fraction_bits: u32,
    pub infinity: u64,
}

impl Format {
    pub open spec fn valid(self) -> bool {
        &&& 1 <= self.fraction_bits <= 52
        &&& self.infinity <= 2047 * pow2(self.fraction_bits as nat)
        &&& self.infinity % 2 == 0
    }

    /// Rounds `digits * 2^exponent`, or, where `inexact`, a value just above it.  An inexact value
    /// needs at least one digit more than the format has.
    #[verifier::rlimit(60)]
    pub fn round(self, digits: u128, exponent: i32, inexact: bool) -> (magnitude: u64)
        requires
            self.valid(),
            digits < pow2(127),
            inexact ==> digits >= pow2((self.fraction_bits + 1) as nat),
            -10_000 <= exponent <= 10_000,
        ensures
            forall|num: int, den: int|
                den > 0 && #[trigger] stands_for(
                    digits as int,
                    exponent as int,
                    inexact,
                    num,
                    den,
                ) ==> nearest(
                    num,
                    den,
                    magnitude as int,
                    self.fraction_bits as nat,
                    self.infinity as int,
                ),
    {
        let length: u32 = bit_length(digits);
        let p: u32 = self.fraction_bits;
        proof {
            lemma2_to64();
            if length == 128 {
                lemma_pow2_strictly_increases(126, 127);
            }
        }
        if length == 0 {
            proof {
                lemma_pow2_pos((p + 1) as nat);
                assert forall|num: int, den: int|
                    den > 0 && #[trigger] stands_for(
                        digits as int,
                        exponent as int,
                        inexact,
                        num,
                        den,
                    ) implies nearest(num, den, 0, p as nat, self.infinity as int) by {
                    lemma_round_small(0, exponent as int, false, num, den, p as nat);
                }
            }
            return 0;
        }
        let reach: i32 = exponent + (length as i32) - (p as i32) - 1;
        let weight: i32 = if reach > 0 {
            reach
        } else {
            0
        };
        let shift: i32 = weight - exponent;
        if shift >= 128 {
            proof {
                assert forall|num: int, den: int|
                    den > 0 && #[trigger] stands_for(
                        digits as int,
                        exponent as int,
                        inexact,
                        num,
                        den,
                    ) implies nearest(num, den, 0, p as nat, self.infinity as int) by {
                    lemma_round_small(digits as int, exponent as int, inexact, num, den, p as nat);
                }
            }
            return 0;
        }
        let mut kept: u128 = 0;
        let mut up: bool = false;
        let ghost mut lost: int = 0;
        proof {
            lemma_pow2_127();
            lemma_pow2_pos((if shift > 0 {
                shift as int
            } else {
                0
            }) as nat);
            lemma_pow2_strictly_increases((p + 1) as nat, 127);
        }
        if shift <= 0 {
            let factor: u128 = power_of_two((-shift) as u32);
            proof {
                lemma_left_shift_bounds(
                    digits as int,
                    length as nat,
                    (-shift) as nat,
                    (p + 1) as nat,
                );
            }
            kept = digits * factor;
        } else {
            let factor: u128 = power_of_two(shift as u32);
            let half: u128 = power_of_two((shift - 1) as u32);
            let rest: u128 = digits % factor;
            kept = digits / factor;
            up = rest > half || (rest == half && (inexact || kept % 2 == 1));
            proof {
                lost = rest as int;
                vstd::arithmetic::div_mod::lemma_fundamental_div_mod(digits as int, factor as int);
                assert(digits == kept * factor + lost) by (nonlinear_arith)
                    requires
                        digits == factor * kept + lost,
                ;
            }
        }
        proof {
            lemma_kept_bounds(
                digits as int,
                length as nat,
                shift as int,
                kept as int,
                p as nat,
                weight > 0,
            );
        }
        let step: u128 = power_of_two(p);
        proof {
            lemma2_to64_rest();
            if p < 52 {
                lemma_pow2_strictly_increases(p as nat, 52);
            }
            assert(weight * step <= 20_000 * 0x10_0000_0000_0000) by (nonlinear_arith)
                requires
                    0 <= weight <= 20_000,
                    0 <= step <= 0x10_0000_0000_0000,
            ;
            assert(kept < 2 * step) by {
                lemma_pow2_adds(1, p as nat);
            }
        }
        let pattern: u128 = (weight as u128) * step + kept + if up {
            1u128
        } else {
            0u128
        };
        let magnitude: u64 = if pattern < self.infinity as u128 {
            pattern as u64
        } else {
            self.infinity
        };
        proof {
            lemma_round_correct(
                digits as int,
                exponent as int,
                inexact,
                kept as int,
                lost,
                weight as int,
                up,
                p as nat,
                self.infinity as int,
            );
        }
        magnitude
    }
}

} // verus!
