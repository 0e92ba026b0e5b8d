//! Correctly rounded arithmetic on the magnitudes of a binary format.

use crate::ieee::{lemma_scaled_magnitude_monotone, scaled_magnitude};
use crate::rounding::{
    bit_length, lemma_cancel, lemma_pow2_127, nearest, power_of_two, scale_down, scale_up,
    stands_for, Format,
};
use vstd::arithmetic::power2::{
    lemma2_to64, lemma2_to64_rest, lemma_pow2_adds, lemma_pow2_pos, lemma_pow2_strictly_increases,
    pow2,
};
use vstd::prelude::*;

verus! {

/// Multiplying by `2^x` and dividing by `2^y` is scaling by `2^(x - y)`.
proof fn lemma_balance(x: nat, y: nat)
    ensures
        pow2(x) * scale_down(x - y) == pow2(y) * scale_up(x - y),
        scale_down(x - y) > 0,
        scale_up(x - y) > 0,
{
    let e = x - y;
    if e >= 0 {
        lemma_pow2_adds(y, e as nat);
        lemma_pow2_pos(e as nat);
    } else {
        lemma_pow2_adds(x, (-e) as nat);
        lemma_pow2_pos((-e) as nat);
    }
}

/// `digits * 2^weight / 2^unit` is `digits * 2^(weight - unit)`.
pub proof fn lemma_stands_for_exact(digits: int, weight: nat, unit: nat)
    ensures
        stands_for(digits, weight - unit, false, digits * pow2(weight), pow2(unit) as int),
{
    lemma_balance(weight, unit);
    let d = scale_down(weight - unit);
    let u = scale_up(weight - unit);
    assert(digits * pow2(weight) * d == pow2(unit) * digits * u) by (nonlinear_arith)
        requires
            pow2(weight) * d == pow2(unit) * u,
    ;
}

impl Format {
    /// The digits of a finite magnitude and their weight.
    pub fn decode(self, magnitude: u64) -> (parts: (u64, u32))
        requires
            self.valid(),
            magnitude < self.infinity,
        ensures
            parts.0 * pow2(parts.1 as nat) == scaled_magnitude(
                magnitude as int,
                self.fraction_bits as nat,
            ),
            parts.0 < pow2((self.fraction_bits + 1) as nat),
            parts.0 < 0x20_0000_0000_0000,
            parts.1 > 0 ==> pow2(self.fraction_bits as nat) <= parts.0,
            parts.1 <= 2046,
            parts.0 == 0 <==> magnitude == 0,
    {
        let p: u32 = self.fraction_bits;
        proof {
            lemma2_to64();
            lemma2_to64_rest();
            lemma_pow2_pos(p as nat);
            lemma_pow2_adds(1, p as nat);
            if p < 52 {
                lemma_pow2_strictly_increases(p as nat, 52);
            }
        }
        let hidden: u64 = power_of_two(p) as u64;
        let exponent: u64 = magnitude / hidden;
        let fraction: u64 = magnitude % hidden;
        proof {
            vstd::arithmetic::div_mod::lemma_fundamental_div_mod(magnitude as int, hidden as int);
            assert(exponent < 2047) by (nonlinear_arith)
                requires
                    hidden * exponent <= magnitude,
                    magnitude < 2047 * hidden,
            ;
        }
        if exponent == 0 {
            proof {
                assert(hidden * exponent == 0) by (nonlinear_arith)
                    requires
                        exponent == 0,
                ;
                assert(fraction * pow2(0) == fraction) by (nonlinear_arith)
                    requires
                        pow2(0) == 1,
                ;
            }
            (fraction, 0)
        } else {
            (hidden + fraction, (exponent - 1) as u32)
        }
    }

    /// The digits and weights of two magnitudes are ordered as the magnitudes are.
    proof fn lemma_decode_ordered(a: int, b: int, pa: (u64, u32), pb: (u64, u32), p: nat)
        requires
            0 <= b <= a,
            p >= 1,
            pa.0 * pow2(pa.1 as nat) == scaled_magnitude(a, p),
            pb.0 * pow2(pb.1 as nat) == scaled_magnitude(b, p),
            pa.0 < pow2(p + 1),
            pb.0 < pow2(p + 1),
            pb.1 > 0 ==> pow2(p) <= pb.0,
        ensures
            pb.1 <= pa.1,
            scaled_magnitude(b, p) <= scaled_magnitude(a, p),
    {
        let va = scaled_magnitude(a, p);
        let vb = scaled_magnitude(b, p);
        if b < a {
            lemma_scaled_magnitude_monotone(b, a, p);
        }
        if pb.1 > pa.1 {
            let ga = pow2(pa.1 as nat) as int;
            let gb = pow2(pb.1 as nat) as int;
            lemma_pow2_pos(pa.1 as nat);
            lemma_pow2_adds(1, pa.1 as nat);
            lemma_pow2_adds(1, p);
            lemma2_to64();
            if pa.1 + 1 < pb.1 {
                lemma_pow2_strictly_increases((pa.1 + 1) as nat, pb.1 as nat);
            }
            let h = pow2(p) as int;
            lemma_pow2_pos(p);
            assert(pa.0 * ga < (2 * h) * ga) by (nonlinear_arith)
                requires
                    pa.0 < 2 * h,
                    ga > 0,
            ;
            assert((2 * h) * ga <= h * gb) by (nonlinear_arith)
                requires
                    2 * ga <= gb,
                    h > 0,
            ;
            assert(h * gb <= pb.0 * gb) by (nonlinear_arith)
                requires
                    h <= pb.0,
                    gb > 0,
            ;
            assert(false);
        }
    }

    /// The product of two finite magnitudes, where `2^unit` units are one.
    pub fn multiply(self, a: u64, b: u64, unit: u32) -> (product: u64)
        requires
            self.valid(),
            a < self.infinity,
            b < self.infinity,
            unit <= 1074,
        ensures
            nearest(
                scaled_magnitude(a as int, self.fraction_bits as nat) * scaled_magnitude(
                    b as int,
                    self.fraction_bits as nat,
                ),
                pow2(unit as nat) as int,
                product as int,
                self.fraction_bits as nat,
                self.infinity as int,
            ),
    {
        let (sa, wa) = self.decode(a);
        let (sb, wb) = self.decode(b);
        proof {
            lemma_pow2_127();
            lemma_pow2_pos(unit as nat);
            assert(sa * sb < 0x20_0000_0000_0000 * 0x20_0000_0000_0000) by (nonlinear_arith)
                requires
                    0 <= sa < 0x20_0000_0000_0000,
                    0 <= sb < 0x20_0000_0000_0000,
            ;
            lemma_stands_for_exact(sa * sb, (wa + wb) as nat, unit as nat);
            lemma_pow2_adds(wa as nat, wb as nat);
            assert((sa * sb) * (pow2(wa as nat) * pow2(wb as nat)) == (sa * pow2(wa as nat)) * (sb
                * pow2(wb as nat))) by (nonlinear_arith);
        }
        let digits: u128 = (sa as u128) * (sb as u128);
        let exponent: i32 = (wa + wb) as i32 - unit as i32;
        self.round(digits, exponent, false)
    }

    /// The quotient of two finite magnitudes, where `2^unit` units are one.
    pub fn divide(self, a: u64, b: u64, unit: u32) -> (quotient: u64)
        requires
            self.valid(),
            a < self.infinity,
            0 < b < self.infinity,
            unit <= 1074,
        ensures
            nearest(
                scaled_magnitude(a as int, self.fraction_bits as nat) * pow2(unit as nat),
                scaled_magnitude(b as int, self.fraction_bits as nat),
                quotient as int,
                self.fraction_bits as nat,
                self.infinity as int,
            ),
    {
        let (sa, wa) = self.decode(a);
        let (sb, wb) = self.decode(b);
        let length: u32 = bit_length(sa as u128);
        proof {
            lemma_pow2_127();
            lemma2_to64();
            lemma2_to64_rest();
            if length > 54 {
                lemma_pow2_strictly_increases(53, (length - 1) as nat);
            }
        }
        let spread: u32 = 120 - length;
        let factor: u128 = power_of_two(spread);
        proof {
            Self::lemma_dividend_bounds(sa as int, length as nat, spread as nat);
        }
        let dividend: u128 = (sa as u128) * factor;
        let digits: u128 = dividend / (sb as u128);
        let rest: u128 = dividend % (sb as u128);
        let exponent: i32 = (wa + unit) as i32 - (wb + spread) as i32;
        proof {
            vstd::arithmetic::div_mod::lemma_fundamental_div_mod(dividend as int, sb as int);
            Self::lemma_quotient_bounds(
                dividend as int,
                sb as int,
                digits as int,
                rest as int,
                self.fraction_bits as nat,
                sa == 0,
            );
            Self::lemma_quotient_stands(
                sa as int,
                wa as nat,
                sb as int,
                wb as nat,
                unit as nat,
                spread as nat,
                digits as int,
                rest as int,
            );
            lemma_pow2_pos(wb as nat);
            assert(sb * pow2(wb as nat) > 0) by (nonlinear_arith)
                requires
                    sb > 0,
                    pow2(wb as nat) > 0,
            ;
        }
        self.round(digits, exponent, rest != 0)
    }

    proof fn lemma_dividend_bounds(sa: int, length: nat, spread: nat)
        requires
            length + spread == 120,
            0 <= sa < pow2(length),
            length > 0 ==> pow2((length - 1) as nat) <= sa,
            length == 0 ==> sa == 0,
        ensures
            sa * pow2(spread) < pow2(120) < pow2(127),
            sa > 0 ==> sa * pow2(spread) >= pow2(119),
    {
        lemma_pow2_pos(spread);
        lemma_pow2_adds(length, spread);
        lemma_pow2_strictly_increases(120, 127);
        let f = pow2(spread) as int;
        assert(sa * f < pow2(length) * f) by (nonlinear_arith)
            requires
                sa < pow2(length),
                f > 0,
        ;
        if length > 0 {
            lemma_pow2_adds((length - 1) as nat, spread);
            let low = pow2((length - 1) as nat) as int;
            assert(low * f <= sa * f) by (nonlinear_arith)
                requires
                    low <= sa,
                    f > 0,
            ;
        }
    }

    proof fn lemma_quotient_bounds(
        dividend: int,
        sb: int,
        digits: int,
        rest: int,
        p: nat,
        zero: bool,
    )
        requires
            1 <= p <= 52,
            0 < sb < 0x20_0000_0000_0000,
            dividend == sb * digits + rest,
            0 <= rest < sb,
            digits >= 0,
            0 <= dividend < pow2(120),
            !zero ==> dividend >= pow2(119),
            zero ==> dividend == 0,
        ensures
            digits < pow2(127),
            rest != 0 ==> digits >= pow2(p + 1),
    {
        lemma_pow2_strictly_increases(120, 127);
        assert(digits <= dividend) by (nonlinear_arith)
            requires
                dividend == sb * digits + rest,
                sb >= 1,
                rest >= 0,
                digits >= 0,
        ;
        if zero {
            assert(rest == 0) by (nonlinear_arith)
                requires
                    0 == sb * digits + rest,
                    sb > 0,
                    digits >= 0,
                    rest >= 0,
            ;
        } else {
            lemma2_to64_rest();
            lemma_pow2_adds(53, 66);
            lemma_pow2_adds(2, 64);
            lemma2_to64();
            if p + 1 < 66 {
                lemma_pow2_strictly_increases(p + 1, 66);
            }
            let q = pow2(66) as int;
            assert(digits >= q) by (nonlinear_arith)
                requires
                    sb * digits + rest >= 0x20_0000_0000_0000 * q,
                    rest < sb,
                    0 < sb < 0x20_0000_0000_0000,
                    q > 0,
            ;
        }
    }

    proof fn lemma_quotient_stands(
        sa: int,
        wa: nat,
        sb: int,
        wb: nat,
        unit: nat,
        spread: nat,
        digits: int,
        rest: int,
    )
        requires
            sa * pow2(spread) == sb * digits + rest,
            0 <= rest < sb,
        ensures
            stands_for(
                digits,
                (wa + unit) - (wb + spread),
                rest != 0,
                (sa * pow2(wa)) * pow2(unit),
                sb * pow2(wb),
            ),
    {
        let x = wa + unit;
        let y = wb + spread;
        lemma_balance(x, y);
        lemma_pow2_adds(wa, unit);
        lemma_pow2_adds(wb, spread);
        lemma_pow2_pos(spread);
        lemma_pow2_pos(wb);
        let d = scale_down(x - y);
        let u = scale_up(x - y);
        let f = pow2(spread) as int;
        let gb = pow2(wb) as int;
        let num = (sa * pow2(wa)) * pow2(unit);
        let den = sb * gb;
        let k = gb * f * u;
        assert(k > 0) by (nonlinear_arith)
            requires
                gb > 0,
                f > 0,
                u > 0,
                k == gb * f * u,
        ;
        // Everything is compared after multiplying by `f`.
        assert((num * d) * f == (sa * f) * k) by (nonlinear_arith)
            requires
                num == (sa * pow2(wa)) * pow2(unit),
                pow2(x) == pow2(wa) * pow2(unit),
                pow2(y) == gb * f,
                pow2(x) * d == pow2(y) * u,
                k == gb * f * u,
        ;
        assert((den * digits * u) * f == (sb * digits) * k) by (nonlinear_arith)
            requires
                den == sb * gb,
                k == gb * f * u,
        ;
        assert((den * (digits + 1) * u) * f == (sb * digits + sb) * k) by (nonlinear_arith)
            requires
                den == sb * gb,
                k == gb * f * u,
        ;
        let a = sa * f;
        let b = sb * digits;
        assert(a == b ==> a * k == b * k);
        assert(b < a ==> b * k < a * k) by (nonlinear_arith)
            requires
                k > 0,
        ;
        assert(a < b + sb ==> a * k < (b + sb) * k) by (nonlinear_arith)
            requires
                k > 0,
        ;
        lemma_cancel(num * d, den * digits * u, f);
        lemma_cancel(den * digits * u, num * d, f);
        lemma_cancel(num * d, den * (digits + 1) * u, f);
    }

    /// The sum of two finite magnitudes, the first at least as large as the second.
    pub fn add(self, a: u64, b: u64) -> (sum: u64)
        requires
            self.valid(),
            b <= a < self.infinity,
        ensures
            nearest(
                scaled_magnitude(a as int, self.fraction_bits as nat) + scaled_magnitude(
                    b as int,
                    self.fraction_bits as nat,
                ),
                1,
                sum as int,
                self.fraction_bits as nat,
                self.infinity as int,
            ),
    {
        let (sa, wa) = self.decode(a);
        let (sb, wb) = self.decode(b);
        proof {
            Self::lemma_decode_ordered(
                a as int,
                b as int,
                (sa, wa),
                (sb, wb),
                self.fraction_bits as nat,
            );
            lemma_pow2_127();
            lemma2_to64();
        }
        let gap: u32 = wa - wb;
        if gap <= 70 {
            let factor: u128 = power_of_two(gap);
            proof {
                Self::lemma_aligned(sa as int, wa as nat, sb as int, wb as nat);
            }
            let digits: u128 = (sa as u128) * factor + sb as u128;
            proof {
                lemma_stands_for_exact(digits as int, wb as nat, 0);
            }
            self.round(digits, wb as i32, false)
        } else {
            proof {
                Self::lemma_far_apart(
                    sa as int,
                    wa as nat,
                    sb as int,
                    wb as nat,
                    self.fraction_bits as nat,
                );
            }
            let digits: u128 = (sa as u128) * 0x4_0000;
            self.round(digits, wa as i32 - 18, sb != 0)
        }
    }

    /// The difference of two finite magnitudes, the first at least as large as the second.
    pub fn subtract(self, a: u64, b: u64) -> (difference: u64)
        requires
            self.valid(),
            b <= a < self.infinity,
        ensures
            nearest(
                scaled_magnitude(a as int, self.fraction_bits as nat) - scaled_magnitude(
                    b as int,
                    self.fraction_bits as nat,
                ),
                1,
                difference as int,
                self.fraction_bits as nat,
                self.infinity as int,
            ),
    {
        let (sa, wa) = self.decode(a);
        let (sb, wb) = self.decode(b);
        proof {
            Self::lemma_decode_ordered(
                a as int,
                b as int,
                (sa, wa),
                (sb, wb),
                self.fraction_bits as nat,
            );
            lemma_pow2_127();
            lemma2_to64();
        }
        let gap: u32 = wa - wb;
        if gap <= 70 {
            let factor: u128 = power_of_two(gap);
            proof {
                Self::lemma_aligned(sa as int, wa as nat, sb as int, wb as nat);
            }
            let digits: u128 = (sa as u128) * factor - sb as u128;
            proof {
                lemma_stands_for_exact(digits as int, wb as nat, 0);
            }
            self.round(digits, wb as i32, false)
        } else {
            proof {
                Self::lemma_far_apart(
                    sa as int,
                    wa as nat,
                    sb as int,
                    wb as nat,
                    self.fraction_bits as nat,
                );
            }
            let digits: u128 = if sb != 0 {
                (sa as u128) * 0x4_0000 - 1
            } else {
                (sa as u128) * 0x4_0000
            };
            self.round(digits, wa as i32 - 18, sb != 0)
        }
    }

    /// Two values brought to the smaller of their weights.
    proof fn lemma_aligned(sa: int, wa: nat, sb: int, wb: nat)
        requires
            0 <= sa < 0x20_0000_0000_0000,
            0 <= sb < 0x20_0000_0000_0000,
            wb <= wa <= wb + 70,
            sb * pow2(wb) <= sa * pow2(wa),
        ensures
            ({
                let f = pow2((wa - wb) as nat) as int;
                &&& 0 <= sa * f
                &&& sa * f + sb < pow2(127)
                &&& sb <= sa * f
                &&& (sa * f + sb) * pow2(wb) == sa * pow2(wa) + sb * pow2(wb)
                &&& (sa * f - sb) * pow2(wb) == sa * pow2(wa) - sb * pow2(wb)
            }),
    {
        let f = pow2((wa - wb) as nat) as int;
        let g = pow2(wb) as int;
        lemma_pow2_pos((wa - wb) as nat);
        lemma_pow2_pos(wb);
        lemma_pow2_adds((wa - wb) as nat, wb);
        lemma2_to64();
        lemma2_to64_rest();
        lemma_pow2_adds(6, 64);
        lemma_pow2_127();
        if wa - wb < 70 {
            lemma_pow2_strictly_increases((wa - wb) as nat, 70);
        }
        assert(0 <= sa * f <= 0x20_0000_0000_0000 * pow2(70)) by (nonlinear_arith)
            requires
                0 <= sa <= 0x20_0000_0000_0000,
                0 < f <= pow2(70),
        ;
        assert(sa * (f * g) == (sa * f) * g && (sa * f + sb) * g == (sa * f) * g + sb * g && (sa
            * f - sb) * g == (sa * f) * g - sb * g) by (nonlinear_arith);
        lemma_cancel(sb, sa * f, g);
    }

    /// A value so far below another that it only makes the digits inexact.
    proof fn lemma_far_apart(sa: int, wa: nat, sb: int, wb: nat, p: nat)
        requires
            1 <= p <= 52,
            pow2(p) <= sa < 0x20_0000_0000_0000,
            0 <= sb < 0x20_0000_0000_0000,
            wa > wb + 70,
        ensures
            ({
                let va = sa * pow2(wa);
                let vb = sb * pow2(wb);
                let digits = sa * 0x4_0000;
                &&& digits < pow2(127)
                &&& digits - 1 >= pow2(p + 1)
                &&& stands_for(digits, wa - 18, sb != 0, va + vb, 1)
                &&& sb != 0 ==> stands_for(digits - 1, wa - 18, true, va - vb, 1)
                &&& sb == 0 ==> stands_for(digits, wa - 18, false, va - vb, 1)
            }),
    {
        let w = pow2((wa - 18) as nat) as int;
        let gb = pow2(wb) as int;
        lemma2_to64();
        lemma2_to64_rest();
        lemma_pow2_127();
        lemma_pow2_adds((wa - 18) as nat, 18);
        lemma_pow2_pos((wa - 18) as nat);
        lemma_pow2_pos(wb);
        lemma_pow2_adds(1, p);
        lemma_pow2_pos(p);
        assert(sa * (w * 0x4_0000) == (sa * 0x4_0000) * w) by (nonlinear_arith);
        // The smaller value is below one unit of the digits.
        lemma_pow2_adds(wb, 53);
        if wb + 53 < wa - 18 {
            lemma_pow2_strictly_increases(wb + 53, (wa - 18) as nat);
        }
        assert(sb * gb < gb * 0x20_0000_0000_0000) by (nonlinear_arith)
            requires
                sb < 0x20_0000_0000_0000,
                gb > 0,
        ;
        assert(sb != 0 ==> sb * gb > 0) by (nonlinear_arith)
            requires
                sb >= 0,
                gb > 0,
        ;
        assert(sb == 0 ==> sb * gb == 0) by (nonlinear_arith);
        let digits = sa * 0x4_0000;
        assert((digits + 1) * w == digits * w + w && (digits - 1) * w == digits * w - w)
            by (nonlinear_arith);
        assert(1 * digits * w == digits * w && 1 * (digits + 1) * w == (digits + 1) * w && 1 * (
        digits - 1) * w == (digits - 1) * w) by (nonlinear_arith);
    }
}

} // verus!
