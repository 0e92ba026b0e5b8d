//! The arithmetic of binary64 and binary32 numbers, as IEEE 754 defines it: the exact result,
//! rounded to nearest with ties to even.  A result that is not a number is always the quiet NaN.

use crate::arithmetic::lemma_stands_for_exact;
use crate::ieee::{
    lemma_scaled_magnitude_monotone, scaled_magnitude, Binary32, Binary64, INFINITY_32,
    INFINITY_64, QUIET_NAN_32, QUIET_NAN_64, SIGN_32, SIGN_64,
};
use crate::rounding::{
    lemma_nearest_unique, lemma_pow2_127, lemma_scaled_magnitude_of_parts, nearest, power_of_two,
    stands_for, Format,
};
use vstd::arithmetic::power2::{
    lemma2_to64, lemma2_to64_rest, lemma_pow2_adds, lemma_pow2_pos, lemma_pow2_strictly_increases,
    pow2,
};
use vstd::prelude::*;

verus! {

/// The pattern nearest to `num / den` (see [`nearest`]).
pub open spec fn nearest_pattern(
    num: int,
    den: int,
    fraction_bits: nat,
    infinity: int,
) -> int {
    choose|magnitude: int| nearest(num, den, magnitude, fraction_bits, infinity)
}

/// A pattern that is nearest is the nearest pattern.
pub proof fn lemma_nearest_pattern(
    num: int,
    den: int,
    magnitude: int,
    fraction_bits: nat,
    infinity: int,
)
    requires
        den > 0,
        nearest(num, den, magnitude, fraction_bits, infinity),
    ensures
        nearest_pattern(num, den, fraction_bits, infinity) == magnitude,
{
    lemma_nearest_unique(
        num,
        den,
        magnitude,
        nearest_pattern(num, den, fraction_bits, infinity),
        fraction_bits,
        infinity,
    );
}

/// The last pattern up to `last` whose value does not exceed `num / den`.
proof fn lemma_floor_pattern(num: int, den: int, fraction_bits: nat, last: int) -> (floor: int)
    requires
        num >= 0,
        den > 0,
        last >= 0,
    ensures
        0 <= floor <= last,
        scaled_magnitude(floor, fraction_bits) * den <= num,
        floor < last ==> num < scaled_magnitude(floor + 1, fraction_bits) * den,
    decreases last,
{
    lemma_scaled_zero(fraction_bits);
    if scaled_magnitude(last, fraction_bits) * den <= num {
        last
    } else if last == 0 {
        assert(0 * den <= num) by (nonlinear_arith)
            requires
                num >= 0,
        ;
        0
    } else {
        lemma_floor_pattern(num, den, fraction_bits, last - 1)
    }
}

/// Every value that is not negative has a nearest pattern.
pub proof fn lemma_nearest_exists(num: int, den: int, fraction_bits: nat, infinity: int)
    requires
        num >= 0,
        den > 0,
        infinity >= 0,
        infinity % 2 == 0,
    ensures
        nearest(
            num,
            den,
            nearest_pattern(num, den, fraction_bits, infinity),
            fraction_bits,
            infinity,
        ),
{
    let floor = lemma_floor_pattern(num, den, fraction_bits, infinity);
    let v = scaled_magnitude(floor, fraction_bits);
    let v1 = scaled_magnitude(floor + 1, fraction_bits);
    let v2 = scaled_magnitude(floor + 2, fraction_bits);
    lemma_scaled_magnitude_monotone(floor, floor + 1, fraction_bits);
    lemma_scaled_magnitude_monotone(floor + 1, floor + 2, fraction_bits);
    assert(den * (v + v1) == v * den + v1 * den && den * (v1 + v2) == v1 * den + v2 * den)
        by (nonlinear_arith);
    assert(v * den < v1 * den && v1 * den < v2 * den) by (nonlinear_arith)
        requires
            den > 0,
            v < v1 < v2,
    ;
    if floor > 0 {
        let v0 = scaled_magnitude(floor - 1, fraction_bits);
        lemma_scaled_magnitude_monotone(floor - 1, floor, fraction_bits);
        assert(den * (v0 + v) == v0 * den + v * den) by (nonlinear_arith);
        assert(v0 * den < v * den) by (nonlinear_arith)
            requires
                den > 0,
                v0 < v,
        ;
    }
    let up = floor < infinity && (2 * num > den * (v + v1) || (2 * num == den * (v + v1) && floor
        % 2 == 1));
    let pattern = if up {
        floor + 1
    } else {
        floor
    };
    assert(nearest(num, den, pattern, fraction_bits, infinity));
}

/// Rounding does not pass a number of the format.
pub proof fn lemma_nearest_bounded(num: int, den: int, m: int, bound: int, p: nat, infinity: int)
    requires
        den > 0,
        nearest(num, den, m, p, infinity),
        0 <= bound <= infinity,
    ensures
        num <= scaled_magnitude(bound, p) * den ==> m <= bound,
        num >= scaled_magnitude(bound, p) * den ==> m >= bound,
{
    let vb = scaled_magnitude(bound, p);
    if num <= vb * den && m > bound {
        let v0 = scaled_magnitude(m - 1, p);
        let v1 = scaled_magnitude(m, p);
        lemma_scaled_magnitude_monotone(bound, m, p);
        if bound < m - 1 {
            lemma_scaled_magnitude_monotone(bound, m - 1, p);
        }
        assert(2 * (vb * den) < den * (v0 + v1)) by (nonlinear_arith)
            requires
                vb <= v0,
                vb < v1,
                den > 0,
        ;
    }
    if num >= vb * den && m < bound {
        let v0 = scaled_magnitude(m, p);
        let v1 = scaled_magnitude(m + 1, p);
        lemma_scaled_magnitude_monotone(m, bound, p);
        if m + 1 < bound {
            lemma_scaled_magnitude_monotone(m + 1, bound, p);
        }
        assert(den * (v0 + v1) < 2 * (vb * den)) by (nonlinear_arith)
            requires
                v0 < vb,
                v1 <= vb,
                den > 0,
        ;
    }
}

/// A number of a format rounds to itself.
pub proof fn law_representable_values_are_exact(
    magnitude: int,
    den: int,
    fraction_bits: nat,
    infinity: int,
)
    requires
        0 <= magnitude <= infinity,
        den > 0,
    ensures
        nearest_pattern(
            scaled_magnitude(magnitude, fraction_bits) * den,
            den,
            fraction_bits,
            infinity,
        ) == magnitude,
{
    let v = scaled_magnitude(magnitude, fraction_bits);
    let above = scaled_magnitude(magnitude + 1, fraction_bits);
    lemma_scaled_magnitude_monotone(magnitude, magnitude + 1, fraction_bits);
    assert(2 * (v * den) < den * (v + above)) by (nonlinear_arith)
        requires
            den > 0,
            v < above,
    ;
    if magnitude > 0 {
        let below = scaled_magnitude(magnitude - 1, fraction_bits);
        lemma_scaled_magnitude_monotone(magnitude - 1, magnitude, fraction_bits);
        assert(den * (below + v) < 2 * (v * den)) by (nonlinear_arith)
            requires
                den > 0,
                below < v,
        ;
    }
    lemma_nearest_pattern(v * den, den, magnitude, fraction_bits, infinity);
}

pub open spec fn binary64() -> Format {
    Format { fraction_bits: 52, infinity: INFINITY_64 }
}

pub open spec fn binary32() -> Format {
    Format { fraction_bits: 23, infinity: INFINITY_32 as u64 }
}

/// The binary64 format.
pub fn binary64_format() -> (format: Format)
    ensures
        format == binary64(),
        format.valid(),
{
    proof {
        lemma2_to64_rest();
    }
    Format { fraction_bits: 52, infinity: INFINITY_64 }
}

/// The binary32 format.
pub fn binary32_format() -> (format: Format)
    ensures
        format == binary32(),
        format.valid(),
{
    proof {
        lemma2_to64();
    }
    Format { fraction_bits: 23, infinity: INFINITY_32 as u64 }
}

/// The quiet binary64 NaN.
pub open spec fn nan64() -> Binary64 {
    Binary64 { bits: QUIET_NAN_64 }
}

/// The number of the given sign and pattern.
pub open spec fn signed64(negative: bool, magnitude: int) -> Binary64 {
    Binary64 {
        bits: (magnitude + if negative {
            SIGN_64 as int
        } else {
            0
        }) as u64,
    }
}

/// The binary64 number nearest to `num / den` units of 2^-1074.
pub open spec fn rounded64(negative: bool, num: int, den: int) -> Binary64 {
    signed64(negative, nearest_pattern(num, den, 52, INFINITY_64 as int))
}

fn make64(negative: bool, magnitude: u64) -> (number: Binary64)
    requires
        magnitude <= INFINITY_64,
    ensures
        number == signed64(negative, magnitude as int),
        number.magnitude() == magnitude,
        number.negative() == negative,
{
    if negative {
        Binary64 { bits: magnitude + SIGN_64 }
    } else {
        Binary64 { bits: magnitude }
    }
}

impl Binary64 {
    pub open spec fn infinite(self) -> bool {
        self.magnitude() == INFINITY_64
    }

    pub open spec fn zero(self) -> bool {
        self.magnitude() == 0
    }

    /// The number with the other sign.
    pub open spec fn opposite(self) -> Binary64 {
        signed64(!self.negative(), self.magnitude())
    }

    /// The number without its sign.
    pub open spec fn unsigned(self) -> Binary64 {
        signed64(false, self.magnitude())
    }

    /// `self + other`.
    pub open spec fn sum(self, other: Binary64) -> Binary64 {
        if self.nan() || other.nan() {
            nan64()
        } else if self.infinite() && other.infinite() && self.negative() != other.negative() {
            nan64()
        } else if self.infinite() {
            self
        } else if other.infinite() {
            other
        } else {
            let exact = self.scaled() + other.scaled();
            if exact == 0 {
                signed64(self.negative() && other.negative(), 0)
            } else if exact < 0 {
                rounded64(true, -exact, 1)
            } else {
                rounded64(false, exact, 1)
            }
        }
    }

    /// `self - other`.
    pub open spec fn difference(self, other: Binary64) -> Binary64 {
        self.sum(other.opposite())
    }

    /// `self * other`.
    pub open spec fn product(self, other: Binary64) -> Binary64 {
        let negative = self.negative() != other.negative();
        if self.nan() || other.nan() {
            nan64()
        } else if self.infinite() || other.infinite() {
            if self.zero() || other.zero() {
                nan64()
            } else {
                signed64(negative, INFINITY_64 as int)
            }
        } else {
            rounded64(
                negative,
                scaled_magnitude(self.magnitude(), 52) * scaled_magnitude(other.magnitude(), 52),
                pow2(1074) as int,
            )
        }
    }

    /// `self / other`.
    pub open spec fn quotient(self, other: Binary64) -> Binary64 {
        let negative = self.negative() != other.negative();
        if self.nan() || other.nan() {
            nan64()
        } else if self.infinite() {
            if other.infinite() {
                nan64()
            } else {
                signed64(negative, INFINITY_64 as int)
            }
        } else if other.infinite() {
            signed64(negative, 0)
        } else if other.zero() {
            if self.zero() {
                nan64()
            } else {
                signed64(negative, INFINITY_64 as int)
            }
        } else {
            rounded64(
                negative,
                scaled_magnitude(self.magnitude(), 52) * pow2(1074),
                scaled_magnitude(other.magnitude(), 52),
            )
        }
    }

    /// An integer as a binary64 number.
    pub open spec fn of_integer(value: int) -> Binary64 {
        if value < 0 {
            rounded64(true, -value * pow2(1074), 1)
        } else {
            rounded64(false, value * pow2(1074), 1)
        }
    }

    /// `max(floor)`, for a floor that is a number: the floor itself where `self` is a NaN.
    pub open spec fn raised(self, floor: Binary64) -> Binary64 {
        if !self.nan() && floor.scaled() < self.scaled() {
            self
        } else {
            floor
        }
    }

    fn sign_and_magnitude(self) -> (parts: (bool, u64))
        ensures
            parts.0 == self.negative(),
            parts.1 == self.magnitude(),
    {
        if self.bits >= SIGN_64 {
            (true, self.bits - SIGN_64)
        } else {
            (false, self.bits)
        }
    }

    /// `-self`.
    pub fn negated(self) -> (result: Binary64)
        ensures
            result == self.opposite(),
    {
        if self.bits >= SIGN_64 {
            Binary64 { bits: self.bits - SIGN_64 }
        } else {
            Binary64 { bits: self.bits + SIGN_64 }
        }
    }

    /// `self.abs()`.
    pub fn absolute(self) -> (result: Binary64)
        ensures
            result == self.unsigned(),
    {
        let (_, magnitude) = self.sign_and_magnitude();
        Binary64 { bits: magnitude }
    }

    /// `self + other`.
    pub fn plus(self, other: Binary64) -> (result: Binary64)
        ensures
            result == self.sum(other),
    {
        let (na, a) = self.sign_and_magnitude();
        let (nb, b) = other.sign_and_magnitude();
        if a > INFINITY_64 || b > INFINITY_64 {
            return Binary64 { bits: QUIET_NAN_64 };
        }
        if a == INFINITY_64 {
            if b == INFINITY_64 && na != nb {
                return Binary64 { bits: QUIET_NAN_64 };
            }
            return self;
        }
        if b == INFINITY_64 {
            return other;
        }
        let format = binary64_format();
        let ghost va = scaled_magnitude(a as int, 52);
        let ghost vb = scaled_magnitude(b as int, 52);
        proof {
            lemma_scaled_zero(52);
            if a > 0 {
                lemma_scaled_magnitude_monotone(0, a as int, 52);
            }
            if b > 0 {
                lemma_scaled_magnitude_monotone(0, b as int, 52);
            }
            if a < b {
                lemma_scaled_magnitude_monotone(a as int, b as int, 52);
            }
            if b < a {
                lemma_scaled_magnitude_monotone(b as int, a as int, 52);
            }
        }
        if na == nb {
            let sum: u64 = if a >= b {
                format.add(a, b)
            } else {
                format.add(b, a)
            };
            proof {
                lemma_nearest_pattern(va + vb, 1, sum as int, 52, INFINITY_64 as int);
                if va + vb == 0 {
                    law_representable_values_are_exact(0, 1, 52, INFINITY_64 as int);
                }
            }
            make64(na, sum)
        } else if a == b {
            make64(false, 0)
        } else if a > b {
            let difference: u64 = format.subtract(a, b);
            proof {
                lemma_nearest_pattern(va - vb, 1, difference as int, 52, INFINITY_64 as int);
            }
            make64(na, difference)
        } else {
            let difference: u64 = format.subtract(b, a);
            proof {
                lemma_nearest_pattern(vb - va, 1, difference as int, 52, INFINITY_64 as int);
            }
            make64(nb, difference)
        }
    }

    /// `self - other`.
    pub fn minus(self, other: Binary64) -> (result: Binary64)
        ensures
            result == self.difference(other),
    {
        self.plus(other.negated())
    }

    /// `self * other`.
    pub fn times(self, other: Binary64) -> (result: Binary64)
        ensures
            result == self.product(other),
    {
        let (na, a) = self.sign_and_magnitude();
        let (nb, b) = other.sign_and_magnitude();
        let negative: bool = na != nb;
        if a > INFINITY_64 || b > INFINITY_64 {
            return Binary64 { bits: QUIET_NAN_64 };
        }
        if a == INFINITY_64 || b == INFINITY_64 {
            if a == 0 || b == 0 {
                return Binary64 { bits: QUIET_NAN_64 };
            }
            return make64(negative, INFINITY_64);
        }
        let product: u64 = binary64_format().multiply(a, b, 1074);
        proof {
            lemma_pow2_pos(1074);
            lemma_nearest_pattern(
                scaled_magnitude(a as int, 52) * scaled_magnitude(b as int, 52),
                pow2(1074) as int,
                product as int,
                52,
                INFINITY_64 as int,
            );
        }
        make64(negative, product)
    }

    /// `self / other`.
    pub fn over(self, other: Binary64) -> (result: Binary64)
        ensures
            result == self.quotient(other),
    {
        let (na, a) = self.sign_and_magnitude();
        let (nb, b) = other.sign_and_magnitude();
        let negative: bool = na != nb;
        if a > INFINITY_64 || b > INFINITY_64 {
            return Binary64 { bits: QUIET_NAN_64 };
        }
        if a == INFINITY_64 {
            if b == INFINITY_64 {
                return Binary64 { bits: QUIET_NAN_64 };
            }
            return make64(negative, INFINITY_64);
        }
        if b == INFINITY_64 {
            return make64(negative, 0);
        }
        if b == 0 {
            if a == 0 {
                return Binary64 { bits: QUIET_NAN_64 };
            }
            return make64(negative, INFINITY_64);
        }
        let quotient: u64 = binary64_format().divide(a, b, 1074);
        proof {
            lemma_scaled_zero(52);
            lemma_scaled_magnitude_monotone(0, b as int, 52);
            lemma_nearest_pattern(
                scaled_magnitude(a as int, 52) * pow2(1074),
                scaled_magnitude(b as int, 52),
                quotient as int,
                52,
                INFINITY_64 as int,
            );
        }
        make64(negative, quotient)
    }

    /// `value as f64`, of an unsigned integer.
    pub fn from_unsigned(value: u64) -> (result: Binary64)
        ensures
            result == Self::of_integer(value as int),
    {
        proof {
            lemma_pow2_127();
            lemma2_to64();
            lemma_integer_stands_for(value as int, 1074);
        }
        let magnitude: u64 = binary64_format().round(value as u128, 1074, false);
        proof {
            lemma_nearest_pattern(
                value * pow2(1074),
                1,
                magnitude as int,
                52,
                INFINITY_64 as int,
            );
        }
        make64(false, magnitude)
    }

    /// `value as f64`, of a signed integer.
    pub fn from_signed(value: i64) -> (result: Binary64)
        ensures
            result == Self::of_integer(value as int),
    {
        if value >= 0 {
            return Self::from_unsigned(value as u64);
        }
        let size: u64 = (-(value as i128)) as u64;
        proof {
            lemma_pow2_127();
            lemma2_to64();
            lemma_integer_stands_for(size as int, 1074);
        }
        let magnitude: u64 = binary64_format().round(size as u128, 1074, false);
        proof {
            lemma_nearest_pattern(size * pow2(1074), 1, magnitude as int, 52, INFINITY_64 as int);
        }
        make64(true, magnitude)
    }

    /// `self.max(floor)` for a floor above zero.
    pub fn at_least_floor(self, floor: Binary64) -> (result: Binary64)
        requires
            floor.positive(),
        ensures
            result == self.raised(floor),
    {
        if self.is_positive() && !floor.at_least(self) {
            self
        } else {
            floor
        }
    }
}

/// The quiet binary32 NaN.
pub open spec fn nan32() -> Binary32 {
    Binary32 { bits: QUIET_NAN_32 }
}

/// The binary32 number of the given sign and pattern.
pub open spec fn signed32(negative: bool, magnitude: int) -> Binary32 {
    Binary32 {
        bits: (magnitude + if negative {
            SIGN_32 as int
        } else {
            0
        }) as u32,
    }
}

/// The binary32 number nearest to `num / den` units of 2^-149.
pub open spec fn rounded32(negative: bool, num: int, den: int) -> Binary32 {
    signed32(negative, nearest_pattern(num, den, 23, INFINITY_32 as int))
}

fn make32(negative: bool, magnitude: u64) -> (number: Binary32)
    requires
        magnitude <= INFINITY_32,
    ensures
        number == signed32(negative, magnitude as int),
        number.magnitude() == magnitude,
        number.negative() == negative,
{
    if negative {
        Binary32 { bits: magnitude as u32 + SIGN_32 }
    } else {
        Binary32 { bits: magnitude as u32 }
    }
}

impl Binary32 {
    pub open spec fn infinite(self) -> bool {
        self.magnitude() == INFINITY_32
    }

    pub open spec fn zero(self) -> bool {
        self.magnitude() == 0
    }

    /// `self / other`.
    pub open spec fn quotient(self, other: Binary32) -> Binary32 {
        let negative = self.negative() != other.negative();
        if self.nan() || other.nan() {
            nan32()
        } else if self.infinite() {
            if other.infinite() {
                nan32()
            } else {
                signed32(negative, INFINITY_32 as int)
            }
        } else if other.infinite() {
            signed32(negative, 0)
        } else if other.zero() {
            if self.zero() {
                nan32()
            } else {
                signed32(negative, INFINITY_32 as int)
            }
        } else {
            rounded32(
                negative,
                scaled_magnitude(self.magnitude(), 23) * pow2(149),
                scaled_magnitude(other.magnitude(), 23),
            )
        }
    }

    /// `self / other`.
    pub fn over(self, other: Binary32) -> (result: Binary32)
        ensures
            result == self.quotient(other),
    {
        let na: bool = self.bits >= SIGN_32;
        let nb: bool = other.bits >= SIGN_32;
        let a: u32 = if na {
            self.bits - SIGN_32
        } else {
            self.bits
        };
        let b: u32 = if nb {
            other.bits - SIGN_32
        } else {
            other.bits
        };
        let negative: bool = na != nb;
        if a > INFINITY_32 || b > INFINITY_32 {
            return Binary32 { bits: QUIET_NAN_32 };
        }
        if a == INFINITY_32 {
            if b == INFINITY_32 {
                return Binary32 { bits: QUIET_NAN_32 };
            }
            return make32(negative, INFINITY_32 as u64);
        }
        if b == INFINITY_32 {
            return make32(negative, 0);
        }
        if b == 0 {
            if a == 0 {
                return Binary32 { bits: QUIET_NAN_32 };
            }
            return make32(negative, INFINITY_32 as u64);
        }
        let quotient: u64 = binary32_format().divide(a as u64, b as u64, 149);
        proof {
            lemma_scaled_zero(23);
            lemma_scaled_magnitude_monotone(0, b as int, 23);
            lemma_nearest_pattern(
                scaled_magnitude(a as int, 23) * pow2(149),
                scaled_magnitude(b as int, 23),
                quotient as int,
                23,
                INFINITY_32 as int,
            );
        }
        make32(negative, quotient)
    }

    /// `value as f32`.
    pub fn from_unsigned(value: u32) -> (result: Binary32)
        ensures
            result == rounded32(false, value * pow2(149), 1),
    {
        proof {
            lemma_pow2_127();
            lemma2_to64();
            lemma_integer_stands_for(value as int, 149);
        }
        let magnitude: u64 = binary32_format().round(value as u128, 149, false);
        proof {
            lemma_nearest_pattern(value * pow2(149), 1, magnitude as int, 23, INFINITY_32 as int);
        }
        make32(false, magnitude)
    }
}

impl Binary64 {
    /// The nearest binary32 number: `self as f32`.
    pub open spec fn narrowed(self) -> Binary32 {
        if self.nan() {
            nan32()
        } else if self.infinite() {
            signed32(self.negative(), INFINITY_32 as int)
        } else {
            rounded32(
                self.negative(),
                scaled_magnitude(self.magnitude(), 52),
                pow2((1074 - 149) as nat) as int,
            )
        }
    }

    /// `self as f32`.
    pub fn to_binary32(self) -> (result: Binary32)
        ensures
            result == self.narrowed(),
    {
        let (negative, magnitude) = self.sign_and_magnitude();
        if magnitude > INFINITY_64 {
            return Binary32 { bits: QUIET_NAN_32 };
        }
        if magnitude == INFINITY_64 {
            return make32(negative, INFINITY_32 as u64);
        }
        let (digits, weight) = binary64_format().decode(magnitude);
        proof {
            lemma_pow2_127();
            lemma_pow2_pos(925);
            lemma_stands_for_exact(digits as int, weight as nat, 925);
        }
        let narrow: u64 = binary32_format().round(digits as u128, weight as i32 - 925, false);
        proof {
            lemma_nearest_pattern(
                scaled_magnitude(magnitude as int, 52),
                pow2(925) as int,
                narrow as int,
                23,
                INFINITY_32 as int,
            );
        }
        make32(negative, narrow)
    }

    /// `round().max(1.0) as u32`: the nearest whole number, halves rounded up, within the range
    /// from one to the largest `u32`.  A NaN counts as one.
    pub open spec fn whole_pixels(self) -> u32 {
        if self.nan() || self.scaled() <= 0 {
            1
        } else {
            let whole = (2 * self.scaled() + pow2(1074)) / (2 * pow2(1074) as int);
            if whole < 1 {
                1
            } else if whole > u32::MAX {
                u32::MAX
            } else {
                whole as u32
            }
        }
    }

    /// `round().max(1.0) as u32`.
    pub fn to_pixels(self) -> (pixels: u32)
        ensures
            pixels == self.whole_pixels(),
    {
        proof {
            lemma_scaled_zero(52);
            lemma_pow2_pos(1074);
        }
        if !self.is_positive() {
            return 1;
        }
        if self.bits >= INFINITY_64 {
            proof {
                lemma_infinity_is_large();
            }
            return u32::MAX;
        }
        let (digits, weight) = binary64_format().decode(self.bits);
        let ghost unit = pow2(1074) as int;
        if weight >= 1074 {
            proof {
                lemma_whole_large(digits as int, weight as nat, self.scaled());
            }
            return u32::MAX;
        }
        let gap: u32 = 1074 - weight;
        if gap > 64 {
            proof {
                lemma_whole_small(digits as int, weight as nat);
            }
            return 1;
        }
        let factor: u128 = power_of_two(gap);
        proof {
            lemma2_to64();
            lemma2_to64_rest();
            if gap < 64 {
                lemma_pow2_strictly_increases(gap as nat, 64);
            }
            lemma_pow2_pos(gap as nat);
            lemma_whole_middle(digits as int, weight as nat, gap as nat);
        }
        let whole: u128 = (2 * (digits as u128) + factor) / (2 * factor);
        if whole < 1 {
            1
        } else if whole > u32::MAX as u128 {
            u32::MAX
        } else {
            whole as u32
        }
    }
}

proof fn lemma_infinity_is_large()
    ensures
        (2 * scaled_magnitude(INFINITY_64 as int, 52) + pow2(1074)) / (2 * pow2(1074) as int)
            > u32::MAX,
{
    lemma2_to64_rest();
    lemma_scaled_magnitude_of_parts(0x10_0000_0000_0000, 2046, 52);
    lemma_whole_large(
        0x10_0000_0000_0000,
        2046,
        scaled_magnitude(INFINITY_64 as int, 52),
    );
}

proof fn lemma_whole_large(digits: int, weight: nat, scaled: int)
    requires
        digits >= 0x10_0000_0000_0000,
        weight >= 1074,
        scaled == digits * pow2(weight),
    ensures
        (2 * scaled + pow2(1074)) / (2 * pow2(1074) as int) > u32::MAX,
{
    let unit = pow2(1074) as int;
    lemma_pow2_pos(1074);
    lemma_pow2_adds(1074, (weight - 1074) as nat);
    let f = pow2((weight - 1074) as nat) as int;
    lemma_pow2_pos((weight - 1074) as nat);
    assert(digits * (unit * f) >= 0x10_0000_0000_0000 * unit) by (nonlinear_arith)
        requires
            digits >= 0x10_0000_0000_0000,
            f >= 1,
            unit > 0,
    ;
    assert((2 * scaled + unit) / (2 * unit) >= 0x10_0000_0000_0000) by (nonlinear_arith)
        requires
            scaled >= 0x10_0000_0000_0000 * unit,
            unit > 0,
    ;
}

proof fn lemma_whole_small(digits: int, weight: nat)
    requires
        0 <= digits < 0x20_0000_0000_0000,
        weight + 64 < 1074,
    ensures
        (2 * (digits * pow2(weight)) + pow2(1074)) / (2 * pow2(1074) as int) == 0,
{
    let unit = pow2(1074) as int;
    let g = pow2(weight) as int;
    lemma2_to64_rest();
    lemma_pow2_pos(weight);
    lemma_pow2_adds(weight, 64);
    lemma_pow2_strictly_increases(weight + 64, 1074);
    assert(0 <= 2 * (digits * g) < unit) by (nonlinear_arith)
        requires
            0 <= digits < 0x20_0000_0000_0000,
            g > 0,
            g * 0x1_0000_0000_0000_0000 < unit,
    ;
    vstd::arithmetic::div_mod::lemma_basic_div(2 * (digits * g) + unit, 2 * unit);
}

proof fn lemma_whole_middle(digits: int, weight: nat, gap: nat)
    requires
        0 <= digits,
        weight + gap == 1074,
    ensures
        (2 * (digits * pow2(weight)) + pow2(1074)) / (2 * pow2(1074) as int) == (2 * digits + pow2(
            gap,
        )) / (2 * pow2(gap) as int),
{
    let g = pow2(weight) as int;
    let f = pow2(gap) as int;
    lemma_pow2_pos(weight);
    lemma_pow2_pos(gap);
    lemma_pow2_adds(weight, gap);
    assert(2 * (digits * g) + g * f == g * (2 * digits + f) && 2 * (g * f) == g * (2 * f))
        by (nonlinear_arith);
    vstd::arithmetic::div_mod::lemma_div_denominator(g * (2 * digits + f), g, 2 * f);
    assert(g * (2 * digits + f) == (2 * digits + f) * g) by (nonlinear_arith);
    vstd::arithmetic::div_mod::lemma_div_by_multiple(2 * digits + f, g);
}

/// The first pattern is that of zero.
pub proof fn lemma_scaled_zero(fraction_bits: nat)
    ensures
        scaled_magnitude(0, fraction_bits) == 0,
{
    lemma2_to64();
    lemma_pow2_pos(fraction_bits);
    lemma_scaled_magnitude_of_parts(0, 0, fraction_bits);
}

proof fn lemma_integer_stands_for(value: int, unit: nat)
    ensures
        stands_for(value, unit as int, false, value * pow2(unit), 1),
{
}

} // verus!
