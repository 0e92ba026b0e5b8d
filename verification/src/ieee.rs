//! IEEE 754 numbers as bit patterns.
//!
//! Host times, clock rates, geometry and headroom values reach the adapter as `double` and `float`.
//! Here they are classified, ordered and taken apart into whole seconds by integer arithmetic on
//! the bit pattern.  The mathematical value of a pattern is given by [`scaled_magnitude`].

use vstd::arithmetic::div_mod::lemma_div_denominator;
use vstd::arithmetic::power2::{
    lemma2_to64, lemma2_to64_rest, lemma_pow2_adds, lemma_pow2_pos, lemma_pow2_strictly_increases,
    pow2,
};
use vstd::bits::{lemma_u64_shl_is_mul, lemma_u64_shr_is_div};
use vstd::prelude::*;

verus! {

/// The first binary64 pattern with the sign bit set.
pub const SIGN_64: u64 = 0x8000_0000_0000_0000;

/// The binary64 pattern of positive infinity; larger magnitudes are NaN.
pub const INFINITY_64: u64 = 0x7ff0_0000_0000_0000;

/// The binary64 pattern of the quiet NaN that stands for "no clock".
pub const QUIET_NAN_64: u64 = 0x7ff8_0000_0000_0000;

/// The binary64 pattern of `1.0`.
pub const ONE_64: u64 = 0x3ff0_0000_0000_0000;

/// The first binary32 pattern with the sign bit set.
pub const SIGN_32: u32 = 0x8000_0000;

/// The binary32 pattern of positive infinity; larger magnitudes are NaN.
pub const INFINITY_32: u32 = 0x7f80_0000;

/// The binary32 pattern of the quiet NaN.
pub const QUIET_NAN_32: u32 = 0x7fc0_0000;

/// The binary32 pattern of `1.0`.
pub const ONE_32: u32 = 0x3f80_0000;

/// The value of a pattern without its sign, in units of the smallest subnormal number: an exponent
/// field of zero stands for the fraction alone, any other adds the implicit leading bit and
/// doubles once per step of the exponent above one.
pub open spec fn scaled_magnitude(magnitude: int, fraction_bits: nat) -> int {
    let hidden = pow2(fraction_bits) as int;
    let exponent = magnitude / hidden;
    let fraction = magnitude % hidden;
    if exponent == 0 {
        fraction
    } else {
        (hidden + fraction) * pow2((exponent - 1) as nat)
    }
}

/// Patterns without a sign are ordered as the values they stand for.
pub proof fn lemma_scaled_magnitude_monotone(a: int, b: int, fraction_bits: nat)
    requires
        0 <= a < b,
    ensures
        0 <= scaled_magnitude(a, fraction_bits) < scaled_magnitude(b, fraction_bits),
{
    lemma_pow2_pos(fraction_bits);
    let hidden = pow2(fraction_bits) as int;
    let ea = a / hidden;
    let eb = b / hidden;
    let fa = a % hidden;
    let fb = b % hidden;
    assert(a == hidden * ea + fa && b == hidden * eb + fb && 0 <= fa < hidden && 0 <= fb < hidden
        && 0 <= ea <= eb) by (nonlinear_arith)
        requires
            hidden > 0,
            0 <= a < b,
            ea == a / hidden,
            eb == b / hidden,
            fa == a % hidden,
            fb == b % hidden,
    ;
    if ea == eb {
        assert(fa < fb);
        if ea > 0 {
            let p = pow2((ea - 1) as nat) as int;
            lemma_pow2_pos((ea - 1) as nat);
            assert(0 <= (hidden + fa) * p < (hidden + fb) * p) by (nonlinear_arith)
                requires
                    p > 0,
                    0 <= fa < fb,
                    hidden > 0,
            ;
        }
    } else {
        let pb = pow2((eb - 1) as nat) as int;
        lemma_pow2_pos((eb - 1) as nat);
        assert((hidden + fb) * pb >= hidden * pb) by (nonlinear_arith)
            requires
                pb > 0,
                fb >= 0,
        ;
        if ea == 0 {
            assert(hidden * pb >= hidden) by (nonlinear_arith)
                requires
                    pb >= 1,
                    hidden > 0,
            ;
        } else {
            let pa = pow2((ea - 1) as nat) as int;
            lemma_pow2_pos((ea - 1) as nat);
            lemma_pow2_adds(1, (ea - 1) as nat);
            lemma2_to64();
            assert(pow2(ea as nat) == 2 * pa);
            if ea < eb - 1 {
                lemma_pow2_strictly_increases(ea as nat, (eb - 1) as nat);
            }
            assert(2 * pa <= pb);
            assert(0 <= (hidden + fa) * pa < (2 * hidden) * pa) by (nonlinear_arith)
                requires
                    pa > 0,
                    0 <= fa < hidden,
            ;
            assert((2 * hidden) * pa <= hidden * pb) by (nonlinear_arith)
                requires
                    2 * pa <= pb,
                    hidden > 0,
            ;
        }
    }
}

/// A binary64 number (a C `double`), held as its bit pattern.
#[derive(Clone, Copy, Debug, PartialEq, Eq, Structural)]
pub struct Binary64 {
    pub bits: u64,
}

impl Binary64 {
    /// Whether the sign bit is set.
    pub open spec fn negative(self) -> bool {
        self.bits >= SIGN_64
    }

    /// The pattern without its sign bit.
    pub open spec fn magnitude(self) -> int {
        if self.negative() {
            self.bits - SIGN_64
        } else {
            self.bits as int
        }
    }

    pub open spec fn nan(self) -> bool {
        self.magnitude() > INFINITY_64
    }

    pub open spec fn finite(self) -> bool {
        self.magnitude() < INFINITY_64
    }

    /// The value in units of 2^-1074.  An infinity lies beyond every finite number of its sign;
    /// a NaN has no value.
    pub open spec fn scaled(self) -> int {
        let magnitude = scaled_magnitude(self.magnitude(), 52);
        if self.negative() {
            -magnitude
        } else {
            magnitude
        }
    }

    /// Whether the number is finite and greater than zero.
    pub open spec fn positive_finite(self) -> bool {
        self.finite() && self.scaled() > 0
    }

    /// Whether the number is greater than zero, an infinity included.
    pub open spec fn positive(self) -> bool {
        !self.nan() && self.scaled() > 0
    }

    /// The whole seconds of a host time: rounded towards negative infinity, with everything below
    /// zero, and a NaN, taken as zero, and everything too large for the result as the maximum.
    pub open spec fn whole_seconds(self) -> u64 {
        if self.nan() || self.scaled() <= 0 {
            0
        } else if self.scaled() / (pow2(1074) as int) > u64::MAX {
            u64::MAX
        } else {
            (self.scaled() / (pow2(1074) as int)) as u64
        }
    }

    proof fn lemma_zero()
        ensures
            scaled_magnitude(0, 52) == 0,
    {
        lemma_pow2_pos(52);
        assert(0int / (pow2(52) as int) == 0 && 0int % (pow2(52) as int) == 0) by (nonlinear_arith)
            requires
                pow2(52) > 0,
        ;
    }

    /// A pattern above that of zero, up to that of infinity, stands for a number above zero.
    pub proof fn lemma_pattern_positive(number: Binary64)
        requires
            0 < number.bits <= INFINITY_64,
        ensures
            number.positive(),
            !number.negative(),
    {
        Self::lemma_zero();
        lemma_scaled_magnitude_monotone(0, number.magnitude(), 52);
    }

    /// `is_finite() && > 0.0`.
    pub fn is_positive_finite(self) -> (result: bool)
        ensures
            result == self.positive_finite(),
    {
        proof {
            Self::lemma_zero();
            if self.magnitude() > 0 {
                lemma_scaled_magnitude_monotone(0, self.magnitude(), 52);
            }
        }
        0 < self.bits && self.bits < INFINITY_64
    }

    /// `> 0.0`.
    pub fn is_positive(self) -> (result: bool)
        ensures
            result == self.positive(),
            result ==> !self.negative(),
    {
        proof {
            Self::lemma_zero();
            if self.magnitude() > 0 {
                lemma_scaled_magnitude_monotone(0, self.magnitude(), 52);
            }
        }
        0 < self.bits && self.bits <= INFINITY_64
    }

    /// `self >= other` for two numbers above zero.
    pub fn at_least(self, other: Binary64) -> (result: bool)
        requires
            self.positive(),
            other.positive(),
        ensures
            result == (self.scaled() >= other.scaled()),
    {
        proof {
            Self::lemma_zero();
            if self.magnitude() < other.magnitude() {
                lemma_scaled_magnitude_monotone(self.magnitude(), other.magnitude(), 52);
            }
            if other.magnitude() < self.magnitude() {
                lemma_scaled_magnitude_monotone(other.magnitude(), self.magnitude(), 52);
            }
            if self.magnitude() > 0 {
                lemma_scaled_magnitude_monotone(0, self.magnitude(), 52);
            }
            if other.magnitude() > 0 {
                lemma_scaled_magnitude_monotone(0, other.magnitude(), 52);
            }
        }
        self.bits >= other.bits
    }

    /// `self.abs() > limit` for a limit above zero; false of a NaN.
    pub fn magnitude_exceeds(self, limit: Binary64) -> (result: bool)
        requires
            limit.positive(),
        ensures
            result == (!self.nan() && scaled_magnitude(self.magnitude(), 52) > limit.scaled()),
    {
        let magnitude: u64 = if self.bits >= SIGN_64 {
            self.bits - SIGN_64
        } else {
            self.bits
        };
        proof {
            Self::lemma_zero();
            if limit.magnitude() > 0 {
                lemma_scaled_magnitude_monotone(0, limit.magnitude(), 52);
            }
            if self.magnitude() < limit.magnitude() {
                lemma_scaled_magnitude_monotone(self.magnitude(), limit.magnitude(), 52);
            }
            if limit.magnitude() < self.magnitude() {
                lemma_scaled_magnitude_monotone(limit.magnitude(), self.magnitude(), 52);
            }
        }
        magnitude <= INFINITY_64 && magnitude > limit.bits
    }

    proof fn lemma_whole_seconds_below_one(sig: int, exponent: int)
        requires
            0 <= sig < pow2(53),
            1 <= exponent < 1023,
        ensures
            0 <= sig * pow2((exponent - 1) as nat) < pow2(1074),
    {
        let p = pow2((exponent - 1) as nat) as int;
        lemma_pow2_pos((exponent - 1) as nat);
        lemma_pow2_adds(53, (exponent - 1) as nat);
        assert(0 <= sig * p < pow2(53) * p) by (nonlinear_arith)
            requires
                0 <= sig < pow2(53),
                p > 0,
        ;
        if exponent + 52 < 1074 {
            lemma_pow2_strictly_increases((exponent + 52) as nat, 1074);
        }
    }

    proof fn lemma_whole_seconds_shift_down(sig: int, exponent: int)
        requires
            0 <= sig,
            1023 <= exponent <= 1075,
        ensures
            (sig * pow2((exponent - 1) as nat)) / (pow2(1074) as int) == sig / (pow2(
                (1075 - exponent) as nat,
            ) as int),
    {
        let low = pow2((exponent - 1) as nat) as int;
        let shift = pow2((1075 - exponent) as nat) as int;
        lemma_pow2_pos((exponent - 1) as nat);
        lemma_pow2_pos((1075 - exponent) as nat);
        lemma_pow2_adds((exponent - 1) as nat, (1075 - exponent) as nat);
        assert(sig * low == low * sig) by (nonlinear_arith);
        assert((low * sig) / low == sig) by {
            vstd::arithmetic::div_mod::lemma_div_by_multiple(sig, low);
        }
        lemma_div_denominator(low * sig, low, shift);
    }

    proof fn lemma_whole_seconds_shift_up(sig: int, exponent: int)
        requires
            0 <= sig,
            1075 <= exponent,
        ensures
            (sig * pow2((exponent - 1) as nat)) / (pow2(1074) as int) == sig * pow2(
                (exponent - 1075) as nat,
            ),
    {
        let unit = pow2(1074) as int;
        let shift = pow2((exponent - 1075) as nat) as int;
        lemma_pow2_pos(1074);
        lemma_pow2_adds(1074, (exponent - 1075) as nat);
        assert(sig * (unit * shift) == (sig * shift) * unit) by (nonlinear_arith);
        vstd::arithmetic::div_mod::lemma_div_by_multiple(sig * shift, unit);
    }

    /// The host second that a time falls into: `max(0.0).floor() as u64`.
    pub fn host_second(self) -> (second: u64)
        ensures
            second == self.whole_seconds(),
    {
        proof {
            lemma2_to64();
            lemma2_to64_rest();
            lemma_pow2_pos(1074);
        }
        if !self.is_positive() {
            return 0;
        }
        let hidden: u64 = 0x10_0000_0000_0000;
        let exponent: u64 = self.bits / hidden;
        let sig: u64 = if exponent == 0 {
            self.bits % hidden
        } else {
            hidden + self.bits % hidden
        };
        let ghost scaled = self.scaled();
        proof {
            if exponent == 0 {
                lemma_pow2_strictly_increases(52, 1074);
                vstd::arithmetic::div_mod::lemma_basic_div(scaled, pow2(1074) as int);
            } else if exponent < 1023 {
                Self::lemma_whole_seconds_below_one(sig as int, exponent as int);
                vstd::arithmetic::div_mod::lemma_basic_div(scaled, pow2(1074) as int);
            } else if exponent <= 1075 {
                Self::lemma_whole_seconds_shift_down(sig as int, exponent as int);
            } else {
                Self::lemma_whole_seconds_shift_up(sig as int, exponent as int);
            }
        }
        if exponent < 1023 {
            0
        } else if exponent <= 1075 {
            proof {
                lemma_u64_shr_is_div(sig, (1075 - exponent) as u64);
                vstd::arithmetic::div_mod::lemma_div_is_ordered_by_denominator(
                    sig as int,
                    1,
                    pow2((1075 - exponent) as nat) as int,
                );
            }
            sig >> (1075 - exponent)
        } else if exponent < 1087 {
            proof {
                if exponent < 1086 {
                    lemma_pow2_strictly_increases((exponent - 1075) as nat, 11);
                }
                let p = pow2((exponent - 1075) as nat) as int;
                assert(sig * p <= 0x1f_ffff_ffff_ffff * 0x800) by (nonlinear_arith)
                    requires
                        0 <= sig <= 0x1f_ffff_ffff_ffff,
                        0 <= p <= 0x800,
                ;
                lemma_u64_shl_is_mul(sig, (exponent - 1075) as u64);
            }
            sig << (exponent - 1075)
        } else {
            proof {
                if exponent > 1087 {
                    lemma_pow2_strictly_increases(12, (exponent - 1075) as nat);
                }
                let p = pow2((exponent - 1075) as nat) as int;
                assert(sig * p >= 0x10_0000_0000_0000 * 0x1000) by (nonlinear_arith)
                    requires
                        sig >= 0x10_0000_0000_0000,
                        p >= 0x1000,
                ;
            }
            u64::MAX
        }
    }
}

/// A binary32 number (a C `float`), held as its bit pattern.
#[derive(Clone, Copy, Debug, PartialEq, Eq, Structural)]
pub struct Binary32 {
    pub bits: u32,
}

impl Binary32 {
    /// Whether the sign bit is set.
    pub open spec fn negative(self) -> bool {
        self.bits >= SIGN_32
    }

    /// The pattern without its sign bit.
    pub open spec fn magnitude(self) -> int {
        if self.negative() {
            self.bits - SIGN_32
        } else {
            self.bits as int
        }
    }

    pub open spec fn nan(self) -> bool {
        self.magnitude() > INFINITY_32
    }

    pub open spec fn finite(self) -> bool {
        self.magnitude() < INFINITY_32
    }

    /// The value in units of 2^-149, an infinity lying beyond every finite number of its sign.
    pub open spec fn scaled(self) -> int {
        let magnitude = scaled_magnitude(self.magnitude(), 23);
        if self.negative() {
            -magnitude
        } else {
            magnitude
        }
    }

    /// Whether both are numbers and `self` is the smaller.
    pub open spec fn below(self, other: Binary32) -> bool {
        !self.nan() && !other.nan() && self.scaled() < other.scaled()
    }

    pub fn is_finite(self) -> (result: bool)
        ensures
            result == self.finite(),
    {
        if self.bits >= SIGN_32 {
            self.bits - SIGN_32 < INFINITY_32
        } else {
            self.bits < INFINITY_32
        }
    }

    /// `self < other`; false where either is a NaN.
    pub fn less_than(self, other: Binary32) -> (result: bool)
        ensures
            result == self.below(other),
    {
        let self_negative: bool = self.bits >= SIGN_32;
        let other_negative: bool = other.bits >= SIGN_32;
        let a: u32 = if self_negative {
            self.bits - SIGN_32
        } else {
            self.bits
        };
        let b: u32 = if other_negative {
            other.bits - SIGN_32
        } else {
            other.bits
        };
        proof {
            lemma_pow2_pos(23);
            assert(0int / (pow2(23) as int) == 0 && 0int % (pow2(23) as int) == 0)
                by (nonlinear_arith)
                requires
                    pow2(23) > 0,
            ;
            if 0 < a {
                lemma_scaled_magnitude_monotone(0, a as int, 23);
            }
            if 0 < b {
                lemma_scaled_magnitude_monotone(0, b as int, 23);
            }
            if a < b {
                lemma_scaled_magnitude_monotone(a as int, b as int, 23);
            }
            if b < a {
                lemma_scaled_magnitude_monotone(b as int, a as int, 23);
            }
        }
        if a > INFINITY_32 || b > INFINITY_32 {
            false
        } else if self_negative && other_negative {
            b < a
        } else if self_negative {
            0 < a || 0 < b
        } else if other_negative {
            false
        } else {
            a < b
        }
    }

    /// `max(1.0)`, which is `1.0` for a NaN.
    pub fn at_least_one(self) -> (result: Binary32)
        ensures
            result == (if (Binary32 { bits: ONE_32 }).below(self) {
                self
            } else {
                Binary32 { bits: ONE_32 }
            }),
    {
        let one = Binary32 { bits: ONE_32 };
        if one.less_than(self) {
            self
        } else {
            one
        }
    }
}

} // verus!
