use erika::ieee::{Binary32, Binary64};

fn b64(value: f64) -> Binary64 {
    Binary64 { bits: value.to_bits() }
}

fn b32(value: f32) -> Binary32 {
    Binary32 { bits: value.to_bits() }
}

fn same64(ours: Binary64, theirs: f64) -> bool {
    let ours = f64::from_bits(ours.bits);
    ours.to_bits() == theirs.to_bits() || (ours.is_nan() && theirs.is_nan())
}

fn same32(ours: Binary32, theirs: f32) -> bool {
    let ours = f32::from_bits(ours.bits);
    ours.to_bits() == theirs.to_bits() || (ours.is_nan() && theirs.is_nan())
}

/// A small generator of bit patterns.
struct Patterns {
    state: u64,
}

impl Patterns {
    fn next(&mut self) -> u64 {
        self.state ^= self.state << 13;
        self.state ^= self.state >> 7;
        self.state ^= self.state << 17;
        self.state
    }
}

fn special_values() -> Vec<f64> {
    vec![
        0.0,
        -0.0,
        1.0,
        -1.0,
        0.1,
        0.5,
        1.5,
        2.5,
        -2.5,
        3.0,
        0.001,
        0.0001,
        1e9,
        4294967295.0,
        4294967295.5,
        4294967296.0,
        9007199254740991.0,
        9007199254740992.0,
        9007199254740994.0,
        18446744073709551615.0,
        1e300,
        -1e300,
        1e-300,
        5e-324,
        -5e-324,
        2.2250738585072014e-308,
        2.225073858507201e-308,
        1e-40,
        3.4028235677973366e38,
        3.4028234663852886e38,
        1.1754943508222875e-38,
        f64::MAX,
        f64::MIN_POSITIVE,
        f64::INFINITY,
        f64::NEG_INFINITY,
        f64::NAN,
    ]
}

fn assert_pair(a: f64, b: f64) {
    assert!(same64(b64(a).plus(b64(b)), a + b), "{a:e} + {b:e}");
    assert!(same64(b64(a).minus(b64(b)), a - b), "{a:e} - {b:e}");
    assert!(same64(b64(a).times(b64(b)), a * b), "{a:e} * {b:e}");
    assert!(same64(b64(a).over(b64(b)), a / b), "{a:e} / {b:e}");
    let (x, y) = (a as f32, b as f32);
    assert!(same32(b32(x).over(b32(y)), x / y), "{x:e} / {y:e}");
    assert_eq!(b32(x).less_than(b32(y)), x < y);
}

fn assert_single(a: f64) {
    assert!(same32(b64(a).to_binary32(), a as f32), "{a:e} as f32");
    assert_eq!(b64(a).to_pixels(), a.round().max(1.0) as u32, "{a:e}");
    assert_eq!(b64(a).host_second(), a.max(0.0).floor() as u64, "{a:e}");
    assert!(same64(b64(a).negated(), -a));
    assert!(same64(b64(a).absolute(), a.abs()));
    assert!(same64(b64(a).at_least_floor(b64(1.0)), a.max(1.0)));
    assert!(same64(b64(a).at_least_floor(b64(0.0001)), a.max(0.0001)));
    assert_eq!(b64(a).is_positive_finite(), a.is_finite() && a > 0.0);
    assert_eq!(b64(a).is_positive(), a > 0.0);
    assert_eq!(b64(a).magnitude_exceeds(b64(0.001)), a.abs() > 0.001);
    let x = a as f32;
    assert_eq!(b32(x).is_finite(), x.is_finite());
    assert!(same32(b32(x).at_least_one(), x.max(1.0)));
}

#[test]
fn arithmetic_agrees_with_the_machine_on_special_values() {
    for a in special_values() {
        assert_single(a);
        for b in special_values() {
            assert_pair(a, b);
        }
    }
}

#[test]
fn arithmetic_agrees_with_the_machine_on_arbitrary_patterns() {
    let mut patterns = Patterns { state: 0x9e37_79b9_7f4a_7c15 };
    for _ in 0..20_000 {
        let a = f64::from_bits(patterns.next());
        let b = f64::from_bits(patterns.next());
        assert_single(a);
        assert_pair(a, b);
    }
}

#[test]
fn arithmetic_agrees_with_the_machine_on_neighbouring_exponents() {
    let mut patterns = Patterns { state: 0x2545_f491_4f6c_dd1d };
    for round in 0..20_000_u64 {
        let mantissa = 0x000f_ffff_ffff_ffff;
        let exponent = 960 + round % 128;
        let a = f64::from_bits((patterns.next() & mantissa) | (exponent << 52));
        let b = f64::from_bits((patterns.next() & mantissa) | ((1023 + round % 70) << 52));
        assert_single(a);
        assert_single(b);
        assert_pair(a, b);
        assert_pair(-a, b);
        assert_pair(b, a);
    }
}

#[test]
fn subnormal_results_are_rounded_as_the_machine_does() {
    let mut patterns = Patterns { state: 0x1234_5678_9abc_def1 };
    for round in 0..5_000_u64 {
        let mantissa = 0x000f_ffff_ffff_ffff;
        let a = f64::from_bits((patterns.next() & mantissa) | ((round % 60) << 52));
        let b = f64::from_bits((patterns.next() & mantissa) | ((980 + round % 60) << 52));
        assert_pair(a, b);
        assert_pair(b, a);
        assert_pair(a, -a);
    }
    for round in 0..5_000_u64 {
        let mantissa = 0x000f_ffff_ffff_ffff;
        let a = f64::from_bits((patterns.next() & mantissa) | ((870 + round % 40) << 52));
        assert_single(a);
    }
}

#[test]
fn integers_convert_as_the_machine_converts_them() {
    let mut patterns = Patterns { state: 0xdead_beef_cafe_f00d };
    let mut values = vec![0, 1, 2, 3, 1 << 52, (1 << 53) - 1, 1 << 53, (1 << 53) + 1, u64::MAX];
    for shift in 0..64 {
        values.push(patterns.next() >> shift);
        values.push((1_u64 << shift) + 1);
    }
    for value in values {
        assert!(same64(Binary64::from_unsigned(value), value as f64));
        assert!(same64(Binary64::from_signed(value as i64), value as i64 as f64));
        assert!(same32(Binary32::from_unsigned(value as u32), value as u32 as f32));
    }
    assert!(same64(Binary64::from_signed(i64::MIN), i64::MIN as f64));
}

#[test]
fn ordering_of_positive_numbers_follows_their_patterns() {
    assert!(b64(2.0).at_least(b64(2.0)));
    assert!(b64(2.0).at_least(b64(1.9999999999999998)));
    assert!(!b64(1.9999999999999998).at_least(b64(2.0)));
    assert!(b64(f64::INFINITY).at_least(b64(f64::MAX)));
    assert!(!b64(5e-324).at_least(b64(1e-323)));
}
