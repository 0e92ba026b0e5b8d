use erika::ieee::Binary64;
use erika::media_time::{seconds_of, MediaTime};
use std::time::Duration;

fn duration(time: MediaTime) -> Duration {
    Duration::new(time.seconds, time.nanos)
}

fn timestamps() -> Vec<(i64, i32)> {
    let mut cases = vec![
        (0, 1),
        (1, 1),
        (1, 3),
        (2, 3),
        (1, i32::MAX),
        (i64::MAX, 1),
        (i64::MAX, 90_000),
        (i64::MAX - 1, 1_000_000_000),
        (3, 2_000_000_000),
        (5, 2_000_000_000),
        (1_234_567_891, 1_000_000_000),
        ((1 << 53) + 1, 1_000),
    ];
    for frame in 0..2_000 {
        cases.push((frame * 1_001, 24_000));
        cases.push((frame * 3_003, 90_000));
        cases.push((frame * 104_729 + 17, 44_100));
        cases.push((frame * 982_451_653_123, 1_000_003));
    }
    cases
}

#[test]
fn timestamps_become_the_nearest_nanosecond_of_the_nearest_number() {
    for (value, scale) in timestamps() {
        let seconds = value as f64 / scale as f64;
        assert_eq!(seconds_of(value, scale).bits, seconds.to_bits());
        let time = MediaTime::from_seconds(seconds_of(value, scale));
        assert_eq!(duration(time), Duration::from_secs_f64(seconds), "{value}/{scale}");
    }
}

#[test]
fn media_times_become_seconds_as_durations_do() {
    for (value, scale) in timestamps() {
        let time = MediaTime::from_seconds(seconds_of(value, scale));
        let seconds = f64::from_bits(time.to_seconds().bits);
        assert_eq!(seconds, duration(time).as_secs_f64());
    }
    let last = MediaTime { seconds: u64::MAX, nanos: 999_999_999 };
    assert_eq!(f64::from_bits(last.to_seconds().bits), duration(last).as_secs_f64());
}

#[test]
fn negative_times_and_nan_count_as_zero() {
    let zero = MediaTime { seconds: 0, nanos: 0 };
    assert_eq!(MediaTime::from_seconds(seconds_of(-1, 1)), zero);
    assert_eq!(MediaTime::from_seconds(seconds_of(1, -1)), zero);
    assert_eq!(MediaTime::from_seconds(seconds_of(0, 0)), zero);
    assert_eq!(MediaTime::from_seconds(seconds_of(-7, 0)), zero);
    assert_eq!(MediaTime::from_seconds(Binary64 { bits: f64::NAN.to_bits() }), zero);
}

#[test]
fn halves_of_a_nanosecond_go_to_the_even_one() {
    for seconds in [0.5e-9, 1.5e-9, 2.5e-9, 4.0e-10, 6.0e-10, 1e-30, 5e-324] {
        let time = MediaTime::from_seconds(Binary64 { bits: f64::to_bits(seconds) });
        assert_eq!(duration(time), Duration::from_secs_f64(seconds));
    }
}
