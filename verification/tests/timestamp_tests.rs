use q_compress::timestamps::{TimestampMicros, TimestampNanos};
use std::time::SystemTime;

const NANOS_MIN: i128 = -9_223_372_036_854_775_808_000_000_000;
const NANOS_MAX: i128 = 9_223_372_036_854_775_807_999_999_999;
const MICROS_MIN: i128 = -9_223_372_036_854_775_808_000_000;
const MICROS_MAX: i128 = 9_223_372_036_854_775_807_999_999;

#[test]
fn test_system_time_conversion() {
    let t = SystemTime::now();
    let micro_t = TimestampMicros::from_system_time(&t);
    let nano_t = TimestampNanos::from_system_time(&t);
    let (micro_t_s, micro_t_ns) = micro_t.to_secs_and_nanos();
    let (nano_t_s, nano_t_ns) = nano_t.to_secs_and_nanos();
    assert!(micro_t_s > 1500000000);
    assert_eq!(micro_t_s, nano_t_s);
    assert!(micro_t_ns <= nano_t_ns);
    assert!(micro_t_ns + 1000 > nano_t_ns);
    // A microsecond timestamp holds 10^6 parts per second, so the round
    // trip reproduces the instant truncated to whole microseconds; on this
    // platform the wall clock itself is nanosecond-granular.
    let dur = t.duration_since(std::time::UNIX_EPOCH).unwrap();
    let micro_expected = std::time::UNIX_EPOCH
        + std::time::Duration::new(dur.as_secs(), dur.subsec_nanos() - dur.subsec_nanos() % 1000);
    assert_eq!(micro_t.to_system_time().unwrap(), micro_expected);
    assert_eq!(nano_t.to_system_time().unwrap(), t);
}

#[test]
fn nanos_from_secs_and_nanos_negative_second() {
    // One half second before the epoch: seconds = -1, subsec = 500ms.
    let t = TimestampNanos::from_secs_and_nanos(-1, 500_000_000);
    assert_eq!(t.to_total_parts(), -500_000_000);
    let bytes = t.to_bytes();
    assert_eq!(bytes.len(), 12);
    // The on-wire value is parts - MIN in big-endian.
    let mut val: i128 = 0;
    for b in &bytes {
        val = val * 256 + *b as i128;
    }
    assert_eq!(val, -500_000_000 - NANOS_MIN);
    let back = TimestampNanos::from_bytes(bytes).unwrap();
    assert_eq!(back.to_total_parts(), -500_000_000);
    assert_eq!(back, t);
}

#[test]
fn nanos_min_max_round_trip() {
    for parts in [NANOS_MIN, NANOS_MAX, 0, -1, 1] {
        let t = TimestampNanos::new(parts).unwrap();
        let back = TimestampNanos::from_bytes(t.to_bytes()).unwrap();
        assert_eq!(back.to_total_parts(), parts);
        let u = t.to_unsigned();
        assert_eq!(TimestampNanos::from_unsigned(u).to_total_parts(), parts);
        let s = t.to_signed();
        assert_eq!(TimestampNanos::from_signed(s).to_total_parts(), parts);
    }
    assert!(TimestampNanos::new(NANOS_MAX + 1).is_err());
    assert!(TimestampNanos::new(NANOS_MIN - 1).is_err());
}

#[test]
fn micros_min_max_round_trip() {
    for parts in [MICROS_MIN, MICROS_MAX, 0, -1, 1] {
        let t = TimestampMicros::new(parts).unwrap();
        let back = TimestampMicros::from_bytes(t.to_bytes()).unwrap();
        assert_eq!(back.to_total_parts(), parts);
        let u = t.to_unsigned();
        assert_eq!(TimestampMicros::from_unsigned(u).to_total_parts(), parts);
        let s = t.to_signed();
        assert_eq!(TimestampMicros::from_signed(s).to_total_parts(), parts);
    }
    assert!(TimestampMicros::new(MICROS_MAX + 1).is_err());
    assert!(TimestampMicros::new(MICROS_MIN - 1).is_err());
}

#[test]
fn timestamp_order_maps_to_unsigned_order() {
    let a = TimestampNanos::new(-5).unwrap();
    let b = TimestampNanos::new(3).unwrap();
    assert!(a.to_unsigned() < b.to_unsigned());
    let c = TimestampMicros::new(MICROS_MIN).unwrap();
    let d = TimestampMicros::new(MICROS_MAX).unwrap();
    assert!(c.to_unsigned() < d.to_unsigned());
}

#[test]
fn invalid_timestamp_message_names_the_parts() {
    let e = TimestampNanos::new(NANOS_MAX + 1).unwrap_err();
    assert!(e.message.contains("9223372036854775808000000000"));
    assert!(e.message.contains("1000000000"));
}
