use psy::time::{now, Duration, Timestamp};

fn at(secs: i64, nanos: u32) -> Timestamp {
    Timestamp::new(secs, nanos).unwrap()
}

#[test]
fn durations_count_in_seconds_and_milliseconds() {
    let d = Duration::from_millis(1500);
    assert_eq!(d, Duration { secs: 1, nanos: 500_000_000 });
    assert_eq!(d.as_secs(), 1);
    assert_eq!(d.as_millis(), 1500);
    assert_eq!(Duration::from_secs(2).as_millis(), 2000);
}

#[test]
fn timestamps_outside_the_calendar_are_refused() {
    assert!(Timestamp::new(i64::MAX, 0).is_none());
    assert!(Timestamp::new(0, 2_000_000_000).is_none());
    assert!(Timestamp::new(0, 999_999_999).is_some());
}

#[test]
fn the_calendar_has_a_first_and_a_last_second() {
    let first = -8_334_601_228_800;
    let last = 8_210_266_876_799;
    assert!(Timestamp::new(first - 1, 0).is_none());
    assert!(Timestamp::new(last + 1, 0).is_none());
    assert_eq!(at(first, 0).to_rfc3339(), "-262143-01-01T00:00:00+00:00");
    assert_eq!(at(first, 0).to_log_time(), "-262143-01-01T00:00:00.000Z");
    assert_eq!(at(last, 999_999_999).to_rfc3339(), "+262142-12-31T23:59:59.999999999+00:00");
    assert_eq!(at(first, 5).earlier(1), None);
}

#[test]
fn leap_seconds_end_a_minute() {
    assert!(Timestamp::new(58, 1_500_000_000).is_none());
    assert_eq!(at(59, 1_500_000_000).to_rfc3339(), "1970-01-01T00:00:60.500+00:00");
    assert_eq!(at(-1, 1_000_000_000).to_rfc3339(), "1969-12-31T23:59:60+00:00");
}

#[test]
fn timestamp_is_written_in_rfc_3339() {
    assert_eq!(at(0, 0).to_rfc3339(), "1970-01-01T00:00:00+00:00");
    assert_eq!(at(1_700_000_000, 5_000_000).to_rfc3339(), "2023-11-14T22:13:20.005+00:00");
}

#[test]
fn timestamp_in_front_of_a_log_line_has_milliseconds() {
    assert_eq!(at(1_741_774_532, 123_000_000).to_log_time(), "2025-03-12T10:15:32.123Z");
}

#[test]
fn timestamp_reads_back_what_it_writes() {
    for t in [at(0, 0), at(1_700_000_000, 1), at(-62_135_596_800, 0), at(1, 999_999_999)] {
        let text = t.to_rfc3339();
        let back = Timestamp::parse_rfc3339(&text).unwrap();
        assert_eq!(back, t);
    }
}

#[test]
fn timestamp_with_another_offset_is_the_same_instant() {
    let a = Timestamp::parse_rfc3339("2026-03-12T20:00:00Z").unwrap();
    let b = Timestamp::parse_rfc3339("2026-03-12T21:00:00+01:00").unwrap();
    assert_eq!(a, b);
    assert!(Timestamp::parse_rfc3339("yesterday").is_err());
}

#[test]
fn naive_timestamp_counts_as_utc() {
    let a = Timestamp::parse_naive("2026-03-12T20:00:00").unwrap();
    let b = Timestamp::parse_rfc3339("2026-03-12T20:00:00Z").unwrap();
    assert_eq!(a, b);
    assert!(Timestamp::parse_naive("2026-03-12").is_none());
}

#[test]
fn timestamps_are_ordered() {
    assert!(at(1, 0).is_before(&at(1, 1)));
    assert!(at(0, 999_999_999).is_before(&at(1, 0)));
    assert!(!at(1, 0).is_before(&at(1, 0)));
}

#[test]
fn whole_seconds_between_timestamps() {
    assert_eq!(at(10, 500_000_000).secs_until(&at(12, 400_000_000)), 1);
    assert_eq!(at(10, 0).secs_until(&at(12, 0)), 2);
    assert_eq!(at(12, 0).secs_until(&at(10, 0)), 0);
}

#[test]
fn earlier_timestamps() {
    assert_eq!(at(100, 7).earlier(60), Some(at(40, 7)));
    assert_eq!(at(100, 7).earlier(-60), Some(at(160, 7)));
    assert_eq!(at(0, 0).earlier(i128::MAX / 4), None);
}

#[test]
fn clock_runs_forward_from_a_known_day() {
    let day = Timestamp::parse_rfc3339("2020-01-01T00:00:00Z").unwrap();
    assert!(day.is_before(&now()));
}
