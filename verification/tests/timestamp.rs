use unix_tools::timestamp::{format_date_time, LocalDateTime, Timestamp, SHOWN_SECONDS};

#[test]
fn formats_date_and_time() {
    assert_eq!(format_date_time(2024, 3, 9, 7, 5), "2024-03-09 07:05");
    assert_eq!(format_date_time(1999, 12, 31, 23, 59), "1999-12-31 23:59");
}

#[test]
fn pads_small_years() {
    assert_eq!(format_date_time(0, 1, 1, 0, 0), "0000-01-01 00:00");
    assert_eq!(format_date_time(999, 1, 1, 0, 0), "0999-01-01 00:00");
}

#[test]
fn signs_years_outside_four_digits() {
    assert_eq!(format_date_time(-5, 1, 1, 0, 0), "-0005-01-01 00:00");
    assert_eq!(format_date_time(10000, 1, 1, 0, 0), "+10000-01-01 00:00");
    assert_eq!(format_date_time(-12345, 6, 7, 8, 9), "-12345-06-07 08:09");
}

#[test]
fn local_time_of_a_timestamp() {
    // 2001-07-15 12:00 UTC: the same month in every time zone.
    let s = Timestamp { secs: 995_198_400, nanos: 0 }.to_string().unwrap();
    assert_eq!(s.len(), 16);
    assert!(s.starts_with("2001-07-1"), "{}", s);
    assert_eq!(&s[10..11], " ");
    assert_eq!(&s[13..14], ":");
}

#[test]
fn local_fields_of_a_timestamp() {
    let d = Timestamp { secs: 995_198_400, nanos: 500 }.local().unwrap();
    assert_eq!((d.year, d.month), (2001, 7));
    assert!(d.day == 14 || d.day == 15 || d.day == 16);
    assert!(d.hour <= 23 && d.minute <= 59);
}

#[test]
fn times_within_range_are_shown() {
    assert!(Timestamp { secs: SHOWN_SECONDS, nanos: 999_999_999 }.to_string().is_some());
    assert!(Timestamp { secs: -SHOWN_SECONDS, nanos: 0 }.to_string().is_some());
    assert!(Timestamp { secs: -1, nanos: 999_999_999 }.to_string().is_some());
}

#[test]
fn times_beyond_chrono_are_not_shown() {
    assert_eq!(Timestamp { secs: i64::MAX, nanos: 0 }.to_string(), None);
    assert_eq!(Timestamp { secs: i64::MIN, nanos: 0 }.local(), None);
    assert_eq!(Timestamp { secs: 0, nanos: 2_000_000_000 }.local(), None);
}

#[test]
fn local_date_time_text() {
    let d = LocalDateTime { year: 1970, month: 1, day: 1, hour: 0, minute: 0 };
    assert_eq!(d.to_string(), "1970-01-01 00:00");
}

#[test]
fn timestamps_from_durations() {
    assert_eq!(Timestamp::from_duration(false, 5, 7), Timestamp { secs: 5, nanos: 7 });
    assert_eq!(Timestamp::from_duration(true, 5, 0), Timestamp { secs: -5, nanos: 0 });
    assert_eq!(Timestamp::from_duration(true, 5, 250_000_000), Timestamp { secs: -6, nanos: 750_000_000 });
    assert_eq!(Timestamp::from_duration(true, 1u64 << 63, 0), Timestamp { secs: i64::MIN, nanos: 0 });
    assert_eq!(Timestamp::from_duration(true, 1u64 << 63, 1), Timestamp { secs: i64::MIN, nanos: 0 });
    assert_eq!(Timestamp::from_duration(false, u64::MAX, 1), Timestamp { secs: i64::MAX, nanos: 0 });
}

#[test]
fn epoch_in_utc_is_shown_as_1970() {
    // The minute of the epoch, whatever the time zone, is within a day of it.
    let d = Timestamp { secs: 0, nanos: 0 }.local().unwrap();
    assert!((d.year, d.month, d.day) == (1970, 1, 1) || (d.year, d.month, d.day) == (1969, 12, 31));
}
