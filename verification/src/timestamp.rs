//! The modification-time column of a listing, `%Y-%m-%d %H:%M` in local time.
use vstd::prelude::*;
use chrono::{DateTime, Datelike, Local, Timelike};
use crate::text::{decimal, lemma_decimal_len, pad_left, push_padded_decimal};

verus! {

/// A point in time as seconds and nanoseconds since the Unix epoch,
/// 1970-01-01 00:00:00 UTC: the time is `secs + nanos / 10^9` seconds after
/// it, `secs` negative before it.
#[derive(Clone, Copy, PartialEq, Eq, Debug)]
pub struct Timestamp {
    pub secs: i64,
    pub nanos: u32,
}

/// The seconds on either side of the epoch within which every time can be
/// shown: about 253,000 years, well inside the about 262,000 years on either
/// side of year 0 that chrono can represent.
pub const SHOWN_SECONDS: i64 = 8_000_000_000_000;

/// Whether a time lies where chrono is sure to represent it.
pub open spec fn in_shown_range(t: Timestamp) -> bool {
    -SHOWN_SECONDS <= t.secs <= SHOWN_SECONDS && t.nanos < 1_000_000_000
}

/// A date and time of day, to the minute.
#[derive(Clone, Copy, PartialEq, Eq, Debug)]
pub struct LocalDateTime {
    pub year: i32,
    pub month: u32,
    pub day: u32,
    pub hour: u32,
    pub minute: u32,
}

/// Whether `year` is a leap year of the proleptic Gregorian calendar.
pub open spec fn is_leap_year(year: int) -> bool {
    year % 4 == 0 && (year % 100 != 0 || year % 400 == 0)
}

/// The number of days in a month of the proleptic Gregorian calendar.
pub open spec fn days_in_month(year: int, month: int) -> int {
    if month == 2 {
        if is_leap_year(year) { 29 } else { 28 }
    } else if month == 4 || month == 6 || month == 9 || month == 11 {
        30
    } else {
        31
    }
}

/// Whether the month, day, hour and minute lie in their ranges: the day
/// one of the days of its month.
pub open spec fn is_valid_date_time(d: LocalDateTime) -> bool {
    &&& 1 <= d.month <= 12
    &&& 1 <= d.day <= days_in_month(d.year as int, d.month as int)
    &&& d.hour <= 23
    &&& d.minute <= 59
}

/// The number of days from 1970-01-01 to the given date of the proleptic
/// Gregorian calendar (with a year 0), negative for earlier dates: the
/// count of whole 400-year cycles of 146,097 days since 0000-03-01, then of
/// the days into the cycle, years starting on March 1.
pub open spec fn days_from_civil(year: int, month: int, day: int) -> int {
    let y = if month <= 2 { year - 1 } else { year };
    let era = y / 400;
    let year_of_era = y - era * 400;
    let month_from_march = if month > 2 { month - 3 } else { month + 9 };
    let day_of_year = (153 * month_from_march + 2) / 5 + day - 1;
    let day_of_era = year_of_era * 365 + year_of_era / 4 - year_of_era / 100 + day_of_year;
    era * 146097 + day_of_era - 719468
}

/// The second since the epoch at which the minute `d` begins, read as a
/// date and time of UTC.
pub open spec fn minute_start(d: LocalDateTime) -> int {
    days_from_civil(d.year as int, d.month as int, d.day as int) * 86400 + d.hour * 3600 + d.minute
        * 60
}

/// Whether `d` is the minute, in a time zone `offset` seconds ahead of UTC,
/// in which the second `secs` after the epoch falls.
pub open spec fn shows_minute(d: LocalDateTime, secs: int, offset: int) -> bool {
    minute_start(d) <= secs + offset < minute_start(d) + 60
}

/// Whether `d` is the minute in which the second `secs` after the epoch
/// falls, in some time zone less than a day ahead of or behind UTC.
#[verifier::opaque]
pub open spec fn shows_time(d: LocalDateTime, secs: int) -> bool {
    exists|offset: int| -86400 < offset < 86400 && #[trigger] shows_minute(d, secs, offset)
}

/// The local date and time of `secs` and `nanos` after the epoch as chrono
/// gives them: `DateTime::from_timestamp(secs, nanos)`, which is `None` where
/// the seconds lie outside chrono's range or the nanoseconds are invalid,
/// converted by `with_timezone(&Local)` and read by `year`, `month`, `day`,
/// `hour` and `minute`. chrono documents the month as 1 to 12, the day as 1
/// to 31 (a valid date of the proleptic Gregorian calendar), the hour as 0
/// to 23 and the minute as 0 to 59, and its range as about 262,000 years on
/// either side of year 0, which holds every time within `SHOWN_SECONDS` of
/// the epoch. The local time is the UTC time of `secs` shifted by the
/// machine's offset from UTC (`naive_local` adds it), and a `FixedOffset`
/// lies strictly within a day either way; which offset, depends on the time
/// zone of the machine, so only that bound is stated of it.
#[verifier::external_body]
fn local_date_time(secs: i64, nanos: u32) -> (r: Option<LocalDateTime>)
    ensures
        r matches Some(d) ==> is_valid_date_time(d) && shows_time(d, secs as int),
        -SHOWN_SECONDS <= secs <= SHOWN_SECONDS && nanos < 1_000_000_000 ==> r is Some,
{
    match DateTime::from_timestamp(secs, nanos) {
        Some(utc) => {
            let local = utc.with_timezone(&Local);
            Some(
                LocalDateTime {
                    year: local.year(),
                    month: local.month(),
                    day: local.day(),
                    hour: local.hour(),
                    minute: local.minute(),
                },
            )
        },
        None => None,
    }
}

/// A number from 0 to 99 in two digits, as `%m`, `%d`, `%H` and `%M` show it.
pub open spec fn two_digits(v: nat) -> Seq<char> {
    pad_left(decimal(v), 2, '0')
}

/// A year as `%Y` shows it: four digits, zero-padded, for the years 0 to
/// 9999; otherwise a sign followed by the absolute value, zero-padded to
/// four digits.
pub open spec fn year_text(year: int) -> Seq<char> {
    if 0 <= year <= 9999 {
        pad_left(decimal(year as nat), 4, '0')
    } else if year < 0 {
        seq!['-'] + pad_left(decimal((-year) as nat), 4, '0')
    } else {
        seq!['+'] + pad_left(decimal(year as nat), 4, '0')
    }
}

/// A local date and time as `%Y-%m-%d %H:%M` shows it.
pub open spec fn date_time_text(year: int, month: nat, day: nat, hour: nat, minute: nat) -> Seq<
    char,
> {
    year_text(year) + seq!['-'] + two_digits(month) + seq!['-'] + two_digits(day) + seq![' ']
        + two_digits(hour) + seq![':'] + two_digits(minute)
}

/// The text of a local date and time.
pub open spec fn local_text(d: LocalDateTime) -> Seq<char> {
    date_time_text(d.year as int, d.month as nat, d.day as nat, d.hour as nat, d.minute as nat)
}

/// Formats a local date and time as `%Y-%m-%d %H:%M`, such as
/// `2024-03-09 07:05`.
pub fn format_date_time(year: i32, month: u32, day: u32, hour: u32, minute: u32) -> (s: String)
    ensures
        s@ == date_time_text(year as int, month as nat, day as nat, hour as nat, minute as nat),
{
    proof {
        reveal_strlit("0");
        reveal_strlit("-");
        reveal_strlit("+");
        reveal_strlit(" ");
        reveal_strlit(":");
    }
    let mut s = String::new();
    if 0 <= year && year <= 9999 {
        push_padded_decimal(&mut s, year as u64, 4, "0");
    } else if year < 0 {
        s.append("-");
        let magnitude: u64 = (0i64 - year as i64) as u64;
        push_padded_decimal(&mut s, magnitude, 4, "0");
    } else {
        s.append("+");
        push_padded_decimal(&mut s, year as u64, 4, "0");
    }
    assert(s@ =~= year_text(year as int));
    s.append("-");
    push_padded_decimal(&mut s, month as u64, 2, "0");
    s.append("-");
    push_padded_decimal(&mut s, day as u64, 2, "0");
    s.append(" ");
    push_padded_decimal(&mut s, hour as u64, 2, "0");
    s.append(":");
    push_padded_decimal(&mut s, minute as u64, 2, "0");
    assert(s@ =~= date_time_text(year as int, month as nat, day as nat, hour as nat, minute as nat));
    s
}

/// The time column has a fixed width: sixteen characters for the years 0
/// to 9999.
pub proof fn lemma_date_time_width(year: int, month: nat, day: nat, hour: nat, minute: nat)
    requires
        0 <= year <= 9999,
        1 <= month <= 12,
        1 <= day <= 31,
        hour <= 23,
        minute <= 59,
    ensures
        date_time_text(year, month, day, hour, minute).len() == 16,
{
    lemma_decimal_len(year as nat);
    lemma_decimal_len(month);
    lemma_decimal_len(day);
    lemma_decimal_len(hour);
    lemma_decimal_len(minute);
}

impl LocalDateTime {
    /// The date and time as `%Y-%m-%d %H:%M`.
    pub fn to_string(&self) -> (s: String)
        ensures
            s@ == local_text(*self),
    {
        format_date_time(self.year, self.month, self.day, self.hour, self.minute)
    }
}

/// The whole seconds of a time `secs` seconds and `nanos` nanoseconds away
/// from the epoch, before it where `before_epoch`: rounded down, so that the
/// nanoseconds count forward from them.
pub open spec fn floor_seconds(before_epoch: bool, secs: u64, nanos: u32) -> int {
    if !before_epoch {
        secs as int
    } else if nanos == 0 {
        -secs
    } else {
        -secs - 1
    }
}

/// The nanoseconds since the epoch of a time, negative before it.
pub open spec fn nanos_since_epoch(t: Timestamp) -> int {
    t.secs * 1_000_000_000 + t.nanos
}

impl Timestamp {
    /// The time `secs` seconds and `nanos` nanoseconds away from the epoch,
    /// before it where `before_epoch`, as a `SystemTime` reports it
    /// (`duration_since(UNIX_EPOCH)` and, before the epoch, the duration of
    /// its error). Seconds beyond those an `i64` holds are held at its
    /// least or greatest value, times that cannot be shown.
    pub fn from_duration(before_epoch: bool, secs: u64, nanos: u32) -> (t: Timestamp)
        requires
            nanos < 1_000_000_000,
        ensures
            i64::MIN <= floor_seconds(before_epoch, secs, nanos) <= i64::MAX ==> {
                &&& t.secs == floor_seconds(before_epoch, secs, nanos)
                &&& t.nanos < 1_000_000_000
                &&& nanos_since_epoch(t) == if before_epoch {
                    -(secs * 1_000_000_000 + nanos)
                } else {
                    secs * 1_000_000_000 + nanos
                }
            },
            floor_seconds(before_epoch, secs, nanos) < i64::MIN ==> t == (Timestamp {
                secs: i64::MIN,
                nanos: 0,
            }),
            floor_seconds(before_epoch, secs, nanos) > i64::MAX ==> t == (Timestamp {
                secs: i64::MAX,
                nanos: 0,
            }),
            !(i64::MIN <= floor_seconds(before_epoch, secs, nanos) <= i64::MAX) ==> !in_shown_range(
                t,
            ),
    {
        let max: u64 = 9223372036854775807;
        if !before_epoch {
            if secs <= max {
                Timestamp { secs: secs as i64, nanos: nanos }
            } else {
                Timestamp { secs: i64::MAX, nanos: 0 }
            }
        } else if nanos == 0 {
            if secs <= max {
                Timestamp { secs: 0 - (secs as i64), nanos: 0 }
            } else {
                Timestamp { secs: i64::MIN, nanos: 0 }
            }
        } else if secs <= max {
            Timestamp { secs: 0 - (secs as i64) - 1, nanos: 1_000_000_000 - nanos }
        } else {
            Timestamp { secs: i64::MIN, nanos: 0 }
        }
    }

    /// The local date and time of this time, as the machine's time zone
    /// gives it now; `None` where chrono cannot represent the time.
    pub fn local(&self) -> (r: Option<LocalDateTime>)
        ensures
            r matches Some(d) ==> is_valid_date_time(d) && shows_time(d, self.secs as int),
            in_shown_range(*self) ==> r is Some,
    {
        local_date_time(self.secs, self.nanos)
    }

    /// The time as `%Y-%m-%d %H:%M` in the machine's local time zone;
    /// `None` where chrono cannot represent the time.
    pub fn to_string(&self) -> (s: Option<String>)
        ensures
            s matches Some(text) ==> exists|d: LocalDateTime|
                is_valid_date_time(d) && shows_time(d, self.secs as int) && text@ == local_text(d),
            in_shown_range(*self) ==> s is Some,
    {
        match self.local() {
            Some(d) => {
                let text = d.to_string();
                assert(is_valid_date_time(d) && shows_time(d, self.secs as int) && text@ == local_text(
                    d,
                ));
                Some(text)
            },
            None => None,
        }
    }
}

} // verus!
