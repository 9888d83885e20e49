//! Times on the calendar.

use chrono::Datelike;
use vstd::prelude::*;
use vstd::string::*;

use crate::text::padded;

verus! {

/// Whether the calendar reaches a time in seconds since the epoch: from the
/// start of the year -262143 to the end of the year 262142.
pub open spec fn on_calendar(secs: i64) -> bool {
    -8_334_601_228_800 <= secs <= 8_210_266_876_799
}

pub open spec fn leap(year: int) -> bool {
    year % 4 == 0 && (year % 100 != 0 || year % 400 == 0)
}

/// The number of days of a month, from 1 to 12.
pub open spec fn days_in(year: int, month: int) -> int {
    if month == 2 {
        if leap(year) {
            29
        } else {
            28
        }
    } else if month == 4 || month == 6 || month == 9 || month == 11 {
        30
    } else {
        31
    }
}

/// The days from 1 January 1970 to a date of the Gregorian calendar, counted in
/// years that begin in March.
pub open spec fn day_number(year: int, month: int, day: int) -> int {
    let y = if month <= 2 {
        year - 1
    } else {
        year
    };
    let m = if month <= 2 {
        month + 9
    } else {
        month - 3
    };
    365 * y + y / 4 - y / 100 + y / 400 + (153 * m + 2) / 5 + day - 719_469
}

/// Whether a date is that of a time in seconds since the epoch.
pub open spec fn is_date_of(date: (i32, u32, u32), secs: i64) -> bool {
    &&& 1 <= date.1 <= 12
    &&& 1 <= date.2 <= days_in(date.0 as int, date.1 as int)
    &&& day_number(date.0 as int, date.1 as int, date.2 as int) == secs as int / 86_400
}

/// The year, month and day of a time in seconds since the epoch, in UTC.
pub open spec fn utc_date(secs: i64) -> (i32, u32, u32) {
    choose|date: (i32, u32, u32)| is_date_of(date, secs)
}

/// `chrono::DateTime::from_timestamp` with `Datelike::year`, `month` and `day`
/// gives the date of a time, none where the calendar does not reach so far.
#[verifier::external_body]
pub(crate) fn date_at(secs: i64) -> (r: Option<(i32, u32, u32)>)
    ensures
        r is Some <==> on_calendar(secs),
        r matches Some(date) ==> date == utc_date(secs) && is_date_of(date, secs),
{
    chrono::DateTime::from_timestamp(secs, 0).map(|t| (t.year(), t.month(), t.day()))
}

/// A time to the minute.
pub const TO_THE_MINUTE: &'static str = "%Y%m%dT%H%M";

/// A time to the second.
pub const TO_THE_SECOND: &'static str = "%Y-%m-%dT%H:%M:%SZ";

/// A year as `%Y` writes it: with a sign unless it has four digits.
pub open spec fn year_field(year: int) -> Seq<char> {
    if 0 <= year <= 9999 {
        padded(year as nat, 4)
    } else if year < 0 {
        "-"@ + padded((-year) as nat, 4)
    } else {
        "+"@ + padded(year as nat, 4)
    }
}

/// The time of day of a time in seconds since the epoch: hours, minutes and
/// seconds, in UTC.
pub open spec fn utc_time(secs: i64) -> (nat, nat, nat) {
    let s = secs as int % 86_400;
    ((s / 3600) as nat, (s / 60 % 60) as nat, (s % 60) as nat)
}

/// A time as one of the two patterns writes it, in UTC.
pub open spec fn written(secs: i64, pattern: Seq<char>) -> Seq<char> {
    let (year, month, day) = utc_date(secs);
    let (hour, minute, second) = utc_time(secs);
    let (y, m, d) = (year_field(year as int), padded(month as nat, 2), padded(day as nat, 2));
    if pattern == TO_THE_MINUTE@ {
        y + m + d + "T"@ + padded(hour, 2) + padded(minute, 2)
    } else {
        y + "-"@ + m + "-"@ + d + "T"@ + padded(hour, 2) + ":"@ + padded(minute, 2) + ":"@
            + padded(second, 2) + "Z"@
    }
}

/// `chrono::DateTime::from_timestamp` with `DateTime::format` writes a time,
/// none where the calendar does not reach so far.
#[verifier::external_body]
pub(crate) fn format_utc(secs: i64, pattern: &str) -> (r: Option<String>)
    requires
        pattern@ == TO_THE_MINUTE@ || pattern@ == TO_THE_SECOND@,
    ensures
        r is Some <==> on_calendar(secs),
        r matches Some(s) ==> s@ == written(secs, pattern@),
{
    chrono::DateTime::from_timestamp(secs, 0).map(|t| t.format(pattern).to_string())
}

/// Hours and minutes.
pub const CLOCK: &'static str = "%H:%M";

/// Whether a text is an hour from 00 to 23 and a minute from 00 to 59.
pub open spec fn is_clock_text(s: Seq<char>) -> bool {
    exists|h: nat, m: nat|
        h < 24 && m < 60 && s == #[trigger] padded(h, 2) + ":"@ + #[trigger] padded(m, 2)
}

/// `chrono::DateTime::from_timestamp` with `with_timezone` and `format` writes
/// a time on the calendar as the clock shows it in the machine's time zone: an
/// hour and a minute. Which ones depends on that zone.
#[verifier::external_body]
pub(crate) fn format_local(secs: i64, pattern: &str) -> (r: Option<String>)
    requires
        pattern@ == CLOCK@,
    ensures
        r is Some <==> on_calendar(secs),
        r matches Some(s) ==> is_clock_text(s@),
{
    chrono::DateTime::from_timestamp(secs, 0).map(
        |t| t.with_timezone(&chrono::Local).format(pattern).to_string(),
    )
}

} // verus!
