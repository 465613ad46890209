//! Dates and times as the commit list shows them.

use vstd::prelude::*;

pub use crate::text::has_mixed_case;
use crate::text::decimal;

verus! {

/// Whether `y` is a leap year of the Gregorian calendar.
pub open spec fn leap_year(y: int) -> bool {
    y % 4 == 0 && (y % 100 != 0 || y % 400 == 0)
}

/// The leap years from year 1 up to `y` (for `y >= 0`).
pub open spec fn leap_years_upto(y: int) -> int {
    y / 4 - y / 100 + y / 400
}

/// The days from 1970-01-01 to the first day of year `y` (`y >= 1970`).
pub open spec fn days_before_year(y: int) -> int {
    365 * (y - 1970) + leap_years_upto(y - 1) - leap_years_upto(1969)
}

/// The days of month `m` (1 to 12) of year `y`.
pub open spec fn month_days(y: int, m: int) -> int {
    if m == 2 {
        if leap_year(y) {
            29int
        } else {
            28int
        }
    } else if m == 4 || m == 6 || m == 9 || m == 11 {
        30int
    } else {
        31int
    }
}

/// The days of year `y` before the first day of month `m` (1 to 12).
pub open spec fn days_before_month(y: int, m: int) -> int {
    (if m == 1 {
        0int
    } else if m == 2 {
        31int
    } else if m == 3 {
        59int
    } else if m == 4 {
        90int
    } else if m == 5 {
        120int
    } else if m == 6 {
        151int
    } else if m == 7 {
        181int
    } else if m == 8 {
        212int
    } else if m == 9 {
        243int
    } else if m == 10 {
        273int
    } else if m == 11 {
        304int
    } else {
        334int
    }) + if m > 2 && leap_year(y) {
        1int
    } else {
        0int
    }
}

/// Day `d` of month `m` of year `y` is the `day`-th day counted from
/// 1970-01-01 (which is day 0).
pub open spec fn is_calendar_day(y: int, m: int, d: int, day: int) -> bool {
    &&& 1 <= m <= 12
    &&& 1 <= d <= month_days(y, m)
    &&& days_before_year(y) + days_before_month(y, m) + d - 1 == day
}

/// The English abbreviation of month `m` (1 to 12).
pub open spec fn month_abbreviation(m: int) -> Seq<char> {
    if m == 1 {
        "Jan"@
    } else if m == 2 {
        "Feb"@
    } else if m == 3 {
        "Mar"@
    } else if m == 4 {
        "Apr"@
    } else if m == 5 {
        "May"@
    } else if m == 6 {
        "Jun"@
    } else if m == 7 {
        "Jul"@
    } else if m == 8 {
        "Aug"@
    } else if m == 9 {
        "Sep"@
    } else if m == 10 {
        "Oct"@
    } else if m == 11 {
        "Nov"@
    } else {
        "Dec"@
    }
}

/// A date written as the commit list shows it, such as `Nov 14, 2023`.
pub open spec fn date_text(y: int, m: int, d: int) -> Seq<char> {
    month_abbreviation(m) + " "@ + decimal(d as nat) + ", "@ + decimal(y as nat)
}

/// The timestamps whose dates are stated: from one day after 1970-01-01
/// into the year 9987, so that the local date has a four-digit year.
pub open spec fn stated_range(timestamp: i64) -> bool {
    86400 <= timestamp <= 253_000_000_000
}

/// `text` is the date, written as the list shows it, of the moment
/// `timestamp` in some time zone: a zone is less than a day away from UTC,
/// so the date is that of a day holding a moment less than a day (86400
/// seconds) from `timestamp`.
pub open spec fn shows_date_of(timestamp: i64, text: Seq<char>) -> bool {
    exists|day: int, y: int, m: int, d: int|
        day * 86400 <= timestamp + 86399 && timestamp - 86399 <= day * 86400 + 86399 && 1970 <= y
            <= 9999 && #[trigger] is_calendar_day(y, m, d, day) && text == date_text(y, m, d)
}

/// `chrono`'s formatting of a commit time as a date in the local time zone
/// (`%b %-d, %Y`), such as `Nov 14, 2023`; empty when the timestamp is out
/// of chrono's range. Stated: in the stated range, the text is the date of
/// the moment in a zone less than a day away from UTC (chrono's offsets
/// are), with the English month abbreviation, the day without padding and
/// the year. Which zone is the machine's, so the day itself is not stated.
#[verifier::external_body]
pub fn format_date(timestamp: i64) -> (r: String)
    ensures
        stated_range(timestamp) ==> shows_date_of(timestamp, r@),
{
    chrono::DateTime::from_timestamp(timestamp, 0)
        .map(|dt| dt.with_timezone(&chrono::Local))
        .map(|dt| dt.format("%b %-d, %Y").to_string())
        .unwrap_or_default()
}

/// `chrono`'s formatting of a commit time as a time of day in the local
/// time zone, such as `3:07 PM`; empty when the timestamp is out of range.
/// What it gives depends on the machine's time zone, so nothing is stated
/// of it.
#[verifier::external_body]
pub fn format_time(timestamp: i64) -> String {
    chrono::DateTime::from_timestamp(timestamp, 0)
        .map(|dt| dt.with_timezone(&chrono::Local))
        .map(|dt| dt.format("%-I:%M %p").to_string())
        .unwrap_or_default()
}

} // verus!
