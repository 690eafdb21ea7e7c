//! Calendar dates from the clock and from text, through `chrono`.
//!
//! A date is handled as its (year, month, day) triple; triples of valid
//! dates compare in calendar order when compared field by field.

use vstd::prelude::*;
use chrono::Datelike;
use crate::decimal::digit_char;

verus! {

/// A calendar date as (year, month, day).
pub type Ymd = (i32, u32, u32);

/// The UTC calendar date of a Unix timestamp, where `chrono` can represent it.
pub uninterp spec fn timestamp_date(secs: int) -> Option<(i32, u32, u32)>;

/// The UTC calendar date of a Unix timestamp written as `%Y-%m-%d`, where
/// `chrono` can represent it.
pub uninterp spec fn timestamp_date_text(secs: int) -> Option<Seq<char>>;

/// The date that `chrono` reads from a text in the format `%Y-%m-%d`.
pub uninterp spec fn parsed_ymd(text: Seq<char>) -> Option<(i32, u32, u32)>;

/// `y` is a leap year of the proleptic Gregorian calendar.
pub open spec fn is_leap_year(y: int) -> bool {
    (y % 4 == 0 && y % 100 != 0) || y % 400 == 0
}

/// The number of days in month `m` (1 to 12) of year `y`.
pub open spec fn days_in_month(y: int, m: int) -> int {
    if m == 2 {
        if is_leap_year(y) { 29 } else { 28 }
    } else if m == 4 || m == 6 || m == 9 || m == 11 {
        30
    } else {
        31
    }
}

/// Days from 0000-01-01 to the first of January of year `y` (negative for
/// earlier years): 365 a year and one more for each leap year in between.
pub open spec fn days_before_year(y: int) -> int {
    365 * y + (y + 3) / 4 - (y + 99) / 100 + (y + 399) / 400
}

/// Days from the first of January of year `y` to the first of month `m`.
pub open spec fn days_before_month(y: int, m: int) -> int {
    seq![0int, 31, 59, 90, 120, 151, 181, 212, 243, 273, 304, 334][m - 1] + if m > 2
        && is_leap_year(y) {
        1int
    } else {
        0int
    }
}

/// `d` names a day of the proleptic Gregorian calendar.
pub open spec fn is_calendar_date(d: Ymd) -> bool {
    1 <= d.1 <= 12 && 1 <= d.2 <= days_in_month(d.0 as int, d.1 as int)
}

/// The number of the date's day counted from 1970-01-01 (day 0).
pub open spec fn day_number(d: Ymd) -> int {
    days_before_year(d.0 as int) + days_before_month(d.0 as int, d.1 as int) + d.2 - 1 - 719528
}

/// `d` is the calendar date of day number `day`.
pub open spec fn is_date_of_day(d: Ymd, day: int) -> bool {
    is_calendar_date(d) && day_number(d) == day
}

/// Every Unix time at most this many seconds away from the epoch (about
/// 253,000 years) lies within the years that `chrono` represents.
pub open spec fn timestamp_in_range(secs: int) -> bool {
    -8_000_000_000_000 <= secs <= 8_000_000_000_000
}

/// `n` (below 10,000) as four decimal digits.
pub open spec fn four_digits(n: int) -> Seq<char> {
    seq![digit_char(n / 1000), digit_char((n / 100) % 10), digit_char((n / 10) % 10), digit_char(n % 10)]
}

/// `n` (below 100) as two decimal digits.
pub open spec fn two_digits(n: int) -> Seq<char> {
    seq![digit_char(n / 10), digit_char(n % 10)]
}

/// A date written as `%Y-%m-%d` for a year from 0 to 9999.
pub open spec fn ymd_text(d: Ymd) -> Seq<char> {
    four_digits(d.0 as int) + "-"@ + two_digits(d.1 as int) + "-"@ + two_digits(d.2 as int)
}

/// `a` is a later calendar date than `b`.
pub open spec fn date_after(a: Ymd, b: Ymd) -> bool {
    a.0 > b.0 || (a.0 == b.0 && (a.1 > b.1 || (a.1 == b.1 && a.2 > b.2)))
}

/// `chrono::Utc::now`, as whole seconds since the Unix epoch
/// (`DateTime::timestamp`). The result is the clock's reading, so which
/// instant it is stays unsaid; what is claimed is that it is a time of a
/// `DateTime<Utc>`, which `chrono` only builds within the years it
/// represents, so that `DateTime::from_timestamp` takes it back (as
/// `timestamp` documents) and `date_of_timestamp` gives its date.
#[verifier::external_body]
pub fn now_timestamp() -> (r: i64)
    ensures
        timestamp_date(r as int).is_some(),
{
    chrono::Utc::now().timestamp()
}

/// `chrono::DateTime::from_timestamp(secs, 0)` and then its UTC date as
/// (year, month, day). The contract names the result, and states it as far
/// as `chrono`'s source shows it plainly: the date is the calendar date of
/// the day that holds the timestamp (days of 86,400 seconds from
/// 1970-01-01), and the call fails only beyond the years `chrono` represents
/// (from -262143 to 262142), so never within `timestamp_in_range`. The exact
/// bounds of that range are left unsaid.
#[verifier::external_body]
pub fn date_of_timestamp(secs: i64) -> (r: Option<Ymd>)
    ensures
        r == timestamp_date(secs as int),
        match r {
            Some(d) => is_date_of_day(d, secs as int / 86400),
            None => !timestamp_in_range(secs as int),
        },
{
    match chrono::DateTime::from_timestamp(secs, 0) {
        Some(t) => {
            let d = t.date_naive();
            Some((d.year(), d.month(), d.day()))
        },
        None => None,
    }
}

/// `chrono::DateTime::from_timestamp(secs, 0)` formatted with `%Y-%m-%d`.
/// The contract names the result, and states it as far as `chrono`'s source
/// shows it plainly: for a year from 0 to 9999 the text is the year in four
/// digits, the month and the day in two, joined by hyphens, of the calendar
/// date of the day that holds the timestamp; the call fails only beyond the
/// years `chrono` represents. How other years are written (with a sign) is
/// left to the name.
#[verifier::external_body]
pub fn date_text_of_timestamp(secs: i64) -> (r: Option<String>)
    ensures
        r.deep_view() == timestamp_date_text(secs as int),
        match r {
            Some(t) => (exists|d: Ymd| #[trigger] is_date_of_day(d, secs as int / 86400)) && (
            forall|d: Ymd|
                #[trigger] is_date_of_day(d, secs as int / 86400) && 0 <= d.0 <= 9999 ==> t@
                    == ymd_text(d)),
            None => !timestamp_in_range(secs as int),
        },
{
    match chrono::DateTime::from_timestamp(secs, 0) {
        Some(t) => Some(t.format("%Y-%m-%d").to_string()),
        None => None,
    }
}

/// `text` is a calendar date with a year from 0 to 9999 written as
/// `%Y-%m-%d`, with four digits for the year and two for the month and the
/// day.
pub open spec fn reads_as(text: Seq<char>, d: Ymd) -> bool {
    text == ymd_text(d) && is_calendar_date(d) && 0 <= d.0 <= 9999
}

/// `chrono::NaiveDate::parse_from_str(text, "%Y-%m-%d")`, as (year, month,
/// day) when it succeeds. The contract names the result, and states it for
/// the texts `chrono` itself writes for years 0 to 9999: four digits read as
/// the year, two as the month, two as the day, and a valid date comes out.
/// What other texts (signs, spaces, fewer digits) read as is left to the
/// name.
#[verifier::external_body]
pub fn parse_ymd(text: &str) -> (r: Option<Ymd>)
    ensures
        r == parsed_ymd(text@),
        forall|d: Ymd| #[trigger] reads_as(text@, d) ==> r == Some(d),
{
    match chrono::NaiveDate::parse_from_str(text, "%Y-%m-%d") {
        Ok(d) => Some((d.year(), d.month(), d.day())),
        Err(_) => None,
    }
}

/// Whether date `a` is later than date `b`.
pub fn is_date_after(a: Ymd, b: Ymd) -> (r: bool)
    ensures
        r == date_after(a, b),
{
    a.0 > b.0 || (a.0 == b.0 && (a.1 > b.1 || (a.1 == b.1 && a.2 > b.2)))
}

} // verus!
