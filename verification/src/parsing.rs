//! Texts read by the `uuid` and `chrono` crates, and calendar arithmetic.

use crate::schema;
use crate::text;
use crate::value::{TimeOfDay, Timestamp};
use chrono::{Datelike, Timelike};
use vstd::prelude::*;

verus! {

/// The UUID that `uuid::Uuid::parse_str` reads from a text, `None` where it
/// reports an error.
pub uninterp spec fn uuid_spelled(s: Seq<char>) -> Option<u128>;

/// A digit to the base of sixteen, with small letters.
pub open spec fn hex_digit(d: int) -> char {
    if d < 10 {
        ('0' as int + d) as char
    } else {
        ('a' as int + d - 10) as char
    }
}

/// The digit at a place of the thirty-two digits of a number, the highest first.
pub open spec fn hex_place(n: u128, i: int) -> int {
    (n as int / vstd::arithmetic::power::pow(16, (31 - i) as nat)) % 16
}

/// How many hyphens stand before a place of the text of a UUID.
pub open spec fn hyphens_before(i: int) -> int {
    if i <= 8 {
        0
    } else if i <= 13 {
        1
    } else if i <= 18 {
        2
    } else if i <= 23 {
        3
    } else {
        4
    }
}

/// The text of a UUID: its digits in groups of eight, four, four, four and twelve,
/// with hyphens between them.
pub open spec fn uuid_text(n: u128) -> Seq<char> {
    Seq::new(
        36,
        |i: int|
            if i == 8 || i == 13 || i == 18 || i == 23 {
                '-'
            } else {
                hex_digit(hex_place(n, i - hyphens_before(i)))
            },
    )
}

/// The text that chrono's `{:?}` gives for the day of a number, where it has one.
pub uninterp spec fn date_text(n: i32) -> Option<Seq<char>>;

/// The text that chrono's `{:?}` gives for a moment in UTC, where it has one.
pub uninterp spec fn moment_text(t: Timestamp) -> Option<Seq<char>>;

/// The last digits of a number, as many as `width`.
pub open spec fn last_digits(n: int, width: nat) -> Seq<char> {
    Seq::new(
        width,
        |i: int|
            text::digit_char(
                (n / vstd::arithmetic::power::pow(10, (width - 1 - i) as nat)) % 10,
            ),
    )
}

/// The fraction of a second: none where it is zero, else a dot and three, six or nine
/// digits, as few as will do.
pub open spec fn fraction_text(nanos: int) -> Seq<char> {
    if nanos == 0 {
        Seq::empty()
    } else if nanos % 1_000_000 == 0 {
        "."@ + last_digits(nanos / 1_000_000, 3)
    } else if nanos % 1_000 == 0 {
        "."@ + last_digits(nanos / 1_000, 6)
    } else {
        "."@ + last_digits(nanos, 9)
    }
}

/// Whether seconds since midnight and nanoseconds are a time of day. Nanoseconds past
/// a second are those of a leap second, which ends a minute.
pub open spec fn is_time_of_day(t: TimeOfDay) -> bool {
    &&& t.secs < 86_400
    &&& t.nanos < 2_000_000_000
    &&& t.nanos < 1_000_000_000 || t.secs % 60 == 59
}

/// The text of a time of day, where there is one: hours, minutes and seconds of two
/// digits each, and the fraction. A leap second is the sixtieth of its minute.
pub open spec fn time_text(t: TimeOfDay) -> Option<Seq<char>> {
    let leap: int = if t.nanos >= 1_000_000_000 {
        1
    } else {
        0
    };
    if is_time_of_day(t) {
        Some(
            last_digits(t.secs as int / 3600, 2) + ":"@ + last_digits(t.secs as int / 60 % 60, 2)
                + ":"@ + last_digits(t.secs as int % 60 + leap, 2) + fraction_text(
                t.nanos - leap * 1_000_000_000,
            ),
        )
    } else {
        None
    }
}

/// The day that `chrono::NaiveDate::parse_from_str` reads from a text under a
/// format, `None` where it reports an error.
pub uninterp spec fn date_spelled(s: Seq<char>, format: Seq<char>) -> Option<i32>;

/// The day that `chrono::NaiveDate`'s `FromStr` reads from a text, `None` where
/// it reports an error.
pub uninterp spec fn date_spelled_plainly(s: Seq<char>) -> Option<i32>;

/// The UTC time that `chrono::NaiveDateTime::parse_from_str` reads from a text
/// under a format, `None` where it reports an error.
pub uninterp spec fn moment_spelled(s: Seq<char>, format: Seq<char>) -> Option<Timestamp>;

/// The time that `chrono::DateTime::parse_from_rfc3339` reads from a text,
/// `None` where it reports an error.
pub uninterp spec fn rfc3339_spelled(s: Seq<char>) -> Option<Timestamp>;

/// The time of day that `chrono::NaiveTime::parse_from_str` reads from a text
/// under a format, `None` where it reports an error.
pub uninterp spec fn time_spelled(s: Seq<char>, format: Seq<char>) -> Option<TimeOfDay>;

/// `uuid::Uuid::parse_str`: what it reads depends on the text alone; the bytes
/// come out as one big-endian number.
#[verifier::external_body]
pub(crate) fn parse_uuid(s: &str) -> (r: Option<u128>)
    ensures
        r == uuid_spelled(s@),
{
    match uuid::Uuid::parse_str(s) {
        Ok(u) => Some(u.as_u128()),
        Err(_) => None,
    }
}

/// `<uuid::Uuid as Display>::fmt`, of the UUID whose bytes make up a big-endian
/// number: the text has the digits of that number, in small letters and with
/// hyphens.
#[verifier::external_body]
pub(crate) fn show_uuid(n: u128) -> (r: String)
    ensures
        r@ == uuid_text(n),
{
    uuid::Uuid::from_u128(n).to_string()
}

/// `<chrono::NaiveDate as Debug>::fmt`, of the date that
/// `chrono::NaiveDate::from_num_days_from_ce_opt` makes of a day number: whether
/// there is one, and its text, depend on that number alone. Which text it is, is
/// left unsaid.
#[verifier::external_body]
pub(crate) fn show_date(n: i32) -> (r: Option<String>)
    ensures
        schema::opt_text(r) == date_text(n),
{
    match chrono::NaiveDate::from_num_days_from_ce_opt(n) {
        Some(d) => Some(format!("{:?}", d)),
        None => None,
    }
}

/// `<chrono::DateTime<Utc> as Debug>::fmt`, of the moment that
/// `chrono::DateTime::from_timestamp` makes of seconds and nanoseconds: whether
/// there is one, and its text, depend on those alone. Which text it is, is left
/// unsaid.
#[verifier::external_body]
pub(crate) fn show_moment(t: Timestamp) -> (r: Option<String>)
    ensures
        schema::opt_text(r) == moment_text(t),
{
    match chrono::DateTime::from_timestamp(t.secs, t.nanos) {
        Some(d) => Some(format!("{:?}", d)),
        None => None,
    }
}

/// `<chrono::NaiveTime as Debug>::fmt`, of the time that
/// `chrono::NaiveTime::from_num_seconds_from_midnight_opt` makes of seconds and
/// nanoseconds: there is one where the seconds are those of a day and the nanoseconds
/// those of a second or a leap second, and its text is spelled in full.
#[verifier::external_body]
pub(crate) fn show_time(t: TimeOfDay) -> (r: Option<String>)
    ensures
        schema::opt_text(r) == time_text(t),
{
    match chrono::NaiveTime::from_num_seconds_from_midnight_opt(t.secs, t.nanos) {
        Some(d) => Some(format!("{:?}", d)),
        None => None,
    }
}

/// `chrono::NaiveDate::parse_from_str`: what it reads depends on the text and
/// the format alone; the date comes out as its day number.
#[verifier::external_body]
pub(crate) fn parse_date(s: &str, format: &str) -> (r: Option<i32>)
    ensures
        r == date_spelled(s@, format@),
{
    match chrono::NaiveDate::parse_from_str(s, format) {
        Ok(d) => Some(d.num_days_from_ce()),
        Err(_) => None,
    }
}

/// `<chrono::NaiveDate as FromStr>::from_str`: what it reads depends on the
/// text alone; the date comes out as its day number.
#[verifier::external_body]
pub(crate) fn parse_date_plainly(s: &str) -> (r: Option<i32>)
    ensures
        r == date_spelled_plainly(s@),
{
    match s.parse::<chrono::NaiveDate>() {
        Ok(d) => Some(d.num_days_from_ce()),
        Err(_) => None,
    }
}

/// `chrono::NaiveDateTime::parse_from_str`: what it reads depends on the text
/// and the format alone; the result is taken as UTC.
#[verifier::external_body]
pub(crate) fn parse_moment(s: &str, format: &str) -> (r: Option<Timestamp>)
    ensures
        r == moment_spelled(s@, format@),
{
    match chrono::NaiveDateTime::parse_from_str(s, format) {
        Ok(t) => {
            let u = t.and_utc();
            Some(Timestamp { secs: u.timestamp(), nanos: u.timestamp_subsec_nanos() })
        },
        Err(_) => None,
    }
}

/// `chrono::DateTime::parse_from_rfc3339`: what it reads depends on the text
/// alone.
#[verifier::external_body]
pub(crate) fn parse_rfc3339(s: &str) -> (r: Option<Timestamp>)
    ensures
        r == rfc3339_spelled(s@),
{
    match chrono::DateTime::parse_from_rfc3339(s) {
        Ok(t) => Some(Timestamp { secs: t.timestamp(), nanos: t.timestamp_subsec_nanos() }),
        Err(_) => None,
    }
}

/// `chrono::NaiveTime::parse_from_str`: what it reads depends on the text and
/// the format alone.
#[verifier::external_body]
pub(crate) fn parse_time(s: &str, format: &str) -> (r: Option<TimeOfDay>)
    ensures
        r == time_spelled(s@, format@),
{
    match chrono::NaiveTime::parse_from_str(s, format) {
        Ok(t) => Some(
            TimeOfDay { secs: t.num_seconds_from_midnight(), nanos: t.nanosecond() },
        ),
        Err(_) => None,
    }
}

/// The day number of 1970-01-01.
pub const UNIX_DAY: i64 = 719163;

/// The day on which a time falls, `None` where its number exceeds an `i32`.
pub open spec fn day_of(t: Timestamp) -> Option<i32> {
    let day = t.secs as int / 86400 + UNIX_DAY;
    if i32::MIN <= day <= i32::MAX {
        Some(day as i32)
    } else {
        None
    }
}

/// The first moment of a day.
pub open spec fn midnight_of(day: i32) -> Timestamp {
    Timestamp { secs: ((day - UNIX_DAY) * 86400) as i64, nanos: 0 }
}

/// The day on which a time falls.
pub fn timestamp_day(t: Timestamp) -> (r: Option<i32>)
    ensures
        r == day_of(t),
{
    let q: i64 = if t.secs >= 0 {
        t.secs / 86400
    } else {
        -1 - (-1 - t.secs) / 86400
    };
    assert(q == t.secs as int / 86400);
    let day: i64 = q + UNIX_DAY;
    if -2147483648 <= day && day <= 2147483647 {
        Some(day as i32)
    } else {
        None
    }
}

/// The first moment of a day.
pub fn day_midnight(day: i32) -> (r: Timestamp)
    ensures
        r == midnight_of(day),
{
    Timestamp { secs: (day as i64 - UNIX_DAY) * 86400, nanos: 0 }
}

/// The first moment of a day falls on that day.
pub proof fn law_midnight_falls_on_its_day(day: i32)
    ensures
        day_of(midnight_of(day)) == Some(day),
{
}

} // verus!
