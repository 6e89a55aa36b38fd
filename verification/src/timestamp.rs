//! The timestamp interpreter: multi-format recognition with fallback.
//!
//! A raw timestamp field is trimmed and then tried against an ordered list
//! of format families, first match wins: full date-times, then times of day
//! (combined with the Unix epoch date, a placeholder convention for
//! time-of-day-only data), then dates (midnight implied), and finally the
//! same dates with the current calendar year appended for date strings that
//! omit their year.  A recognized timestamp before the Unix epoch is
//! rejected rather than wrapped, since results are unsigned milliseconds.
//!
//! The actual calendar arithmetic is chrono's.  What a given text parses to
//! is named by the uninterpreted functions below and never restated here;
//! the interpreter's own contract is exact relative to those names.

use vstd::prelude::*;

use crate::errors::ParseError;
use crate::text::{trim, trimmed};

verus! {

/// What chrono makes of `s` as a date-time under format `fmt`: the
/// milliseconds since the Unix epoch, or nothing when `s` does not match.
pub uninterp spec fn datetime_format_ms(s: Seq<char>, fmt: Seq<char>) -> Option<int>;

/// What chrono makes of `s` as a time of day under format `fmt`, placed on
/// the Unix epoch date 1970-01-01: the milliseconds since the epoch, or
/// nothing when `s` does not match.
pub uninterp spec fn time_format_ms(s: Seq<char>, fmt: Seq<char>) -> Option<int>;

/// What chrono makes of `s` as a date under format `fmt`, at midnight: the
/// milliseconds since the Unix epoch, or nothing when `s` does not match.
pub uninterp spec fn date_format_ms(s: Seq<char>, fmt: Seq<char>) -> Option<int>;

/// Relies on chrono's `NaiveDateTime::parse_from_str`, composed with
/// `NaiveDateTime::and_utc` and `DateTime::timestamp_millis`.  Parsing and
/// the epoch-millisecond value are functions of the two strings alone.
#[verifier::external_body]
fn chrono_datetime_ms(s: &str, fmt: &str) -> (r: Option<i64>)
    ensures
        r is Some <==> datetime_format_ms(s@, fmt@) is Some,
        r matches Some(ms) ==> datetime_format_ms(s@, fmt@) == Some(ms as int),
{
    match chrono::NaiveDateTime::parse_from_str(s, fmt) {
        Ok(dt) => Some(dt.and_utc().timestamp_millis()),
        Err(_) => None,
    }
}

/// Relies on chrono's `NaiveTime::parse_from_str`, composed with
/// `NaiveDate::from_ymd_opt(1970, 1, 1)`, `NaiveDate::and_time`,
/// `NaiveDateTime::and_utc` and `DateTime::timestamp_millis`.  Parsing and
/// the epoch-millisecond value are functions of the two strings alone.
#[verifier::external_body]
fn chrono_time_ms(s: &str, fmt: &str) -> (r: Option<i64>)
    ensures
        r is Some <==> time_format_ms(s@, fmt@) is Some,
        r matches Some(ms) ==> time_format_ms(s@, fmt@) == Some(ms as int),
{
    match chrono::NaiveTime::parse_from_str(s, fmt) {
        Ok(t) => match chrono::NaiveDate::from_ymd_opt(1970, 1, 1) {
            Some(d) => Some(d.and_time(t).and_utc().timestamp_millis()),
            None => None,
        },
        Err(_) => None,
    }
}

/// Relies on chrono's `NaiveDate::parse_from_str`, composed with
/// `NaiveDate::and_hms_milli_opt(0, 0, 0, 0)`, `NaiveDateTime::and_utc` and
/// `DateTime::timestamp_millis`.  Parsing and the epoch-millisecond value
/// are functions of the two strings alone.
#[verifier::external_body]
fn chrono_date_ms(s: &str, fmt: &str) -> (r: Option<i64>)
    ensures
        r is Some <==> date_format_ms(s@, fmt@) is Some,
        r matches Some(ms) ==> date_format_ms(s@, fmt@) == Some(ms as int),
{
    match chrono::NaiveDate::parse_from_str(s, fmt) {
        Ok(d) => match d.and_hms_milli_opt(0, 0, 0, 0) {
            Some(dt) => Some(dt.and_utc().timestamp_millis()),
            None => None,
        },
        Err(_) => None,
    }
}

/// Relies on chrono's `Local::now` and `DateTime::format` with `%Y`: the
/// current local calendar year as text.  The value depends on the clock and
/// the machine's time zone, so nothing is promised of it; callers state
/// what holds for every year text.
#[verifier::external_body]
pub fn current_year_string() -> (r: String) {
    chrono::Local::now().format("%Y").to_string()
}

/// The milliseconds of the first date-time format that `t` matches.
pub open spec fn spec_datetime_first(t: Seq<char>) -> Option<int> {
    if datetime_format_ms(t, "%Y-%m-%d %H:%M:%S"@) is Some {
        datetime_format_ms(t, "%Y-%m-%d %H:%M:%S"@)
    } else if datetime_format_ms(t, "%d/%m/%Y %H:%M"@) is Some {
        datetime_format_ms(t, "%d/%m/%Y %H:%M"@)
    } else {
        datetime_format_ms(t, "%Y-%m-%dT%H:%M:%S%Z"@)
    }
}

/// The milliseconds that the whole fallback chain assigns to the raw field
/// `field`, where `year` is the current calendar year's text: the first
/// matching family wins, and `year` is appended only in the last resort.
/// Nothing when no family matches.
pub open spec fn spec_timestamp_ms(field: Seq<char>, year: Seq<char>) -> Option<int> {
    let t = trim(field);
    if spec_datetime_first(t) is Some {
        spec_datetime_first(t)
    } else if time_format_ms(t, "%H:%M"@) is Some {
        time_format_ms(t, "%H:%M"@)
    } else if date_format_ms(t, "%a %d %b %Y"@) is Some {
        date_format_ms(t, "%a %d %b %Y"@)
    } else {
        date_format_ms(t + " "@ + year, "%a %d %b %Y"@)
    }
}

/// The timestamp that the interpreter accepts for `field`: the milliseconds
/// of [`spec_timestamp_ms`], provided they are not negative.
pub open spec fn spec_timestamp_of(field: Seq<char>, year: Seq<char>) -> Option<int> {
    match spec_timestamp_ms(field, year) {
        Some(ms) => if ms >= 0 {
            Some(ms)
        } else {
            None
        },
        None => None,
    }
}

/// Interprets one raw timestamp field, `year` being the current calendar
/// year's text for the last-resort retry.  Returns the milliseconds since
/// the Unix epoch, or the trimmed candidate text inside the failure.
pub fn parse_timestamp(field: &str, year: &str) -> (r: Result<u64, ParseError>)
    ensures
        r is Ok <==> spec_timestamp_of(field@, year@) is Some,
        r matches Ok(ms) ==> Some(ms as int) == spec_timestamp_of(field@, year@),
        r matches Err(e) ==> (e matches ParseError::TimestampUnparseable(c) && c@ == trim(
            field@,
        )),
{
    let t = trimmed(field);
    let mut found: Option<i64> = chrono_datetime_ms(t.as_str(), "%Y-%m-%d %H:%M:%S");
    if found.is_none() {
        found = chrono_datetime_ms(t.as_str(), "%d/%m/%Y %H:%M");
    }
    if found.is_none() {
        found = chrono_datetime_ms(t.as_str(), "%Y-%m-%dT%H:%M:%S%Z");
    }
    if found.is_none() {
        found = chrono_time_ms(t.as_str(), "%H:%M");
    }
    if found.is_none() {
        found = chrono_date_ms(t.as_str(), "%a %d %b %Y");
    }
    if found.is_none() {
        let mut with_year = t.clone();
        with_year.append(" ");
        with_year.append(year);
        assert(with_year@ == trim(field@) + " "@ + year@);
        found = chrono_date_ms(with_year.as_str(), "%a %d %b %Y");
    }
    match found {
        Some(ms) => {
            if ms >= 0 {
                Ok(ms as u64)
            } else {
                Err(ParseError::TimestampUnparseable(t))
            }
        },
        None => Err(ParseError::TimestampUnparseable(t)),
    }
}

} // verus!
