//! Dates: a front-matter date read as a point in time.

use chrono::{DateTime, Datelike, NaiveDate};
use vstd::prelude::*;

verus! {

/// The day on which `text`, read by the `chrono` format `format`, falls:
/// counted in the proleptic Gregorian calendar, 1 January of the year 1
/// being day 1. `None` where `chrono` does not read `text` as a date.
pub uninterp spec fn parsed_date_days(text: Seq<char>, format: Seq<char>) -> Option<i32>;

/// `chrono::NaiveDate::parse_from_str`, and `Datelike::num_days_from_ce` on
/// the date read: the result is a function of the two texts alone, and is
/// `None` exactly where the parser returns an error.
#[verifier::external_body]
fn parse_date_days(text: &str, format: &str) -> (r: Option<i32>)
    ensures
        r == parsed_date_days(text@, format@),
{
    match NaiveDate::parse_from_str(text, format) {
        Ok(date) => Some(date.num_days_from_ce()),
        Err(_) => None,
    }
}

/// The day number of 1 January 1970.
pub const EPOCH_DAY: i64 = 719_163;

/// The seconds of a day.
pub const SECONDS_PER_DAY: i64 = 86_400;

/// Midnight UTC of the given day, in seconds since 1 January 1970.
pub open spec fn timestamp_of_days(days: Option<i32>) -> Option<i64> {
    match days {
        Some(d) => Some(((d - EPOCH_DAY) * SECONDS_PER_DAY) as i64),
        None => None,
    }
}

/// Midnight UTC of the given day, in seconds since 1 January 1970.
pub fn timestamp_from_days(days: Option<i32>) -> (r: Option<i64>)
    ensures
        r == timestamp_of_days(days),
{
    match days {
        Some(d) => {
            let day: i64 = d as i64;
            Some((day - EPOCH_DAY) * SECONDS_PER_DAY)
        },
        None => None,
    }
}

/// The format in which dates are written and read: `YYYY-MM-DD`.
pub const DATE_FORMAT: &'static str = "%Y-%m-%d";

/// The time that a `YYYY-MM-DD` date names: midnight UTC of that day.
pub open spec fn date_timestamp(text: Seq<char>) -> Option<i64> {
    timestamp_of_days(parsed_date_days(text, DATE_FORMAT@))
}

/// Reads a date written as `YYYY-MM-DD`; `None` where the text is no such
/// date.
pub fn parse_date_string(date_str: &str) -> (r: Option<i64>)
    ensures
        r == date_timestamp(date_str@),
{
    timestamp_from_days(parse_date_days(date_str, DATE_FORMAT))
}

/// The time `seconds` after 1 January 1970, UTC, written by the `chrono`
/// format `format`. `None` where `chrono` cannot hold the time or cannot
/// write it in that format.
pub uninterp spec fn formatted_time(seconds: i64, format: Seq<char>) -> Option<Seq<char>>;

/// `chrono::DateTime::from_timestamp` on `seconds` and no nanoseconds,
/// `DateTime::format` on the result, and `DelayedFormat::write_to` into a
/// string: a function of the number and the format alone, `None` where the
/// first returns `None` or the last returns an error.
#[verifier::external_body]
fn format_timestamp(seconds: i64, format: &str) -> (r: Option<String>)
    ensures
        r.deep_view() == formatted_time(seconds, format@),
{
    let time = DateTime::from_timestamp(seconds, 0)?;
    let mut out = String::new();
    match time.format(format).write_to(&mut out) {
        Ok(()) => Some(out),
        Err(_) => None,
    }
}

/// The day of a point in time, written as `YYYY-MM-DD`; `None` for a time
/// beyond the years that can be written.
pub fn format_date(date: i64) -> (r: Option<String>)
    ensures
        r.deep_view() == formatted_time(date, DATE_FORMAT@),
{
    format_timestamp(date, DATE_FORMAT)
}

} // verus!
