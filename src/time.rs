use chrono::{Datelike, Timelike};
use vstd::prelude::*;
use crate::text::{padded, push_padded, string_of};

verus! {

/// A point in time as the analysis reads it: the instant (seconds since the
/// Unix epoch and the nanoseconds past them, which reach a second or more only
/// inside a leap second), and the calendar date and hour on the clock of the
/// offset that the time was written in.
#[derive(Clone, Copy, Debug, PartialEq, Eq, Structural)]
pub struct Timestamp {
    pub seconds: i64,
    pub nanos: u32,
    pub year: i32,
    pub month: u32,
    pub day: u32,
    pub hour: u32,
}

/// Whether instant `a` comes no later than instant `b`.
pub open spec fn not_after(a: Timestamp, b: Timestamp) -> bool {
    a.seconds < b.seconds || (a.seconds == b.seconds && a.nanos <= b.nanos)
}

pub fn is_not_after(a: &Timestamp, b: &Timestamp) -> (r: bool)
    ensures
        r == not_after(*a, *b),
{
    a.seconds < b.seconds || (a.seconds == b.seconds && a.nanos <= b.nanos)
}

/// What chrono reads from an access-log time field
/// (`DD/Mon/YYYY:HH:MM:SS ±HHMM`), if it reads it.
pub uninterp spec fn log_time_of(s: Seq<char>) -> Option<Timestamp>;

/// What chrono reads from a filter time (`YYYY-MM-DD HH:MM`, taken as UTC),
/// if it reads it.
pub uninterp spec fn filter_time_of(s: Seq<char>) -> Option<Timestamp>;

/// Relies on `chrono::DateTime::parse_from_str` with the access-log format:
/// the outcome depends on the text alone. The date and hour are chrono's
/// `year`, `month`, `day`, `hour`, on the clock of the parsed offset.
#[verifier::external_body]
fn parse_log_time(s: &str) -> (r: Option<Timestamp>)
    ensures
        r == log_time_of(s@),
{
    let dt = chrono::DateTime::parse_from_str(s, "%d/%b/%Y:%H:%M:%S %z").ok()?;
    Some(Timestamp {
        seconds: dt.timestamp(),
        nanos: dt.timestamp_subsec_nanos(),
        year: dt.year(),
        month: dt.month(),
        day: dt.day(),
        hour: dt.hour(),
    })
}

/// Relies on `chrono::NaiveDateTime::parse_from_str` with the filter format,
/// the result read as UTC: the outcome depends on the text alone, and chrono's
/// error message comes back on failure.
#[verifier::external_body]
fn parse_utc_minute(s: &str) -> (r: Result<Timestamp, String>)
    ensures
        r matches Ok(t) ==> filter_time_of(s@) == Some(t),
        r is Err ==> filter_time_of(s@) is None,
{
    match chrono::NaiveDateTime::parse_from_str(s, "%Y-%m-%d %H:%M") {
        Ok(naive) => Ok(Timestamp {
            seconds: naive.and_utc().timestamp(),
            nanos: naive.and_utc().timestamp_subsec_nanos(),
            year: naive.year(),
            month: naive.month(),
            day: naive.day(),
            hour: naive.hour(),
        }),
        Err(e) => Err(e.to_string()),
    }
}

/// Reads the time field of an access-log line.
pub fn parse_log_timestamp(s: &str) -> (r: Option<Timestamp>)
    ensures
        r == log_time_of(s@),
{
    parse_log_time(s)
}

/// The text that a failed filter time is reported with, before chrono's own
/// message.
pub open spec fn filter_error_prefix() -> Seq<char> {
    "Invalid datetime format: "@
}

/// Reads a filter time `YYYY-MM-DD HH:MM`, taken as UTC. On failure the
/// message starts with `Invalid datetime format: `.
pub fn parse_filter_datetime(datetime_str: &str) -> (r: Result<Timestamp, String>)
    ensures
        r matches Ok(t) ==> filter_time_of(datetime_str@) == Some(t),
        r is Err <==> filter_time_of(datetime_str@) is None,
        r matches Err(m) ==> m@.subrange(0, filter_error_prefix().len() as int)
            == filter_error_prefix(),
{
    match parse_utc_minute(datetime_str) {
        Ok(t) => Ok(t),
        Err(e) => {
            let mut m = String::from_str("Invalid datetime format: ");
            m.append(e.as_str());
            assert(m@.subrange(0, filter_error_prefix().len() as int) =~= filter_error_prefix());
            Err(m)
        }
    }
}

/// A year as chrono prints it with `%Y`: four digits within `0..=9999`, else a
/// sign and at least four digits.
pub open spec fn year_text(y: int) -> Seq<char> {
    if 0 <= y <= 9999 {
        padded(y as nat, 4)
    } else if y < 0 {
        seq!['-'] + padded((-y) as nat, 4)
    } else {
        seq!['+'] + padded(y as nat, 4)
    }
}

/// The hour bucket of a time, `YYYY-MM-DD HH:00`, on the clock of the time's
/// own offset.
pub open spec fn hour_key(t: Timestamp) -> Seq<char> {
    year_text(t.year as int) + seq!['-'] + padded(t.month as nat, 2) + seq!['-']
        + padded(t.day as nat, 2) + seq![' '] + padded(t.hour as nat, 2) + seq![':', '0', '0']
}

/// The hour bucket of `t`, `YYYY-MM-DD HH:00`.
pub fn hour_bucket(t: &Timestamp) -> (r: String)
    ensures
        r@ == hour_key(*t),
{
    let mut v: Vec<char> = Vec::new();
    let y = t.year;
    if 0 <= y && y <= 9999 {
        push_padded(&mut v, y as u64, 4);
    } else if y < 0 {
        v.push('-');
        push_padded(&mut v, (-(y as i64)) as u64, 4);
    } else {
        v.push('+');
        push_padded(&mut v, y as u64, 4);
    }
    assert(v@ =~= year_text(y as int));
    v.push('-');
    push_padded(&mut v, t.month as u64, 2);
    v.push('-');
    push_padded(&mut v, t.day as u64, 2);
    v.push(' ');
    push_padded(&mut v, t.hour as u64, 2);
    v.push(':');
    v.push('0');
    v.push('0');
    assert(v@ =~= hour_key(*t));
    string_of(v)
}

} // verus!
