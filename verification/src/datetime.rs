//! Calls into chrono: parsing dates and times by `strftime`-style formats,
//! and writing instants as RFC 3339 text.
//!
//! An instant is held as whole seconds since the Unix epoch (UTC) and the
//! nanoseconds past that second. What chrono answers is named by the spec
//! functions below; every one is a function of its arguments alone.
use vstd::prelude::*;

use chrono::{DateTime, Datelike, NaiveDate, NaiveDateTime, NaiveTime, TimeDelta, TimeZone, Timelike, Utc};

verus! {

/// `DateTime::<Utc>::from_timestamp(secs, nanos)` written with
/// `to_rfc3339`; `None` when chrono cannot represent the instant.
pub uninterp spec fn rfc3339_at(secs: int, nanos: int) -> Option<Seq<char>>;

/// `DateTime::parse_from_str(input, fmt)` (a format with an offset),
/// converted to UTC and written with `to_rfc3339`.
pub uninterp spec fn offset_parse_rfc3339(input: Seq<char>, fmt: Seq<char>) -> Option<Seq<char>>;

/// `NaiveDateTime::parse_from_str(input, fmt)`, taken as UTC and written
/// with `to_rfc3339`.
pub uninterp spec fn naive_datetime_rfc3339(input: Seq<char>, fmt: Seq<char>) -> Option<Seq<char>>;

/// `NaiveDate::parse_from_str(input, fmt)`, as the Unix timestamp of its
/// midnight (UTC).
pub uninterp spec fn naive_date_midnight(input: Seq<char>, fmt: Seq<char>) -> Option<int>;

/// `NaiveTime::parse_from_str(input, fmt)`, as seconds since midnight and
/// nanoseconds.
pub uninterp spec fn naive_time_of_day(input: Seq<char>, fmt: Seq<char>) -> Option<(int, int)>;

/// The calendar year (UTC) of the instant `secs`, when chrono can
/// represent it.
pub uninterp spec fn year_at(secs: int) -> Option<int>;

/// `DateTime::parse_from_rfc2822(input)`, converted to UTC and written
/// with `to_rfc3339`.
pub uninterp spec fn rfc2822_rfc3339(input: Seq<char>) -> Option<Seq<char>>;

/// `DateTime::parse_from_rfc2822`, in UTC, in RFC 3339; its result is
/// named [`rfc2822_rfc3339`].
#[verifier::external_body]
pub(crate) fn parse_rfc2822(input: &str) -> (r: Option<String>)
    ensures
        match r {
            Some(s) => rfc2822_rfc3339(input@) == Some(s@),
            None => rfc2822_rfc3339(input@) is None,
        },
{
    DateTime::parse_from_rfc2822(input).ok().map(|dt| dt.with_timezone(&Utc).to_rfc3339())
}

/// `DateTime::parse_from_rfc3339(input)`, converted to UTC and written
/// with `to_rfc3339`.
pub uninterp spec fn rfc3339_utc(input: Seq<char>) -> Option<Seq<char>>;

/// `DateTime::parse_from_rfc3339`, in UTC, in RFC 3339; its result is
/// named [`rfc3339_utc`].
#[verifier::external_body]
pub(crate) fn parse_rfc3339(input: &str) -> (r: Option<String>)
    ensures
        match r {
            Some(s) => rfc3339_utc(input@) == Some(s@),
            None => rfc3339_utc(input@) is None,
        },
{
    DateTime::parse_from_rfc3339(input).ok().map(|dt| dt.with_timezone(&Utc).to_rfc3339())
}

/// The instant `(secs, nanos)` in RFC 3339; its result is named [`rfc3339_at`].
#[verifier::external_body]
pub(crate) fn rfc3339(secs: i64, nanos: u32) -> (r: Option<String>)
    ensures
        match r {
            Some(s) => rfc3339_at(secs as int, nanos as int) == Some(s@),
            None => rfc3339_at(secs as int, nanos as int) is None,
        },
{
    DateTime::<Utc>::from_timestamp(secs, nanos).map(|dt| dt.to_rfc3339())
}

/// `DateTime::parse_from_str`, in UTC, in RFC 3339.
#[verifier::external_body]
pub(crate) fn parse_with_offset(input: &str, fmt: &str) -> (r: Option<String>)
    ensures
        match r {
            Some(s) => offset_parse_rfc3339(input@, fmt@) == Some(s@),
            None => offset_parse_rfc3339(input@, fmt@) is None,
        },
{
    DateTime::parse_from_str(input, fmt).ok().map(|dt| dt.with_timezone(&Utc).to_rfc3339())
}

/// `NaiveDateTime::parse_from_str`, taken as UTC, in RFC 3339.
#[verifier::external_body]
pub(crate) fn parse_naive_datetime(input: &str, fmt: &str) -> (r: Option<String>)
    ensures
        match r {
            Some(s) => naive_datetime_rfc3339(input@, fmt@) == Some(s@),
            None => naive_datetime_rfc3339(input@, fmt@) is None,
        },
{
    NaiveDateTime::parse_from_str(input, fmt).ok().map(|ndt| Utc.from_utc_datetime(&ndt).to_rfc3339())
}

/// `NaiveDate::parse_from_str`, as the timestamp of its midnight.
#[verifier::external_body]
pub(crate) fn parse_naive_date(input: &str, fmt: &str) -> (r: Option<i64>)
    ensures
        match r {
            Some(t) => naive_date_midnight(input@, fmt@) == Some(t as int),
            None => naive_date_midnight(input@, fmt@) is None,
        },
{
    NaiveDate::parse_from_str(input, fmt).ok().and_then(|d| d.and_hms_opt(0, 0, 0)).map(|ndt| ndt.and_utc().timestamp())
}

/// `NaiveTime::parse_from_str`, as seconds since midnight and nanoseconds.
#[verifier::external_body]
pub(crate) fn parse_naive_time(input: &str, fmt: &str) -> (r: Option<(u32, u32)>)
    ensures
        match r {
            Some((s, n)) => naive_time_of_day(input@, fmt@) == Some((s as int, n as int)) && s < 86400,
            None => naive_time_of_day(input@, fmt@) is None,
        },
{
    NaiveTime::parse_from_str(input, fmt).ok().map(|t| (t.num_seconds_from_midnight(), t.nanosecond()))
}

/// The calendar year of an instant (`Datelike::year`).
#[verifier::external_body]
pub(crate) fn year_of(secs: i64) -> (r: Option<i32>)
    ensures
        match r {
            Some(y) => year_at(secs as int) == Some(y as int),
            None => year_at(secs as int) is None,
        },
{
    DateTime::<Utc>::from_timestamp(secs, 0).map(|dt| dt.year())
}

// ---------------------------------------------------------------------------
// Durations and instants
// ---------------------------------------------------------------------------
/// The largest whole-second `TimeDelta` (`TimeDelta::MAX` is `i64::MAX`
/// milliseconds).
pub open spec fn max_delta() -> int {
    9223372036854775
}

/// Whether `TimeDelta` can hold `d` whole seconds (`TimeDelta::MIN` is
/// `-i64::MAX` milliseconds).
pub open spec fn delta_ok(d: int) -> bool {
    -max_delta() <= d <= max_delta()
}

/// `TimeDelta::try_seconds(secs)`, read back by `num_seconds`: `None` when
/// the duration is out of `TimeDelta`'s bounds.
#[verifier::external_body]
pub(crate) fn try_delta(secs: i64) -> (r: Option<i64>)
    ensures
        r == (if delta_ok(secs as int) {
            Some(secs)
        } else {
            None::<i64>
        }),
{
    TimeDelta::try_seconds(secs).map(|d| d.num_seconds())
}

/// `TimeDelta::checked_add` of `a` and `b` seconds, read back by
/// `num_seconds`: `None` when the sum is out of `TimeDelta`'s bounds.
#[verifier::external_body]
pub(crate) fn add_deltas(a: i64, b: i64) -> (r: Option<i64>)
    requires
        delta_ok(a as int),
        delta_ok(b as int),
    ensures
        match r {
            Some(x) => delta_ok(a + b) && x == a + b,
            None => !delta_ok(a + b),
        },
{
    TimeDelta::seconds(a).checked_add(&TimeDelta::seconds(b)).map(|d| d.num_seconds())
}

/// `DateTime::<Utc>::from_timestamp(secs, nanos)` moved by
/// `checked_add_signed(TimeDelta::seconds(d))`, as its timestamp and
/// sub-second nanoseconds.
pub uninterp spec fn shifted_at(secs: int, nanos: int, d: int) -> Option<(int, int)>;

/// Moves the instant `secs`/`nanos` by `d` seconds
/// (`DateTime::checked_add_signed`); its result is named [`shifted_at`].
/// For an instant outside a leap second (`nanos` under one second) the
/// move is exact, and fails only where the instant or its result is one
/// chrono cannot represent (see [`rfc3339_at`]).
#[verifier::external_body]
pub(crate) fn checked_shift(secs: i64, nanos: u32, d: i64) -> (r: Option<(i64, u32)>)
    requires
        delta_ok(d as int),
    ensures
        match r {
            Some((s, n)) => shifted_at(secs as int, nanos as int, d as int) == Some((s as int, n as int))
                && (nanos < 1_000_000_000 ==> s == secs + d && n == nanos && rfc3339_at(secs as int, nanos as int) is Some
                && rfc3339_at(secs + d, nanos as int) is Some),
            None => shifted_at(secs as int, nanos as int, d as int) is None && (nanos < 1_000_000_000 ==> !(
            rfc3339_at(secs as int, nanos as int) is Some && rfc3339_at(secs + d, nanos as int) is Some)),
        },
{
    DateTime::<Utc>::from_timestamp(secs, nanos).and_then(|t| t.checked_add_signed(TimeDelta::seconds(d))).map(
        |t| (t.timestamp(), t.timestamp_subsec_nanos()),
    )
}

/// The day number (days since the epoch, rounded down) of the instant
/// `secs`.
pub open spec fn day_of(secs: int) -> int {
    if secs >= 0 {
        secs / 86400
    } else {
        -((-secs + 86399) / 86400)
    }
}

/// The timestamp of the UTC midnight that starts the instant's day, when
/// chrono can represent the instant.
pub open spec fn midnight_of(secs: int, nanos: int) -> Option<int> {
    if rfc3339_at(secs, nanos) is Some {
        Some(day_of(secs) * 86400)
    } else {
        None
    }
}

/// `DateTime::<Utc>::from_timestamp(secs, nanos)`'s `date_naive()` at
/// midnight, as a timestamp (see [`midnight_of`]).
#[verifier::external_body]
pub(crate) fn utc_midnight(secs: i64, nanos: u32) -> (r: Option<i64>)
    ensures
        match r {
            Some(m) => midnight_of(secs as int, nanos as int) == Some(m as int),
            None => midnight_of(secs as int, nanos as int) is None,
        },
{
    DateTime::<Utc>::from_timestamp(secs, nanos).map(|t| t.date_naive().and_time(NaiveTime::MIN).and_utc().timestamp())
}

} // verus!
