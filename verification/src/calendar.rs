//! Calendar parsing delegated to `chrono`: each function here makes one call
//! and hands back plain values (days from the common era, or seconds and
//! nanoseconds since the Unix epoch).
use chrono::{DateTime, Datelike, NaiveDate, NaiveDateTime, Utc};
use vstd::prelude::*;

verus! {

/// Day number (from the common era, 0001-01-01 being day 1) of the date that
/// `NaiveDate::parse_from_str(text, format)` yields, if it accepts `text`.
pub uninterp spec fn chrono_naive_date(text: Seq<char>, format: Seq<char>) -> Option<i32>;

/// UTC seconds and sub-second nanoseconds of
/// `DateTime::parse_from_rfc3339(text)`, if it accepts `text`.
pub uninterp spec fn chrono_rfc3339(text: Seq<char>) -> Option<(i64, u32)>;

/// UTC seconds and sub-second nanoseconds of
/// `DateTime::parse_from_str(text, format)` (a datetime with an explicit offset).
pub uninterp spec fn chrono_offset_datetime(text: Seq<char>, format: Seq<char>) -> Option<(i64, u32)>;

/// UTC seconds and sub-second nanoseconds of
/// `NaiveDateTime::parse_from_str(text, format)`, the naive datetime read as UTC.
pub uninterp spec fn chrono_naive_datetime(text: Seq<char>, format: Seq<char>) -> Option<(i64, u32)>;

/// Calls `chrono::NaiveDate::parse_from_str` and then `Datelike::num_days_from_ce`
/// on the date it yields. Claimed: the result is `chrono_naive_date(text, format)`.
#[verifier::external_body]
pub(crate) fn naive_date_days_from_ce(text: &str, format: &str) -> (res: Option<i32>)
    ensures
        res == chrono_naive_date(text@, format@),
{
    NaiveDate::parse_from_str(text, format).ok().map(|d| d.num_days_from_ce())
}

/// Calls `chrono::DateTime::parse_from_rfc3339` and reads `timestamp()` and
/// `timestamp_subsec_nanos()` of the instant in UTC. Claimed: the result is
/// `chrono_rfc3339(text)`.
#[verifier::external_body]
pub(crate) fn rfc3339_instant(text: &str) -> (res: Option<(i64, u32)>)
    ensures
        res == chrono_rfc3339(text@),
{
    DateTime::parse_from_rfc3339(text).ok().map(|dt| {
        let utc = dt.with_timezone(&Utc);
        (utc.timestamp(), utc.timestamp_subsec_nanos())
    })
}

/// Calls `chrono::DateTime::parse_from_str` and reads `timestamp()` and
/// `timestamp_subsec_nanos()` of the instant in UTC. Claimed: the result is
/// `chrono_offset_datetime(text, format)`.
#[verifier::external_body]
pub(crate) fn offset_datetime_instant(text: &str, format: &str) -> (res: Option<(i64, u32)>)
    ensures
        res == chrono_offset_datetime(text@, format@),
{
    DateTime::parse_from_str(text, format).ok().map(|dt| {
        let utc = dt.with_timezone(&Utc);
        (utc.timestamp(), utc.timestamp_subsec_nanos())
    })
}

/// Calls `chrono::NaiveDateTime::parse_from_str`, reads the result as UTC and
/// returns its `timestamp()` and `timestamp_subsec_nanos()`. Claimed: the result
/// is `chrono_naive_datetime(text, format)`.
#[verifier::external_body]
pub(crate) fn naive_datetime_instant(text: &str, format: &str) -> (res: Option<(i64, u32)>)
    ensures
        res == chrono_naive_datetime(text@, format@),
{
    NaiveDateTime::parse_from_str(text, format).ok().map(|dt| {
        let utc = dt.and_utc();
        (utc.timestamp(), utc.timestamp_subsec_nanos())
    })
}

} // verus!
