//! Calendar arithmetic and parsing delegated to `chrono`, and the system clock.
//!
//! Each formatted or parsed value is a function of the arguments alone; the
//! library names it and states what it builds on top.

use vstd::prelude::*;

verus! {

/// `DateTime::from_timestamp(secs, 0)` formatted as `%Y-%m-%d` (UTC).
pub uninterp spec fn utc_date_text(secs: i64) -> Option<Seq<char>>;

/// `DateTime::from_timestamp_millis(ms)` formatted as `%Y-%m-%d %H:%M:%S` (UTC).
pub uninterp spec fn utc_datetime_text(ms: i64) -> Option<Seq<char>>;

/// `NaiveDateTime::parse_from_str(s, fmt)` read as UTC, in Unix milliseconds.
pub uninterp spec fn naive_utc_millis(s: Seq<char>, fmt: Seq<char>) -> Option<i64>;

/// `NaiveDate::parse_from_str(s, fmt)` at midnight UTC, in Unix milliseconds.
pub uninterp spec fn naive_date_millis(s: Seq<char>, fmt: Seq<char>) -> Option<i64>;

/// `DateTime::parse_from_rfc3339(s)` in Unix seconds.
pub uninterp spec fn rfc3339_secs(s: Seq<char>) -> Option<i64>;

/// `DateTime::parse_from_str(s, fmt)` (with an offset) in Unix seconds, or the
/// text of chrono's parse error.
pub uninterp spec fn offset_datetime_secs(s: Seq<char>, fmt: Seq<char>) -> Result<i64, Seq<char>>;

/// Calls `chrono::DateTime::from_timestamp(secs, 0)` and formats the date part.
/// Claimed: the result is [`utc_date_text`] of `secs`.
#[verifier::external_body]
pub(crate) fn utc_date_of_secs(secs: i64) -> (r: Option<String>)
    ensures
        match r {
            Some(s) => utc_date_text(secs) == Some(s@),
            None => utc_date_text(secs) is None,
        },
{
    chrono::DateTime::from_timestamp(secs, 0).map(|d| d.format("%Y-%m-%d").to_string())
}

/// Calls `chrono::DateTime::from_timestamp_millis(ms)` and formats date and time.
/// Claimed: the result is [`utc_datetime_text`] of `ms`.
#[verifier::external_body]
pub(crate) fn utc_datetime_of_millis(ms: i64) -> (r: Option<String>)
    ensures
        match r {
            Some(s) => utc_datetime_text(ms) == Some(s@),
            None => utc_datetime_text(ms) is None,
        },
{
    chrono::DateTime::from_timestamp_millis(ms).map(|d| d.format("%Y-%m-%d %H:%M:%S").to_string())
}

/// Calls `chrono::NaiveDateTime::parse_from_str(s, fmt)` and reads it as UTC milliseconds.
/// Claimed: the result is [`naive_utc_millis`] of the arguments.
#[verifier::external_body]
pub(crate) fn parse_naive_millis(s: &str, fmt: &str) -> (r: Option<i64>)
    ensures
        r == naive_utc_millis(s@, fmt@),
{
    chrono::NaiveDateTime::parse_from_str(s, fmt).ok().map(|n| n.and_utc().timestamp_millis())
}

/// Calls `chrono::NaiveDate::parse_from_str(s, fmt)` and takes midnight UTC.
/// Claimed: the result is [`naive_date_millis`] of the arguments.
#[verifier::external_body]
pub(crate) fn parse_naive_date_millis(s: &str, fmt: &str) -> (r: Option<i64>)
    ensures
        r == naive_date_millis(s@, fmt@),
{
    chrono::NaiveDate::parse_from_str(s, fmt).ok().and_then(|d| d.and_hms_opt(0, 0, 0)).map(
        |dt| dt.and_utc().timestamp_millis(),
    )
}

/// Calls `chrono::DateTime::parse_from_rfc3339(s)` and takes its Unix seconds.
/// Claimed: the result is [`rfc3339_secs`] of `s`.
#[verifier::external_body]
pub(crate) fn parse_rfc3339_secs(s: &str) -> (r: Option<i64>)
    ensures
        r == rfc3339_secs(s@),
{
    chrono::DateTime::parse_from_rfc3339(s).ok().map(|d| d.timestamp())
}

/// Calls `chrono::DateTime::parse_from_str(s, fmt)`; on failure gives chrono's
/// error text. Claimed: the result is [`offset_datetime_secs`] of the arguments.
#[verifier::external_body]
pub(crate) fn parse_offset_secs(s: &str, fmt: &str) -> (r: Result<i64, String>)
    ensures
        match r {
            Ok(t) => offset_datetime_secs(s@, fmt@) == Ok::<i64, Seq<char>>(t),
            Err(e) => offset_datetime_secs(s@, fmt@) == Err::<i64, Seq<char>>(e@),
        },
{
    chrono::DateTime::parse_from_str(s, fmt).map(|d| d.timestamp()).map_err(|e| e.to_string())
}

/// Reads `SystemTime::now()` as whole seconds since the Unix epoch (`None`
/// when the clock is before it). Nothing is claimed of the value: it is the time.
#[verifier::external_body]
fn seconds_since_epoch() -> (r: Option<u64>) {
    std::time::SystemTime::now().duration_since(std::time::UNIX_EPOCH).ok().map(|d| d.as_secs())
}

/// Unix seconds from a clock reading: the whole seconds since the epoch taken
/// as `i64` (as `as` converts), or 0 when the clock read before the epoch.
pub fn clock_reading_secs(reading: Option<u64>) -> (r: i64)
    ensures
        reading matches Some(s) ==> r == s as i64,
        reading is None ==> r == 0,
{
    match reading {
        Some(s) => #[verifier::truncate] (s as i64),
        None => 0,
    }
}

/// Current Unix time in seconds; 0 when the clock reads before 1970. The value
/// is whatever the system clock reads, so no contract states it; the
/// conversion of the reading is [`clock_reading_secs`].
pub fn unix_now() -> i64 {
    clock_reading_secs(seconds_since_epoch())
}

} // verus!
