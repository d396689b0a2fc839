//! Time zones from `chrono-tz`: looking a zone up by its IANA name, with the
//! exchange's own zone as the fallback, and the local hour of an instant.

use vstd::prelude::*;

verus! {

#[verifier::external_type_specification]
#[verifier::external_body]
pub struct ExZone(chrono_tz::Tz);

/// The zone that chrono-tz's built-in table lists under `name`, if any.
pub uninterp spec fn zone_named(name: Seq<char>) -> Option<chrono_tz::Tz>;

/// The wall-clock hour in `tz` of the instant `ms` milliseconds after the Unix
/// epoch, or `None` where chrono cannot represent that instant.
pub uninterp spec fn zone_hour(ms: i64, tz: chrono_tz::Tz) -> Option<u32>;

/// The zone that names nothing known falls back to: the exchange's zone.
pub open spec fn fallback_zone_name() -> Seq<char> {
    "America/Chicago"@
}

/// Calls `str::parse::<chrono_tz::Tz>`, a lookup in chrono-tz's table of names.
/// Claimed: the result is [`zone_named`] of `name`.
#[verifier::external_body]
fn zone_from_name(name: &str) -> (r: Option<chrono_tz::Tz>)
    ensures
        r == zone_named(name@),
{
    name.parse::<chrono_tz::Tz>().ok()
}

/// Gives `chrono_tz::America::Chicago`. Claimed: it is the zone that the table
/// lists under "America/Chicago".
#[verifier::external_body]
fn chicago_zone() -> (r: chrono_tz::Tz)
    ensures
        zone_named(fallback_zone_name()) == Some(r),
{
    chrono_tz::America::Chicago
}

/// Calls `chrono::DateTime::from_timestamp_millis(ms)`, moves it into `tz` and
/// takes `Timelike::hour`. Claimed: the result is [`zone_hour`] of the
/// arguments, and an hour is below 24, as `Timelike::hour` documents.
#[verifier::external_body]
fn hour_of_millis(ms: i64, tz: chrono_tz::Tz) -> (r: Option<u32>)
    ensures
        r == zone_hour(ms, tz),
        r matches Some(h) ==> h < 24,
{
    chrono::DateTime::from_timestamp_millis(ms).map(|utc| chrono::Timelike::hour(&utc.with_timezone(&tz)))
}

/// The zone named `name`, or America/Chicago when chrono-tz knows no such name.
pub fn parse_tz(name: &str) -> (r: chrono_tz::Tz)
    ensures
        zone_named(name@) matches Some(z) ==> r == z,
        zone_named(name@) is None ==> zone_named(fallback_zone_name()) == Some(r),
{
    match zone_from_name(name) {
        Some(z) => z,
        None => chicago_zone(),
    }
}

/// The hour (0 to 23) on the wall clock of `tz` at `epoch_ms`; 0 for an instant
/// that chrono cannot represent.
pub fn hour_in_tz(epoch_ms: i64, tz: chrono_tz::Tz) -> (h: u32)
    ensures
        h < 24,
        zone_hour(epoch_ms, tz) matches Some(x) ==> h == x,
        zone_hour(epoch_ms, tz) is None ==> h == 0,
{
    match hour_of_millis(epoch_ms, tz) {
        Some(x) => x,
        None => 0,
    }
}

} // verus!
