//! The wall clock and the rendering of timestamps, behind trusted
//! declarations. Everything that depends on "now" takes the reading as an
//! argument, so the logic is verified for every reading.

use vstd::prelude::*;

verus! {

/// What an epoch-second timestamp reads as in RFC 3339 form, UTC, second
/// precision: a fixed function of the timestamp alone.
pub uninterp spec fn rfc3339_of(secs: int) -> Seq<char>;

/// Relies on chrono's `Utc::now` and `DateTime::timestamp`: the current
/// wall-clock time in whole seconds since the epoch. Nothing is promised of
/// the reading.
#[verifier::external_body]
pub(crate) fn now_epoch_seconds() -> i64 {
    chrono::Utc::now().timestamp()
}

/// Relies on chrono's `DateTime::from_timestamp` and `to_rfc3339_opts` with
/// second precision and a `Z` suffix: the rendering is a function of the
/// epoch seconds alone, and chrono documents failure only for timestamps out
/// of its range, which reaches far beyond the year 9999.
#[verifier::external_body]
pub(crate) fn rfc3339_utc_seconds(secs: i64) -> (r: Option<String>)
    ensures
        r is Some ==> r->0@ == rfc3339_of(secs as int),
        0 <= secs <= 253_402_300_799 ==> r is Some,
{
    match chrono::DateTime::<chrono::Utc>::from_timestamp(secs, 0) {
        Some(t) => Some(t.to_rfc3339_opts(chrono::SecondsFormat::Secs, true)),
        None => None,
    }
}

} // verus!
