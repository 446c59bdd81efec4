//! Wall-clock access and timestamp rendering, through chrono.
use vstd::prelude::*;

verus! {

/// Whether chrono can represent a millisecond UTC timestamp: the result of
/// `chrono::DateTime::<Utc>::from_timestamp_millis`, which is `Some`
/// exactly on the instants inside chrono's supported date range, depends on
/// the timestamp alone.
pub uninterp spec fn chrono_millis_in_range(millis: int) -> bool;

/// The RFC 3339 rendering of a representable millisecond UTC timestamp:
/// the text `chrono::DateTime::<Utc>::to_rfc3339` produces, a pure function
/// of the instant.
pub uninterp spec fn rfc3339_of(millis: int) -> Seq<char>;

/// Relies on chrono's `Utc::now` and `DateTime::timestamp_millis`: the
/// current UTC time in milliseconds since the epoch. Any timestamp read
/// from a live `DateTime` round-trips through `from_timestamp_millis`
/// (chrono documents the round-trip), so it is representable.
#[verifier::external_body]
pub(crate) fn now_timestamp_millis() -> (r: i64)
    ensures
        chrono_millis_in_range(r as int),
{
    chrono::Utc::now().timestamp_millis()
}

/// Relies on chrono's `DateTime::<Utc>::from_timestamp_millis` (`Some`
/// exactly on representable timestamps) and `DateTime::to_rfc3339` (a pure
/// rendering of the instant).
#[verifier::external_body]
pub(crate) fn rfc3339_of_millis(millis: i64) -> (r: Option<String>)
    ensures
        r is Some <==> chrono_millis_in_range(millis as int),
        r matches Some(s) ==> s@ == rfc3339_of(millis as int),
{
    match chrono::DateTime::<chrono::Utc>::from_timestamp_millis(millis) {
        Some(instant) => Some(instant.to_rfc3339()),
        None => None,
    }
}

} // verus!
