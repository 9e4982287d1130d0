//! Wall-clock readings.

use vstd::prelude::*;

verus! {

/// Calls `chrono::Utc::now().timestamp_millis()`: the current time in
/// milliseconds since the Unix epoch. Nothing is claimed of the value.
#[verifier::external_body]
pub(crate) fn utc_now_millis() -> (r: i64) {
    chrono::Utc::now().timestamp_millis()
}

/// The shape of every UTC RFC 3339 text `chrono` writes: at least
/// `YYYY-MM-DDTHH:MM:SS+00:00` long, ending in the zero offset `+00:00`.
pub open spec fn utc_rfc3339_shaped(s: Seq<char>) -> bool {
    &&& s.len() >= 25
    &&& s.skip(s.len() - 6) == seq!['+', '0', '0', ':', '0', '0']
}

/// Calls `chrono::Utc::now().to_rfc3339()`: the current time as RFC 3339
/// text. The time is not claimed, only the shape: `chrono` writes the date,
/// `T`, the time with optional fractional seconds, and the offset, which
/// for UTC is `+00:00`.
#[verifier::external_body]
pub(crate) fn utc_now_rfc3339() -> (r: String)
    ensures
        utc_rfc3339_shaped(r@),
{
    chrono::Utc::now().to_rfc3339()
}

} // verus!
