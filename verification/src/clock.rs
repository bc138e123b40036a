//! Trusted binding to the system clock.

use vstd::prelude::*;

verus! {

/// Relies on chrono's `DateTime::<Utc>::from(SystemTime)` and
/// `DateTime::to_rfc3339`: the current time rendered as an RFC 3339
/// timestamp. The conversion handles clocks before the Unix epoch (where
/// `Utc::now` would panic); it is only undefined for instants outside
/// chrono's representable year range. The result depends on the clock, so
/// nothing is promised of it beyond being non-empty.
#[verifier::external_body]
pub(crate) fn now_rfc3339() -> (r: String)
    ensures
        r@.len() > 0,
{
    chrono::DateTime::<chrono::Utc>::from(std::time::SystemTime::now()).to_rfc3339()
}

} // verus!
