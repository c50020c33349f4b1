//! The time of day.

use chrono::Utc;
use vstd::prelude::*;

verus! {

/// Whether a time in milliseconds since 1970 lies within the years that dates are kept
/// for.
pub open spec fn on_clock(ms: i64) -> bool {
    -9_000_000_000_000_000 <= ms <= 9_000_000_000_000_000
}

/// `chrono::Utc::now` and `DateTime::timestamp_millis`: the time, in milliseconds since
/// 1970. Claimed of it is only that a `DateTime` lies within the quarter million years
/// before and after the year 0. The system's clock must not stand before 1970.
#[verifier::external_body]
pub fn now_ms() -> (r: i64)
    ensures
        on_clock(r),
{
    Utc::now().timestamp_millis()
}

} // verus!
