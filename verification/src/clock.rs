//! The time of day.

use vstd::prelude::*;

verus! {

/// `chrono::Utc::now` and `timestamp`: the seconds since the start of 1970.
/// Of the result no more is said than that it is not negative: it is what the
/// machine's clock shows. The call panics if the clock is set to a time before
/// 1970.
#[verifier::external_body]
pub(crate) fn unix_now() -> (seconds: i64)
    ensures
        seconds >= 0,
{
    chrono::Utc::now().timestamp()
}

} // verus!
