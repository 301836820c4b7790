//! The time of day.

use chrono::Utc;
use vstd::prelude::*;

verus! {

/// `chrono::Utc::now` and `timestamp`: the seconds of Unix time. Nothing is promised of
/// them.
#[verifier::external_body]
pub(crate) fn unix_now() -> (r: i64) {
    Utc::now().timestamp()
}

} // verus!
