//! The wall clock, read through an outside crate.

use vstd::prelude::*;

verus! {

/// Relies on chrono's `Utc::now` and `DateTime::timestamp_micros`: the
/// current wall-clock time as microseconds since the Unix epoch. Nothing can
/// be promised of the value.
#[verifier::external_body]
pub(crate) fn current_time() -> i64 {
    chrono::Utc::now().timestamp_micros()
}

} // verus!
