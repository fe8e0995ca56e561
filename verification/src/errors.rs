//! Error kinds the store operations report.

use vstd::prelude::*;

verus! {

/// Outcome kinds for store operations that can fail.
///
/// `NotFound`: a referenced board or thread is absent.
/// `ValidationError`: the submitted content is empty or all whitespace.
/// `StoreUnavailable`: the backing store could not be reached (only the
/// unverified adapter around a real connection pool reports this).
/// `ConsistencyGap`: a counter advanced but the following insert failed,
/// leaving an unused post number (reported by the adapter, never fatal).
#[derive(PartialEq, Eq, Structural, Clone, Copy, Debug)]
pub enum StoreError {
    NotFound,
    ValidationError,
    StoreUnavailable,
    ConsistencyGap,
}

} // verus!
