//! The wall clock.

use vstd::prelude::*;

verus! {

/// The current instant in milliseconds since the Unix epoch: calls
/// `chrono::Utc::now` and `DateTime::timestamp_millis`.  Nothing is claimed of
/// the result, which differs from call to call.
#[verifier::external_body]
pub(crate) fn current_millis() -> i64 {
    chrono::Utc::now().timestamp_millis()
}

} // verus!
