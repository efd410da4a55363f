//! The wall clock, read through chrono.
use vstd::prelude::*;

verus! {

/// Relies on chrono's `Utc::now` and `DateTime::timestamp_millis`: the
/// current time as milliseconds since the Unix epoch. Nothing is known of the
/// value; callers take it as an argument.
#[verifier::external_body]
pub fn now_millis() -> (r: i64) {
    chrono::Utc::now().timestamp_millis()
}

} // verus!
