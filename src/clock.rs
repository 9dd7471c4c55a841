//! The wall clock, read as milliseconds since the Unix epoch.
use vstd::prelude::*;

verus! {

/// Relies on chrono::Local::now and DateTime::timestamp_millis: the current
/// time, which nothing here can predict.
#[verifier::external_body]
pub(crate) fn now_millis() -> (r: i64) {
    chrono::Local::now().timestamp_millis()
}

} // verus!
