//! The system clock and fresh identifiers.
use vstd::prelude::*;

verus! {

/// `SystemTime::now`, as whole milliseconds since the Unix epoch (0 for a
/// clock set before the epoch). Nothing is promised of the value.
#[verifier::external_body]
pub(crate) fn unix_time_ms() -> (t: u64) {
    std::time::SystemTime::now().duration_since(std::time::UNIX_EPOCH).unwrap_or_default().as_millis() as u64
}

/// `uuid::Uuid::new_v4`, as its 128-bit value. Nothing is promised of the
/// value: it is random.
#[verifier::external_body]
pub(crate) fn new_entry_id() -> (id: u128) {
    uuid::Uuid::new_v4().as_u128()
}

} // verus!
