//! Wall-clock access. The single place where the library reads the system
//! time; everything that reasons about time takes millisecond values as
//! arguments instead.

use vstd::prelude::*;

verus! {

/// Milliseconds since the Unix epoch, or zero when the system clock lies
/// before it.
///
/// Relies on `std::time::SystemTime::now`; the system clock can move
/// arbitrarily between calls, so nothing is promised of the value.
#[verifier::external_body]
pub fn current_timestamp_ms() -> u64 {
    std::time::SystemTime::now()
        .duration_since(std::time::UNIX_EPOCH)
        .map(|d| d.as_millis() as u64)
        .unwrap_or(0)
}

} // verus!
