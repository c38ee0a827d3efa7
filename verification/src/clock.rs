//! The machine clock.  A message timestamp is taken from the clock when
//! the message is posted, as a count of milliseconds since the Unix
//! epoch; a clock standing before the epoch yields no timestamp.

use vstd::prelude::*;

verus! {

#[verifier::external_type_specification]
#[verifier::external_body]
pub struct ExSystemTime(std::time::SystemTime);

/// Relies on std::time::SystemTime::now.  The value depends on the clock,
/// so nothing is stated of it.
#[verifier::external_body]
fn now() -> std::time::SystemTime {
    std::time::SystemTime::now()
}

/// Relies on std::time::SystemTime::duration_since, anchored at the Unix
/// epoch.  The distance to an instant before the anchor is an error,
/// handed on as `None`; nothing is stated of the result.
#[verifier::external_body]
fn duration_since_epoch(t: &std::time::SystemTime) -> Option<core::time::Duration> {
    match t.duration_since(std::time::UNIX_EPOCH) {
        Ok(d) => Some(d),
        Err(_) => None,
    }
}

/// Relies on core::time::Duration::as_millis; the count is truncated to
/// 64 bits.  Nothing is stated of the result.
#[verifier::external_body]
fn duration_millis(d: &core::time::Duration) -> u64 {
    d.as_millis() as u64
}

/// The clock's reading as milliseconds since the Unix epoch, or `None`
/// on a clock standing before the epoch.
pub(crate) fn current_millis() -> Option<u64> {
    let stamp = now();
    match duration_since_epoch(&stamp) {
        Some(d) => Some(duration_millis(&d)),
        None => None,
    }
}

} // verus!
