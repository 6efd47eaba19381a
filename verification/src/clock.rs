//! The system clock.

use vstd::prelude::*;

verus! {

/// The microseconds that the system clock counts since the Unix epoch, read
/// with `std::time::SystemTime::elapsed` on `UNIX_EPOCH`; `None` where the
/// clock stands before the epoch. Nothing is claimed of the number: two
/// readings may be equal, and a later one may be smaller.
#[verifier::external_body]
pub(crate) fn micros_since_epoch() -> (stamp: Option<u128>) {
    match std::time::UNIX_EPOCH.elapsed() {
        Ok(elapsed) => Some(elapsed.as_micros()),
        Err(_) => None,
    }
}

} // verus!
