//! Wall-clock access for the convenience entry points that stamp events
//! themselves. Every piece of logic is verified for arbitrary timestamps;
//! only the sampling of the clock is trusted.

use std::time::{SystemTime, UNIX_EPOCH};
use vstd::prelude::*;

verus! {

/// Milliseconds since the Unix epoch.
///
/// Relies on `std::time::SystemTime::now`: the wall clock may move
/// arbitrarily, so nothing is promised about the returned value; callers
/// clamp it into monotonic order themselves.
#[verifier::external_body]
pub fn now_millis() -> (r: u64)
    ensures
        r >= 0,
{
    match SystemTime::now().duration_since(UNIX_EPOCH) {
        Ok(d) => {
            let ms = d.as_millis();
            if ms > u64::MAX as u128 {
                u64::MAX
            } else {
                ms as u64
            }
        },
        Err(_) => 0,
    }
}

} // verus!
