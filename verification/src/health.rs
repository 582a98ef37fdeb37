//! Reachability probes: turning a probe outcome into a verdict.

use vstd::prelude::*;

verus! {

/// Success-class HTTP status codes.
pub open spec fn is_success_status(code: u16) -> bool {
    200 <= code < 300
}

/// The verdict of a health probe: a response with a success-class status
/// passes; anything else — a failure status or no response at all — degrades
/// to `false` and is never an error to the caller.
pub fn health_verdict(status: Option<u16>) -> (r: bool)
    ensures
        r == (status matches Some(c) && is_success_status(c)),
{
    match status {
        Some(c) => 200 <= c && c < 300,
        None => false,
    }
}

} // verus!
