//! Admission of writes to a stream: link switch and rate limit.

use vstd::prelude::*;

verus! {

/// What becomes of a write.
#[derive(Debug, Clone, Copy, PartialEq, Eq, Structural)]
pub enum GateDecision {
    /// It fails: the link is switched off.
    LinkDisabled,
    /// Nothing may be written yet.
    Pending,
    /// So many of its bytes, the first ones, go through.
    Forward(usize),
}

/// Decides on a write of `len` bytes. `granted` is what the rate limit allows of
/// them, when there is one.
pub fn gate_write(link_enabled: bool, len: usize, granted: Option<usize>) -> (r: GateDecision)
    requires
        granted matches Some(n) ==> n <= len,
    ensures
        ({
            let allowed = match granted {
                None => len,
                Some(n) => n,
            };
            r == if !link_enabled {
                GateDecision::LinkDisabled
            } else if allowed == 0 {
                GateDecision::Pending
            } else {
                GateDecision::Forward(allowed)
            }
        }),
        r matches GateDecision::Forward(n) ==> 0 < n <= len,
{
    if !link_enabled {
        return GateDecision::LinkDisabled;
    }
    let allowed: usize = match granted {
        None => len,
        Some(n) => n,
    };
    if allowed == 0 {
        GateDecision::Pending
    } else {
        GateDecision::Forward(allowed)
    }
}

} // verus!
