//! How a stream ends without success, and when progress is reported.

use vstd::prelude::*;

verus! {

/// Why a stream failed.
#[derive(Debug, Clone, Copy, PartialEq, Eq, Structural)]
pub enum FailReason {
    /// Nothing more specific is known.
    Unknown,
    /// The sending client went away.
    SenderClosed,
    /// The link is down for good.
    LinkFailed,
    /// The code that the remote side gave.
    Code(i32),
}

/// The end of a stream without success: what the client is told, and what the
/// remote side is told when it is.
#[derive(Debug)]
pub struct Failure {
    /// Reason code for the client.
    pub code: FailReason,
    /// Text for the client.
    pub reason: String,
    /// Text for the remote side.
    pub to_peer: Option<String>,
}

impl Failure {
    /// The failure has this code and this text, and the remote side is told the
    /// given text or nothing.
    pub open spec fn says(
        self,
        code: FailReason,
        reason: Seq<char>,
        to_peer: Option<Seq<char>>,
    ) -> bool {
        &&& self.code == code
        &&& self.reason@ == reason
        &&& match (self.to_peer, to_peer) {
            (Some(a), Some(b)) => a@ == b,
            (None, None) => true,
            _ => false,
        }
    }
}

/// Progress is reported each time this many more bytes have been transferred.
pub const PROGRESS_INTERVAL_BYTES: u64 = 1_048_576;

/// How many boundaries from `next` on, one interval apart, have been reached at
/// `bytes`.
pub open spec fn progress_steps(bytes: nat, next: nat) -> nat {
    if bytes < next {
        0
    } else {
        ((bytes - next) as nat / PROGRESS_INTERVAL_BYTES as nat) + 1
    }
}

/// Counts the progress reports due at `bytes` and moves the next boundary behind it.
pub fn progress_due(bytes: u64, next: &mut u64) -> (times: u64)
    requires
        bytes + PROGRESS_INTERVAL_BYTES <= u64::MAX,
    ensures
        times == progress_steps(bytes as nat, *old(next) as nat),
        *final(next) == *old(next) + times * PROGRESS_INTERVAL_BYTES,
        bytes < *final(next),
        times > 0 ==> *final(next) <= bytes + PROGRESS_INTERVAL_BYTES,
{
    if bytes < *next {
        return 0;
    }
    let times: u64 = (bytes - *next) / PROGRESS_INTERVAL_BYTES + 1;
    *next = *next + times * PROGRESS_INTERVAL_BYTES;
    times
}

/// Progress is reported once per boundary: in all as often as the interval fits into the
/// bytes, and bytes that come in two steps give as many reports as when they come in one.
pub proof fn law_one_report_per_boundary(a: nat, b: nat, next: nat)
    requires
        a <= b,
    ensures
        progress_steps(b, PROGRESS_INTERVAL_BYTES as nat) == b / PROGRESS_INTERVAL_BYTES as nat,
        ({
            let first = progress_steps(a, next);
            let second = progress_steps(b, next + first * PROGRESS_INTERVAL_BYTES as nat);
            first + second == progress_steps(b, next)
        }),
        progress_steps(a, next) <= progress_steps(b, next),
        b < next ==> progress_steps(b, next) == 0,
        b == next ==> progress_steps(b, next) == 1,
        progress_steps(b + PROGRESS_INTERVAL_BYTES as nat, next + PROGRESS_INTERVAL_BYTES as nat)
            == progress_steps(b, next),
{
}

} // verus!
