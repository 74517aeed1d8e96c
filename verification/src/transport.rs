//! Link states, connection counters and the lifetime of one transport stream.

use vstd::prelude::*;

use crate::error::QueLayError;

verus! {

/// Observable state of the link.
#[derive(Debug, Clone, Copy, PartialEq, Eq, Structural)]
pub enum LinkState {
    /// The connection is being established.
    Connecting,
    /// The link is up.
    Normal,
    /// The link is up and loses packets.
    Degraded,
    /// The link is down.
    Failed,
}

/// Cumulative counters of one connection; a new connection starts at zero.
#[derive(Debug, Clone, Copy, PartialEq, Eq, Structural)]
pub struct ConnStats {
    /// Packets sent, repeated ones as well.
    pub sent_packets: u64,
    /// Packets declared lost.
    pub lost_packets: u64,
    /// Congestion events.
    pub congestion_events: u64,
}

impl Default for ConnStats {
    fn default() -> (r: Self)
        ensures
            r == (ConnStats { sent_packets: 0, lost_packets: 0, congestion_events: 0 }),
    {
        ConnStats { sent_packets: 0, lost_packets: 0, congestion_events: 0 }
    }
}

impl ConnStats {
    /// `self` is a later snapshot of the connection that `earlier` was taken of.
    pub open spec fn follows(self, earlier: ConnStats) -> bool {
        &&& earlier.sent_packets <= self.sent_packets
        &&& earlier.lost_packets <= self.lost_packets
        &&& earlier.congestion_events <= self.congestion_events
    }

    /// The counts between two snapshots of one connection.
    pub fn since(self, earlier: ConnStats) -> (r: ConnStats)
        requires
            self.follows(earlier),
        ensures
            r.sent_packets == self.sent_packets - earlier.sent_packets,
            r.lost_packets == self.lost_packets - earlier.lost_packets,
            r.congestion_events == self.congestion_events - earlier.congestion_events,
    {
        ConnStats {
            sent_packets: self.sent_packets - earlier.sent_packets,
            lost_packets: self.lost_packets - earlier.lost_packets,
            congestion_events: self.congestion_events - earlier.congestion_events,
        }
    }
}

/// What is to be sent on the write half of a stream.
#[derive(Debug, Clone, Copy, PartialEq, Eq, Structural)]
pub enum StreamSignal {
    /// Nothing.
    Nothing,
    /// End of the written data.
    Fin,
    /// Abort with a code.
    Reset(u64),
}

/// Largest reset code that fits the variable-length integers of the wire.
pub const MAX_RESET_CODE: u64 = 0x3FFF_FFFF_FFFF_FFFF;

/// Lifetime of the write half of one transport stream.
#[derive(Debug, Clone, Copy, PartialEq, Eq, Structural)]
pub struct WriteHalf {
    /// Whether a FIN or a reset has been sent.
    pub finished: bool,
}

impl WriteHalf {
    /// A write half that is open.
    pub fn new() -> (r: Self)
        ensures
            !r.finished,
    {
        WriteHalf { finished: false }
    }

    /// Ends the written data. Fails when that was done before.
    pub fn finish(&mut self) -> (r: Result<StreamSignal, QueLayError>)
        ensures
            final(self).finished,
            match r {
                Ok(signal) => !old(self).finished && signal == StreamSignal::Fin,
                Err(e) => old(self).finished && e == QueLayError::AlreadyFinished,
            },
    {
        if self.finished {
            return Err(QueLayError::AlreadyFinished);
        }
        self.finished = true;
        Ok(StreamSignal::Fin)
    }

    /// Ends the written data unless that was done before.
    pub fn finish_non_blocking(&mut self) -> (r: StreamSignal)
        ensures
            final(self).finished,
            r == (if old(self).finished {
                StreamSignal::Nothing
            } else {
                StreamSignal::Fin
            }),
    {
        if self.finished {
            StreamSignal::Nothing
        } else {
            self.finished = true;
            StreamSignal::Fin
        }
    }

    /// Aborts the stream of a transport that carries any code.
    pub fn abort(&mut self, code: u64) -> (r: StreamSignal)
        ensures
            final(self).finished,
            r == StreamSignal::Reset(code),
    {
        self.finished = true;
        StreamSignal::Reset(code)
    }

    /// Aborts the stream; a code that the wire cannot carry becomes the largest
    /// one that it can.
    pub fn reset(&mut self, code: u64) -> (r: StreamSignal)
        ensures
            final(self).finished,
            r == StreamSignal::Reset(
                if code <= MAX_RESET_CODE {
                    code
                } else {
                    MAX_RESET_CODE
                },
            ),
    {
        self.finished = true;
        if code <= MAX_RESET_CODE {
            StreamSignal::Reset(code)
        } else {
            StreamSignal::Reset(MAX_RESET_CODE)
        }
    }
}

} // verus!
