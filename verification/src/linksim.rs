//! The in-process link that stands in for a transport in tests.

use vstd::prelude::*;

use crate::transport::LinkState;

verus! {

/// Bandwidth of the degraded link, in bytes per second.
pub const DEGRADED_CAP_BPS: u64 = 512_000;

/// Delay before the outage of a link, in milliseconds, unless it is set.
pub const DEFAULT_OUTAGE_DELAY_MS: u64 = 100;

/// The impairments of a simulated link that are counted in whole numbers.
#[derive(Debug, Clone, Copy, PartialEq, Eq, Structural)]
pub struct LinkSimLimits {
    /// Most bytes per second, when there is a limit.
    pub bw_cap_bps: Option<u64>,
    /// Length of the one outage in milliseconds, when there is one.
    pub outage_ms: Option<u64>,
    /// Delay before it.
    pub outage_delay_ms: u64,
}

impl LinkSimLimits {
    /// No limit, no outage.
    pub fn perfect() -> (r: Self)
        ensures
            r == (LinkSimLimits {
                bw_cap_bps: None,
                outage_ms: None,
                outage_delay_ms: DEFAULT_OUTAGE_DELAY_MS,
            }),
    {
        LinkSimLimits {
            bw_cap_bps: None,
            outage_ms: None,
            outage_delay_ms: DEFAULT_OUTAGE_DELAY_MS,
        }
    }

    /// A slow satellite link.
    pub fn degraded() -> (r: Self)
        ensures
            r == (LinkSimLimits {
                bw_cap_bps: Some(DEGRADED_CAP_BPS),
                outage_ms: None,
                outage_delay_ms: DEFAULT_OUTAGE_DELAY_MS,
            }),
    {
        LinkSimLimits {
            bw_cap_bps: Some(DEGRADED_CAP_BPS),
            outage_ms: None,
            outage_delay_ms: DEFAULT_OUTAGE_DELAY_MS,
        }
    }

    /// A link that goes dark for a minute.
    pub fn outage_60s() -> (r: Self)
        ensures
            r == (LinkSimLimits {
                bw_cap_bps: None,
                outage_ms: Some(60_000),
                outage_delay_ms: 200,
            }),
    {
        LinkSimLimits { bw_cap_bps: None, outage_ms: Some(60_000), outage_delay_ms: 200 }
    }
}

/// Read half of a simulated stream: what was received and not read yet.
#[derive(Debug)]
pub struct LinkSimReader {
    read_buf: Vec<u8>,
}

/// What a read gives of the bytes at hand, and what it leaves.
pub open spec fn read_split(bytes: Seq<u8>, room: nat) -> (Seq<u8>, Seq<u8>) {
    if bytes.len() <= room {
        (bytes, Seq::empty())
    } else {
        (bytes.take(room as int), bytes.skip(room as int))
    }
}

impl View for LinkSimReader {
    type V = Seq<u8>;

    closed spec fn view(&self) -> Seq<u8> {
        self.read_buf@
    }
}

impl LinkSimReader {
    /// Nothing received yet.
    pub fn new() -> (r: Self)
        ensures
            r@ == Seq::<u8>::empty(),
    {
        LinkSimReader { read_buf: Vec::new() }
    }

    /// Whether bytes are left over; if so they are read before anything is received.
    pub fn has_buffered(&self) -> (r: bool)
        ensures
            r == (self@.len() > 0),
    {
        self.read_buf.len() > 0
    }

    /// Reads at most `room` bytes: out of what is left over, or else out of the chunk
    /// that was received.
    pub fn read(&mut self, room: usize, chunk: &Vec<u8>) -> (r: Vec<u8>)
        ensures
            ({
                let source = if old(self)@.len() > 0 {
                    old(self)@
                } else {
                    chunk@
                };
                r@ == read_split(source, room as nat).0 && final(self)@ == read_split(
                    source,
                    room as nat,
                ).1
            }),
    {
        let mut source: Vec<u8> = Vec::new();
        if self.read_buf.len() > 0 {
            source.append(&mut self.read_buf);
            assert(source@ =~= old(self)@);
        } else {
            let mut i: usize = 0;
            while i < chunk.len()
                invariant
                    i <= chunk@.len(),
                    source@ == chunk@.take(i as int),
                decreases chunk@.len() - i,
            {
                source.push(chunk[i]);
                assert(source@ =~= chunk@.take(i + 1));
                i = i + 1;
            }
            assert(source@ =~= chunk@);
        }
        if source.len() <= room {
            self.read_buf = Vec::new();
            return source;
        }
        let rest: Vec<u8> = source.split_off(room);
        self.read_buf = rest;
        source
    }
}

/// What is read and what is left over are together what was at hand: no byte is lost,
/// doubled or moved.
pub proof fn law_reads_keep_bytes(bytes: Seq<u8>, room: nat)
    ensures
        read_split(bytes, room).0 + read_split(bytes, room).1 == bytes,
        read_split(bytes, room).0.len() <= room,
{
    let (a, b) = read_split(bytes, room);
    assert(a + b =~= bytes);
}

/// The link state during a simulated outage, and the one after it.
pub fn outage_states() -> (r: (LinkState, LinkState))
    ensures
        r == (LinkState::Failed, LinkState::Normal),
{
    (LinkState::Failed, LinkState::Normal)
}

/// A read gives as many bytes as there is room for, as far as there are any.
pub proof fn law_reads_fill_the_room(bytes: Seq<u8>, room: nat)
    ensures
        bytes.len() <= room ==> read_split(bytes, room).0 == bytes && read_split(
            bytes,
            room,
        ).1.len() == 0,
        bytes.len() >= room ==> read_split(bytes, room).0.len() == room,
{
}

} // verus!
