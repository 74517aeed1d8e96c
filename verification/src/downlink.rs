//! The receiving side of a stream: chunks from the transport to the client.

use vstd::prelude::*;

use crate::failure::{progress_due, progress_steps, FailReason, Failure, PROGRESS_INTERVAL_BYTES};
use crate::framing::{Chunk, ACK_INTERVAL};
use crate::text::{decimal, joined, push_decimal};

verus! {

/// What a chunk is to a receiver that has delivered some bytes of the stream.
pub enum Verdict {
    /// All of it was delivered before.
    Duplicate,
    /// Bytes in front of it are missing.
    Gap,
    /// It goes on, or overlaps, where delivery stands; so many bytes of it were
    /// delivered before.
    Fresh { skip: nat },
}

/// How a chunk at `offset` with `len` bytes relates to `written` delivered bytes.
pub open spec fn verdict(written: nat, offset: nat, len: nat) -> Verdict {
    if offset + len <= written {
        Verdict::Duplicate
    } else if offset > written {
        Verdict::Gap
    } else {
        Verdict::Fresh { skip: (written - offset) as nat }
    }
}

/// What to do with a chunk.
#[derive(Debug)]
pub enum Received {
    /// Nothing: it was delivered before.
    Duplicate,
    /// Fail the stream: bytes are missing.
    Gap(Failure),
    /// Hand these bytes to the client.
    Fresh(Vec<u8>),
}

/// What is due after bytes have been handed to the client.
#[derive(Debug, Clone, Copy, PartialEq, Eq, Structural)]
pub struct Written {
    /// Progress reports to the client.
    pub progress: u64,
    /// Acknowledgement to the sender: bytes delivered so far.
    pub ack: Option<u64>,
}

/// What became of the stream that a sender opened to continue.
#[derive(Debug, Clone, Copy, PartialEq, Eq, Structural)]
pub enum Reconnected {
    /// It was handed to the pump.
    Delivered,
    /// The sender has released bytes that were never delivered here.
    Gap,
    /// The pump has ended or takes no more streams.
    Unavailable,
}

/// What becomes of a stream with which a sender continues from `replay_from`, when
/// `written` bytes have been delivered: with a gap it is not handed to the pump.
pub open spec fn reconnect_outcome(
    written: u64,
    replay_from: u64,
    handed_over: bool,
) -> Reconnected {
    if replay_from > written {
        Reconnected::Gap
    } else if handed_over {
        Reconnected::Delivered
    } else {
        Reconnected::Unavailable
    }
}

/// Delivery state of one inbound stream.
#[derive(Debug, Clone, Copy, PartialEq, Eq, Structural)]
pub struct Downlink {
    /// Bytes handed to the client.
    pub bytes_written: u64,
    /// Bytes acknowledged to the sender.
    pub last_acked: u64,
    /// Bytes at which the next progress report is due.
    pub next_progress: u64,
}

impl Downlink {
    /// No more has been acknowledged than delivered.
    pub open spec fn wf(&self) -> bool {
        self.last_acked <= self.bytes_written
    }

    /// Delivery that starts where `bytes_written` bytes have been delivered.
    pub fn new(bytes_written: u64) -> (r: Self)
        ensures
            r.wf(),
            r.bytes_written == bytes_written,
            r.last_acked == bytes_written,
            r.next_progress == PROGRESS_INTERVAL_BYTES,
    {
        Downlink {
            bytes_written,
            last_acked: bytes_written,
            next_progress: PROGRESS_INTERVAL_BYTES,
        }
    }

    /// Decides on a chunk: what was delivered before is skipped, and a chunk ahead
    /// of the delivered bytes fails the stream.
    pub fn on_chunk(&self, chunk: &Chunk) -> (r: Received)
        ensures
            match verdict(
                self.bytes_written as nat,
                chunk.stream_offset as nat,
                chunk.payload@.len(),
            ) {
                Verdict::Duplicate => r is Duplicate,
                Verdict::Gap => r matches Received::Gap(f) && f.says(
                    FailReason::Unknown,
                    "chunk offset gap — pump logic error"@,
                    Some(
                        "chunk gap: expected "@ + decimal(self.bytes_written as nat) + ", got "@
                            + decimal(chunk.stream_offset as nat),
                    ),
                ),
                Verdict::Fresh { skip } => r matches Received::Fresh(data) && data@
                    == chunk.payload@.skip(skip as int) && data@.len() > 0,
            },
    {
        let offset: u64 = chunk.stream_offset;
        let len: usize = chunk.payload.len();
        if offset > self.bytes_written {
            let mut to_peer: String = "chunk gap: expected ".to_owned();
            push_decimal(&mut to_peer, self.bytes_written);
            to_peer.append(", got ");
            push_decimal(&mut to_peer, offset);
            return Received::Gap(
                Failure {
                    code: FailReason::Unknown,
                    reason: "chunk offset gap — pump logic error".to_owned(),
                    to_peer: Some(to_peer),
                },
            );
        }
        if len as u64 <= self.bytes_written - offset {
            return Received::Duplicate;
        }
        let skip: usize = (self.bytes_written - offset) as usize;
        let mut data: Vec<u8> = Vec::with_capacity(len - skip);
        let mut i: usize = skip;
        while i < len
            invariant
                skip <= i <= len,
                len == chunk.payload@.len(),
                data@ == chunk.payload@.subrange(skip as int, i as int),
            decreases len - i,
        {
            data.push(chunk.payload[i]);
            assert(data@ =~= chunk.payload@.subrange(skip as int, i + 1));
            i = i + 1;
        }
        assert(data@ =~= chunk.payload@.skip(skip as int));
        Received::Fresh(data)
    }

    /// Notes that `n` more bytes have been handed to the client. A progress report
    /// is due for each boundary reached, and an acknowledgement once a full
    /// interval has not been acknowledged.
    pub fn on_written(&mut self, n: u64) -> (r: Written)
        requires
            old(self).wf(),
            old(self).bytes_written + n + PROGRESS_INTERVAL_BYTES <= u64::MAX,
        ensures
            final(self).wf(),
            final(self).bytes_written == old(self).bytes_written + n,
            r.progress == progress_steps(
                (old(self).bytes_written + n) as nat,
                old(self).next_progress as nat,
            ),
            final(self).next_progress == old(self).next_progress + r.progress
                * PROGRESS_INTERVAL_BYTES,
            if final(self).bytes_written - old(self).last_acked >= ACK_INTERVAL {
                r.ack == Some(final(self).bytes_written) && final(self).last_acked == final(self).bytes_written
            } else {
                r.ack is None && final(self).last_acked == old(self).last_acked
            },
    {
        self.bytes_written = self.bytes_written + n;
        let mut next: u64 = self.next_progress;
        let progress: u64 = progress_due(self.bytes_written, &mut next);
        self.next_progress = next;
        if self.bytes_written - self.last_acked >= ACK_INTERVAL {
            self.last_acked = self.bytes_written;
            Written { progress, ack: Some(self.bytes_written) }
        } else {
            Written { progress, ack: None }
        }
    }

    /// The sender has ended the stream: the bytes that were delivered in all.
    pub fn on_eof(&self) -> (r: u64)
        ensures
            r == self.bytes_written,
    {
        self.bytes_written
    }

    /// What becomes of a stream with which the sender continues from
    /// `replay_from`; `handed_over` says whether the pump took it.
    pub fn on_reconnect(&self, replay_from: u64, handed_over: bool) -> (r: Reconnected)
        ensures
            r == reconnect_outcome(self.bytes_written, replay_from, handed_over),
    {
        if !replay_accepted(self.bytes_written, replay_from) {
            Reconnected::Gap
        } else if handed_over {
            Reconnected::Delivered
        } else {
            Reconnected::Unavailable
        }
    }
}

/// Whether a sender that continues from `replay_from` can still fill in all that
/// is missing behind `bytes_written` bytes.
pub fn replay_accepted(bytes_written: u64, replay_from: u64) -> (r: bool)
    ensures
        r == (replay_from <= bytes_written),
{
    replay_from <= bytes_written
}

/// The client did not connect.
pub fn accept_failed(detail: &str) -> (r: Failure)
    ensures
        r.says(
            FailReason::Unknown,
            "TCP accept failed: "@ + detail@,
            Some("TCP accept failed: "@ + detail@),
        ),
{
    Failure {
        code: FailReason::Unknown,
        reason: joined("TCP accept failed: ", detail),
        to_peer: Some(joined("TCP accept failed: ", detail)),
    }
}

/// The client takes no more bytes.
pub fn write_failed(detail: &str) -> (r: Failure)
    ensures
        r.says(
            FailReason::Unknown,
            "TCP write error: "@ + detail@,
            Some("TCP write error: "@ + detail@),
        ),
{
    Failure {
        code: FailReason::Unknown,
        reason: joined("TCP write error: ", detail),
        to_peer: Some(joined("TCP write error: ", detail)),
    }
}

/// The transport failed while reading: without a fresh stream, delivery ends here;
/// with one it goes on.
pub fn on_read_failed(fresh_stream: bool) -> (r: Option<Failure>)
    ensures
        if fresh_stream {
            r is None
        } else {
            r matches Some(f) && f.says(
                FailReason::LinkFailed,
                "link failed permanently"@,
                None,
            )
        },
{
    if fresh_stream {
        None
    } else {
        Some(
            Failure {
                code: FailReason::LinkFailed,
                reason: "link failed permanently".to_owned(),
                to_peer: None,
            },
        )
    }
}

// ---------------------------------------------------------------------------
// The pump
// ---------------------------------------------------------------------------

/// What the pump of an inbound stream waits for.
#[derive(Debug, Clone, Copy, PartialEq, Eq, Structural)]
pub enum DownlinkPhase {
    /// The stream that opens the transfer.
    AwaitStream,
    /// The client.
    AwaitClient,
    /// The next chunk.
    Reading,
    /// The client to take the bytes of a chunk.
    Writing,
    /// A fresh stream after the link failed.
    AwaitReconnect,
    /// Nothing: the transfer is over.
    Ended,
}

/// What happens to an inbound stream.
#[derive(Debug)]
pub enum DownlinkEvent {
    /// A stream was handed over, or none will come any more.
    Stream(bool),
    /// The client connected, or did not for the given reason.
    Client(Result<(), String>),
    /// A chunk arrived.
    Chunk(Chunk),
    /// The sender has ended the stream.
    Eof,
    /// The transport failed.
    ReadFailed,
    /// The client took the bytes it was handed.
    Wrote,
    /// The client took them no more, for the given reason.
    WriteFailed(String),
}

/// What the pump does next.
#[derive(Debug)]
pub enum DownlinkAction {
    /// Wait for the client to connect.
    AcceptClient,
    /// Read the next chunk.
    Read,
    /// Hand these bytes to the client.
    Write(Vec<u8>),
    /// Report progress and acknowledge as far as due, then read the next chunk.
    Report(Written),
    /// Wait for a fresh stream.
    AwaitStream,
    /// Tell the sender that everything is delivered and the client that so many
    /// bytes were, and end.
    Complete(u64),
    /// Tell of the failure, and end.
    Fail(Failure),
    /// End without a word: nothing was ever opened.
    Stop,
    /// Nothing: the pump does not wait for this.
    Ignore,
}

/// The pump of one inbound stream.
#[derive(Debug, Clone, Copy, PartialEq, Eq, Structural)]
pub struct DownlinkPump {
    pub phase: DownlinkPhase,
    pub delivery: Downlink,
    /// Bytes that the client is being handed.
    pub writing: u64,
}

/// The delivery state after `n` more bytes.
pub open spec fn delivered(d: Downlink, n: nat) -> Downlink {
    let written = d.bytes_written + n;
    Downlink {
        bytes_written: written as u64,
        last_acked: if written - d.last_acked >= ACK_INTERVAL {
            written as u64
        } else {
            d.last_acked
        },
        next_progress: (d.next_progress + progress_steps(
            written as nat,
            d.next_progress as nat,
        ) * PROGRESS_INTERVAL_BYTES) as u64,
    }
}

/// What is due after `n` more bytes.
pub open spec fn due_after(d: Downlink, n: nat) -> Written {
    let written = d.bytes_written + n;
    Written {
        progress: progress_steps(written as nat, d.next_progress as nat) as u64,
        ack: if written - d.last_acked >= ACK_INTERVAL {
            Some(written as u64)
        } else {
            None
        },
    }
}

/// How a chunk relates to what was delivered.
pub open spec fn verdict_on(d: Downlink, c: Chunk) -> Verdict {
    verdict(d.bytes_written as nat, c.stream_offset as nat, c.payload@.len())
}

/// The bytes of a chunk can be counted, and the next progress report behind them, where
/// they are to be delivered.
pub open spec fn countable(p: DownlinkPump, c: Chunk) -> bool {
    p.phase == DownlinkPhase::Reading && verdict_on(p.delivery, c) is Fresh ==> c.stream_offset
        + c.payload@.len() + PROGRESS_INTERVAL_BYTES <= u64::MAX
}

/// The pump after an event.
pub open spec fn pump_after(p: DownlinkPump, e: DownlinkEvent) -> DownlinkPump {
    match (p.phase, e) {
        (DownlinkPhase::AwaitStream, DownlinkEvent::Stream(there)) => DownlinkPump {
            phase: if there {
                DownlinkPhase::AwaitClient
            } else {
                DownlinkPhase::Ended
            },
            ..p
        },
        (DownlinkPhase::AwaitClient, DownlinkEvent::Client(connected)) => DownlinkPump {
            phase: if connected is Ok {
                DownlinkPhase::Reading
            } else {
                DownlinkPhase::Ended
            },
            ..p
        },
        (DownlinkPhase::Reading, DownlinkEvent::Chunk(c)) => match verdict_on(p.delivery, c) {
            Verdict::Duplicate => p,
            Verdict::Gap => DownlinkPump { phase: DownlinkPhase::Ended, ..p },
            Verdict::Fresh { skip } => DownlinkPump {
                phase: DownlinkPhase::Writing,
                writing: (c.payload@.len() - skip) as u64,
                ..p
            },
        },
        (DownlinkPhase::Reading, DownlinkEvent::Eof) => DownlinkPump {
            phase: DownlinkPhase::Ended,
            ..p
        },
        (DownlinkPhase::Reading, DownlinkEvent::ReadFailed) => DownlinkPump {
            phase: DownlinkPhase::AwaitReconnect,
            ..p
        },
        (DownlinkPhase::Writing, DownlinkEvent::Wrote) => DownlinkPump {
            phase: DownlinkPhase::Reading,
            delivery: delivered(p.delivery, p.writing as nat),
            writing: 0,
        },
        (DownlinkPhase::Writing, DownlinkEvent::WriteFailed(_)) => DownlinkPump {
            phase: DownlinkPhase::Ended,
            ..p
        },
        (DownlinkPhase::AwaitReconnect, DownlinkEvent::Stream(there)) => DownlinkPump {
            phase: if there {
                DownlinkPhase::Reading
            } else {
                DownlinkPhase::Ended
            },
            ..p
        },
        _ => p,
    }
}

/// `a` is what a pump does on an event.
pub open spec fn pump_does(p: DownlinkPump, e: DownlinkEvent, a: DownlinkAction) -> bool {
    match (p.phase, e) {
        (DownlinkPhase::AwaitStream, DownlinkEvent::Stream(there)) => if there {
            a is AcceptClient
        } else {
            a is Stop
        },
        (DownlinkPhase::AwaitClient, DownlinkEvent::Client(connected)) => match connected {
            Ok(_) => a is Read,
            Err(detail) => a matches DownlinkAction::Fail(f) && f.says(
                FailReason::Unknown,
                "TCP accept failed: "@ + detail@,
                Some("TCP accept failed: "@ + detail@),
            ),
        },
        (DownlinkPhase::Reading, DownlinkEvent::Chunk(c)) => match verdict_on(p.delivery, c) {
            Verdict::Duplicate => a is Read,
            Verdict::Gap => a matches DownlinkAction::Fail(f) && f.says(
                FailReason::Unknown,
                "chunk offset gap — pump logic error"@,
                Some(
                    "chunk gap: expected "@ + decimal(p.delivery.bytes_written as nat) + ", got "@
                        + decimal(c.stream_offset as nat),
                ),
            ),
            Verdict::Fresh { skip } => a matches DownlinkAction::Write(data) && data@
                == c.payload@.skip(skip as int),
        },
        (DownlinkPhase::Reading, DownlinkEvent::Eof) => a == DownlinkAction::Complete(
            p.delivery.bytes_written,
        ),
        (DownlinkPhase::Reading, DownlinkEvent::ReadFailed) => a is AwaitStream,
        (DownlinkPhase::Writing, DownlinkEvent::Wrote) => a == DownlinkAction::Report(
            due_after(p.delivery, p.writing as nat),
        ),
        (DownlinkPhase::Writing, DownlinkEvent::WriteFailed(detail)) => a matches
            DownlinkAction::Fail(f) && f.says(
            FailReason::Unknown,
            "TCP write error: "@ + detail@,
            Some("TCP write error: "@ + detail@),
        ),
        (DownlinkPhase::AwaitReconnect, DownlinkEvent::Stream(there)) => if there {
            a is Read
        } else {
            a matches DownlinkAction::Fail(f) && f.says(
                FailReason::LinkFailed,
                "link failed permanently"@,
                None,
            )
        },
        _ => a is Ignore,
    }
}

impl DownlinkPump {
    /// The delivery state is sound, and the bytes being handed over can be counted.
    pub open spec fn wf(&self) -> bool {
        &&& self.delivery.wf()
        &&& self.phase == DownlinkPhase::Writing ==> self.delivery.bytes_written + self.writing
            + PROGRESS_INTERVAL_BYTES <= u64::MAX
    }

    /// A pump that waits for its stream, with `bytes_written` bytes delivered.
    pub fn new(bytes_written: u64) -> (r: Self)
        ensures
            r.wf(),
            r.phase == DownlinkPhase::AwaitStream,
            r.writing == 0,
            r.delivery == (Downlink {
                bytes_written,
                last_acked: bytes_written,
                next_progress: PROGRESS_INTERVAL_BYTES,
            }),
    {
        DownlinkPump {
            phase: DownlinkPhase::AwaitStream,
            delivery: Downlink::new(bytes_written),
            writing: 0,
        }
    }

    /// Takes an event; gives what to do next.
    pub fn on_event(&mut self, event: DownlinkEvent) -> (r: DownlinkAction)
        requires
            old(self).wf(),
            event matches DownlinkEvent::Chunk(c) ==> countable(*old(self), c),
        ensures
            final(self).wf(),
            *final(self) == pump_after(*old(self), event),
            pump_does(*old(self), event, r),
    {
        match (self.phase, event) {
            (DownlinkPhase::AwaitStream, DownlinkEvent::Stream(there)) => {
                if there {
                    self.phase = DownlinkPhase::AwaitClient;
                    DownlinkAction::AcceptClient
                } else {
                    self.phase = DownlinkPhase::Ended;
                    DownlinkAction::Stop
                }
            },
            (DownlinkPhase::AwaitClient, DownlinkEvent::Client(connected)) => match connected {
                Ok(_) => {
                    self.phase = DownlinkPhase::Reading;
                    DownlinkAction::Read
                },
                Err(detail) => {
                    self.phase = DownlinkPhase::Ended;
                    DownlinkAction::Fail(accept_failed(detail.as_str()))
                },
            },
            (DownlinkPhase::Reading, DownlinkEvent::Chunk(chunk)) => match self.delivery.on_chunk(
                &chunk,
            ) {
                Received::Duplicate => DownlinkAction::Read,
                Received::Gap(failure) => {
                    self.phase = DownlinkPhase::Ended;
                    DownlinkAction::Fail(failure)
                },
                Received::Fresh(data) => {
                    self.phase = DownlinkPhase::Writing;
                    self.writing = data.len() as u64;
                    DownlinkAction::Write(data)
                },
            },
            (DownlinkPhase::Reading, DownlinkEvent::Eof) => {
                self.phase = DownlinkPhase::Ended;
                DownlinkAction::Complete(self.delivery.on_eof())
            },
            (DownlinkPhase::Reading, DownlinkEvent::ReadFailed) => {
                self.phase = DownlinkPhase::AwaitReconnect;
                DownlinkAction::AwaitStream
            },
            (DownlinkPhase::Writing, DownlinkEvent::Wrote) => {
                let written: Written = self.delivery.on_written(self.writing);
                self.phase = DownlinkPhase::Reading;
                self.writing = 0;
                DownlinkAction::Report(written)
            },
            (DownlinkPhase::Writing, DownlinkEvent::WriteFailed(detail)) => {
                self.phase = DownlinkPhase::Ended;
                DownlinkAction::Fail(write_failed(detail.as_str()))
            },
            (DownlinkPhase::AwaitReconnect, DownlinkEvent::Stream(there)) => {
                match on_read_failed(there) {
                    None => {
                        self.phase = DownlinkPhase::Reading;
                        DownlinkAction::Read
                    },
                    Some(failure) => {
                        self.phase = DownlinkPhase::Ended;
                        DownlinkAction::Fail(failure)
                    },
                }
            },
            _ => DownlinkAction::Ignore,
        }
    }
}

// ---------------------------------------------------------------------------
// Laws
// ---------------------------------------------------------------------------

/// A pump, what its client has taken, and what the client is being handed.
#[verifier::ext_equal]
pub struct PumpRun {
    pub pump: DownlinkPump,
    pub out: Seq<u8>,
    pub handed: Seq<u8>,
}

/// A run of a new pump over some events.
pub open spec fn run_over(events: Seq<DownlinkEvent>) -> PumpRun
    decreases events.len(),
{
    if events.len() == 0 {
        PumpRun {
            pump: DownlinkPump {
                phase: DownlinkPhase::AwaitStream,
                delivery: Downlink {
                    bytes_written: 0,
                    last_acked: 0,
                    next_progress: PROGRESS_INTERVAL_BYTES,
                },
                writing: 0,
            },
            out: Seq::empty(),
            handed: Seq::empty(),
        }
    } else {
        let r = run_over(events.drop_last());
        let e = events.last();
        PumpRun {
            pump: pump_after(r.pump, e),
            out: if r.pump.phase == DownlinkPhase::Writing && e is Wrote {
                r.out + r.handed
            } else {
                r.out
            },
            handed: match (r.pump.phase, e) {
                (DownlinkPhase::Reading, DownlinkEvent::Chunk(c)) => match verdict_on(
                    r.pump.delivery,
                    c,
                ) {
                    Verdict::Fresh { skip } => c.payload@.skip(skip as int),
                    _ => r.handed,
                },
                _ => r.handed,
            },
        }
    }
}

/// Every chunk that arrives is a piece of the stream.
pub open spec fn chunks_of(events: Seq<DownlinkEvent>, stream: Seq<u8>) -> bool {
    forall|i: int|
        0 <= i < events.len() ==> match #[trigger] events[i] {
            DownlinkEvent::Chunk(c) => {
                &&& c.stream_offset + c.payload@.len() <= stream.len()
                &&& c.payload@ == stream.subrange(
                    c.stream_offset as int,
                    c.stream_offset + c.payload@.len(),
                )
            },
            _ => true,
        }
}

/// Whatever happens to a stream, its client has been handed the first bytes of it, in
/// order and without a gap, as many as the pump counts.
pub proof fn law_client_gets_the_stream(events: Seq<DownlinkEvent>, stream: Seq<u8>)
    requires
        chunks_of(events, stream),
        stream.len() <= u64::MAX,
    ensures
        run_over(events).out.len() == run_over(events).pump.delivery.bytes_written,
        run_over(events).out.is_prefix_of(stream),
        run_over(events).pump.phase == DownlinkPhase::Writing ==> (run_over(events).out
            + run_over(events).handed).is_prefix_of(stream) && run_over(events).handed.len()
            == run_over(events).pump.writing,
    decreases events.len(),
{
    if events.len() > 0 {
        let before = events.drop_last();
        assert forall|i: int| 0 <= i < before.len() implies match #[trigger] before[i] {
            DownlinkEvent::Chunk(c) => {
                &&& c.stream_offset + c.payload@.len() <= stream.len()
                &&& c.payload@ == stream.subrange(
                    c.stream_offset as int,
                    c.stream_offset + c.payload@.len(),
                )
            },
            _ => true,
        } by {
            assert(before[i] == events[i]);
        }
        law_client_gets_the_stream(before, stream);
        let r = run_over(before);
        let e = events.last();
        assert(e == events[events.len() - 1]);
        match (r.pump.phase, e) {
            (DownlinkPhase::Reading, DownlinkEvent::Chunk(c)) => {
                match verdict_on(r.pump.delivery, c) {
                    Verdict::Fresh { skip } => {
                        let all = r.out + c.payload@.skip(skip as int);
                        assert(all =~= stream.take(all.len() as int));
                        assert(all.is_prefix_of(stream));
                    },
                    _ => {},
                }
            },
            _ => {},
        }
    }
}

/// A pump after some events.
pub open spec fn pump_over(p: DownlinkPump, events: Seq<DownlinkEvent>) -> DownlinkPump
    decreases events.len(),
{
    if events.len() == 0 {
        p
    } else {
        pump_after(pump_over(p, events.drop_last()), events.last())
    }
}

/// A chunk ahead of the delivered bytes fails the stream, however far ahead it is: none
/// of its bytes and none of those of any later chunk are delivered.
pub proof fn law_chunk_ahead_fails_the_stream(
    p: DownlinkPump,
    c: Chunk,
    a: DownlinkAction,
    later: Seq<DownlinkEvent>,
)
    requires
        p.phase == DownlinkPhase::Reading,
        c.stream_offset > p.delivery.bytes_written,
        pump_does(p, DownlinkEvent::Chunk(c), a),
    ensures
        a matches DownlinkAction::Fail(f) && f.code == FailReason::Unknown && f.to_peer is Some,
        ({
            let q = pump_over(pump_after(p, DownlinkEvent::Chunk(c)), later);
            q.phase == DownlinkPhase::Ended && q.delivery == p.delivery
        }),
    decreases later.len(),
{
    if later.len() > 0 {
        law_chunk_ahead_fails_the_stream(p, c, a, later.drop_last());
    }
}

/// No fresh stream is handed over.
pub open spec fn none_handed_over(events: Seq<DownlinkEvent>) -> bool {
    forall|i: int| 0 <= i < events.len() ==> #[trigger] events[i] != DownlinkEvent::Stream(true)
}

/// A pump that waits for a fresh stream delivers nothing while none comes, and fails
/// once it is known that none will.
pub proof fn law_pump_without_a_stream_fails(
    p: DownlinkPump,
    events: Seq<DownlinkEvent>,
    a: DownlinkAction,
)
    requires
        p.phase == DownlinkPhase::AwaitReconnect,
        none_handed_over(events),
        pump_does(p, DownlinkEvent::Stream(false), a),
    ensures
        a matches DownlinkAction::Fail(f) && f.code == FailReason::LinkFailed,
        pump_over(p, events).delivery == p.delivery,
        pump_over(p, events).phase == (if events.contains(DownlinkEvent::Stream(false)) {
            DownlinkPhase::Ended
        } else {
            DownlinkPhase::AwaitReconnect
        }),
    decreases events.len(),
{
    if events.len() > 0 {
        let before = events.drop_last();
        let e = events.last();
        assert(e == events[events.len() - 1]);
        assert forall|i: int| 0 <= i < before.len() implies #[trigger] before[i]
            != DownlinkEvent::Stream(true) by {
            assert(before[i] == events[i]);
        }
        law_pump_without_a_stream_fails(p, before, a);
        if before.contains(DownlinkEvent::Stream(false)) {
            let i = choose|i: int| 0 <= i < before.len() && before[i] == DownlinkEvent::Stream(
                false,
            );
            assert(events[i] == before[i]);
        } else if events.contains(DownlinkEvent::Stream(false)) {
            let i = choose|i: int| 0 <= i < events.len() && events[i] == DownlinkEvent::Stream(
                false,
            );
            if i < before.len() {
                assert(before[i] == events[i]);
            }
        }
    }
}

/// An acknowledgement names exactly the bytes that the client has taken, and it comes
/// once a full interval has not been acknowledged, and not before.
pub proof fn law_acknowledged_bytes_were_delivered(
    p: DownlinkPump,
    e: DownlinkEvent,
    a: DownlinkAction,
)
    requires
        p.wf(),
        pump_does(p, e, a),
    ensures
        a matches DownlinkAction::Report(w) ==> {
            let t = pump_after(p, e);
            &&& t.delivery.bytes_written == p.delivery.bytes_written + p.writing
            &&& w.ack matches Some(n) ==> n == p.delivery.bytes_written + p.writing
                && t.delivery.last_acked == n
            &&& w.ack is None ==> t.delivery.last_acked == p.delivery.last_acked
            &&& w.ack is Some <==> p.delivery.bytes_written + p.writing - p.delivery.last_acked
                >= 65_536
        },
        !(a is Report) ==> pump_after(p, e).delivery == p.delivery,
        e is Wrote && p.phase == DownlinkPhase::Writing ==> a is Report,
{
}

/// Once a transfer is over nothing happens to it any more, and it is over exactly
/// after it was reported as complete or failed, or was never opened.
pub proof fn law_transfer_ends_once(p: DownlinkPump, e: DownlinkEvent, a: DownlinkAction)
    requires
        pump_does(p, e, a),
    ensures
        p.phase == DownlinkPhase::Ended ==> a is Ignore && pump_after(p, e) == p,
        p.phase != DownlinkPhase::Ended ==> (pump_after(p, e).phase == DownlinkPhase::Ended <==> (
        a is Complete || a is Fail || a is Stop)),
{
}

/// Progress follows the bytes: the reports that are due when the client has taken bytes
/// are as many as there are whole intervals between what it had and what it has.
pub proof fn law_progress_follows_the_bytes(p: DownlinkPump, e: DownlinkEvent, w: Written)
    requires
        p.wf(),
        p.delivery.next_progress == (p.delivery.bytes_written as nat / 1_048_576 + 1) * 1_048_576,
        pump_does(p, e, DownlinkAction::Report(w)),
    ensures
        ({
            let t = pump_after(p, e).delivery;
            &&& w.progress == t.bytes_written as nat / 1_048_576 - p.delivery.bytes_written as nat
                / 1_048_576
            &&& t.next_progress == (t.bytes_written as nat / 1_048_576 + 1) * 1_048_576
        }),
{
}

/// The client is handed exactly those bytes of a chunk that it has not taken yet: a chunk
/// that ends where delivery stands or before gives nothing, one that starts behind it
/// fails, and any other one gives its bytes from there on.
pub proof fn law_chunk_gives_its_new_bytes(p: DownlinkPump, c: Chunk, a: DownlinkAction)
    requires
        p.phase == DownlinkPhase::Reading,
        pump_does(p, DownlinkEvent::Chunk(c), a),
    ensures
        ({
            let written = p.delivery.bytes_written;
            let end = c.stream_offset + c.payload@.len();
            &&& a is Write <==> c.stream_offset <= written < end
            &&& a is Fail <==> c.stream_offset > written && end > written
            &&& a is Read <==> end <= written
            &&& a matches DownlinkAction::Write(data) ==> data@.len() == end - written && data@
                == c.payload@.skip(written - c.stream_offset)
            &&& a is Write && end - written <= u64::MAX ==> pump_after(
                p,
                DownlinkEvent::Chunk(c),
            ).writing == end - written
            &&& pump_after(p, DownlinkEvent::Chunk(c)).delivery == p.delivery
        }),
{
}

/// A sender may continue wherever no byte is missing in between, and its stream is then
/// handed over if the pump takes it.
pub proof fn law_replay_is_taken_up_without_a_gap(
    written: u64,
    replay_from: u64,
    handed_over: bool,
)
    ensures
        replay_from <= written && handed_over <==> reconnect_outcome(
            written,
            replay_from,
            handed_over,
        ) == Reconnected::Delivered,
        replay_from <= written && !handed_over <==> reconnect_outcome(
            written,
            replay_from,
            handed_over,
        ) == Reconnected::Unavailable,
        replay_from > written <==> reconnect_outcome(written, replay_from, handed_over)
            == Reconnected::Gap,
{
}

/// An outage ends no transfer: the pump waits for a fresh stream and reads on from it
/// where delivery stood, and only when none will come does the transfer fail.
pub proof fn law_outage_is_waited_out(p: DownlinkPump, a: DownlinkAction, b: DownlinkAction)
    requires
        p.phase == DownlinkPhase::Reading,
        pump_does(p, DownlinkEvent::ReadFailed, a),
        pump_does(
            pump_after(p, DownlinkEvent::ReadFailed),
            DownlinkEvent::Stream(true),
            b,
        ),
    ensures
        a is AwaitStream,
        b is Read,
        pump_after(pump_after(p, DownlinkEvent::ReadFailed), DownlinkEvent::Stream(true)) == p,
{
}

} // verus!
