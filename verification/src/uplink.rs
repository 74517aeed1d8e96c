//! The sending side of a stream: the client's bytes into the spool, and the
//! receiver's feedback out of the transport.

use vstd::prelude::*;

use crate::failure::{progress_due, progress_steps, FailReason, Failure, PROGRESS_INTERVAL_BYTES};
use crate::framing::{WormholeMsg, CHUNK_SIZE};
use crate::spool::{Spool, SpoolBuffer};
use crate::text::joined;

verus! {

// ---------------------------------------------------------------------------
// Client to spool
// ---------------------------------------------------------------------------

/// Bytes between a pump's position and the end of the spool.
pub open spec fn backlog_of(end: nat, q: nat) -> nat {
    if q <= end {
        (end - q) as nat
    } else {
        0
    }
}

/// Whether the client's socket may be read: a full chunk fits into the spool.
pub fn may_read(spool: &SpoolBuffer) -> (r: bool)
    requires
        spool.wf(),
    ensures
        r == (crate::spool::SPOOL_CAPACITY - spool@.data.len() >= CHUNK_SIZE),
{
    spool.available() >= CHUNK_SIZE
}

/// Takes bytes of the client into the spool; gives the backlog of a pump at `q`.
pub fn on_client_data(spool: &mut SpoolBuffer, data: &[u8], q: u64) -> (r: u64)
    requires
        old(spool).wf(),
        !old(spool)@.eof,
        data@.len() <= crate::spool::SPOOL_CAPACITY - old(spool)@.data.len(),
        old(spool)@.end() + data@.len() < u64::MAX,
    ensures
        final(spool).wf(),
        final(spool)@ == old(spool)@.pushed(data@),
        r == backlog_of(final(spool)@.end(), q as nat),
{
    spool.push(data);
    spool.head_offset().saturating_sub(q)
}

/// Notes that the client has closed; gives the backlog of a pump at `q`.
pub fn on_client_eof(spool: &mut SpoolBuffer, q: u64) -> (r: u64)
    requires
        old(spool).wf(),
    ensures
        final(spool).wf(),
        final(spool)@ == (Spool { eof: true, ..old(spool)@ }),
        r == backlog_of(final(spool)@.end(), q as nat),
{
    spool.close();
    spool.head_offset().saturating_sub(q)
}

/// The client did not connect.
pub fn accept_failed(detail: &str) -> (r: Failure)
    ensures
        r.says(FailReason::Unknown, "TCP accept failed: "@ + detail@, None),
{
    Failure {
        code: FailReason::Unknown,
        reason: joined("TCP accept failed: ", detail),
        to_peer: None,
    }
}

/// The client's socket failed.
pub fn read_failed(detail: &str) -> (r: Failure)
    ensures
        r.says(FailReason::SenderClosed, "TCP read error: "@ + detail@, None),
{
    Failure {
        code: FailReason::SenderClosed,
        reason: joined("TCP read error: ", detail),
        to_peer: None,
    }
}

/// What the reader of a client's socket waits for.
#[derive(Debug, Clone, Copy, PartialEq, Eq, Structural)]
pub enum ReaderPhase {
    /// The client.
    AwaitClient,
    /// Room for a chunk in the spool.
    AwaitSpace,
    /// Bytes of the client.
    Reading,
    /// Nothing: the client has closed or failed.
    Ended,
}

/// What happens at a client's socket.
#[derive(Debug)]
pub enum ReaderEvent {
    /// The client connected, or did not for the given reason.
    Client(Result<(), String>),
    /// Bytes were released from the spool.
    Space,
    /// The client sent bytes.
    Data(Vec<u8>),
    /// The client has closed.
    Eof,
    /// The socket failed for the given reason.
    Failed(String),
}

/// What the reader does next.
#[derive(Debug)]
pub enum ReaderMove {
    /// Read up to a chunk from the socket.
    Read,
    /// Wait until bytes are released: the client is not read meanwhile.
    AwaitSpace,
    /// End.
    Stop,
    /// Tell the client of the failure, and end.
    Fail(Failure),
    /// Nothing: the reader does not wait for this.
    Ignore,
}

/// An event's outcome: the backlog of the pump where it changed, and the next move.
#[derive(Debug)]
pub struct ReaderStep {
    pub backlog: Option<u64>,
    pub next: ReaderMove,
}

/// Reader of the client's socket of one outbound stream.
#[derive(Debug, Clone, Copy, PartialEq, Eq, Structural)]
pub struct ClientReader {
    pub phase: ReaderPhase,
}

/// Whether a full chunk fits into a spool.
pub open spec fn has_room(s: Spool) -> bool {
    crate::spool::SPOOL_CAPACITY - s.data.len() >= CHUNK_SIZE
}

/// The phase of a reader that goes on with a spool.
pub open spec fn reading_phase(s: Spool) -> ReaderPhase {
    if has_room(s) {
        ReaderPhase::Reading
    } else {
        ReaderPhase::AwaitSpace
    }
}

/// The spool after an event.
pub open spec fn spool_after(phase: ReaderPhase, e: ReaderEvent, s: Spool) -> Spool {
    match (phase, e) {
        (ReaderPhase::Reading, ReaderEvent::Data(d)) => s.pushed(d@),
        (ReaderPhase::Reading, ReaderEvent::Eof) => Spool { eof: true, ..s },
        _ => s,
    }
}

/// The reader's phase after an event.
pub open spec fn reader_after(phase: ReaderPhase, e: ReaderEvent, s: Spool) -> ReaderPhase {
    match (phase, e) {
        (ReaderPhase::AwaitClient, ReaderEvent::Client(connected)) => if connected is Ok {
            reading_phase(s)
        } else {
            ReaderPhase::Ended
        },
        (ReaderPhase::AwaitSpace, ReaderEvent::Space) => reading_phase(s),
        (ReaderPhase::Reading, ReaderEvent::Data(d)) => reading_phase(s.pushed(d@)),
        (ReaderPhase::Reading, ReaderEvent::Eof) => ReaderPhase::Ended,
        (ReaderPhase::Reading, ReaderEvent::Failed(_)) => ReaderPhase::Ended,
        _ => phase,
    }
}

/// `step` is what a reader does on an event, where the pump stands at `q`.
pub open spec fn reader_does(
    phase: ReaderPhase,
    e: ReaderEvent,
    s: Spool,
    q: nat,
    step: ReaderStep,
) -> bool {
    let goes_on = match reader_after(phase, e, s) {
        ReaderPhase::Reading => step.next is Read,
        _ => step.next is AwaitSpace,
    };
    match (phase, e) {
        (ReaderPhase::AwaitClient, ReaderEvent::Client(connected)) => {
            &&& step.backlog is None
            &&& match connected {
                Ok(_) => goes_on,
                Err(detail) => step.next matches ReaderMove::Fail(f) && f.says(
                    FailReason::Unknown,
                    "TCP accept failed: "@ + detail@,
                    None,
                ),
            }
        },
        (ReaderPhase::AwaitSpace, ReaderEvent::Space) => step.backlog is None && goes_on,
        (ReaderPhase::Reading, ReaderEvent::Data(d)) => {
            &&& step.backlog == Some(backlog_of(s.pushed(d@).end(), q) as u64)
            &&& goes_on
        },
        (ReaderPhase::Reading, ReaderEvent::Eof) => {
            &&& step.backlog == Some(backlog_of(s.end(), q) as u64)
            &&& step.next is Stop
        },
        (ReaderPhase::Reading, ReaderEvent::Failed(detail)) => {
            &&& step.backlog is None
            &&& step.next matches ReaderMove::Fail(f) && f.says(
                FailReason::SenderClosed,
                "TCP read error: "@ + detail@,
                None,
            )
        },
        _ => step.backlog is None && step.next is Ignore,
    }
}

impl ClientReader {
    /// The client is read only while a chunk fits into the spool, and until it has
    /// closed.
    pub open spec fn wf(&self, s: Spool) -> bool {
        &&& self.phase == ReaderPhase::Reading ==> has_room(s)
        &&& self.phase != ReaderPhase::Ended ==> !s.eof
    }

    /// A reader that waits for its client.
    pub fn new() -> (r: Self)
        ensures
            r.phase == ReaderPhase::AwaitClient,
            forall|s: Spool| !s.eof ==> #[trigger] r.wf(s),
    {
        ClientReader { phase: ReaderPhase::AwaitClient }
    }

    fn go_on(&mut self, spool: &SpoolBuffer) -> (r: ReaderMove)
        requires
            spool.wf(),
        ensures
            final(self).phase == reading_phase(spool@),
            if has_room(spool@) {
                r is Read
            } else {
                r is AwaitSpace
            },
    {
        if may_read(spool) {
            self.phase = ReaderPhase::Reading;
            ReaderMove::Read
        } else {
            self.phase = ReaderPhase::AwaitSpace;
            ReaderMove::AwaitSpace
        }
    }

    /// Takes an event; `q` is where the pump stands. What the client sends goes to
    /// the spool; while no chunk fits, the client is not read.
    pub fn on_event(&mut self, event: ReaderEvent, spool: &mut SpoolBuffer, q: u64) -> (r:
        ReaderStep)
        requires
            old(spool).wf(),
            old(self).wf(old(spool)@),
            event matches ReaderEvent::Data(d) ==> d@.len() <= CHUNK_SIZE && old(spool)@.end()
                + d@.len() < u64::MAX,
        ensures
            final(spool).wf(),
            final(self).wf(final(spool)@),
            final(spool)@ == spool_after(old(self).phase, event, old(spool)@),
            final(self).phase == reader_after(old(self).phase, event, old(spool)@),
            reader_does(old(self).phase, event, old(spool)@, q as nat, r),
    {
        match (self.phase, event) {
            (ReaderPhase::AwaitClient, ReaderEvent::Client(connected)) => match connected {
                Ok(_) => ReaderStep { backlog: None, next: self.go_on(spool) },
                Err(detail) => {
                    self.phase = ReaderPhase::Ended;
                    ReaderStep {
                        backlog: None,
                        next: ReaderMove::Fail(accept_failed(detail.as_str())),
                    }
                },
            },
            (ReaderPhase::AwaitSpace, ReaderEvent::Space) => {
                ReaderStep { backlog: None, next: self.go_on(spool) }
            },
            (ReaderPhase::Reading, ReaderEvent::Data(data)) => {
                let backlog: u64 = on_client_data(spool, data.as_slice(), q);
                ReaderStep { backlog: Some(backlog), next: self.go_on(spool) }
            },
            (ReaderPhase::Reading, ReaderEvent::Eof) => {
                let backlog: u64 = on_client_eof(spool, q);
                self.phase = ReaderPhase::Ended;
                ReaderStep { backlog: Some(backlog), next: ReaderMove::Stop }
            },
            (ReaderPhase::Reading, ReaderEvent::Failed(detail)) => {
                self.phase = ReaderPhase::Ended;
                ReaderStep {
                    backlog: None,
                    next: ReaderMove::Fail(read_failed(detail.as_str())),
                }
            },
            _ => ReaderStep { backlog: None, next: ReaderMove::Ignore },
        }
    }
}

/// What happens to the spool of an outbound stream: an event at the client's socket,
/// or an acknowledgement.
pub enum SpoolEvent {
    Client(ReaderEvent),
    Ack { up_to: nat },
}

/// A reader's phase, its spool, and what the client was read of.
#[verifier::ext_equal]
pub struct ReaderRun {
    pub phase: ReaderPhase,
    pub spool: Spool,
    pub taken: Seq<u8>,
}

/// A run of a new reader with an empty spool.
pub open spec fn reader_run(events: Seq<SpoolEvent>) -> ReaderRun
    decreases events.len(),
{
    if events.len() == 0 {
        ReaderRun {
            phase: ReaderPhase::AwaitClient,
            spool: Spool { acked: 0, data: Seq::empty(), eof: false },
            taken: Seq::empty(),
        }
    } else {
        let r = reader_run(events.drop_last());
        match events.last() {
            SpoolEvent::Client(e) => ReaderRun {
                phase: reader_after(r.phase, e, r.spool),
                spool: spool_after(r.phase, e, r.spool),
                taken: match (r.phase, e) {
                    (ReaderPhase::Reading, ReaderEvent::Data(d)) => r.taken + d@,
                    _ => r.taken,
                },
            },
            SpoolEvent::Ack { up_to } => ReaderRun { spool: r.spool.acked_to(up_to), ..r },
        }
    }
}

/// The client never gives more than a chunk at once.
pub open spec fn chunk_sized(events: Seq<SpoolEvent>) -> bool {
    forall|i: int|
        0 <= i < events.len() ==> match #[trigger] events[i] {
            SpoolEvent::Client(ReaderEvent::Data(d)) => d@.len() <= CHUNK_SIZE,
            _ => true,
        }
}

/// Whatever the client and the receiver do, the spool stays within its capacity, the
/// client is read only while a chunk fits, and what the spool holds is exactly what
/// the client was read of and the receiver has not acknowledged: a full spool holds
/// the client back, and loses nothing.
pub proof fn law_full_spool_holds_the_client_back(events: Seq<SpoolEvent>)
    requires
        chunk_sized(events),
    ensures
        ({
            let r = reader_run(events);
            &&& r.spool.data.len() <= crate::spool::SPOOL_CAPACITY
            &&& r.phase == ReaderPhase::Reading ==> has_room(r.spool)
            &&& r.spool.end() == r.taken.len()
            &&& r.spool.data == r.taken.skip(r.spool.acked as int)
        }),
    decreases events.len(),
{
    if events.len() > 0 {
        let before = events.drop_last();
        assert forall|i: int| 0 <= i < before.len() implies match #[trigger] before[i] {
            SpoolEvent::Client(ReaderEvent::Data(d)) => d@.len() <= CHUNK_SIZE,
            _ => true,
        } by {
            assert(before[i] == events[i]);
        }
        law_full_spool_holds_the_client_back(before);
        let r = reader_run(before);
        let now = reader_run(events);
        assert(events.last() == events[events.len() - 1]);
        assert(now.spool.data =~= now.taken.skip(now.spool.acked as int));
    }
}

// ---------------------------------------------------------------------------
// Feedback
// ---------------------------------------------------------------------------

/// What the reader of the feedback half passes on.
#[derive(Debug)]
pub enum AckMsg {
    /// The receiver has delivered so many bytes.
    Ack { bytes_received: u64 },
    /// The receiver has delivered everything.
    Done,
    /// The receiver gave up.
    Error { code: u32, reason: String },
    /// The feedback half failed.
    StreamError(String),
}

/// What the reader of the feedback half does next.
#[derive(Debug, Clone, Copy, PartialEq, Eq, Structural)]
pub enum ReaderNext {
    /// Read the next message.
    Continue,
    /// Wait for the feedback half of a fresh stream.
    AwaitStream,
    /// End.
    Exit,
}

/// Passes a feedback message on; a failed read has the text of its error.
pub fn on_feedback(read: Result<WormholeMsg, String>) -> (r: (AckMsg, ReaderNext))
    ensures
        match read {
            Ok(WormholeMsg::Ack { bytes_received }) => r == (
                AckMsg::Ack { bytes_received },
                ReaderNext::Continue,
            ),
            Ok(WormholeMsg::Done) => r == (AckMsg::Done, ReaderNext::Exit),
            Ok(WormholeMsg::Error { code, reason }) => r == (
                AckMsg::Error { code, reason },
                ReaderNext::Exit,
            ),
            Err(e) => r == (AckMsg::StreamError(e), ReaderNext::AwaitStream),
        },
{
    match read {
        Ok(WormholeMsg::Ack { bytes_received }) => (
            AckMsg::Ack { bytes_received },
            ReaderNext::Continue,
        ),
        Ok(WormholeMsg::Done) => (AckMsg::Done, ReaderNext::Exit),
        Ok(WormholeMsg::Error { code, reason }) => (
            AckMsg::Error { code, reason },
            ReaderNext::Exit,
        ),
        Err(e) => (AckMsg::StreamError(e), ReaderNext::AwaitStream),
    }
}

/// What is due after an acknowledgement.
#[derive(Debug, Clone, Copy, PartialEq, Eq, Structural)]
pub struct Acked {
    /// Whether the acknowledgement is a new one: the reader of the client's socket
    /// is to look for free space.
    pub fresh: bool,
    /// Progress reports to the client.
    pub progress: u64,
}

/// What ends, or carries on, an uplink.
#[derive(Debug)]
pub enum UplinkNext {
    /// Go on.
    Continue,
    /// Tell the pump that the link is down and wait for a fresh stream.
    AwaitStream,
    /// The transfer is complete: so many bytes.
    Done(u64),
    /// The transfer failed.
    Failed(Failure),
}

/// Feedback state of one outbound stream.
#[derive(Debug, Clone, Copy, PartialEq, Eq, Structural)]
pub struct AckTask {
    /// Bytes that the receiver has delivered.
    pub bytes_sent: u64,
    /// Bytes at which the next progress report is due.
    pub next_progress: u64,
    /// Whether the pump has been told to finish.
    pub finish_sent: bool,
}

impl AckTask {
    /// The state of a stream that has just been opened.
    pub fn new() -> (r: Self)
        ensures
            r == (AckTask {
                bytes_sent: 0,
                next_progress: PROGRESS_INTERVAL_BYTES,
                finish_sent: false,
            }),
    {
        AckTask { bytes_sent: 0, next_progress: PROGRESS_INTERVAL_BYTES, finish_sent: false }
    }

    /// Releases what is acknowledged. An acknowledgement that is not ahead of the
    /// spool's changes nothing.
    pub fn on_ack(&mut self, spool: &mut SpoolBuffer, bytes_received: u64) -> (r: Acked)
        requires
            old(spool).wf(),
            bytes_received + PROGRESS_INTERVAL_BYTES <= u64::MAX,
            old(self).bytes_sent + PROGRESS_INTERVAL_BYTES <= u64::MAX,
        ensures
            final(spool).wf(),
            final(spool)@ == old(spool)@.acked_to(bytes_received as nat),
            r.fresh == (bytes_received > old(spool)@.acked),
            final(self).finish_sent == old(self).finish_sent,
            if r.fresh {
                &&& final(self).bytes_sent == (if bytes_received > old(self).bytes_sent {
                    bytes_received
                } else {
                    old(self).bytes_sent
                })
                &&& r.progress == progress_steps(
                    final(self).bytes_sent as nat,
                    old(self).next_progress as nat,
                )
                &&& final(self).next_progress == old(self).next_progress + r.progress
                    * PROGRESS_INTERVAL_BYTES
            } else {
                r.progress == 0 && *final(self) == *old(self)
            },
    {
        let prev: u64 = spool.bytes_acked();
        spool.ack(bytes_received);
        if bytes_received > prev {
            if bytes_received > self.bytes_sent {
                self.bytes_sent = bytes_received;
            }
            let mut next: u64 = self.next_progress;
            let progress: u64 = progress_due(self.bytes_sent, &mut next);
            self.next_progress = next;
            Acked { fresh: true, progress }
        } else {
            Acked { fresh: false, progress: 0 }
        }
    }

    /// Whether the pump is to be told to finish now: the client has closed and it
    /// has not been told yet.
    pub fn try_send_finish(&mut self, spool: &SpoolBuffer) -> (r: bool)
        ensures
            r == (!old(self).finish_sent && spool@.eof),
            *final(self) == (AckTask {
                finish_sent: old(self).finish_sent || spool@.eof,
                ..*old(self)
            }),
    {
        if self.finish_sent {
            return false;
        }
        if spool.at_eof() {
            self.finish_sent = true;
            true
        } else {
            false
        }
    }

    /// What a feedback message other than an acknowledgement leads to; nothing when
    /// the feedback reader has gone.
    pub fn on_message(&self, msg: Option<AckMsg>) -> (r: UplinkNext)
        ensures
            match msg {
                Some(AckMsg::Ack { .. }) => r is Continue,
                Some(AckMsg::Done) => r == UplinkNext::Done(self.bytes_sent),
                Some(AckMsg::Error { code, reason }) => r matches UplinkNext::Failed(f) && f.says(
                    FailReason::Code(code as i32),
                    reason@,
                    None,
                ),
                Some(AckMsg::StreamError(_)) => r is AwaitStream,
                None => r matches UplinkNext::Failed(f) && f.says(
                    FailReason::LinkFailed,
                    "ack reader exited without Done"@,
                    None,
                ),
            },
    {
        match msg {
            Some(AckMsg::Ack { .. }) => UplinkNext::Continue,
            Some(AckMsg::Done) => UplinkNext::Done(self.bytes_sent),
            Some(AckMsg::Error { code, reason }) => UplinkNext::Failed(
                Failure {
                    code: FailReason::Code(#[verifier::truncate] (code as i32)),
                    reason,
                    to_peer: None,
                },
            ),
            Some(AckMsg::StreamError(_)) => UplinkNext::AwaitStream,
            None => UplinkNext::Failed(
                Failure {
                    code: FailReason::LinkFailed,
                    reason: "ack reader exited without Done".to_owned(),
                    to_peer: None,
                },
            ),
        }
    }

    /// A fresh stream is there: the offset to replay from. The pump is told to
    /// finish anew when the client has closed.
    pub fn on_fresh_stream(&mut self, spool: &SpoolBuffer) -> (replay_from: u64)
        ensures
            replay_from == spool@.acked,
            *final(self) == (AckTask { finish_sent: false, ..*old(self) }),
    {
        self.finish_sent = false;
        spool.bytes_acked()
    }

    /// No fresh stream will come.
    pub fn on_handle_dropped(&self) -> (r: Failure)
        ensures
            r.says(FailReason::LinkFailed, "link failed permanently"@, None),
    {
        Failure {
            code: FailReason::LinkFailed,
            reason: "link failed permanently".to_owned(),
            to_peer: None,
        }
    }
}

// ---------------------------------------------------------------------------
// The feedback loop
// ---------------------------------------------------------------------------

/// What the feedback loop of an outbound stream waits for.
#[derive(Debug, Clone, Copy, PartialEq, Eq, Structural)]
pub enum FeedbackPhase {
    /// Feedback of the receiver.
    Running,
    /// A fresh stream after the link failed.
    AwaitStream,
    /// Nothing: the transfer is over.
    Ended,
}

/// What happens to the feedback loop.
#[derive(Debug)]
pub enum FeedbackEvent {
    /// The client sent bytes or has closed.
    Woken,
    /// Feedback arrived, or its reader has gone.
    Feedback(Option<AckMsg>),
    /// A fresh stream was handed over, or none will come any more.
    Stream(bool),
}

/// What the feedback loop does next.
#[derive(Debug)]
pub enum FeedbackMove {
    /// Wait.
    Wait,
    /// Tell the pump that the link is down, and wait for a fresh stream.
    LinkDown,
    /// Hand the halves of the fresh stream on; the pump replays from this offset.
    Resume(u64),
    /// Tell the client that so many bytes were transferred, and end.
    Done(u64),
    /// Tell the client of the failure, and end.
    Fail(Failure),
    /// Nothing: the loop does not wait for this.
    Ignore,
}

/// An event's outcome: the next move, then what is due besides.
#[derive(Debug)]
pub struct FeedbackStep {
    pub next: FeedbackMove,
    /// Wake the reader of the client's socket: bytes were released.
    pub space: bool,
    /// Progress reports to the client.
    pub progress: u64,
    /// Tell the pump to finish.
    pub finish: bool,
}

/// Feedback loop of one outbound stream.
#[derive(Debug, Clone, Copy, PartialEq, Eq, Structural)]
pub struct FeedbackLoop {
    pub phase: FeedbackPhase,
    pub task: AckTask,
}

/// The feedback state after an acknowledgement that finds `acked` bytes acknowledged.
pub open spec fn task_acked(t: AckTask, acked: nat, bytes_received: u64) -> AckTask {
    if bytes_received > acked {
        let sent = if bytes_received > t.bytes_sent {
            bytes_received
        } else {
            t.bytes_sent
        };
        AckTask {
            bytes_sent: sent,
            next_progress: (t.next_progress + progress_steps(sent as nat, t.next_progress as nat)
                * PROGRESS_INTERVAL_BYTES) as u64,
            ..t
        }
    } else {
        t
    }
}

/// The progress reports that such an acknowledgement leads to.
pub open spec fn progress_acked(t: AckTask, acked: nat, bytes_received: u64) -> nat {
    if bytes_received > acked {
        progress_steps(
            task_acked(t, acked, bytes_received).bytes_sent as nat,
            t.next_progress as nat,
        )
    } else {
        0
    }
}

/// The feedback state once the pump has been told to finish if the client has closed.
pub open spec fn told(t: AckTask, eof: bool) -> AckTask {
    AckTask { finish_sent: t.finish_sent || eof, ..t }
}

/// The loop after an event.
pub open spec fn loop_after(l: FeedbackLoop, e: FeedbackEvent, s: Spool) -> FeedbackLoop {
    match (l.phase, e) {
        (FeedbackPhase::Running, FeedbackEvent::Woken) => FeedbackLoop {
            task: told(l.task, s.eof),
            ..l
        },
        (FeedbackPhase::AwaitStream, FeedbackEvent::Woken) => FeedbackLoop {
            task: told(l.task, s.eof),
            ..l
        },
        (FeedbackPhase::Running, FeedbackEvent::Feedback(msg)) => match msg {
            Some(AckMsg::Ack { bytes_received }) => FeedbackLoop {
                task: told(task_acked(l.task, s.acked, bytes_received), s.eof),
                ..l
            },
            Some(AckMsg::StreamError(_)) => FeedbackLoop {
                phase: FeedbackPhase::AwaitStream,
                task: told(l.task, s.eof),
            },
            Some(_) => FeedbackLoop { phase: FeedbackPhase::Ended, ..l },
            None => FeedbackLoop { phase: FeedbackPhase::Ended, task: told(l.task, s.eof) },
        },
        (FeedbackPhase::AwaitStream, FeedbackEvent::Stream(there)) => if there {
            FeedbackLoop {
                phase: FeedbackPhase::Running,
                task: AckTask { finish_sent: s.eof, ..l.task },
            }
        } else {
            FeedbackLoop { phase: FeedbackPhase::Ended, ..l }
        },
        _ => l,
    }
}

/// The spool after an event.
pub open spec fn spool_after_feedback(l: FeedbackLoop, e: FeedbackEvent, s: Spool) -> Spool {
    match (l.phase, e) {
        (
            FeedbackPhase::Running,
            FeedbackEvent::Feedback(Some(AckMsg::Ack { bytes_received })),
        ) => s.acked_to(bytes_received as nat),
        _ => s,
    }
}

/// `step` is what the loop does on an event.
pub open spec fn loop_does(
    l: FeedbackLoop,
    e: FeedbackEvent,
    s: Spool,
    step: FeedbackStep,
) -> bool {
    let quiet = !step.space && step.progress == 0;
    let tells = step.finish == (!l.task.finish_sent && s.eof);
    match (l.phase, e) {
        (FeedbackPhase::Running, FeedbackEvent::Woken) => step.next is Wait && quiet && tells,
        (FeedbackPhase::AwaitStream, FeedbackEvent::Woken) => step.next is Wait && quiet && tells,
        (FeedbackPhase::Running, FeedbackEvent::Feedback(msg)) => match msg {
            Some(AckMsg::Ack { bytes_received }) => {
                &&& step.next is Wait
                &&& step.space == (bytes_received > s.acked)
                &&& step.progress == progress_acked(l.task, s.acked, bytes_received)
                &&& tells
            },
            Some(AckMsg::Done) => {
                &&& step.next == FeedbackMove::Done(l.task.bytes_sent)
                &&& quiet && !step.finish
            },
            Some(AckMsg::Error { code, reason }) => {
                &&& step.next matches FeedbackMove::Fail(f) && f.says(
                    FailReason::Code(code as i32),
                    reason@,
                    None,
                )
                &&& quiet && !step.finish
            },
            Some(AckMsg::StreamError(_)) => step.next is LinkDown && quiet && tells,
            None => {
                &&& step.next matches FeedbackMove::Fail(f) && f.says(
                    FailReason::LinkFailed,
                    "ack reader exited without Done"@,
                    None,
                )
                &&& quiet && tells
            },
        },
        (FeedbackPhase::AwaitStream, FeedbackEvent::Stream(there)) => if there {
            step.next == FeedbackMove::Resume(s.acked as u64) && quiet && step.finish == s.eof
        } else {
            &&& step.next matches FeedbackMove::Fail(f) && f.says(
                FailReason::LinkFailed,
                "link failed permanently"@,
                None,
            )
            &&& quiet && !step.finish
        },
        _ => step.next is Ignore && quiet && !step.finish,
    }
}

impl FeedbackLoop {
    /// The bytes that were acknowledged can be counted.
    pub open spec fn wf(&self) -> bool {
        self.task.bytes_sent + PROGRESS_INTERVAL_BYTES <= u64::MAX
    }

    /// The loop of a stream that has just been opened.
    pub fn new() -> (r: Self)
        ensures
            r.wf(),
            r.phase == FeedbackPhase::Running,
            r.task == (AckTask {
                bytes_sent: 0,
                next_progress: PROGRESS_INTERVAL_BYTES,
                finish_sent: false,
            }),
    {
        FeedbackLoop { phase: FeedbackPhase::Running, task: AckTask::new() }
    }

    /// Takes an event; gives what to do next. While the transfer goes on, the pump of
    /// a client that has closed has been told to finish.
    pub fn on_event(&mut self, event: FeedbackEvent, spool: &mut SpoolBuffer) -> (r: FeedbackStep)
        requires
            old(spool).wf(),
            old(self).wf(),
            event matches FeedbackEvent::Feedback(Some(AckMsg::Ack { bytes_received }))
                ==> bytes_received + PROGRESS_INTERVAL_BYTES <= u64::MAX,
        ensures
            final(spool).wf(),
            final(self).wf(),
            final(spool)@ == spool_after_feedback(*old(self), event, old(spool)@),
            *final(self) == loop_after(*old(self), event, old(spool)@),
            loop_does(*old(self), event, old(spool)@, r),
    {
        match (self.phase, event) {
            (FeedbackPhase::Running, FeedbackEvent::Woken) => {
                let finish: bool = self.task.try_send_finish(spool);
                FeedbackStep { next: FeedbackMove::Wait, space: false, progress: 0, finish }
            },
            (FeedbackPhase::AwaitStream, FeedbackEvent::Woken) => {
                let finish: bool = self.task.try_send_finish(spool);
                FeedbackStep { next: FeedbackMove::Wait, space: false, progress: 0, finish }
            },
            (FeedbackPhase::Running, FeedbackEvent::Feedback(msg)) => self.on_feedback(msg, spool),
            (FeedbackPhase::AwaitStream, FeedbackEvent::Stream(there)) => {
                if there {
                    let replay_from: u64 = self.task.on_fresh_stream(spool);
                    let finish: bool = self.task.try_send_finish(spool);
                    self.phase = FeedbackPhase::Running;
                    FeedbackStep {
                        next: FeedbackMove::Resume(replay_from),
                        space: false,
                        progress: 0,
                        finish,
                    }
                } else {
                    self.phase = FeedbackPhase::Ended;
                    FeedbackStep {
                        next: FeedbackMove::Fail(self.task.on_handle_dropped()),
                        space: false,
                        progress: 0,
                        finish: false,
                    }
                }
            },
            _ => FeedbackStep {
                next: FeedbackMove::Ignore,
                space: false,
                progress: 0,
                finish: false,
            },
        }
    }

    fn on_feedback(&mut self, msg: Option<AckMsg>, spool: &mut SpoolBuffer) -> (r: FeedbackStep)
        requires
            old(spool).wf(),
            old(self).wf(),
            old(self).phase == FeedbackPhase::Running,
            msg matches Some(AckMsg::Ack { bytes_received }) ==> bytes_received
                + PROGRESS_INTERVAL_BYTES <= u64::MAX,
        ensures
            final(spool).wf(),
            final(self).wf(),
            final(spool)@ == spool_after_feedback(
                *old(self),
                FeedbackEvent::Feedback(msg),
                old(spool)@,
            ),
            *final(self) == loop_after(*old(self), FeedbackEvent::Feedback(msg), old(spool)@),
            loop_does(*old(self), FeedbackEvent::Feedback(msg), old(spool)@, r),
    {
        match msg {
            Some(AckMsg::Ack { bytes_received }) => {
                let acked: Acked = self.task.on_ack(spool, bytes_received);
                let finish: bool = self.task.try_send_finish(spool);
                FeedbackStep {
                    next: FeedbackMove::Wait,
                    space: acked.fresh,
                    progress: acked.progress,
                    finish,
                }
            },
            Some(AckMsg::StreamError(_)) => {
                let finish: bool = self.task.try_send_finish(spool);
                self.phase = FeedbackPhase::AwaitStream;
                FeedbackStep { next: FeedbackMove::LinkDown, space: false, progress: 0, finish }
            },
            other => {
                let finish: bool = match other {
                    None => self.task.try_send_finish(spool),
                    _ => false,
                };
                self.phase = FeedbackPhase::Ended;
                let next: FeedbackMove = match self.task.on_message(other) {
                    UplinkNext::Done(bytes) => FeedbackMove::Done(bytes),
                    UplinkNext::Failed(failure) => FeedbackMove::Fail(failure),
                    _ => FeedbackMove::Wait,
                };
                FeedbackStep { next, space: false, progress: 0, finish }
            },
        }
    }
}

/// A run of a new feedback loop; before each event the spool may have changed, so it
/// comes with the event.
pub open spec fn loop_over(events: Seq<(FeedbackEvent, Spool)>) -> FeedbackLoop
    decreases events.len(),
{
    if events.len() == 0 {
        FeedbackLoop {
            phase: FeedbackPhase::Running,
            task: AckTask {
                bytes_sent: 0,
                next_progress: PROGRESS_INTERVAL_BYTES,
                finish_sent: false,
            },
        }
    } else {
        loop_after(loop_over(events.drop_last()), events.last().0, events.last().1)
    }
}

/// Once the client has closed, the pump of a stream that goes on has been told to
/// finish after the next event, whether that event is a wake-up, an acknowledgement,
/// an outage or a fresh stream; after an outage it is told anew.
pub proof fn law_finish_is_never_missed(l: FeedbackLoop, e: FeedbackEvent, s: Spool)
    requires
        l.phase != FeedbackPhase::Ended,
        s.eof,
        l.phase == FeedbackPhase::Running ==> !(e is Stream),
        l.phase == FeedbackPhase::AwaitStream ==> !(e is Feedback),
    ensures
        loop_after(l, e, s).phase != FeedbackPhase::Ended ==> loop_after(l, e, s).task.finish_sent,
        forall|step: FeedbackStep|
            l.phase == FeedbackPhase::AwaitStream && e == FeedbackEvent::Stream(true)
                && #[trigger] loop_does(l, e, s, step) ==> step.finish,
{
}

/// The bytes reported as transferred never shrink, and a transfer that is over stays
/// as it is.
pub proof fn law_transferred_bytes_never_shrink(events: Seq<(FeedbackEvent, Spool)>, n: int)
    requires
        0 <= n <= events.len(),
    ensures
        loop_over(events.take(n)).task.bytes_sent <= loop_over(events).task.bytes_sent,
        loop_over(events.take(n)).phase == FeedbackPhase::Ended ==> loop_over(events)
            == loop_over(events.take(n)),
    decreases events.len(),
{
    if n == events.len() {
        assert(events.take(n) =~= events);
    } else {
        assert(events.drop_last().take(n) =~= events.take(n));
        law_transferred_bytes_never_shrink(events.drop_last(), n);
    }
}

/// An acknowledgement releases exactly the bytes that it names and that are held, and
/// wakes the reader of the client's socket when it is news; the bytes reported as
/// transferred are the most that was ever acknowledged beyond what was known.
pub proof fn law_acknowledgement_releases_bytes(
    l: FeedbackLoop,
    s: Spool,
    n: u64,
    step: FeedbackStep,
)
    requires
        l.wf(),
        l.phase == FeedbackPhase::Running,
        n + PROGRESS_INTERVAL_BYTES <= u64::MAX,
        s.acked <= s.end(),
        loop_does(
            l,
            FeedbackEvent::Feedback(Some(AckMsg::Ack { bytes_received: n })),
            s,
            step,
        ),
    ensures
        ({
            let e = FeedbackEvent::Feedback(Some(AckMsg::Ack { bytes_received: n }));
            let t = spool_after_feedback(l, e, s);
            let m = loop_after(l, e, s);
            &&& t.end() == s.end()
            &&& t.eof == s.eof
            &&& n <= s.acked ==> t.acked == s.acked && t.data == s.data
            &&& s.acked <= n <= s.end() ==> t.acked == n && t.data == s.data.skip(
                (n - s.acked) as int,
            )
            &&& s.end() <= n ==> t.acked == s.end() && t.data.len() == 0
            &&& step.next is Wait
            &&& step.space <==> n > s.acked
            &&& m.phase == FeedbackPhase::Running
            &&& n > s.acked && n >= l.task.bytes_sent ==> m.task.bytes_sent == n
            &&& m.task.bytes_sent >= l.task.bytes_sent
            &&& m.task.bytes_sent == l.task.bytes_sent || m.task.bytes_sent == n
            &&& n <= s.acked ==> step.progress == 0
        }),
{
    let e = FeedbackEvent::Feedback(Some(AckMsg::Ack { bytes_received: n }));
    let t = spool_after_feedback(l, e, s);
    assert(s.data.skip(0) =~= s.data);
}

/// Only acknowledgements touch the spool.
pub proof fn law_only_acknowledgements_release(l: FeedbackLoop, e: FeedbackEvent, s: Spool)
    requires
        !(e matches FeedbackEvent::Feedback(Some(AckMsg::Ack { .. }))),
    ensures
        spool_after_feedback(l, e, s) == s,
{
}

/// An outage is waited out: the pump is told that the link is down, a fresh stream is
/// taken up at the first byte that is not acknowledged, and only when none will come does
/// the transfer fail. The receiver's word ends a transfer: with the bytes it has
/// acknowledged, or with its own code and reason.
pub proof fn law_feedback_decides_how_a_transfer_goes_on(
    l: FeedbackLoop,
    e: FeedbackEvent,
    s: Spool,
    step: FeedbackStep,
)
    requires
        s.acked <= u64::MAX,
        loop_does(l, e, s, step),
    ensures
        l.phase == FeedbackPhase::Running && (e matches FeedbackEvent::Feedback(
            Some(AckMsg::StreamError(_)),
        )) ==> step.next is LinkDown && loop_after(l, e, s).phase == FeedbackPhase::AwaitStream,
        l.phase == FeedbackPhase::AwaitStream && e == FeedbackEvent::Stream(true) ==> (step.next
            matches FeedbackMove::Resume(from) && from == s.acked) && loop_after(l, e, s).phase
            == FeedbackPhase::Running,
        l.phase == FeedbackPhase::AwaitStream && e == FeedbackEvent::Stream(false) ==> (step.next
            matches FeedbackMove::Fail(f) && f.code == FailReason::LinkFailed) && loop_after(
            l,
            e,
            s,
        ).phase == FeedbackPhase::Ended,
        l.phase == FeedbackPhase::Running && (e matches FeedbackEvent::Feedback(
            Some(AckMsg::Done),
        )) ==> step.next == FeedbackMove::Done(l.task.bytes_sent) && loop_after(l, e, s).phase
            == FeedbackPhase::Ended,
        l.phase == FeedbackPhase::Running ==> (e matches FeedbackEvent::Feedback(
            Some(AckMsg::Error { code, reason }),
        ) ==> (step.next matches FeedbackMove::Fail(f) && f.code == FailReason::Code(code as i32)
            && f.reason@ == reason@) && loop_after(l, e, s).phase == FeedbackPhase::Ended),
        step.next is Done || step.next is Fail <==> l.phase != FeedbackPhase::Ended && loop_after(
            l,
            e,
            s,
        ).phase == FeedbackPhase::Ended,
        step.finish ==> s.eof && loop_after(l, e, s).task.finish_sent,
        s.eof && l.phase == FeedbackPhase::Running && !l.task.finish_sent && e is Woken
            ==> step.finish,
        loop_after(l, e, s).task.bytes_sent >= l.task.bytes_sent,
{
}

/// What the client sends goes to the end of the spool, byte for byte; the client is read
/// on exactly when another chunk fits; and its end is noted.
pub proof fn law_client_bytes_are_spooled(
    phase: ReaderPhase,
    e: ReaderEvent,
    s: Spool,
    q: nat,
    step: ReaderStep,
)
    requires
        s.end() + CHUNK_SIZE <= u64::MAX,
        q <= s.end(),
        e matches ReaderEvent::Data(d) ==> d@.len() <= CHUNK_SIZE,
        reader_does(phase, e, s, q, step),
    ensures
        phase == ReaderPhase::Reading ==> (e matches ReaderEvent::Data(d) ==> {
            let t = spool_after(phase, e, s);
            &&& t.acked == s.acked
            &&& t.data == s.data + d@
            &&& t.eof == s.eof
            &&& (step.backlog matches Some(b) && b == s.end() + d@.len() - q)
        }),
        phase == ReaderPhase::Reading && e is Eof ==> {
            let t = spool_after(phase, e, s);
            &&& t.eof
            &&& t.acked == s.acked
            &&& t.data == s.data
            &&& step.next is Stop
            &&& reader_after(phase, e, s) == ReaderPhase::Ended
            &&& (step.backlog matches Some(b) && b == s.end() - q)
        },
        phase != ReaderPhase::Reading ==> spool_after(phase, e, s) == s,
        step.next is Read || step.next is AwaitSpace ==> {
            &&& step.next is Read <==> spool_after(phase, e, s).data.len() + 16_384 <= 1_048_576
            &&& step.next is Read <==> reader_after(phase, e, s) == ReaderPhase::Reading
            &&& step.next is AwaitSpace <==> reader_after(phase, e, s) == ReaderPhase::AwaitSpace
        },
        (phase == ReaderPhase::Reading && e is Data) || (phase == ReaderPhase::AwaitSpace
            && e is Space) || (phase == ReaderPhase::AwaitClient && (e matches ReaderEvent::Client(
            Ok(_),
        ))) ==> step.next is Read || step.next is AwaitSpace,
        step.next is Fail ==> reader_after(phase, e, s) == ReaderPhase::Ended,
        phase == ReaderPhase::Reading && e is Failed ==> (step.next matches ReaderMove::Fail(f)
            && f.code == FailReason::SenderClosed),
        phase == ReaderPhase::AwaitClient && (e matches ReaderEvent::Client(Err(_))) ==> (step.next
            matches ReaderMove::Fail(f) && f.code == FailReason::Unknown),
{
}

/// Progress follows the bytes: the reports that an acknowledgement leads to are as many
/// as there are whole intervals between what was and what is acknowledged, and nothing
/// else leads to any.
pub proof fn law_progress_follows_the_bytes(
    l: FeedbackLoop,
    e: FeedbackEvent,
    s: Spool,
    step: FeedbackStep,
)
    requires
        l.wf(),
        l.task.next_progress == (l.task.bytes_sent as nat / 1_048_576 + 1) * 1_048_576,
        e matches FeedbackEvent::Feedback(Some(AckMsg::Ack { bytes_received })) ==> bytes_received
            + 1_048_576 <= u64::MAX,
        loop_does(l, e, s, step),
    ensures
        ({
            let t = loop_after(l, e, s).task;
            &&& step.progress == t.bytes_sent as nat / 1_048_576 - l.task.bytes_sent as nat
                / 1_048_576
            &&& t.next_progress == (t.bytes_sent as nat / 1_048_576 + 1) * 1_048_576
        }),
{
}

} // verus!
