//! The pump of one outbound stream: it drains the spool into the transport as far
//! as the bandwidth grants allow.

use vstd::prelude::*;

use crate::framing::Chunk;
use crate::spool::{Spool, SpoolBuffer};

verus! {

/// A command to a pump.
#[derive(Debug, Clone, Copy, PartialEq, Eq, Structural)]
pub enum RateCmd {
    /// The link went down.
    LinkDown,
    /// The link is up again, with a fresh write half.
    LinkUp,
    /// The client has closed: drain the spool, then end the stream.
    Finish,
    /// Nobody commands the pump any more.
    Closed,
}

/// What a pump does after a command.
#[derive(Debug, Clone, Copy, PartialEq, Eq, Structural)]
pub enum PumpNext {
    /// Wait for the next grant or command.
    Run,
    /// Drain once with a grant of one byte: nothing is left to send, so no further
    /// grant will come, and the end of the stream is still to be signalled.
    DrainNow,
    /// Wait for the link; grants are discarded meanwhile.
    Wait,
    /// Use the fresh write half and go on.
    Resume,
    /// End.
    Exit,
}

/// The next step of a drain.
#[derive(Debug)]
pub enum DrainStep {
    /// The drain is over for now.
    Stop,
    /// Everything has been sent: end the stream.
    Fin,
    /// Write this chunk.
    Send(Chunk),
}

/// State of one pump.
#[derive(Debug, Clone, Copy, PartialEq, Eq, Structural)]
pub struct StreamPump {
    /// Next byte to send (`Q`).
    pub q: u64,
    /// Whether the end of the stream has been signalled.
    pub done: bool,
    /// Whether the stream is to be ended once the spool is drained.
    pub finishing: bool,
    /// Whether the pump waits for the link.
    pub paused: bool,
}

/// The bytes that a drain with `remaining` bytes of grant sends next: a piece of
/// the spool from `q` on, no longer than a chunk.
pub open spec fn next_piece(spool: Spool, q: nat, remaining: nat, chunk_size: nat) -> Seq<u8> {
    if remaining == 0 || spool.end() <= q {
        Seq::empty()
    } else {
        spool.slice(
            q,
            if remaining <= chunk_size {
                remaining
            } else {
                chunk_size
            },
        )
    }
}

impl StreamPump {
    /// A pump at the start of its stream.
    pub fn new() -> (r: Self)
        ensures
            r == (StreamPump { q: 0, done: false, finishing: false, paused: false }),
    {
        StreamPump { q: 0, done: false, finishing: false, paused: false }
    }

    /// Whether a grant is used; a paused pump discards it.
    pub fn takes_ticket(&self) -> (r: bool)
        ensures
            r == (!self.done && !self.paused),
    {
        !self.done && !self.paused
    }

    /// The next step of a drain with `remaining` bytes of grant left.
    pub fn next_step(&mut self, spool: &SpoolBuffer, remaining: u64, chunk_size: usize) -> (r:
        DrainStep)
        requires
            spool.wf(),
            spool@.acked <= old(self).q,
        ensures
            match r {
                DrainStep::Send(c) => {
                    &&& c.stream_offset == old(self).q
                    &&& c.payload@ == next_piece(
                        spool@,
                        old(self).q as nat,
                        remaining as nat,
                        chunk_size as nat,
                    )
                    &&& c.payload@.len() > 0
                    &&& c.payload@.len() <= remaining
                    &&& c.payload@.len() <= chunk_size
                    &&& old(self).q + c.payload@.len() <= spool@.end()
                    &&& spool@.end() <= u64::MAX
                    &&& *final(self) == *old(self)
                },
                DrainStep::Fin => {
                    &&& remaining > 0 && spool@.eof && spool@.end() <= old(self).q
                    &&& old(self).finishing
                    &&& *final(self) == (StreamPump { done: true, ..*old(self) })
                },
                DrainStep::Stop => {
                    &&& next_piece(
                        spool@,
                        old(self).q as nat,
                        remaining as nat,
                        chunk_size as nat,
                    ).len() == 0
                    &&& !(remaining > 0 && spool@.eof && spool@.end() <= old(self).q && old(self).finishing)
                    &&& *final(self) == *old(self)
                },
            },
    {
        if remaining == 0 {
            return DrainStep::Stop;
        }
        let head: u64 = spool.head_offset();
        if head <= self.q {
            if spool.at_eof() && self.finishing {
                self.done = true;
                return DrainStep::Fin;
            }
            return DrainStep::Stop;
        }
        let limit: usize = if remaining < chunk_size as u64 {
            remaining as usize
        } else {
            chunk_size
        };
        let payload: Vec<u8> = spool.slice_from(self.q, limit);
        if payload.len() == 0 {
            return DrainStep::Stop;
        }
        DrainStep::Send(Chunk { stream_offset: self.q, payload })
    }

    /// Notes that a chunk of `n` bytes was written; gives what is left of a grant.
    pub fn on_sent(&mut self, n: u64, remaining: u64) -> (left: u64)
        requires
            old(self).q + n <= u64::MAX,
        ensures
            *final(self) == (StreamPump { q: (old(self).q + n) as u64, ..*old(self) }),
            left == (if n <= remaining {
                remaining - n
            } else {
                0
            }),
    {
        self.q = self.q + n;
        remaining.saturating_sub(n)
    }

    /// Notes that a chunk could not be written: the pump waits for the link.
    pub fn on_write_failed(&mut self)
        ensures
            *final(self) == (StreamPump { paused: true, ..*old(self) }),
    {
        self.paused = true;
    }

    /// Whether the stream is to be ended now that a drain is over: the grant may
    /// have been used up by the very last chunk.
    pub fn after_drain(&mut self, spool: &SpoolBuffer) -> (fin: bool)
        requires
            spool.wf(),
        ensures
            fin == (old(self).finishing && spool@.eof && spool@.end() <= old(self).q),
            *final(self) == (StreamPump { done: old(self).done || fin, ..*old(self) }),
    {
        if self.finishing && spool.at_eof() && spool.head_offset() <= self.q {
            self.done = true;
            true
        } else {
            false
        }
    }

    /// Takes a command. When the link goes down or comes up, sending goes back to
    /// the first byte that is not acknowledged.
    pub fn on_command(&mut self, cmd: RateCmd, spool: &SpoolBuffer) -> (r: PumpNext)
        requires
            spool.wf(),
        ensures
            match cmd {
                RateCmd::LinkDown => {
                    &&& r == PumpNext::Wait
                    &&& *final(self) == (StreamPump {
                        q: spool@.acked as u64,
                        paused: true,
                        ..*old(self)
                    })
                },
                RateCmd::LinkUp => if old(self).paused {
                    &&& r == PumpNext::Resume
                    &&& *final(self) == (StreamPump {
                        q: spool@.acked as u64,
                        paused: false,
                        ..*old(self)
                    })
                } else {
                    r == PumpNext::Run && *final(self) == *old(self)
                },
                RateCmd::Finish => {
                    &&& r == (if old(self).paused {
                        PumpNext::Wait
                    } else if spool@.end() <= old(self).q {
                        PumpNext::DrainNow
                    } else {
                        PumpNext::Run
                    })
                    &&& *final(self) == (StreamPump { finishing: true, ..*old(self) })
                },
                RateCmd::Closed => r == PumpNext::Exit && *final(self) == *old(self),
            },
    {
        match cmd {
            RateCmd::LinkDown => {
                self.q = spool.bytes_acked();
                self.paused = true;
                PumpNext::Wait
            },
            RateCmd::LinkUp => {
                if self.paused {
                    self.q = spool.bytes_acked();
                    self.paused = false;
                    PumpNext::Resume
                } else {
                    PumpNext::Run
                }
            },
            RateCmd::Finish => {
                self.finishing = true;
                if self.paused {
                    PumpNext::Wait
                } else if spool.head_offset() <= self.q {
                    PumpNext::DrainNow
                } else {
                    PumpNext::Run
                }
            },
            RateCmd::Closed => PumpNext::Exit,
        }
    }
}

// ---------------------------------------------------------------------------
// The pump's loop
// ---------------------------------------------------------------------------

/// What the loop of a pump waits for.
#[derive(Debug, Clone, Copy, PartialEq, Eq, Structural)]
pub enum PumpPhase {
    /// A grant or a command.
    Idle,
    /// A chunk to be written: its bytes, and what is left of the grant with them.
    Writing { len: u64, left: u64 },
    /// Nothing: the pump is over.
    Ended,
}

/// What happens to a pump.
#[derive(Debug, Clone, Copy, PartialEq, Eq, Structural)]
pub enum PumpEvent {
    /// A grant, or no more grants will come.
    Ticket(Option<u64>),
    /// A command.
    Command(RateCmd),
    /// The chunk was written.
    Wrote,
    /// The chunk could not be written.
    WriteFailed,
}

/// What the pump does next.
#[derive(Debug)]
pub enum PumpAction {
    /// Wait for the next grant or command.
    Wait,
    /// Write this chunk.
    Write(Chunk),
    /// Use the fresh write half, and wait.
    Install,
    /// Signal the end of the stream, and end.
    Fin,
    /// End.
    Exit,
    /// Nothing: the pump does not wait for this.
    Ignore,
}

/// The loop of one pump.
#[derive(Debug, Clone, Copy, PartialEq, Eq, Structural)]
pub struct PumpLoop {
    pub phase: PumpPhase,
    pub pump: StreamPump,
    /// Most bytes per chunk.
    pub chunk_size: usize,
}

/// Everything has been sent and the stream is to be ended.
pub open spec fn all_sent(p: StreamPump, s: Spool) -> bool {
    p.finishing && s.eof && s.end() <= p.q
}

/// The loop after one step of a drain with `left` bytes of grant.
pub open spec fn drain_after(l: PumpLoop, s: Spool, left: u64) -> PumpLoop {
    let piece = next_piece(s, l.pump.q as nat, left as nat, l.chunk_size as nat);
    if piece.len() > 0 {
        PumpLoop { phase: PumpPhase::Writing { len: piece.len() as u64, left }, ..l }
    } else if all_sent(l.pump, s) {
        PumpLoop {
            phase: PumpPhase::Ended,
            pump: StreamPump { done: true, ..l.pump },
            ..l
        }
    } else {
        PumpLoop { phase: PumpPhase::Idle, ..l }
    }
}

/// `a` is what one step of a drain with `left` bytes of grant does.
pub open spec fn drain_does(l: PumpLoop, s: Spool, left: u64, a: PumpAction) -> bool {
    let piece = next_piece(s, l.pump.q as nat, left as nat, l.chunk_size as nat);
    if piece.len() > 0 {
        a matches PumpAction::Write(c) && c.stream_offset == l.pump.q && c.payload@ == piece
    } else if all_sent(l.pump, s) {
        a is Fin
    } else {
        a is Wait
    }
}

/// The loop once the chunk being written is sent.
pub open spec fn after_write(l: PumpLoop, len: u64) -> PumpLoop {
    PumpLoop { pump: StreamPump { q: (l.pump.q + len) as u64, ..l.pump }, ..l }
}

/// The pump goes back to the first byte that is not acknowledged.
pub open spec fn rewound(p: StreamPump, s: Spool, paused: bool) -> StreamPump {
    StreamPump { q: s.acked as u64, paused, ..p }
}

/// The loop after an event.
pub open spec fn pump_loop_after(l: PumpLoop, e: PumpEvent, s: Spool) -> PumpLoop {
    match (l.phase, e) {
        (PumpPhase::Idle, PumpEvent::Ticket(ticket)) => match ticket {
            Some(bytes) => if l.pump.paused {
                l
            } else {
                drain_after(l, s, bytes)
            },
            None => if l.pump.paused {
                l
            } else {
                PumpLoop { phase: PumpPhase::Ended, ..l }
            },
        },
        (PumpPhase::Idle, PumpEvent::Command(cmd)) => match cmd {
            RateCmd::LinkDown => PumpLoop { pump: rewound(l.pump, s, true), ..l },
            RateCmd::LinkUp => if l.pump.paused {
                PumpLoop { pump: rewound(l.pump, s, false), ..l }
            } else {
                l
            },
            RateCmd::Finish => {
                let told = PumpLoop { pump: StreamPump { finishing: true, ..l.pump }, ..l };
                if !l.pump.paused && s.end() <= l.pump.q {
                    drain_after(told, s, 1)
                } else {
                    told
                }
            },
            RateCmd::Closed => PumpLoop { phase: PumpPhase::Ended, ..l },
        },
        (PumpPhase::Writing { len, left }, PumpEvent::Wrote) => drain_after(
            after_write(l, len),
            s,
            (left - len) as u64,
        ),
        (PumpPhase::Writing { .. }, PumpEvent::WriteFailed) => PumpLoop {
            phase: PumpPhase::Idle,
            pump: StreamPump { paused: true, ..l.pump },
            ..l
        },
        _ => l,
    }
}

/// `a` is what the loop does on an event.
pub open spec fn pump_loop_does(l: PumpLoop, e: PumpEvent, s: Spool, a: PumpAction) -> bool {
    match (l.phase, e) {
        (PumpPhase::Idle, PumpEvent::Ticket(ticket)) => match ticket {
            Some(bytes) => if l.pump.paused {
                a is Wait
            } else {
                drain_does(l, s, bytes, a)
            },
            None => if l.pump.paused {
                a is Wait
            } else {
                a is Exit
            },
        },
        (PumpPhase::Idle, PumpEvent::Command(cmd)) => match cmd {
            RateCmd::LinkDown => a is Wait,
            RateCmd::LinkUp => if l.pump.paused {
                a is Install
            } else {
                a is Wait
            },
            RateCmd::Finish => if !l.pump.paused && s.end() <= l.pump.q {
                drain_does(
                    PumpLoop { pump: StreamPump { finishing: true, ..l.pump }, ..l },
                    s,
                    1,
                    a,
                )
            } else {
                a is Wait
            },
            RateCmd::Closed => a is Exit,
        },
        (PumpPhase::Writing { len, left }, PumpEvent::Wrote) => drain_does(
            after_write(l, len),
            s,
            (left - len) as u64,
            a,
        ),
        (PumpPhase::Writing { .. }, PumpEvent::WriteFailed) => a is Wait,
        _ => a is Ignore,
    }
}

/// Where an event makes the pump read the spool from, if it does.
pub open spec fn reads_from(l: PumpLoop, e: PumpEvent) -> Option<int> {
    match (l.phase, e) {
        (PumpPhase::Idle, PumpEvent::Ticket(Some(_))) => if l.pump.paused {
            None
        } else {
            Some(l.pump.q as int)
        },
        (PumpPhase::Idle, PumpEvent::Command(RateCmd::Finish)) => if l.pump.paused {
            None
        } else {
            Some(l.pump.q as int)
        },
        (PumpPhase::Writing { len, .. }, PumpEvent::Wrote) => Some(l.pump.q + len),
        _ => None,
    }
}

impl PumpLoop {
    /// A chunk being written is within its grant, and its end can be counted.
    pub open spec fn wf(&self) -> bool {
        match self.phase {
            PumpPhase::Writing { len, left } => {
                &&& 0 < len <= left
                &&& self.pump.q + len <= u64::MAX
                &&& !self.pump.done
            },
            PumpPhase::Idle => !self.pump.done,
            PumpPhase::Ended => true,
        }
    }

    /// The loop of a pump at the start of its stream.
    pub fn new(chunk_size: usize) -> (r: Self)
        ensures
            r.wf(),
            r.phase == PumpPhase::Idle,
            r.pump == (StreamPump { q: 0, done: false, finishing: false, paused: false }),
            r.chunk_size == chunk_size,
    {
        PumpLoop { phase: PumpPhase::Idle, pump: StreamPump::new(), chunk_size }
    }

    fn drain(&mut self, spool: &SpoolBuffer, left: u64) -> (r: PumpAction)
        requires
            spool.wf(),
            spool@.acked <= old(self).pump.q,
            !old(self).pump.done,
        ensures
            final(self).wf(),
            *final(self) == drain_after(*old(self), spool@, left),
            drain_does(*old(self), spool@, left, r),
    {
        match self.pump.next_step(spool, left, self.chunk_size) {
            DrainStep::Send(chunk) => {
                self.phase = PumpPhase::Writing { len: chunk.payload.len() as u64, left };
                PumpAction::Write(chunk)
            },
            DrainStep::Fin => {
                self.phase = PumpPhase::Ended;
                PumpAction::Fin
            },
            DrainStep::Stop => {
                if self.pump.after_drain(spool) {
                    self.phase = PumpPhase::Ended;
                    PumpAction::Fin
                } else {
                    self.phase = PumpPhase::Idle;
                    PumpAction::Wait
                }
            },
        }
    }

    /// Takes an event; gives what to do next. A grant is spent chunk by chunk, the
    /// next one when the last is written; a pump that waits for the link discards
    /// grants, and starts again from the first byte that is not acknowledged.
    pub fn on_event(&mut self, event: PumpEvent, spool: &SpoolBuffer) -> (r: PumpAction)
        requires
            old(self).wf(),
            spool.wf(),
            reads_from(*old(self), event) matches Some(q) ==> spool@.acked <= q,
        ensures
            final(self).wf(),
            *final(self) == pump_loop_after(*old(self), event, spool@),
            pump_loop_does(*old(self), event, spool@, r),
    {
        match (self.phase, event) {
            (PumpPhase::Idle, PumpEvent::Ticket(ticket)) => {
                if !self.pump.takes_ticket() {
                    return PumpAction::Wait;
                }
                match ticket {
                    Some(bytes) => self.drain(spool, bytes),
                    None => {
                        self.phase = PumpPhase::Ended;
                        PumpAction::Exit
                    },
                }
            },
            (PumpPhase::Idle, PumpEvent::Command(cmd)) => {
                match self.pump.on_command(cmd, spool) {
                    PumpNext::Run => PumpAction::Wait,
                    PumpNext::Wait => PumpAction::Wait,
                    PumpNext::DrainNow => self.drain(spool, 1),
                    PumpNext::Resume => PumpAction::Install,
                    PumpNext::Exit => {
                        self.phase = PumpPhase::Ended;
                        PumpAction::Exit
                    },
                }
            },
            (PumpPhase::Writing { len, left }, PumpEvent::Wrote) => {
                let rest: u64 = self.pump.on_sent(len, left);
                self.phase = PumpPhase::Idle;
                self.drain(spool, rest)
            },
            (PumpPhase::Writing { .. }, PumpEvent::WriteFailed) => {
                self.pump.on_write_failed();
                self.phase = PumpPhase::Idle;
                PumpAction::Wait
            },
            _ => PumpAction::Ignore,
        }
    }
}

/// Bytes that a drain sends from a spool that does not change meanwhile.
pub open spec fn drain_total(s: Spool, q: nat, left: nat, chunk_size: nat) -> nat
    decreases left,
{
    let n = next_piece(s, q, left, chunk_size).len();
    if n == 0 || n > left {
        0
    } else {
        n + drain_total(s, q + n, (left - n) as nat, chunk_size)
    }
}

/// A drain sends all that is waiting or all that is granted, whichever is less.
pub proof fn law_drain_spends_its_grant(s: Spool, q: nat, left: nat, chunk_size: nat)
    requires
        s.acked <= q,
        chunk_size > 0,
    ensures
        drain_total(s, q, left, chunk_size) == (if s.end() <= q {
            0
        } else if s.end() - q <= left {
            (s.end() - q) as nat
        } else {
            left
        }),
    decreases left,
{
    let n = next_piece(s, q, left, chunk_size).len();
    if left > 0 && q < s.end() {
        law_drain_spends_its_grant(s, q + n, (left - n) as nat, chunk_size);
    }
}

/// The end of the stream is signalled only once every byte has been sent and the
/// client has closed, and a pump that has signalled it does nothing any more.
pub proof fn law_end_comes_last(l: PumpLoop, e: PumpEvent, s: Spool, a: PumpAction)
    requires
        l.wf(),
        pump_loop_does(l, e, s, a),
    ensures
        a is Fin ==> {
            let t = pump_loop_after(l, e, s);
            t.phase == PumpPhase::Ended && t.pump.done && t.pump.finishing && s.eof && s.end()
                <= t.pump.q
        },
        l.phase == PumpPhase::Ended ==> a is Ignore && pump_loop_after(l, e, s) == l,
{
}

/// What the pump of a stream without a cap is told when there is something to do: that
/// the client has closed, once, and otherwise a grant for all that is there.
pub fn uncapped_event(pump: &PumpLoop, spool: &SpoolBuffer) -> (r: PumpEvent)
    ensures
        r == (if spool@.eof && !pump.pump.finishing {
            PumpEvent::Command(RateCmd::Finish)
        } else {
            PumpEvent::Ticket(Some(u64::MAX))
        }),
{
    if spool.at_eof() && !pump.pump.finishing {
        PumpEvent::Command(RateCmd::Finish)
    } else {
        PumpEvent::Ticket(Some(u64::MAX))
    }
}

/// The commands that put a pump onto a fresh write half, in order. One that was not told
/// that the link went down is told so first, so that it replays what is not acknowledged.
pub fn resume_commands(link_up: RateAction) -> (r: Vec<RateCmd>)
    ensures
        r@ == (match link_up {
            RateAction::Command(cmd) => seq![cmd],
            _ => seq![RateCmd::LinkDown, RateCmd::LinkUp],
        }),
{
    match link_up {
        RateAction::Command(cmd) => vec![cmd],
        _ => vec![RateCmd::LinkDown, RateCmd::LinkUp],
    }
}

/// A pump that is put onto a fresh write half goes on with the first byte that is not
/// acknowledged, whether or not it was told that the link went down: the next byte that
/// it sends stands at the acknowledged offset, and nothing else has changed.
pub proof fn law_resumed_pump_replays(l: PumpLoop, s: Spool)
    requires
        l.phase == PumpPhase::Idle,
        s.acked <= u64::MAX,
    ensures
        ({
            let down = pump_loop_after(l, PumpEvent::Command(RateCmd::LinkDown), s);
            let up = pump_loop_after(down, PumpEvent::Command(RateCmd::LinkUp), s);
            &&& down.phase == PumpPhase::Idle
            &&& down.pump.q == s.acked
            &&& down.pump.paused
            &&& down.pump.finishing == l.pump.finishing
            &&& down.pump.done == l.pump.done
            &&& down.chunk_size == l.chunk_size
            &&& up.phase == PumpPhase::Idle
            &&& up.pump.q == s.acked
            &&& !up.pump.paused
            &&& up.pump.finishing == l.pump.finishing
            &&& up.pump.done == l.pump.done
            &&& up.chunk_size == l.chunk_size
        }),
        l.pump.paused ==> {
            let up = pump_loop_after(l, PumpEvent::Command(RateCmd::LinkUp), s);
            up.phase == PumpPhase::Idle && up.pump.q == s.acked && !up.pump.paused
                && up.pump.finishing == l.pump.finishing && up.pump.done == l.pump.done
                && up.chunk_size == l.chunk_size
        },
        !l.pump.paused ==> pump_loop_after(l, PumpEvent::Command(RateCmd::LinkUp), s) == l,
{
}

/// After an outage every byte that was not acknowledged is sent again: the first grant
/// writes the chunk at the acknowledged offset, as long as the grant, the chunk size and
/// what is held allow, and it holds the bytes of the stream at that place.
pub proof fn law_first_grant_replays_the_unacknowledged(
    l: PumpLoop,
    s: Spool,
    stream: Seq<u8>,
    grant: u64,
    a: PumpAction,
)
    requires
        l.phase == PumpPhase::Idle,
        l.pump.paused,
        s.acked <= u64::MAX,
        s.acked < s.end(),
        s.holds(stream),
        grant > 0,
        l.chunk_size > 0,
        pump_loop_does(
            pump_loop_after(l, PumpEvent::Command(RateCmd::LinkUp), s),
            PumpEvent::Ticket(Some(grant)),
            s,
            a,
        ),
    ensures
        a matches PumpAction::Write(c) && c.stream_offset == s.acked && c.payload@.len() > 0
            && c.payload@.len() <= grant && c.payload@.len() <= l.chunk_size && (c.payload@.len()
            == grant || c.payload@.len() == l.chunk_size || s.acked + c.payload@.len() == s.end())
            && c.payload@ == stream.subrange(s.acked as int, (s.acked + c.payload@.len()) as int),
{
    let c = a->Write_0;
    assert(c.payload@ =~= stream.subrange(s.acked as int, (s.acked + c.payload@.len()) as int));
}

/// While the link is up, a chunk that was written moves the position on by its length
/// and by nothing else, and a chunk that was not written leaves it where it is.
pub proof fn law_position_counts_what_was_written(l: PumpLoop, s: Spool, len: u64, left: u64)
    requires
        l.wf(),
        l.phase == (PumpPhase::Writing { len, left }),
    ensures
        pump_loop_after(l, PumpEvent::Wrote, s).pump.q == l.pump.q + len,
        !l.pump.paused ==> !pump_loop_after(l, PumpEvent::Wrote, s).pump.paused,
        pump_loop_after(l, PumpEvent::WriteFailed, s).pump.q == l.pump.q,
        pump_loop_after(l, PumpEvent::WriteFailed, s).pump.paused,
        pump_loop_after(l, PumpEvent::WriteFailed, s).phase == PumpPhase::Idle,
{
}

/// How a lifecycle event reaches the write path of a stream.
#[derive(Debug, Clone, Copy, PartialEq, Eq, Structural)]
pub enum RateAction {
    /// Send this command to the pump.
    Command(RateCmd),
    /// Replace the write half that is written to directly.
    ReplaceDirect,
    /// Nothing.
    Nothing,
}

/// Write path of one outbound stream: through a pump when bandwidth is capped,
/// straight to the write half when it is not.
#[derive(Debug, Clone, Copy, PartialEq, Eq, Structural)]
pub struct RateLimiter {
    /// Whether a pump drives the stream.
    pub capped: bool,
}

impl RateLimiter {
    /// The write path of a stream.
    pub fn new(capped: bool) -> (r: Self)
        ensures
            r.capped == capped,
    {
        RateLimiter { capped }
    }

    /// The link went down.
    pub fn link_down(&self) -> (r: RateAction)
        ensures
            r == (if self.capped {
                RateAction::Command(RateCmd::LinkDown)
            } else {
                RateAction::Nothing
            }),
    {
        if self.capped {
            RateAction::Command(RateCmd::LinkDown)
        } else {
            RateAction::Nothing
        }
    }

    /// A fresh write half is there.
    pub fn link_up(&self) -> (r: RateAction)
        ensures
            r == (if self.capped {
                RateAction::Command(RateCmd::LinkUp)
            } else {
                RateAction::ReplaceDirect
            }),
    {
        if self.capped {
            RateAction::Command(RateCmd::LinkUp)
        } else {
            RateAction::ReplaceDirect
        }
    }

    /// The client has closed.
    pub fn finish(&self) -> (r: RateAction)
        ensures
            r == (if self.capped {
                RateAction::Command(RateCmd::Finish)
            } else {
                RateAction::Nothing
            }),
    {
        if self.capped {
            RateAction::Command(RateCmd::Finish)
        } else {
            RateAction::Nothing
        }
    }
}

/// The loop once every chunk that it asks to be written has been written.
pub open spec fn all_written(l: PumpLoop, s: Spool) -> PumpLoop
    decreases (match l.phase {
        PumpPhase::Writing { len, left } => left as nat,
        _ => 0nat,
    }),
{
    match l.phase {
        PumpPhase::Writing { len, left } => {
            let t = pump_loop_after(l, PumpEvent::Wrote, s);
            match t.phase {
                PumpPhase::Writing { left: rest, .. } => if rest < left {
                    all_written(t, s)
                } else {
                    t
                },
                _ => t,
            }
        },
        _ => l,
    }
}

proof fn lemma_chunks_spend_the_rest(l: PumpLoop, s: Spool, len: u64, left: u64)
    requires
        l.wf(),
        l.phase == (PumpPhase::Writing { len, left }),
        l.chunk_size > 0,
        s.acked <= l.pump.q,
        l.pump.q + len <= s.end() <= u64::MAX,
    ensures
        ({
            let t = all_written(l, s);
            &&& !(t.phase is Writing)
            &&& t.pump.q == (if l.pump.q + left <= s.end() {
                l.pump.q + left
            } else {
                s.end() as int
            })
            &&& t.pump.paused == l.pump.paused
        }),
    decreases left,
{
    let t = pump_loop_after(l, PumpEvent::Wrote, s);
    if let PumpPhase::Writing { len: n, left: rest } = t.phase {
        lemma_chunks_spend_the_rest(t, s, n, rest);
    }
}

/// A pump that is not held up sends all that is granted, or all that is waiting, and
/// stops there; what it starts with is a chunk at its position.
pub proof fn law_grant_is_spent(l: PumpLoop, s: Spool, bytes: u64, a: PumpAction)
    requires
        l.wf(),
        l.phase == PumpPhase::Idle,
        !l.pump.paused,
        l.chunk_size > 0,
        s.acked <= l.pump.q <= s.end(),
        s.end() <= u64::MAX,
        pump_loop_does(l, PumpEvent::Ticket(Some(bytes)), s, a),
    ensures
        ({
            let t = all_written(pump_loop_after(l, PumpEvent::Ticket(Some(bytes)), s), s);
            &&& t.pump.q == (if l.pump.q + bytes <= s.end() {
                l.pump.q + bytes
            } else {
                s.end() as int
            })
            &&& !(t.phase is Writing)
            &&& !t.pump.paused
        }),
        bytes > 0 && l.pump.q < s.end() ==> (a matches PumpAction::Write(c) && c.stream_offset
            == l.pump.q && 0 < c.payload@.len() <= bytes && c.payload@.len() <= l.chunk_size),
        bytes == 0 || l.pump.q == s.end() ==> !(a is Write),
{
    let t = pump_loop_after(l, PumpEvent::Ticket(Some(bytes)), s);
    if let PumpPhase::Writing { len, left } = t.phase {
        lemma_chunks_spend_the_rest(t, s, len, left);
    }
}

/// A pump that waits for the link sends nothing and forgets every grant.
pub proof fn law_paused_pump_sends_nothing(
    l: PumpLoop,
    s: Spool,
    ticket: Option<u64>,
    a: PumpAction,
)
    requires
        l.phase == PumpPhase::Idle,
        l.pump.paused,
        pump_loop_does(l, PumpEvent::Ticket(ticket), s, a),
    ensures
        a is Wait,
        pump_loop_after(l, PumpEvent::Ticket(ticket), s) == l,
{
}

/// The end of the stream is signalled as soon as the client has closed, the pump has been
/// told so and nothing is left to send: on being told, on a grant, or behind the last
/// chunk.
pub proof fn law_end_is_signalled(l: PumpLoop, s: Spool, e: PumpEvent, a: PumpAction)
    requires
        l.wf(),
        !l.pump.paused,
        s.eof,
        pump_loop_does(l, e, s, a),
        match (l.phase, e) {
            (PumpPhase::Idle, PumpEvent::Command(cmd)) => cmd == RateCmd::Finish && s.end()
                <= l.pump.q,
            (PumpPhase::Idle, PumpEvent::Ticket(ticket)) => ticket is Some && l.pump.finishing
                && s.end() <= l.pump.q,
            (PumpPhase::Writing { len, left }, PumpEvent::Wrote) => l.pump.finishing && s.end()
                <= l.pump.q + len,
            _ => false,
        },
    ensures
        a is Fin,
        pump_loop_after(l, e, s).phase == PumpPhase::Ended,
        pump_loop_after(l, e, s).pump.done,
{
}

/// A pump that is told to finish remembers it, whatever it does meanwhile.
pub proof fn law_finish_is_remembered(l: PumpLoop, s: Spool, e: PumpEvent)
    requires
        l.phase != PumpPhase::Ended,
        l.pump.finishing || (l.phase == PumpPhase::Idle && e == PumpEvent::Command(
            RateCmd::Finish,
        )),
    ensures
        pump_loop_after(l, e, s).pump.finishing,
{
}

/// Whatever leads to it, a chunk that is written stands where the pump stands and holds
/// the bytes of the stream from there on; it is as long as the grant, the chunk size and
/// what is held allow.
pub proof fn law_every_chunk_is_the_next_piece(
    l: PumpLoop,
    e: PumpEvent,
    s: Spool,
    stream: Seq<u8>,
    a: PumpAction,
)
    requires
        l.wf(),
        s.holds(stream),
        s.end() <= u64::MAX,
        reads_from(l, e) matches Some(q) ==> s.acked <= q,
        pump_loop_does(l, e, s, a),
    ensures
        a is Write <==> pump_loop_after(l, e, s).phase is Writing && (l.phase is Idle || e is Wrote),
        a matches PumpAction::Write(c) ==> {
            let t = pump_loop_after(l, e, s);
            let n = c.payload@.len();
            &&& c.stream_offset == t.pump.q
            &&& reads_from(l, e) == Some(t.pump.q as int)
            &&& 0 < n <= l.chunk_size
            &&& c.stream_offset + n <= stream.len()
            &&& c.payload@ == stream.subrange(c.stream_offset as int, c.stream_offset + n)
            &&& t.phase matches PumpPhase::Writing { len, left } && len == n && n <= left && (n
                == left || n == l.chunk_size || c.stream_offset + n == stream.len())
        },
{
    if let PumpAction::Write(c) = a {
        let n = c.payload@.len();
        assert(c.payload@ =~= stream.subrange(c.stream_offset as int, c.stream_offset + n));
    }
}

/// A pump ends without a word only when no more grants will come while it waits for one,
/// or when nobody commands it any more; and it ends in no other way than this or with the
/// end of the stream.
pub proof fn law_pump_ends_when_it_is_left(l: PumpLoop, e: PumpEvent, s: Spool, a: PumpAction)
    requires
        l.wf(),
        pump_loop_does(l, e, s, a),
    ensures
        a is Exit <==> l.phase == PumpPhase::Idle && (e == PumpEvent::Command(RateCmd::Closed) || (e
            == PumpEvent::Ticket(None) && !l.pump.paused)),
        l.phase != PumpPhase::Ended ==> (pump_loop_after(l, e, s).phase == PumpPhase::Ended <==> a
            is Exit || a is Fin),
        a is Install <==> l.phase == PumpPhase::Idle && l.pump.paused && e == PumpEvent::Command(
            RateCmd::LinkUp,
        ),
{
}

} // verus!
