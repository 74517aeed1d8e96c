//! What holds of a stream through the loops that carry it: the reader of the client's
//! socket, the pump, the feedback loop and the pump of the receiving side, in whatever
//! order their events come and whatever the link does in between.

use vstd::prelude::*;

use crate::downlink::{
    pump_after, pump_does, reconnect_outcome, Downlink, DownlinkAction, DownlinkEvent,
    DownlinkPhase, DownlinkPump, Reconnected,
};
use crate::failure::PROGRESS_INTERVAL_BYTES;
use crate::pump::{
    pump_loop_after, pump_loop_does, PumpAction, PumpEvent, PumpLoop, PumpPhase, RateCmd,
    StreamPump,
};
use crate::relay_laws::follows_at;
use crate::spool::Spool;
use crate::transfer_laws::{piece_of, Piece};
use crate::uplink::{
    loop_after, reader_after, spool_after, spool_after_feedback, AckMsg, AckTask, FeedbackEvent,
    FeedbackLoop, FeedbackPhase, ReaderEvent, ReaderPhase,
};

verus! {

/// A stream on its way through the loops.
pub struct Line {
    /// What the sending client was read of.
    pub stream: Seq<u8>,
    pub reader: ReaderPhase,
    pub spool: Spool,
    pub sender: PumpLoop,
    pub feedback: FeedbackLoop,
    /// The chunk that the pump is writing.
    pub sending: Piece,
    /// Whether a session is live.
    pub up: bool,
    /// Whether the pump writes to the live session.
    pub installed: bool,
    /// Whether the receiving side reads from the live session.
    pub joined: bool,
    /// Chunks and acknowledgements that the live session carries.
    pub wire: Seq<Piece>,
    pub acks: Seq<u64>,
    /// Where the next chunk on the live session starts.
    pub tip: nat,
    pub receiver: DownlinkPump,
    /// Bytes that the receiving client is being handed, and those that it has taken.
    pub handed: Seq<u8>,
    pub out: Seq<u8>,
}

/// A stream that has just been opened.
pub open spec fn fresh_line(chunk_size: usize) -> Line {
    Line {
        stream: Seq::empty(),
        reader: ReaderPhase::AwaitClient,
        spool: Spool { acked: 0, data: Seq::empty(), eof: false },
        sender: PumpLoop {
            phase: PumpPhase::Idle,
            pump: StreamPump { q: 0, done: false, finishing: false, paused: false },
            chunk_size,
        },
        feedback: FeedbackLoop {
            phase: FeedbackPhase::Running,
            task: AckTask {
                bytes_sent: 0,
                next_progress: PROGRESS_INTERVAL_BYTES,
                finish_sent: false,
            },
        },
        sending: Piece { offset: 0, data: Seq::empty() },
        up: true,
        installed: true,
        joined: false,
        wire: Seq::empty(),
        acks: Seq::empty(),
        tip: 0,
        receiver: DownlinkPump {
            phase: DownlinkPhase::AwaitStream,
            delivery: Downlink {
                bytes_written: 0,
                last_acked: 0,
                next_progress: PROGRESS_INTERVAL_BYTES,
            },
            writing: 0,
        },
        handed: Seq::empty(),
        out: Seq::empty(),
    }
}

/// What can happen to a stream.
pub enum LineEvent {
    /// At the sending client's socket.
    Reader(ReaderEvent),
    /// To the pump, and what it does.
    Sender(PumpEvent, PumpAction),
    /// To the feedback loop.
    Feedback(FeedbackEvent),
    /// To the receiving side, and what it does.
    Receiver(DownlinkEvent, DownlinkAction),
    /// The session is lost with all that it carried.
    Down,
    /// A new session is live.
    Up,
}

/// The pump's chunk has been written.
pub open spec fn chunk_goes_out(s: Line, e: PumpEvent) -> bool {
    s.sender.phase is Writing && e is Wrote
}

/// `t` is the stream after an event. A chunk can be written only to the live session; a
/// fresh write half and a fresh stream belong to it; chunks and acknowledgements arrive in
/// the order in which they were sent; reading fails only where the session was lost; and
/// the end arrives behind all chunks, once the pump has signalled it.
pub open spec fn line_steps(s: Line, ev: LineEvent, t: Line) -> bool {
    match ev {
        LineEvent::Reader(e) => {
            let taken = match (s.reader, e) {
                (ReaderPhase::Reading, ReaderEvent::Data(d)) => d@,
                _ => Seq::empty(),
            };
            &&& s.stream.len() + taken.len() + PROGRESS_INTERVAL_BYTES <= u64::MAX
            &&& t == (Line {
                stream: s.stream + taken,
                reader: reader_after(s.reader, e, s.spool),
                spool: spool_after(s.reader, e, s.spool),
                ..s
            })
        },
        LineEvent::Sender(e, a) => {
            let after = pump_loop_after(s.sender, e, s.spool);
            &&& pump_loop_does(s.sender, e, s.spool, a)
            &&& e is Wrote ==> s.installed
            &&& e == PumpEvent::Command(RateCmd::LinkUp) ==> s.up && !s.installed
            &&& t == (Line {
                sender: after,
                sending: match a {
                    PumpAction::Write(c) => Piece {
                        offset: c.stream_offset as nat,
                        data: c.payload@,
                    },
                    _ => s.sending,
                },
                wire: if chunk_goes_out(s, e) {
                    s.wire.push(s.sending)
                } else {
                    s.wire
                },
                tip: if chunk_goes_out(s, e) {
                    s.tip + s.sending.data.len()
                } else if a is Install {
                    after.pump.q as nat
                } else {
                    s.tip
                },
                installed: s.installed || a is Install,
                ..s
            })
        },
        LineEvent::Feedback(e) => {
            let is_ack = e matches FeedbackEvent::Feedback(Some(AckMsg::Ack { .. }));
            &&& e matches FeedbackEvent::Feedback(Some(AckMsg::Ack { bytes_received }))
                ==> s.feedback.phase == FeedbackPhase::Running && s.acks.len() > 0 && s.acks[0]
                == bytes_received
            &&& t == (Line {
                feedback: loop_after(s.feedback, e, s.spool),
                spool: spool_after_feedback(s.feedback, e, s.spool),
                acks: if is_ack {
                    s.acks.skip(1)
                } else {
                    s.acks
                },
                ..s
            })
        },
        LineEvent::Receiver(e, a) => {
            &&& pump_does(s.receiver, e, a)
            &&& e matches DownlinkEvent::Chunk(c) ==> s.joined && s.receiver.phase
                == DownlinkPhase::Reading && s.wire.len() > 0 && c.stream_offset
                == s.wire[0].offset && c.payload@ == s.wire[0].data
            &&& e == DownlinkEvent::Stream(true) ==> s.up && !s.joined
            &&& e is ReadFailed ==> !s.joined
            &&& e is Eof ==> s.joined && s.installed && s.sender.pump.done && s.wire.len() == 0
            &&& t == (Line {
                receiver: pump_after(s.receiver, e),
                wire: if e is Chunk {
                    s.wire.skip(1)
                } else {
                    s.wire
                },
                handed: match a {
                    DownlinkAction::Write(d) => d@,
                    _ => s.handed,
                },
                out: if a is Report {
                    s.out + s.handed
                } else {
                    s.out
                },
                acks: match a {
                    DownlinkAction::Report(w) => match w.ack {
                        Some(n) => if s.joined {
                            s.acks.push(n)
                        } else {
                            s.acks
                        },
                        None => s.acks,
                    },
                    _ => s.acks,
                },
                joined: s.joined || (e == DownlinkEvent::Stream(true) && !(a is Ignore)),
                ..s
            })
        },
        LineEvent::Down => t == (Line {
            up: false,
            installed: false,
            joined: false,
            wire: Seq::empty(),
            acks: Seq::empty(),
            ..s
        }),
        LineEvent::Up => t == (Line { up: true, ..s }),
    }
}

/// The states that a stream goes through, one before the first event and one after each.
pub open spec fn is_course(states: Seq<Line>, events: Seq<LineEvent>, chunk_size: usize) -> bool {
    &&& states.len() == events.len() + 1
    &&& states[0] == fresh_line(chunk_size)
    &&& forall|i: int|
        0 <= i < events.len() ==> line_steps(states[i], #[trigger] events[i], states[i + 1])
}

/// Bytes that the receiving side has taken off the wire.
pub open spec fn reach(r: DownlinkPump) -> nat {
    if r.phase == DownlinkPhase::Writing {
        (r.delivery.bytes_written + r.writing) as nat
    } else {
        r.delivery.bytes_written as nat
    }
}

/// The chunks under way are pieces of the stream, one behind the other up to the tip.
pub open spec fn pieces_in_line(s: Line) -> bool {
    &&& forall|i: int| 0 <= i < s.wire.len() ==> piece_of(s.stream, #[trigger] s.wire[i])
    &&& forall|i: int|
        0 <= i < s.wire.len() ==> s.wire[i].offset + s.wire[i].data.len() == #[trigger] follows_at(
            s.wire,
            s.tip,
            i,
        )
}

/// What holds of the sending side.
pub open spec fn sender_sound(s: Line) -> bool {
    &&& s.spool.holds(s.stream)
    &&& s.stream.len() + PROGRESS_INTERVAL_BYTES <= u64::MAX
    &&& s.reader != ReaderPhase::Ended ==> !s.spool.eof
    &&& s.sender.wf()
    &&& s.sender.pump.q <= s.spool.end()
    &&& !s.sender.pump.paused ==> s.spool.acked <= s.sender.pump.q
    &&& s.sender.pump.done ==> s.spool.eof && s.sender.pump.q == s.spool.end()
        && !s.sender.pump.paused && s.sender.phase == PumpPhase::Ended
    &&& s.sender.phase matches PumpPhase::Writing { len, left } ==> {
        &&& !s.sender.pump.paused
        &&& s.sending.offset == s.sender.pump.q
        &&& s.sending.data.len() == len
        &&& piece_of(s.stream, s.sending)
    }
}

/// What holds of the receiving side: the client has a front part of the stream.
pub open spec fn receiver_sound(s: Line) -> bool {
    &&& s.receiver.wf()
    &&& s.receiver.delivery.bytes_written <= s.stream.len()
    &&& s.out == s.stream.take(s.receiver.delivery.bytes_written as int)
    &&& s.spool.acked <= s.receiver.delivery.bytes_written
    &&& s.receiver.phase == DownlinkPhase::Writing ==> {
        &&& reach(s.receiver) <= s.stream.len()
        &&& s.handed == s.stream.subrange(
            s.receiver.delivery.bytes_written as int,
            reach(s.receiver) as int,
        )
    }
}

/// What holds of the live session.
pub open spec fn session_sound(s: Line) -> bool {
    &&& pieces_in_line(s)
    &&& s.installed && !s.sender.pump.paused ==> s.tip == s.sender.pump.q
    &&& s.installed ==> s.tip <= s.stream.len()
    &&& s.installed && s.receiver.phase != DownlinkPhase::Ended ==> follows_at(
        s.wire,
        s.tip,
        -1,
    ) <= reach(s.receiver)
    &&& !s.installed ==> s.wire.len() == 0 && s.acks.len() == 0 && (s.joined ==> s.receiver.phase
        != DownlinkPhase::Writing)
    &&& s.joined && s.receiver.phase == DownlinkPhase::Writing ==> reach(s.receiver) <= s.tip
    &&& forall|i: int|
        0 <= i < s.acks.len() ==> (#[trigger] s.acks[i]) <= s.tip && s.acks[i]
            <= s.receiver.delivery.bytes_written
    &&& !s.up ==> !s.installed && !s.joined
}

/// What holds at any time.
pub open spec fn line_sound(s: Line) -> bool {
    sender_sound(s) && receiver_sound(s) && session_sound(s)
}

proof fn lemma_longer_stream(s: Line, t: Line, taken: Seq<u8>)
    requires
        line_sound(s),
        t.stream == s.stream + taken,
        t.stream.len() + PROGRESS_INTERVAL_BYTES <= u64::MAX,
        t.wire == s.wire,
        t.tip == s.tip,
        t.receiver == s.receiver,
        t.out == s.out,
        t.handed == s.handed,
        t.sending == s.sending,
    ensures
        pieces_in_line(t),
        t.out == t.stream.take(t.receiver.delivery.bytes_written as int),
        s.receiver.phase == DownlinkPhase::Writing ==> t.handed == t.stream.subrange(
            t.receiver.delivery.bytes_written as int,
            reach(t.receiver) as int,
        ),
        piece_of(s.stream, s.sending) ==> piece_of(t.stream, t.sending),
{
    assert(t.out =~= t.stream.take(t.receiver.delivery.bytes_written as int));
    if s.receiver.phase == DownlinkPhase::Writing {
        assert(t.handed =~= t.stream.subrange(
            t.receiver.delivery.bytes_written as int,
            reach(t.receiver) as int,
        ));
    }
    assert forall|i: int| 0 <= i < t.wire.len() implies piece_of(t.stream, #[trigger] t.wire[i]) by {
        let p = s.wire[i];
        assert(piece_of(s.stream, p));
        assert(p.data =~= t.stream.subrange(p.offset as int, (p.offset + p.data.len()) as int));
    }
    assert forall|i: int| 0 <= i < t.wire.len() implies t.wire[i].offset + t.wire[i].data.len()
        == #[trigger] follows_at(t.wire, t.tip, i) by {
        assert(follows_at(s.wire, s.tip, i) == follows_at(t.wire, t.tip, i));
    }
    if piece_of(s.stream, s.sending) {
        let p = s.sending;
        assert(p.data =~= t.stream.subrange(p.offset as int, (p.offset + p.data.len()) as int));
    }
}

proof fn lemma_reader_step(s: Line, e: ReaderEvent, t: Line)
    requires
        line_sound(s),
        line_steps(s, LineEvent::Reader(e), t),
    ensures
        line_sound(t),
{
    let taken = match (s.reader, e) {
        (ReaderPhase::Reading, ReaderEvent::Data(d)) => d@,
        _ => Seq::empty(),
    };
    lemma_longer_stream(s, t, taken);
    assert(t.spool.data =~= t.stream.skip(t.spool.acked as int));
    if taken.len() == 0 {
        assert(s.stream + taken =~= s.stream);
    }
    assert(follows_at(s.wire, s.tip, -1) == follows_at(t.wire, t.tip, -1));
}

proof fn lemma_sender_step(s: Line, e: PumpEvent, a: PumpAction, t: Line)
    requires
        line_sound(s),
        line_steps(s, LineEvent::Sender(e, a), t),
    ensures
        line_sound(t),
{
    if let PumpAction::Write(c) = a {
        let p = t.sending;
        assert(p.data =~= t.stream.subrange(p.offset as int, (p.offset + p.data.len()) as int));
    }
    if chunk_goes_out(s, e) {
        assert(s.tip == s.sender.pump.q);
        assert forall|i: int| 0 <= i < t.wire.len() implies piece_of(
            t.stream,
            #[trigger] t.wire[i],
        ) by {
            if i < s.wire.len() {
                assert(t.wire[i] == s.wire[i]);
            }
        }
        assert forall|i: int| 0 <= i < t.wire.len() implies t.wire[i].offset + t.wire[i].data.len()
            == #[trigger] follows_at(t.wire, t.tip, i) by {
            if i < s.wire.len() {
                assert(t.wire[i] == s.wire[i]);
                assert(follows_at(s.wire, s.tip, i) == follows_at(t.wire, t.tip, i));
            }
        }
        assert(follows_at(t.wire, t.tip, -1) == follows_at(s.wire, s.tip, -1));
    } else {
        assert forall|i: int| 0 <= i < t.wire.len() implies t.wire[i].offset + t.wire[i].data.len()
            == #[trigger] follows_at(t.wire, t.tip, i) by {
            assert(follows_at(s.wire, s.tip, i) == follows_at(t.wire, t.tip, i));
        }
    }
}

proof fn lemma_feedback_step(s: Line, e: FeedbackEvent, t: Line)
    requires
        line_sound(s),
        line_steps(s, LineEvent::Feedback(e), t),
    ensures
        line_sound(t),
{
    assert(follows_at(s.wire, s.tip, -1) == follows_at(t.wire, t.tip, -1));
    assert forall|i: int| 0 <= i < t.wire.len() implies t.wire[i].offset + t.wire[i].data.len()
        == #[trigger] follows_at(t.wire, t.tip, i) by {
        assert(follows_at(s.wire, s.tip, i) == follows_at(t.wire, t.tip, i));
    }
    if e matches FeedbackEvent::Feedback(Some(AckMsg::Ack { .. })) {
        assert(s.acks[0] <= s.tip);
        assert(t.spool.data =~= t.stream.skip(t.spool.acked as int));
        assert forall|i: int| 0 <= i < t.acks.len() implies (#[trigger] t.acks[i]) <= t.tip
            && t.acks[i] <= t.receiver.delivery.bytes_written by {
            assert(t.acks[i] == s.acks[i + 1]);
        }
    }
}

/// No chunk under way ends beyond the tip.
proof fn lemma_ends_at_tip(s: Line, i: int)
    requires
        pieces_in_line(s),
        0 <= i < s.wire.len(),
    ensures
        s.wire[i].offset + s.wire[i].data.len() <= s.tip,
    decreases s.wire.len() - i,
{
    assert(s.wire[i].offset + s.wire[i].data.len() == follows_at(s.wire, s.tip, i));
    if i + 1 < s.wire.len() {
        lemma_ends_at_tip(s, i + 1);
    }
}

proof fn lemma_receiver_step(s: Line, e: DownlinkEvent, a: DownlinkAction, t: Line)
    requires
        line_sound(s),
        line_steps(s, LineEvent::Receiver(e, a), t),
    ensures
        line_sound(t),
        e is Chunk ==> !(a is Fail),
        a matches DownlinkAction::Complete(n) ==> n == t.stream.len() && t.out == t.stream,
{
    if e is Chunk {
        let p = s.wire[0];
        assert(piece_of(s.stream, p));
        assert(follows_at(s.wire, s.tip, -1) == p.offset);
        assert(p.offset + p.data.len() == follows_at(s.wire, s.tip, 0));
        lemma_ends_at_tip(s, 0);
        assert forall|i: int| 0 <= i < t.wire.len() implies piece_of(
            t.stream,
            #[trigger] t.wire[i],
        ) by {
            assert(t.wire[i] == s.wire[i + 1]);
        }
        assert forall|i: int| 0 <= i < t.wire.len() implies t.wire[i].offset + t.wire[i].data.len()
            == #[trigger] follows_at(t.wire, t.tip, i) by {
            assert(t.wire[i] == s.wire[i + 1]);
            assert(follows_at(s.wire, s.tip, i + 1) == follows_at(t.wire, t.tip, i));
        }
        assert(follows_at(t.wire, t.tip, -1) == follows_at(s.wire, s.tip, 0));
        if a is Write {
            assert(t.handed =~= t.stream.subrange(
                t.receiver.delivery.bytes_written as int,
                reach(t.receiver) as int,
            ));
        }
    } else {
        assert(follows_at(s.wire, s.tip, -1) == follows_at(t.wire, t.tip, -1));
        assert forall|i: int| 0 <= i < t.wire.len() implies t.wire[i].offset + t.wire[i].data.len()
            == #[trigger] follows_at(t.wire, t.tip, i) by {
            assert(follows_at(s.wire, s.tip, i) == follows_at(t.wire, t.tip, i));
        }
        if a is Report {
            assert(t.out =~= t.stream.take(t.receiver.delivery.bytes_written as int));
            assert forall|i: int| 0 <= i < t.acks.len() implies (#[trigger] t.acks[i]) <= t.tip
                && t.acks[i] <= t.receiver.delivery.bytes_written by {
                if i < s.acks.len() {
                    assert(t.acks[i] == s.acks[i]);
                }
            }
        }
        if a is Complete {
            assert(follows_at(s.wire, s.tip, -1) == s.tip);
            assert(s.stream.take(s.stream.len() as int) =~= s.stream);
        }
    }
}

/// Whatever the clients and the link do, and in whatever order it happens: the receiving
/// client has a front part of what the sending client was read of, nothing lost, doubled
/// or out of order; the sender keeps every byte that was not delivered, so that a new
/// session is always accepted; and no chunk ever arrives with a gap in front of it.
pub proof fn law_line_is_lossless(
    states: Seq<Line>,
    events: Seq<LineEvent>,
    chunk_size: usize,
    i: int,
    handed_over: bool,
)
    requires
        is_course(states, events, chunk_size),
        0 <= i < states.len(),
    ensures
        ({
            let s = states[i];
            let written = s.receiver.delivery.bytes_written;
            &&& line_sound(s)
            &&& s.out.len() == written
            &&& s.out.is_prefix_of(s.stream)
            &&& s.spool.acked <= written
            &&& s.spool.end() == s.stream.len()
            &&& s.spool.data == s.stream.skip(s.spool.acked as int)
            &&& reconnect_outcome(written, s.spool.acked as u64, handed_over) != Reconnected::Gap
        }),
        i > 0 ==> (events[i - 1] matches LineEvent::Receiver(e, a) ==> {
            &&& e is Chunk ==> !(a is Fail)
            &&& a matches DownlinkAction::Complete(n) ==> n == states[i].stream.len()
                && states[i].out == states[i].stream
        }),
    decreases i,
{
    if i == 0 {
        let s = states[0];
        assert(s.spool.data =~= s.stream.skip(0));
        assert(s.out =~= s.stream.take(0));
    } else {
        law_line_is_lossless(states, events, chunk_size, i - 1, handed_over);
        let s = states[i - 1];
        let t = states[i];
        assert(line_steps(states[i - 1], events[i - 1], states[i - 1 + 1]));
        match events[i - 1] {
            LineEvent::Reader(e) => lemma_reader_step(s, e, t),
            LineEvent::Sender(e, a) => lemma_sender_step(s, e, a, t),
            LineEvent::Feedback(e) => lemma_feedback_step(s, e, t),
            LineEvent::Receiver(e, a) => lemma_receiver_step(s, e, a, t),
            LineEvent::Down => {
                assert(pieces_in_line(t));
            },
            LineEvent::Up => {
                assert(follows_at(s.wire, s.tip, -1) == follows_at(t.wire, t.tip, -1));
                assert forall|k: int| 0 <= k < t.wire.len() implies t.wire[k].offset
                    + t.wire[k].data.len() == #[trigger] follows_at(t.wire, t.tip, k) by {
                    assert(follows_at(s.wire, s.tip, k) == follows_at(t.wire, t.tip, k));
                }
            },
        }
    }
}

} // verus!
