//! What holds of a stream from the sending client to the receiving one, whatever the
//! link does in between.

use vstd::prelude::*;

use crate::pump::next_piece;
use crate::spool::Spool;
use crate::transfer_laws::{deliver, in_step, piece_of, Delivery, Piece};

verus! {

/// A stream on its way: what the client has written, the spool, the pump's position,
/// whether a session is live, what the session carries in either direction, and the
/// receiving end.
#[verifier::ext_equal]
pub struct Relay {
    pub stream: Seq<u8>,
    pub spool: Spool,
    pub q: nat,
    pub up: bool,
    pub wire: Seq<Piece>,
    pub feedback: Seq<nat>,
    pub delivery: Delivery,
}

/// A stream that has just been opened.
pub open spec fn fresh() -> Relay {
    Relay {
        stream: Seq::empty(),
        spool: Spool { acked: 0, data: Seq::empty(), eof: false },
        q: 0,
        up: true,
        wire: Seq::empty(),
        feedback: Seq::empty(),
        delivery: Delivery { out: Seq::empty(), written: 0, failed: false },
    }
}

/// What can happen to a stream.
pub enum Event {
    /// The client writes.
    Push { data: Seq<u8> },
    /// The pump sends within a budget.
    Send { remaining: nat, chunk_size: nat },
    /// The next piece arrives; when it brought something new, it may be acknowledged.
    Arrive { acknowledge: bool },
    /// The next acknowledgement comes back.
    Acknowledged,
    /// The session is lost with all that it carried.
    Down,
    /// A new session is live; the sender starts again at the first byte that is not
    /// acknowledged.
    Up,
}

/// The stream after an event; an event that cannot happen changes nothing.
pub open spec fn after(s: Relay, e: Event) -> Relay {
    match e {
        Event::Push { data } => Relay {
            stream: s.stream + data,
            spool: s.spool.pushed(data),
            ..s
        },
        Event::Send { remaining, chunk_size } => {
            let data = next_piece(s.spool, s.q, remaining, chunk_size);
            if s.up && data.len() > 0 {
                Relay {
                    wire: s.wire.push(Piece { offset: s.q, data }),
                    q: s.q + data.len(),
                    ..s
                }
            } else {
                s
            }
        },
        Event::Arrive { acknowledge } => if s.wire.len() > 0 {
            let d = deliver(s.delivery, s.wire[0]);
            let feedback = if acknowledge && d.written > s.delivery.written {
                s.feedback.push(d.written)
            } else {
                s.feedback
            };
            Relay { delivery: d, wire: s.wire.skip(1), feedback, ..s }
        } else {
            s
        },
        Event::Acknowledged => if s.feedback.len() > 0 {
            Relay { spool: s.spool.acked_to(s.feedback[0]), feedback: s.feedback.skip(1), ..s }
        } else {
            s
        },
        Event::Down => Relay {
            up: false,
            wire: Seq::empty(),
            feedback: Seq::empty(),
            q: s.spool.acked,
            ..s
        },
        Event::Up => if s.up {
            s
        } else {
            Relay { up: true, q: s.spool.acked, ..s }
        },
    }
}

/// The stream after some events.
pub open spec fn after_all(events: Seq<Event>) -> Relay
    decreases events.len(),
{
    if events.len() == 0 {
        fresh()
    } else {
        after(after_all(events.drop_last()), events.last())
    }
}

/// Where the piece behind the `i`-th one starts.
pub open spec fn follows_at(wire: Seq<Piece>, q: nat, i: int) -> nat {
    if i + 1 < wire.len() {
        wire[i + 1].offset
    } else {
        q
    }
}

/// The pieces under way are pieces of the stream, one behind the other, from at or
/// before the point of delivery up to the pump's position.
pub open spec fn pieces_under_way(s: Relay) -> bool {
    &&& forall|i: int| 0 <= i < s.wire.len() ==> piece_of(s.stream, #[trigger] s.wire[i])
    &&& forall|i: int|
        0 <= i < s.wire.len() ==> s.wire[i].offset + s.wire[i].data.len() == #[trigger] follows_at(
            s.wire,
            s.q,
            i,
        )
    &&& follows_at(s.wire, s.q, -1) <= s.delivery.written
}

/// What holds at any time.
pub open spec fn sound(s: Relay) -> bool {
    &&& s.spool.holds(s.stream)
    &&& s.spool.acked <= s.q <= s.spool.end()
    &&& !s.delivery.failed
    &&& in_step(s.delivery, s.stream)
    &&& s.spool.acked <= s.delivery.written
    &&& pieces_under_way(s)
    &&& forall|i: int|
        0 <= i < s.feedback.len() ==> (#[trigger] s.feedback[i]) <= s.q && s.feedback[i]
            <= s.delivery.written
    &&& !s.up ==> s.wire.len() == 0 && s.feedback.len() == 0
}

proof fn lemma_push(s: Relay, data: Seq<u8>)
    requires
        sound(s),
    ensures
        sound(after(s, Event::Push { data })),
{
    let t = after(s, Event::Push { data });
    assert(t.spool.data =~= t.stream.skip(t.spool.acked as int));
    assert(t.delivery.out =~= t.stream.take(t.delivery.written as int));
    assert forall|i: int| 0 <= i < t.wire.len() implies piece_of(t.stream, #[trigger] t.wire[i]) by {
        let p = s.wire[i];
        assert(piece_of(s.stream, p));
        assert(p.data =~= t.stream.subrange(p.offset as int, (p.offset + p.data.len()) as int));
    }
}

proof fn lemma_send(s: Relay, remaining: nat, chunk_size: nat)
    requires
        sound(s),
    ensures
        sound(after(s, Event::Send { remaining, chunk_size })),
{
    let t = after(s, Event::Send { remaining, chunk_size });
    let data = next_piece(s.spool, s.q, remaining, chunk_size);
    if s.up && data.len() > 0 {
        assert(data =~= s.stream.subrange(s.q as int, (s.q + data.len()) as int));
        assert(piece_of(t.stream, Piece { offset: s.q, data }));
        assert forall|i: int| 0 <= i < t.wire.len() implies piece_of(
            t.stream,
            #[trigger] t.wire[i],
        ) by {
            if i < s.wire.len() {
                assert(t.wire[i] == s.wire[i]);
            }
        }
        assert forall|i: int| 0 <= i < t.wire.len() implies t.wire[i].offset + t.wire[i].data.len()
            == #[trigger] follows_at(t.wire, t.q, i) by {
            if i < s.wire.len() {
                assert(t.wire[i] == s.wire[i]);
                assert(follows_at(s.wire, s.q, i) == follows_at(t.wire, t.q, i));
            }
        }
        assert(follows_at(t.wire, t.q, -1) == follows_at(s.wire, s.q, -1));
    }
}

proof fn lemma_arrive(s: Relay, acknowledge: bool)
    requires
        sound(s),
    ensures
        sound(after(s, Event::Arrive { acknowledge })),
{
    let t = after(s, Event::Arrive { acknowledge });
    if s.wire.len() > 0 {
        let p = s.wire[0];
        let d = deliver(s.delivery, p);
        assert(piece_of(s.stream, p));
        assert(follows_at(s.wire, s.q, -1) == p.offset);
        assert(p.offset + p.data.len() == follows_at(s.wire, s.q, 0));
        assert(!d.failed);
        assert(d.written >= p.offset + p.data.len());
        assert(d.out =~= s.stream.take(d.written as int));
        assert forall|i: int| 0 <= i < t.wire.len() implies piece_of(
            t.stream,
            #[trigger] t.wire[i],
        ) by {
            assert(t.wire[i] == s.wire[i + 1]);
        }
        assert forall|i: int| 0 <= i < t.wire.len() implies t.wire[i].offset + t.wire[i].data.len()
            == #[trigger] follows_at(t.wire, t.q, i) by {
            assert(t.wire[i] == s.wire[i + 1]);
            assert(follows_at(s.wire, s.q, i + 1) == follows_at(t.wire, t.q, i));
        }
        assert(follows_at(t.wire, t.q, -1) == follows_at(s.wire, s.q, 0));
        lemma_under_way_ends_at_q(s, 0);
        assert forall|i: int| 0 <= i < t.feedback.len() implies (#[trigger] t.feedback[i]) <= t.q
            && t.feedback[i] <= t.delivery.written by {
            if i < s.feedback.len() {
                assert(t.feedback[i] == s.feedback[i]);
            }
        }
    }
}

/// No piece under way ends beyond the pump's position.
proof fn lemma_under_way_ends_at_q(s: Relay, i: int)
    requires
        pieces_under_way(s),
        0 <= i < s.wire.len(),
    ensures
        s.wire[i].offset + s.wire[i].data.len() <= s.q,
    decreases s.wire.len() - i,
{
    assert(s.wire[i].offset + s.wire[i].data.len() == follows_at(s.wire, s.q, i));
    if i + 1 < s.wire.len() {
        lemma_under_way_ends_at_q(s, i + 1);
    }
}

proof fn lemma_acknowledged(s: Relay)
    requires
        sound(s),
    ensures
        sound(after(s, Event::Acknowledged)),
{
    let t = after(s, Event::Acknowledged);
    if s.feedback.len() > 0 {
        let a = s.feedback[0];
        assert(a <= s.q && a <= s.delivery.written);
        assert(t.spool.data =~= t.stream.skip(t.spool.acked as int));
        assert forall|i: int| 0 <= i < t.feedback.len() implies (#[trigger] t.feedback[i]) <= t.q
            && t.feedback[i] <= t.delivery.written by {
            assert(t.feedback[i] == s.feedback[i + 1]);
        }
    }
}

/// Whatever the clients and the link do: the receiving client has a front part of what
/// the sending client wrote, with nothing lost, doubled or out of order; no gap ever
/// fails the stream, and every new session is accepted, because the sender keeps all
/// that was not delivered; and the pump stands between the first byte that is not
/// acknowledged and the end of the spool.
pub proof fn law_relay_is_lossless(events: Seq<Event>)
    ensures
        sound(after_all(events)),
    decreases events.len(),
{
    if events.len() == 0 {
        let s = fresh();
        assert(s.spool.data =~= s.stream.skip(0));
        assert(s.delivery.out =~= s.stream.take(0));
    } else {
        let front = events.drop_last();
        law_relay_is_lossless(front);
        let s = after_all(front);
        match events.last() {
            Event::Push { data } => lemma_push(s, data),
            Event::Send { remaining, chunk_size } => lemma_send(s, remaining, chunk_size),
            Event::Arrive { acknowledge } => lemma_arrive(s, acknowledge),
            Event::Acknowledged => lemma_acknowledged(s),
            Event::Down => {},
            Event::Up => {},
        }
    }
}

/// Once all that the client wrote has been sent and has arrived, the receiving client
/// has exactly what the sending client wrote, however many sessions it took.
pub proof fn law_relay_delivers_everything(events: Seq<Event>)
    requires
        ({
            let s = after_all(events);
            s.wire.len() == 0 && s.q == s.spool.end()
        }),
    ensures
        after_all(events).delivery.out == after_all(events).stream,
{
    law_relay_is_lossless(events);
    let s = after_all(events);
    assert(follows_at(s.wire, s.q, -1) == s.q);
    assert(s.stream.take(s.stream.len() as int) =~= s.stream);
}

} // verus!
