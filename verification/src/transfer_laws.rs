//! What a transfer as a whole gives: the receiving client gets the sending client's
//! bytes, once each and in order, across link outages.

use vstd::prelude::*;

use crate::downlink::{verdict, Verdict};
use crate::pump::next_piece;
use crate::spool::Spool;

verus! {

/// A piece of a stream on its way.
pub struct Piece {
    pub offset: nat,
    pub data: Seq<u8>,
}

/// The piece is what the stream holds at that place.
pub open spec fn piece_of(stream: Seq<u8>, p: Piece) -> bool {
    &&& p.offset + p.data.len() <= stream.len()
    &&& p.data == stream.subrange(p.offset as int, (p.offset + p.data.len()) as int)
}

/// The receiving end: the bytes handed to the client, how many, and whether a gap
/// has failed the stream.
#[verifier::ext_equal]
pub struct Delivery {
    pub out: Seq<u8>,
    pub written: nat,
    pub failed: bool,
}

/// The receiving end after a piece.
pub open spec fn deliver(d: Delivery, p: Piece) -> Delivery {
    if d.failed {
        d
    } else {
        match verdict(d.written, p.offset, p.data.len()) {
            Verdict::Duplicate => d,
            Verdict::Gap => Delivery { failed: true, ..d },
            Verdict::Fresh { skip } => Delivery {
                out: d.out + p.data.skip(skip as int),
                written: (d.written + p.data.len() - skip) as nat,
                failed: false,
            },
        }
    }
}

/// The receiving end after pieces that arrive in order.
pub open spec fn deliver_all(d: Delivery, ps: Seq<Piece>) -> Delivery
    decreases ps.len(),
{
    if ps.len() == 0 {
        d
    } else {
        deliver(deliver_all(d, ps.drop_last()), ps.last())
    }
}

/// What has been handed over is the front of the stream.
pub open spec fn in_step(d: Delivery, stream: Seq<u8>) -> bool {
    d.written <= stream.len() && d.out == stream.take(d.written as int)
}

/// Whatever pieces of a stream arrive, repeated or overlapping as they may be, the
/// client has got a front part of the stream: nothing twice, nothing out of order.
pub proof fn law_delivery_is_a_prefix(d: Delivery, ps: Seq<Piece>, stream: Seq<u8>)
    requires
        in_step(d, stream),
        forall|i: int| 0 <= i < ps.len() ==> piece_of(stream, #[trigger] ps[i]),
    ensures
        in_step(deliver_all(d, ps), stream),
        deliver_all(d, ps).written >= d.written,
    decreases ps.len(),
{
    if ps.len() > 0 {
        let q = ps.drop_last();
        assert forall|i: int| 0 <= i < q.len() implies piece_of(stream, #[trigger] q[i]) by {
            assert(q[i] == ps[i]);
        }
        law_delivery_is_a_prefix(d, q, stream);
        let m = deliver_all(d, q);
        let p = ps.last();
        assert(piece_of(stream, ps[ps.len() - 1]));
        let r = deliver(m, p);
        assert(r.out =~= stream.take(r.written as int));
    }
}

/// A piece that was delivered before changes nothing.
pub proof fn law_duplicates_are_dropped(d: Delivery, p: Piece)
    requires
        p.offset + p.data.len() <= d.written,
    ensures
        deliver(d, p) == d,
{
}

/// Where pieces that follow each other from `from` on end.
pub open spec fn end_of(ps: Seq<Piece>, from: nat) -> nat
    decreases ps.len(),
{
    if ps.len() == 0 {
        from
    } else {
        end_of(ps.drop_last(), from) + ps.last().data.len()
    }
}

/// Each piece starts where the one before it ends, the first one at `from`.
pub open spec fn contiguous(ps: Seq<Piece>, from: nat) -> bool
    decreases ps.len(),
{
    ps.len() == 0 || (contiguous(ps.drop_last(), from) && ps.last().offset == end_of(
        ps.drop_last(),
        from,
    ))
}

/// A sender that starts at or before the point of delivery and sends on from there
/// never causes a gap, and the receiver ends up at least where the sender does.
pub proof fn law_replay_has_no_gap(d: Delivery, ps: Seq<Piece>, from: nat)
    requires
        !d.failed,
        from <= d.written,
        contiguous(ps, from),
    ensures
        !deliver_all(d, ps).failed,
        deliver_all(d, ps).written == if end_of(ps, from) <= d.written {
            d.written
        } else {
            end_of(ps, from)
        },
    decreases ps.len(),
{
    if ps.len() > 0 {
        law_replay_has_no_gap(d, ps.drop_last(), from);
    }
}

/// One link session of a transfer: where the sender started, and what got through
/// before the link went down or the stream ended.
pub struct LinkSession {
    pub replay_from: nat,
    pub pieces: Seq<Piece>,
}

/// The receiving end after a number of link sessions.
pub open spec fn after_sessions(d: Delivery, sessions: Seq<LinkSession>) -> Delivery
    decreases sessions.len(),
{
    if sessions.len() == 0 {
        d
    } else {
        deliver_all(after_sessions(d, sessions.drop_last()), sessions.last().pieces)
    }
}

/// Each session replays from an acknowledged offset, which is never ahead of what
/// has been delivered by then, and sends the stream on from there.
pub open spec fn proper_sessions(d: Delivery, sessions: Seq<LinkSession>, stream: Seq<u8>) -> bool
    decreases sessions.len(),
{
    sessions.len() == 0 || {
        let last = sessions.last();
        &&& proper_sessions(d, sessions.drop_last(), stream)
        &&& last.replay_from <= after_sessions(d, sessions.drop_last()).written
        &&& contiguous(last.pieces, last.replay_from)
        &&& forall|i: int|
            0 <= i < last.pieces.len() ==> piece_of(stream, #[trigger] last.pieces[i])
    }
}

/// Link outages lose nothing: after any number of interrupted sessions the client
/// has a front part of the stream and no gap was met; once a session has reached
/// the end of the stream, the client has all of it, byte for byte.
pub proof fn law_outages_lose_nothing(sessions: Seq<LinkSession>, stream: Seq<u8>)
    requires
        proper_sessions(
            Delivery { out: Seq::empty(), written: 0, failed: false },
            sessions,
            stream,
        ),
    ensures
        ({
            let d = after_sessions(
                Delivery { out: Seq::empty(), written: 0, failed: false },
                sessions,
            );
            &&& !d.failed
            &&& in_step(d, stream)
            &&& sessions.len() > 0 && end_of(
                sessions.last().pieces,
                sessions.last().replay_from,
            ) == stream.len() ==> d.out == stream
        }),
    decreases sessions.len(),
{
    let start = Delivery { out: Seq::<u8>::empty(), written: 0, failed: false };
    if sessions.len() == 0 {
        assert(start.out =~= stream.take(0));
    } else {
        law_outages_lose_nothing(sessions.drop_last(), stream);
        let m = after_sessions(start, sessions.drop_last());
        let last = sessions.last();
        law_replay_has_no_gap(m, last.pieces, last.replay_from);
        law_delivery_is_a_prefix(m, last.pieces, stream);
        let d = after_sessions(start, sessions);
        if end_of(last.pieces, last.replay_from) == stream.len() {
            assert(d.written == stream.len());
            assert(stream.take(stream.len() as int) =~= stream);
        }
    }
}

/// What a pump sends out of a spool is the piece of the stream at its position, and
/// the next one starts where it ends.
pub proof fn law_pump_sends_pieces(
    spool: Spool,
    stream: Seq<u8>,
    q: nat,
    remaining: nat,
    chunk_size: nat,
)
    requires
        spool.holds(stream),
        spool.acked <= q <= spool.end(),
    ensures
        ({
            let data = next_piece(spool, q, remaining, chunk_size);
            &&& piece_of(stream, Piece { offset: q, data })
            &&& q + data.len() <= spool.end()
            &&& contiguous(seq![Piece { offset: q, data }], q)
            &&& data.len() == 0 ==> remaining == 0 || chunk_size == 0 || q == spool.end()
        }),
{
    let data = next_piece(spool, q, remaining, chunk_size);
    assert(data =~= stream.subrange(q as int, (q + data.len()) as int));
    let one = seq![Piece { offset: q, data }];
    assert(one.drop_last() =~= Seq::<Piece>::empty());
    assert(end_of(one.drop_last(), q) == q);
    assert(contiguous(one.drop_last(), q));
    assert(one.last().offset == q);
}

/// The sender never releases a byte that was not delivered: acknowledgements name
/// delivered bytes only, so the first unacknowledged byte, from which a session
/// replays, stays at or before the point of delivery.
pub proof fn law_acks_never_overtake_delivery(spool: Spool, written: nat, ack: nat)
    requires
        spool.acked <= written,
        ack <= written,
    ensures
        spool.acked_to(ack).acked <= written,
{
}

} // verus!
