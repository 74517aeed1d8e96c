//! The uplink spool: bytes taken from the client that the receiver has not
//! acknowledged yet.
//!
//! Three absolute offsets describe an uplink stream. Bytes below `A` have been
//! acknowledged and are released; bytes from `A` up to `T` are held here; `Q`, kept
//! by the stream's pump, lies between them and marks the next byte to transmit.

use std::collections::VecDeque;

use vstd::prelude::*;

verus! {

broadcast use vstd::std_specs::vecdeque::group_vec_dequeue_axioms;

/// Most bytes that a spool holds.
pub const SPOOL_CAPACITY: usize = 1_048_576;

/// Value of the write offset that marks the end of the client's data.
const END_OF_DATA: u64 = 0xFFFF_FFFF_FFFF_FFFF;

/// Ring buffer between the client's socket and the transport.
#[derive(Debug)]
pub struct SpoolBuffer {
    buf: VecDeque<u8>,
    bytes_acked: u64,
    head: u64,
}

/// The state of a spool: the first offset held, the bytes held from there, and
/// whether the client has closed.
#[verifier::ext_equal]
pub struct Spool {
    pub acked: nat,
    pub data: Seq<u8>,
    pub eof: bool,
}

impl Spool {
    /// Offset just behind the last byte held.
    pub open spec fn end(self) -> nat {
        self.acked + self.data.len()
    }

    /// The spool with `data` appended.
    pub open spec fn pushed(self, data: Seq<u8>) -> Spool {
        Spool { data: self.data + data, ..self }
    }

    /// The bytes that an acknowledgement of everything below `up_to` releases.
    pub open spec fn released(self, up_to: nat) -> nat {
        if up_to <= self.acked {
            0
        } else if up_to - self.acked <= self.data.len() {
            (up_to - self.acked) as nat
        } else {
            self.data.len()
        }
    }

    /// The spool once everything below `up_to` is acknowledged.
    pub open spec fn acked_to(self, up_to: nat) -> Spool {
        let n = self.released(up_to);
        Spool { acked: self.acked + n, data: self.data.skip(n as int), ..self }
    }

    /// At most `limit` bytes from offset `from` on.
    pub open spec fn slice(self, from: nat, limit: nat) -> Seq<u8> {
        let start = from - self.acked;
        let stop = if self.data.len() - start <= limit {
            self.data.len() as int
        } else {
            start + limit
        };
        self.data.subrange(start, stop)
    }

    /// The spool holds the part of `stream` that is not acknowledged.
    pub open spec fn holds(self, stream: Seq<u8>) -> bool {
        &&& stream.len() == self.end()
        &&& self.data == stream.skip(self.acked as int)
    }
}

impl View for SpoolBuffer {
    type V = Spool;

    closed spec fn view(&self) -> Spool {
        Spool {
            acked: self.bytes_acked as nat,
            data: self.buf@,
            eof: self.head == END_OF_DATA,
        }
    }
}

impl SpoolBuffer {
    /// The offsets agree with what is held, and the capacity is not exceeded.
    pub closed spec fn wf(&self) -> bool {
        &&& self.buf@.len() <= SPOOL_CAPACITY
        &&& self.bytes_acked + self.buf@.len() < END_OF_DATA
        &&& self.head == END_OF_DATA || self.head == self.bytes_acked + self.buf@.len()
    }

    /// An empty spool at offset zero.
    pub fn new() -> (r: Self)
        ensures
            r.wf(),
            r@ == (Spool { acked: 0, data: Seq::empty(), eof: false }),
    {
        SpoolBuffer { buf: VecDeque::with_capacity(SPOOL_CAPACITY), bytes_acked: 0, head: 0 }
    }

    /// Bytes that still fit.
    pub fn available(&self) -> (r: usize)
        requires
            self.wf(),
        ensures
            r == SPOOL_CAPACITY - self@.data.len(),
    {
        SPOOL_CAPACITY - self.buf.len()
    }

    /// First offset that is not acknowledged (`A`).
    pub fn bytes_acked(&self) -> (r: u64)
        ensures
            r == self@.acked,
    {
        self.bytes_acked
    }

    /// Offset just behind the last byte held (`T`), also once the client has
    /// closed.
    pub fn head_offset(&self) -> (r: u64)
        requires
            self.wf(),
        ensures
            r == self@.end(),
            r < u64::MAX,
    {
        if self.head == END_OF_DATA {
            self.bytes_acked + self.buf.len() as u64
        } else {
            self.head
        }
    }

    /// Whether the client has closed its side.
    pub fn at_eof(&self) -> (r: bool)
        ensures
            r == self@.eof,
    {
        self.head == END_OF_DATA
    }

    /// Appends what the client sent.
    pub fn push(&mut self, data: &[u8])
        requires
            old(self).wf(),
            !old(self)@.eof,
            data@.len() <= SPOOL_CAPACITY - old(self)@.data.len(),
            old(self)@.end() + data@.len() < u64::MAX,
        ensures
            final(self).wf(),
            final(self)@ == old(self)@.pushed(data@),
    {
        let mut i: usize = 0;
        assert(data@.take(0) =~= Seq::<u8>::empty());
        assert(old(self)@.data + Seq::<u8>::empty() =~= old(self)@.data);
        while i < data.len()
            invariant
                i <= data@.len(),
                self.bytes_acked == old(self).bytes_acked,
                self.head == old(self).head,
                self.buf@ == old(self).buf@ + data@.take(i as int),
            decreases data@.len() - i,
        {
            self.buf.push_back(data[i]);
            assert(data@.take(i + 1) =~= data@.take(i as int).push(data@[i as int]));
            assert(self.buf@ =~= old(self).buf@ + data@.take(i + 1));
            i = i + 1;
        }
        assert(data@.take(i as int) =~= data@);
        self.head = self.head + data.len() as u64;
    }

    /// Notes that the client has closed its side.
    pub fn close(&mut self)
        requires
            old(self).wf(),
        ensures
            final(self).wf(),
            final(self)@ == (Spool { eof: true, ..old(self)@ }),
    {
        self.head = END_OF_DATA;
    }

    /// Releases everything below `up_to`, as far as it is held. Without effect
    /// when that much was acknowledged before.
    pub fn ack(&mut self, up_to: u64)
        requires
            old(self).wf(),
        ensures
            final(self).wf(),
            final(self)@ == old(self)@.acked_to(up_to as nat),
    {
        if up_to <= self.bytes_acked {
            assert(self@.data.skip(0) =~= self@.data);
            return;
        }
        let ahead: u64 = up_to - self.bytes_acked;
        let len: usize = self.buf.len();
        let n: usize = if ahead < len as u64 {
            ahead as usize
        } else {
            len
        };
        let mut i: usize = 0;
        assert(self.buf@.skip(0) =~= self.buf@);
        while i < n
            invariant
                i <= n,
                n <= old(self).buf@.len(),
                self.bytes_acked == old(self).bytes_acked,
                self.head == old(self).head,
                self.buf@ == old(self).buf@.skip(i as int),
            decreases n - i,
        {
            let front: Option<u8> = self.buf.pop_front();
            assert(self.buf@ =~= old(self).buf@.skip(i + 1));
            i = i + 1;
        }
        self.bytes_acked = self.bytes_acked + n as u64;
    }

    /// At most `limit` of the bytes held from offset `from` on.
    pub fn slice_from(&self, from: u64, limit: usize) -> (r: Vec<u8>)
        requires
            self.wf(),
            self@.acked <= from <= self@.end(),
        ensures
            r@ == self@.slice(from as nat, limit as nat),
    {
        let start: usize = (from - self.bytes_acked) as usize;
        let rest: usize = self.buf.len() - start;
        let n: usize = if rest <= limit {
            rest
        } else {
            limit
        };
        let mut out: Vec<u8> = Vec::new();
        let mut i: usize = 0;
        while i < n
            invariant
                i <= n,
                start + n <= self.buf.len(),
                out@ == self.buf@.subrange(start as int, start + i),
            decreases n - i,
        {
            out.push(self.buf[start + i]);
            assert(out@ =~= self.buf@.subrange(start as int, start + i + 1));
            i = i + 1;
        }
        out
    }
}

/// An acknowledgement moves neither the end of the spool nor its contents behind
/// the new start; it never takes back an earlier one.
pub proof fn law_ack_releases_only_the_front(s: Spool, up_to: nat)
    ensures
        s.acked_to(up_to).end() == s.end(),
        s.acked_to(up_to).acked >= s.acked,
        s.acked_to(up_to).eof == s.eof,
        s.acked <= up_to <= s.end() ==> s.acked_to(up_to).acked == up_to,
{
}

/// Acknowledging the same offset twice is the same as acknowledging it once.
pub proof fn law_ack_is_idempotent(s: Spool, up_to: nat)
    ensures
        s.acked_to(up_to).acked_to(up_to) == s.acked_to(up_to),
{
    let t = s.acked_to(up_to);
    assert(t.released(up_to) == 0);
    assert(t.data.skip(0) =~= t.data);
}

/// Later acknowledgements take in earlier ones, in whatever order they come.
pub proof fn law_acks_commute(s: Spool, a: nat, b: nat)
    ensures
        s.acked_to(a).acked_to(b) == s.acked_to(b).acked_to(a),
{
    let ab = s.acked_to(a).acked_to(b);
    let ba = s.acked_to(b).acked_to(a);
    assert(ab.acked == ba.acked);
    assert(ab.data =~= ba.data);
}

/// A spool that holds the unacknowledged part of a stream goes on doing so when
/// the stream grows.
pub proof fn law_push_extends_stream(s: Spool, stream: Seq<u8>, data: Seq<u8>)
    requires
        s.holds(stream),
    ensures
        s.pushed(data).holds(stream + data),
        s.pushed(data).acked == s.acked,
{
    assert(s.data + data =~= (stream + data).skip(s.acked as int));
}

/// And when a part of the stream is acknowledged.
pub proof fn law_ack_keeps_stream(s: Spool, stream: Seq<u8>, up_to: nat)
    requires
        s.holds(stream),
    ensures
        s.acked_to(up_to).holds(stream),
{
    let t = s.acked_to(up_to);
    assert(t.data =~= stream.skip(t.acked as int));
}

/// Whatever is read from the spool is a piece of the stream at that offset, and
/// replaying from the first unacknowledged byte gives all that is outstanding.
pub proof fn law_replay_is_complete(s: Spool, stream: Seq<u8>, from: nat, limit: nat)
    requires
        s.holds(stream),
        s.acked <= from <= s.end(),
    ensures
        s.slice(from, limit) == stream.subrange(
            from as int,
            (from + s.slice(from, limit).len()) as int,
        ),
        s.slice(s.acked, s.data.len()) == stream.skip(s.acked as int),
{
    assert(s.slice(from, limit) =~= stream.subrange(
        from as int,
        (from + s.slice(from, limit).len()) as int,
    ));
    assert(s.slice(s.acked, s.data.len()) =~= stream.skip(s.acked as int));
}

/// An acknowledgement releases all that it names and the spool holds: it moves the start
/// there, or to the end when it names more than was ever sent; and what is left are the
/// bytes behind it.
pub proof fn law_ack_releases_what_it_names(s: Spool, up_to: nat)
    ensures
        up_to <= s.acked ==> s.acked_to(up_to) == s,
        s.acked <= up_to <= s.end() ==> s.acked_to(up_to).acked == up_to && s.acked_to(
            up_to,
        ).data == s.data.skip(up_to - s.acked),
        up_to >= s.end() ==> s.acked_to(up_to).acked == s.end() && s.acked_to(up_to).data.len()
            == 0,
{
    assert(s.data.skip(0) =~= s.data);
}

/// A read gives as many bytes as are asked for, as far as they are held.
pub proof fn law_slice_fills_the_limit(s: Spool, from: nat, limit: nat)
    requires
        s.acked <= from <= s.end(),
    ensures
        from + limit <= s.end() ==> s.slice(from, limit).len() == limit,
        from + limit >= s.end() ==> s.slice(from, limit).len() == s.end() - from,
        forall|i: int|
            0 <= i < s.slice(from, limit).len() ==> #[trigger] s.slice(from, limit)[i]
                == s.data[from - s.acked + i],
{
}

} // verus!
