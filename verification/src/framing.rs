//! Wire framing: stream-open and feedback frames, and data chunks.
//!
//! A frame is an eight-byte preamble and a JSON payload; a chunk is a ten-byte
//! header and data. The functions here work on bytes: what a JSON payload means is
//! up to the caller.

use std::collections::HashMap;

use vstd::prelude::*;

use crate::error::QueLayError;
use crate::session::{StreamInfo, StreamMeta};
use crate::spool::SpoolBuffer;
use crate::text::{decimal, hex_byte, joined, push_decimal, push_hex_byte};

verus! {

/// First byte of every frame.
pub const MAGIC: u8 = 0x51;

/// Version of the preamble layout.
pub const VERSION: u8 = 0x01;

/// Opcode of a frame that opens a new stream.
pub const OP_NEW_STREAM: u8 = 0x01;

/// Opcode of a frame that continues a stream after a link outage.
pub const OP_RECONNECT: u8 = 0x02;

/// Bytes of a preamble.
pub const FIXED_HEADER_LEN: usize = 8;

/// Most bytes of a JSON payload.
pub const MAX_JSON_PAYLOAD: usize = 65_535;

/// Most data bytes that a chunk may carry when it is read.
pub const CHUNK_SIZE: usize = 16_384;

/// Bytes of a chunk header.
pub const CHUNK_HEADER_LEN: usize = 10;

/// The receiver acknowledges each time this many more bytes have been delivered.
pub const ACK_INTERVAL: u64 = 65_536;

// ---------------------------------------------------------------------------
// Messages
// ---------------------------------------------------------------------------

/// Metadata that opens a new stream.
#[derive(Debug)]
pub struct StreamHeader {
    /// Identity; survives reconnections.
    pub uuid: u128,
    /// Priority level.
    pub priority: u8,
    /// Length in bytes, when it is known.
    pub size_bytes: Option<u64>,
    /// Application attributes.
    pub attrs: HashMap<String, String>,
}

/// What a stream continues with after a link outage.
#[derive(Debug)]
pub struct ReconnectHeader {
    /// Identity of the stream that goes on.
    pub uuid: u128,
    /// First offset that the sender has not seen acknowledged.
    pub replay_from: u64,
}

/// How an inbound stream opens.
#[derive(Debug)]
pub enum StreamOpen {
    /// A new transfer.
    New(StreamHeader),
    /// The continuation of a known one.
    Reconnect(ReconnectHeader),
}

/// Feedback of the receiver to the sender.
#[derive(Debug)]
pub enum WormholeMsg {
    /// So many bytes have been handed to the receiving client.
    Ack { bytes_received: u64 },
    /// All bytes have been handed over.
    Done,
    /// The receiver gave up.
    Error { code: u32, reason: String },
}

/// A piece of a stream and its offset.
#[derive(Debug)]
pub struct Chunk {
    /// Offset of the first data byte in the stream.
    pub stream_offset: u64,
    /// Data bytes.
    pub payload: Vec<u8>,
}

/// Which kind of stream-open frame was read.
#[derive(Debug, Clone, Copy, PartialEq, Eq, Structural)]
pub enum OpenKind {
    New,
    Reconnect,
}

/// A stream-open frame: its kind, its JSON payload, and the bytes it took.
#[derive(Debug)]
pub struct OpenFrame {
    pub kind: OpenKind,
    pub payload: Vec<u8>,
    pub consumed: usize,
}

/// A feedback frame: its JSON payload and the bytes it took.
#[derive(Debug)]
pub struct FeedbackFrame {
    pub payload: Vec<u8>,
    pub consumed: usize,
}

// ---------------------------------------------------------------------------
// Big-endian integers
// ---------------------------------------------------------------------------

/// Two bytes, the most significant first.
pub open spec fn be16(n: nat) -> Seq<u8> {
    seq![(n / 256) as u8, (n % 256) as u8]
}

/// Four bytes, the most significant first.
pub open spec fn be32(n: nat) -> Seq<u8> {
    be16(n / 65_536) + be16(n % 65_536)
}

/// Eight bytes, the most significant first.
pub open spec fn be64(n: nat) -> Seq<u8> {
    be32(n / 4_294_967_296) + be32(n % 4_294_967_296)
}

/// The value of two bytes at position `i`.
pub open spec fn from_be16(s: Seq<u8>, i: int) -> nat {
    (s[i] as nat) * 256 + s[i + 1] as nat
}

/// The value of four bytes at position `i`.
pub open spec fn from_be32(s: Seq<u8>, i: int) -> nat {
    from_be16(s, i) * 65_536 + from_be16(s, i + 2)
}

/// The value of eight bytes at position `i`.
pub open spec fn from_be64(s: Seq<u8>, i: int) -> nat {
    from_be32(s, i) * 4_294_967_296 + from_be32(s, i + 4)
}

proof fn lemma_be16(s: Seq<u8>, i: int, n: nat)
    requires
        n < 65_536,
        0 <= i,
        i + 2 <= s.len(),
        s.subrange(i, i + 2) == be16(n),
    ensures
        from_be16(s, i) == n,
{
    assert(s[i] == s.subrange(i, i + 2)[0]);
    assert(s[i + 1] == s.subrange(i, i + 2)[1]);
}

proof fn lemma_be32(s: Seq<u8>, i: int, n: nat)
    requires
        n < 4_294_967_296,
        0 <= i,
        i + 4 <= s.len(),
        s.subrange(i, i + 4) == be32(n),
    ensures
        from_be32(s, i) == n,
{
    let w = s.subrange(i, i + 4);
    assert(w.subrange(0, 2) =~= be16(n / 65_536));
    assert(w.subrange(2, 4) =~= be16(n % 65_536));
    assert(s.subrange(i, i + 2) =~= w.subrange(0, 2));
    assert(s.subrange(i + 2, i + 2 + 2) =~= w.subrange(2, 4));
    lemma_be16(s, i, n / 65_536);
    lemma_be16(s, i + 2, n % 65_536);
}

proof fn lemma_be64(s: Seq<u8>, i: int, n: nat)
    requires
        n <= u64::MAX,
        0 <= i,
        i + 8 <= s.len(),
        s.subrange(i, i + 8) == be64(n),
    ensures
        from_be64(s, i) == n,
{
    let w = s.subrange(i, i + 8);
    assert(w.subrange(0, 4) =~= be32(n / 4_294_967_296));
    assert(w.subrange(4, 8) =~= be32(n % 4_294_967_296));
    assert(s.subrange(i, i + 4) =~= w.subrange(0, 4));
    assert(s.subrange(i + 4, i + 4 + 4) =~= w.subrange(4, 8));
    lemma_be32(s, i, n / 4_294_967_296);
    lemma_be32(s, i + 4, n % 4_294_967_296);
}

fn push_be16(out: &mut Vec<u8>, n: u16)
    ensures
        final(out)@ == old(out)@ + be16(n as nat),
{
    out.push((n / 256) as u8);
    out.push((n % 256) as u8);
    assert(out@ =~= old(out)@ + be16(n as nat));
}

fn push_be32(out: &mut Vec<u8>, n: u32)
    ensures
        final(out)@ == old(out)@ + be32(n as nat),
{
    push_be16(out, (n / 65_536) as u16);
    push_be16(out, (n % 65_536) as u16);
    assert(out@ =~= old(out)@ + be32(n as nat));
}

fn push_be64(out: &mut Vec<u8>, n: u64)
    ensures
        final(out)@ == old(out)@ + be64(n as nat),
{
    push_be32(out, (n / 4_294_967_296) as u32);
    push_be32(out, (n % 4_294_967_296) as u32);
    assert(out@ =~= old(out)@ + be64(n as nat));
}

fn read_be16(buf: &[u8], i: usize) -> (r: u16)
    requires
        i + 2 <= buf@.len(),
    ensures
        r == from_be16(buf@, i as int),
{
    (buf[i] as u16) * 256 + buf[i + 1] as u16
}

fn read_be32(buf: &[u8], i: usize) -> (r: u32)
    requires
        i + 4 <= buf@.len(),
    ensures
        r == from_be32(buf@, i as int),
{
    assert(i + 4 <= buf.len());
    (read_be16(buf, i) as u32) * 65_536 + read_be16(buf, i + 2) as u32
}

fn read_be64(buf: &[u8], i: usize) -> (r: u64)
    requires
        i + 8 <= buf@.len(),
    ensures
        r == from_be64(buf@, i as int),
{
    assert(i + 8 <= buf.len());
    (read_be32(buf, i) as u64) * 4_294_967_296 + read_be32(buf, i + 4) as u64
}

/// A copy of `n` bytes from position `i` on.
fn copy_range(buf: &[u8], i: usize, n: usize) -> (r: Vec<u8>)
    requires
        i + n <= buf@.len(),
    ensures
        r@ == buf@.subrange(i as int, i + n),
{
    assert(i + n <= buf.len());
    let mut out: Vec<u8> = Vec::with_capacity(n);
    let mut k: usize = 0;
    while k < n
        invariant
            k <= n,
            i + n <= buf.len(),
            out@ == buf@.subrange(i as int, i + k),
        decreases n - k,
    {
        out.push(buf[i + k]);
        assert(out@ =~= buf@.subrange(i as int, i + k + 1));
        k = k + 1;
    }
    out
}

fn push_all(out: &mut Vec<u8>, data: &[u8])
    ensures
        final(out)@ == old(out)@ + data@,
{
    let mut k: usize = 0;
    assert(old(out)@ + data@.take(0) =~= old(out)@);
    while k < data.len()
        invariant
            k <= data@.len(),
            out@ == old(out)@ + data@.take(k as int),
        decreases data@.len() - k,
    {
        out.push(data[k]);
        assert(data@.take(k + 1) =~= data@.take(k as int).push(data@[k as int]));
        assert(out@ =~= old(out)@ + data@.take(k + 1));
        k = k + 1;
    }
    assert(data@.take(k as int) =~= data@);
}

// ---------------------------------------------------------------------------
// Frames
// ---------------------------------------------------------------------------

/// `e` is a transport error with the given text.
pub open spec fn is_transport(e: QueLayError, text: Seq<char>) -> bool {
    e matches QueLayError::Transport(t) && t@ == text
}

/// The bytes of a frame.
pub open spec fn frame_bytes(opcode: u8, payload: Seq<u8>) -> Seq<u8> {
    seq![MAGIC, VERSION, opcode, 0u8] + be32(payload.len()) + payload
}

/// The payload length that a preamble announces.
pub open spec fn announced_len(buf: Seq<u8>) -> nat {
    from_be32(buf, 4)
}

/// What is wrong with the frame at the front of `buf`, if anything. `layer` names
/// the kind of frame in the message.
pub open spec fn frame_fault(layer: Seq<char>, buf: Seq<u8>) -> Option<Seq<char>> {
    if buf.len() < FIXED_HEADER_LEN {
        Some(layer + " read fixed header: early eof"@)
    } else if buf[0] != MAGIC {
        Some(layer + " bad magic: expected 0x51, got 0x"@ + hex_byte(buf[0]))
    } else if buf[1] != VERSION {
        Some(layer + " unsupported version: expected 0x01, got 0x"@ + hex_byte(buf[1]))
    } else if announced_len(buf) > MAX_JSON_PAYLOAD {
        Some(layer + " payload_len "@ + decimal(announced_len(buf)) + " exceeds max 65535"@)
    } else if buf.len() < FIXED_HEADER_LEN + announced_len(buf) {
        Some(layer + " read payload: early eof"@)
    } else {
        None
    }
}

/// The payload of the frame at the front of `buf`.
pub open spec fn frame_payload(buf: Seq<u8>) -> Seq<u8> {
    buf.subrange(FIXED_HEADER_LEN as int, FIXED_HEADER_LEN + announced_len(buf))
}

/// The message for a payload that is too long to be written.
pub open spec fn too_long_text(layer: Seq<char>, len: nat) -> Seq<char> {
    layer + " payload "@ + decimal(len) + " exceeds max 65535"@
}

/// Frames a payload under an opcode.
fn write_frame(layer: &str, opcode: u8, payload: &[u8]) -> (r: Result<Vec<u8>, QueLayError>)
    ensures
        match r {
            Ok(bytes) => payload@.len() <= MAX_JSON_PAYLOAD && bytes@ == frame_bytes(
                opcode,
                payload@,
            ),
            Err(e) => payload@.len() > MAX_JSON_PAYLOAD && is_transport(
                e,
                too_long_text(layer@, payload@.len()),
            ),
        },
{
    if payload.len() > MAX_JSON_PAYLOAD {
        let mut s: String = joined(layer, " payload ");
        push_decimal(&mut s, payload.len() as u64);
        s.append(" exceeds max 65535");
        return Err(QueLayError::Transport(s));
    }
    let mut out: Vec<u8> = Vec::with_capacity(FIXED_HEADER_LEN + payload.len());
    out.push(MAGIC);
    out.push(VERSION);
    out.push(opcode);
    out.push(0);
    assert(out@ =~= seq![MAGIC, VERSION, opcode, 0u8]);
    push_be32(&mut out, payload.len() as u32);
    push_all(&mut out, payload);
    Ok(out)
}

/// The header of a new stream; its priority travels as a raw byte.
pub open spec fn header_of(meta: StreamMeta) -> StreamHeader {
    StreamHeader {
        uuid: meta.uuid,
        priority: meta.priority.0 as u8,
        size_bytes: meta.info.size_bytes,
        attrs: meta.info.attrs,
    }
}

/// What a header says of its stream.
pub open spec fn info_of(h: StreamHeader) -> StreamInfo {
    StreamInfo { size_bytes: h.size_bytes, attrs: h.attrs }
}

/// Makes the header of a new stream.
pub fn connect_header(meta: StreamMeta) -> (h: StreamHeader)
    ensures
        h == header_of(meta),
{
    StreamHeader {
        uuid: meta.uuid,
        priority: #[verifier::truncate] (meta.priority.as_i8() as u8),
        size_bytes: meta.info.size_bytes,
        attrs: meta.info.attrs,
    }
}

/// The header with which an interrupted stream goes on: the sender replays from the
/// first byte that is not acknowledged.
pub fn reconnect_header(uuid: u128, spool: &SpoolBuffer) -> (h: ReconnectHeader)
    ensures
        h.uuid == uuid,
        h.replay_from == spool@.acked,
{
    ReconnectHeader { uuid, replay_from: spool.bytes_acked() }
}

/// The frame that opens a new stream with the given JSON header.
pub fn write_connect_header(payload: &[u8]) -> (r: Result<Vec<u8>, QueLayError>)
    ensures
        match r {
            Ok(bytes) => payload@.len() <= MAX_JSON_PAYLOAD && bytes@ == frame_bytes(
                OP_NEW_STREAM,
                payload@,
            ),
            Err(e) => payload@.len() > MAX_JSON_PAYLOAD && is_transport(
                e,
                too_long_text("framing"@, payload@.len()),
            ),
        },
{
    write_frame("framing", OP_NEW_STREAM, payload)
}

/// The frame that continues a stream with the given JSON header.
pub fn write_reconnect_header(payload: &[u8]) -> (r: Result<Vec<u8>, QueLayError>)
    ensures
        match r {
            Ok(bytes) => payload@.len() <= MAX_JSON_PAYLOAD && bytes@ == frame_bytes(
                OP_RECONNECT,
                payload@,
            ),
            Err(e) => payload@.len() > MAX_JSON_PAYLOAD && is_transport(
                e,
                too_long_text("framing"@, payload@.len()),
            ),
        },
{
    write_frame("framing", OP_RECONNECT, payload)
}

/// The frame that carries a JSON feedback message.
pub fn write_wormhole_msg(payload: &[u8]) -> (r: Result<Vec<u8>, QueLayError>)
    ensures
        match r {
            Ok(bytes) => payload@.len() <= MAX_JSON_PAYLOAD && bytes@ == frame_bytes(
                OP_NEW_STREAM,
                payload@,
            ),
            Err(e) => payload@.len() > MAX_JSON_PAYLOAD && is_transport(
                e,
                too_long_text("wormhole"@, payload@.len()),
            ),
        },
{
    write_frame("wormhole", OP_NEW_STREAM, payload)
}

/// Checks a preamble on its own: gives the payload length it announces. To be used
/// before the payload is there.
pub fn read_preamble(layer: &str, fixed: &[u8]) -> (r: Result<usize, QueLayError>)
    ensures
        match r {
            Ok(len) => {
                &&& len == announced_len(fixed@)
                &&& fixed@.len() >= FIXED_HEADER_LEN
                &&& fixed@[0] == MAGIC
                &&& fixed@[1] == VERSION
                &&& len <= MAX_JSON_PAYLOAD
            },
            Err(e) => {
                &&& frame_fault(layer@, fixed@) is Some
                &&& is_transport(e, frame_fault(layer@, fixed@)->0)
                &&& fixed@.len() < FIXED_HEADER_LEN || fixed@[0] != MAGIC || fixed@[1] != VERSION
                    || announced_len(fixed@) > MAX_JSON_PAYLOAD
            },
        },
{
    if fixed.len() < FIXED_HEADER_LEN {
        return Err(QueLayError::Transport(joined(layer, " read fixed header: early eof")));
    }
    if fixed[0] != MAGIC {
        let mut s: String = joined(layer, " bad magic: expected 0x51, got 0x");
        push_hex_byte(&mut s, fixed[0]);
        return Err(QueLayError::Transport(s));
    }
    if fixed[1] != VERSION {
        let mut s: String = joined(layer, " unsupported version: expected 0x01, got 0x");
        push_hex_byte(&mut s, fixed[1]);
        return Err(QueLayError::Transport(s));
    }
    let len: u32 = read_be32(fixed, 4);
    if len as usize > MAX_JSON_PAYLOAD {
        let mut s: String = joined(layer, " payload_len ");
        push_decimal(&mut s, len as u64);
        s.append(" exceeds max 65535");
        return Err(QueLayError::Transport(s));
    }
    Ok(len as usize)
}

/// Reads the frame at the front of `buf`: its payload.
fn read_frame(layer: &str, buf: &[u8]) -> (r: Result<Vec<u8>, QueLayError>)
    ensures
        match r {
            Ok(payload) => frame_fault(layer@, buf@) is None && payload@ == frame_payload(buf@),
            Err(e) => frame_fault(layer@, buf@) is Some && is_transport(
                e,
                frame_fault(layer@, buf@)->0,
            ),
        },
{
    match read_preamble(layer, buf) {
        Ok(len) => {
            if buf.len() - FIXED_HEADER_LEN < len {
                return Err(QueLayError::Transport(joined(layer, " read payload: early eof")));
            }
            Ok(copy_range(buf, FIXED_HEADER_LEN, len))
        },
        Err(e) => Err(e),
    }
}

/// The kind of stream-open frame that an opcode stands for.
pub open spec fn open_kind(opcode: u8) -> Option<OpenKind> {
    if opcode == OP_NEW_STREAM {
        Some(OpenKind::New)
    } else if opcode == OP_RECONNECT {
        Some(OpenKind::Reconnect)
    } else {
        None
    }
}

/// What is wrong with the stream-open frame at the front of `buf`, if anything.
pub open spec fn open_fault(buf: Seq<u8>) -> Option<Seq<char>> {
    match frame_fault("framing"@, buf) {
        Some(text) => Some(text),
        None => if open_kind(buf[2]) is None {
            Some("framing unknown opcode: 0x"@ + hex_byte(buf[2]))
        } else {
            None
        },
    }
}

/// Reads the stream-open frame at the front of `buf`. Bytes behind it are left
/// alone.
pub fn read_stream_open(buf: &[u8]) -> (r: Result<OpenFrame, QueLayError>)
    ensures
        match r {
            Ok(f) => {
                &&& open_fault(buf@) is None
                &&& open_kind(buf@[2]) == Some(f.kind)
                &&& f.payload@ == frame_payload(buf@)
                &&& f.consumed == FIXED_HEADER_LEN + announced_len(buf@)
            },
            Err(e) => open_fault(buf@) is Some && is_transport(e, open_fault(buf@)->0),
        },
{
    match read_frame("framing", buf) {
        Ok(payload) => {
            let consumed: usize = FIXED_HEADER_LEN + payload.len();
            let opcode: u8 = buf[2];
            if opcode == OP_NEW_STREAM {
                Ok(OpenFrame { kind: OpenKind::New, payload, consumed })
            } else if opcode == OP_RECONNECT {
                Ok(OpenFrame { kind: OpenKind::Reconnect, payload, consumed })
            } else {
                let mut s: String = "framing unknown opcode: 0x".to_owned();
                push_hex_byte(&mut s, opcode);
                Err(QueLayError::Transport(s))
            }
        },
        Err(e) => Err(e),
    }
}

/// Reads the feedback frame at the front of `buf`; its opcode is not looked at.
pub fn read_wormhole_msg(buf: &[u8]) -> (r: Result<FeedbackFrame, QueLayError>)
    ensures
        match r {
            Ok(f) => {
                &&& frame_fault("wormhole"@, buf@) is None
                &&& f.payload@ == frame_payload(buf@)
                &&& f.consumed == FIXED_HEADER_LEN + announced_len(buf@)
            },
            Err(e) => frame_fault("wormhole"@, buf@) is Some && is_transport(
                e,
                frame_fault("wormhole"@, buf@)->0,
            ),
        },
{
    match read_frame("wormhole", buf) {
        Ok(payload) => {
            let consumed: usize = FIXED_HEADER_LEN + payload.len();
            Ok(FeedbackFrame { payload, consumed })
        },
        Err(e) => Err(e),
    }
}

/// The error for a payload that is not the expected JSON.
pub fn deserialize_error(layer: &str, detail: &str) -> (r: QueLayError)
    ensures
        is_transport(r, layer@ + " deserialize error: "@ + detail@),
{
    let mut s: String = joined(layer, " deserialize error: ");
    s.append(detail);
    QueLayError::Transport(s)
}

/// The error for a message that cannot be put into JSON.
pub fn serialize_error(layer: &str, detail: &str) -> (r: QueLayError)
    ensures
        is_transport(r, layer@ + " serialize error: "@ + detail@),
{
    let mut s: String = joined(layer, " serialize error: ");
    s.append(detail);
    QueLayError::Transport(s)
}

// ---------------------------------------------------------------------------
// Chunks
// ---------------------------------------------------------------------------

/// The bytes of a chunk; its length field has sixteen bits.
pub open spec fn chunk_bytes(offset: nat, payload: Seq<u8>) -> Seq<u8> {
    be64(offset) + be16(payload.len() % 65_536) + payload
}

/// The data length that a chunk header announces.
pub open spec fn chunk_len(buf: Seq<u8>) -> nat {
    from_be16(buf, 8)
}

/// What is wrong with the chunk at the front of a `buf` that is not empty, if
/// anything.
pub open spec fn chunk_fault(buf: Seq<u8>) -> Option<Seq<char>> {
    if buf.len() < CHUNK_HEADER_LEN {
        Some("chunk read header[1..]: early eof"@)
    } else if chunk_len(buf) > CHUNK_SIZE {
        Some("chunk payload_len "@ + decimal(chunk_len(buf)) + " exceeds CHUNK_SIZE 16384"@)
    } else if buf.len() < CHUNK_HEADER_LEN + chunk_len(buf) {
        Some("chunk read payload: early eof"@)
    } else {
        None
    }
}

/// Encodes a chunk without looking at its length.
pub fn encode_chunk(stream_offset: u64, payload: &[u8]) -> (r: Vec<u8>)
    ensures
        r@ == chunk_bytes(stream_offset as nat, payload@),
{
    let mut out: Vec<u8> = Vec::new();
    push_be64(&mut out, stream_offset);
    assert(Seq::<u8>::empty() + be64(stream_offset as nat) =~= be64(stream_offset as nat));
    push_be16(&mut out, (payload.len() % 65_536) as u16);
    push_all(&mut out, payload);
    out
}

/// Encodes a chunk whose length fits its length field.
pub fn write_chunk(stream_offset: u64, payload: &[u8]) -> (r: Result<Vec<u8>, QueLayError>)
    ensures
        match r {
            Ok(bytes) => payload@.len() <= 65_535 && bytes@ == chunk_bytes(
                stream_offset as nat,
                payload@,
            ),
            Err(e) => payload@.len() > 65_535 && is_transport(
                e,
                "chunk payload exceeds 65535 bytes"@,
            ),
        },
{
    if payload.len() > 65_535 {
        return Err(QueLayError::Transport("chunk payload exceeds 65535 bytes".to_owned()));
    }
    Ok(encode_chunk(stream_offset, payload))
}

/// Checks a chunk header on its own: gives the data length it announces. To be used
/// before the data is there.
pub fn read_chunk_header(hdr: &[u8]) -> (r: Result<usize, QueLayError>)
    ensures
        match r {
            Ok(len) => {
                &&& hdr@.len() >= CHUNK_HEADER_LEN
                &&& len == chunk_len(hdr@)
                &&& len <= CHUNK_SIZE
            },
            Err(e) => {
                &&& chunk_fault(hdr@) is Some
                &&& is_transport(e, chunk_fault(hdr@)->0)
                &&& hdr@.len() < CHUNK_HEADER_LEN || chunk_len(hdr@) > CHUNK_SIZE
            },
        },
{
    if hdr.len() < CHUNK_HEADER_LEN {
        return Err(QueLayError::Transport("chunk read header[1..]: early eof".to_owned()));
    }
    let len: u16 = read_be16(hdr, 8);
    if len as usize > CHUNK_SIZE {
        let mut s: String = "chunk payload_len ".to_owned();
        push_decimal(&mut s, len as u64);
        s.append(" exceeds CHUNK_SIZE 16384");
        return Err(QueLayError::Transport(s));
    }
    Ok(len as usize)
}

/// Reads the chunk at the front of `buf` and gives it with the bytes it took, or
/// nothing at the end of the stream.
pub fn read_chunk(buf: &[u8]) -> (r: Result<Option<(Chunk, usize)>, QueLayError>)
    ensures
        match r {
            Ok(None) => buf@.len() == 0,
            Ok(Some((c, consumed))) => {
                &&& buf@.len() > 0
                &&& chunk_fault(buf@) is None
                &&& c.stream_offset == from_be64(buf@, 0)
                &&& c.payload@ == buf@.subrange(
                    CHUNK_HEADER_LEN as int,
                    CHUNK_HEADER_LEN + chunk_len(buf@),
                )
                &&& consumed == CHUNK_HEADER_LEN + chunk_len(buf@)
            },
            Err(e) => buf@.len() > 0 && chunk_fault(buf@) is Some && is_transport(
                e,
                chunk_fault(buf@)->0,
            ),
        },
{
    if buf.len() == 0 {
        return Ok(None);
    }
    match read_chunk_header(buf) {
        Ok(len) => {
            if buf.len() - CHUNK_HEADER_LEN < len {
                return Err(QueLayError::Transport("chunk read payload: early eof".to_owned()));
            }
            let stream_offset: u64 = read_be64(buf, 0);
            let payload: Vec<u8> = copy_range(buf, CHUNK_HEADER_LEN, len);
            let consumed: usize = CHUNK_HEADER_LEN + len;
            Ok(Some((Chunk { stream_offset, payload }, consumed)))
        },
        Err(e) => Err(e),
    }
}

// ---------------------------------------------------------------------------
// Laws
// ---------------------------------------------------------------------------

/// What the sender says of a stream reaches the receiver unchanged: the header keeps
/// the identity, the size and the attributes.
pub proof fn law_info_is_forwarded(meta: StreamMeta)
    ensures
        header_of(meta).uuid == meta.uuid,
        info_of(header_of(meta)) == meta.info,
{
}

/// A frame that was written is read back, whatever follows it: no fault is found,
/// the payload and the opcode are those written, and the bytes behind are left.
pub proof fn law_frame_round_trip(layer: Seq<char>, opcode: u8, payload: Seq<u8>, rest: Seq<u8>)
    requires
        payload.len() <= MAX_JSON_PAYLOAD,
    ensures
        ({
            let buf = frame_bytes(opcode, payload) + rest;
            &&& frame_fault(layer, buf) is None
            &&& buf[2] == opcode
            &&& frame_payload(buf) == payload
            &&& buf.skip((FIXED_HEADER_LEN + announced_len(buf)) as int) == rest
        }),
{
    let buf = frame_bytes(opcode, payload) + rest;
    assert(buf.subrange(4, 8) =~= be32(payload.len()));
    lemma_be32(buf, 4, payload.len());
    assert(frame_payload(buf) =~= payload);
    assert(buf.skip((FIXED_HEADER_LEN + announced_len(buf)) as int) =~= rest);
}

/// A header written to open or to continue a stream is read back as such.
pub proof fn law_open_round_trip(kind: OpenKind, payload: Seq<u8>, rest: Seq<u8>)
    requires
        payload.len() <= MAX_JSON_PAYLOAD,
    ensures
        ({
            let opcode = match kind {
                OpenKind::New => OP_NEW_STREAM,
                OpenKind::Reconnect => OP_RECONNECT,
            };
            let buf = frame_bytes(opcode, payload) + rest;
            &&& open_fault(buf) is None
            &&& open_kind(buf[2]) == Some(kind)
            &&& frame_payload(buf) == payload
            &&& announced_len(buf) == payload.len()
        }),
{
    let opcode = match kind {
        OpenKind::New => OP_NEW_STREAM,
        OpenKind::Reconnect => OP_RECONNECT,
    };
    law_frame_round_trip("framing"@, opcode, payload, rest);
}

/// A frame is accepted whatever its pad byte holds.
pub proof fn law_pad_is_ignored(layer: Seq<char>, buf: Seq<u8>, pad: u8)
    requires
        buf.len() >= FIXED_HEADER_LEN,
    ensures
        frame_fault(layer, buf.update(3, pad)) == frame_fault(layer, buf),
        frame_fault(layer, buf) is None ==> frame_payload(buf.update(3, pad)) == frame_payload(buf),
{
    let other = buf.update(3, pad);
    assert(announced_len(other) == announced_len(buf));
    if frame_fault(layer, buf) is None {
        assert(frame_payload(other) =~= frame_payload(buf));
    }
}

/// A chunk that fits is read back, whatever follows it.
pub proof fn law_chunk_round_trip(offset: u64, payload: Seq<u8>, rest: Seq<u8>)
    requires
        payload.len() <= CHUNK_SIZE,
    ensures
        ({
            let buf = chunk_bytes(offset as nat, payload) + rest;
            &&& chunk_fault(buf) is None
            &&& from_be64(buf, 0) == offset
            &&& chunk_len(buf) == payload.len()
            &&& buf.subrange(CHUNK_HEADER_LEN as int, CHUNK_HEADER_LEN + chunk_len(buf)) == payload
            &&& buf.skip((CHUNK_HEADER_LEN + chunk_len(buf)) as int) == rest
        }),
{
    let buf = chunk_bytes(offset as nat, payload) + rest;
    assert(buf.subrange(0, 8) =~= be64(offset as nat));
    lemma_be64(buf, 0, offset as nat);
    assert(buf.subrange(8, 10) =~= be16(payload.len()));
    lemma_be16(buf, 8, payload.len());
    assert(buf.subrange(CHUNK_HEADER_LEN as int, CHUNK_HEADER_LEN + chunk_len(buf)) =~= payload);
    assert(buf.skip((CHUNK_HEADER_LEN + chunk_len(buf)) as int) =~= rest);
}

/// A chunk that is longer than a reader takes, though it can be written, is refused
/// from its header alone.
pub proof fn law_oversize_chunk_is_refused(offset: u64, payload: Seq<u8>, rest: Seq<u8>)
    requires
        CHUNK_SIZE < payload.len() <= 65_535,
    ensures
        chunk_fault(chunk_bytes(offset as nat, payload) + rest) == Some(
            "chunk payload_len "@ + decimal(payload.len()) + " exceeds CHUNK_SIZE 16384"@,
        ),
{
    let buf = chunk_bytes(offset as nat, payload) + rest;
    assert(buf.subrange(8, 10) =~= be16(payload.len()));
    lemma_be16(buf, 8, payload.len());
}

/// The value of big-endian bytes is the sum of the bytes, each weighed by its place.
pub proof fn law_numbers_are_big_endian(n: nat)
    ensures
        n < 65_536 ==> be16(n).len() == 2 && be16(n)[0] * 256 + be16(n)[1] == n,
        n < 4_294_967_296 ==> be32(n).len() == 4 && be32(n)[0] * 16_777_216 + be32(n)[1] * 65_536
            + be32(n)[2] * 256 + be32(n)[3] == n,
        n <= u64::MAX ==> be64(n).len() == 8 && be64(n)[0] * 72_057_594_037_927_936 + be64(n)[1]
            * 281_474_976_710_656 + be64(n)[2] * 1_099_511_627_776 + be64(n)[3] * 4_294_967_296
            + be64(n)[4] * 16_777_216 + be64(n)[5] * 65_536 + be64(n)[6] * 256 + be64(n)[7] == n,
{
}

/// The layout of a frame on the wire: magic, version, opcode, a zero, the length of the
/// payload in four bytes, and the payload.
pub proof fn law_frame_layout(opcode: u8, payload: Seq<u8>)
    requires
        payload.len() <= MAX_JSON_PAYLOAD,
    ensures
        ({
            let b = frame_bytes(opcode, payload);
            &&& b.len() == 8 + payload.len()
            &&& b[0] == 0x51
            &&& b[1] == 0x01
            &&& b[2] == opcode
            &&& b[3] == 0
            &&& b[4] * 16_777_216 + b[5] * 65_536 + b[6] * 256 + b[7] == payload.len()
            &&& b.skip(8) == payload
        }),
{
    let b = frame_bytes(opcode, payload);
    law_numbers_are_big_endian(payload.len());
    assert(b.subrange(4, 8) =~= be32(payload.len()));
    assert(b[4] == be32(payload.len())[0] && b[5] == be32(payload.len())[1]);
    assert(b[6] == be32(payload.len())[2] && b[7] == be32(payload.len())[3]);
    assert(b.skip(8) =~= payload);
}

/// The layout of a chunk on the wire: its offset in eight bytes, the length of its data
/// in two, and the data.
pub proof fn law_chunk_layout(offset: u64, payload: Seq<u8>)
    requires
        payload.len() <= 65_535,
    ensures
        ({
            let b = chunk_bytes(offset as nat, payload);
            &&& b.len() == 10 + payload.len()
            &&& b[0] * 72_057_594_037_927_936 + b[1] * 281_474_976_710_656 + b[2]
                * 1_099_511_627_776 + b[3] * 4_294_967_296 + b[4] * 16_777_216 + b[5] * 65_536
                + b[6] * 256 + b[7] == offset
            &&& b[8] * 256 + b[9] == payload.len()
            &&& b.skip(10) == payload
        }),
{
    let b = chunk_bytes(offset as nat, payload);
    let o = be64(offset as nat);
    law_numbers_are_big_endian(offset as nat);
    law_numbers_are_big_endian(payload.len());
    assert(b[0] == o[0] && b[1] == o[1] && b[2] == o[2] && b[3] == o[3]);
    assert(b[4] == o[4] && b[5] == o[5] && b[6] == o[6] && b[7] == o[7]);
    assert(b[8] == be16(payload.len())[0] && b[9] == be16(payload.len())[1]);
    assert(b.skip(10) =~= payload);
}

/// A frame is taken exactly when it is whole, starts with the magic and the version, and
/// announces no more than the most that a payload may have; then its payload is what
/// stands behind the preamble, as long as announced.
pub proof fn law_frames_are_taken_when_whole(layer: Seq<char>, buf: Seq<u8>)
    ensures
        frame_fault(layer, buf) is None <==> {
            &&& buf.len() >= 8
            &&& buf[0] == 0x51
            &&& buf[1] == 0x01
            &&& buf[4] * 16_777_216 + buf[5] * 65_536 + buf[6] * 256 + buf[7] <= 65_535
            &&& buf.len() >= 8 + buf[4] * 16_777_216 + buf[5] * 65_536 + buf[6] * 256 + buf[7]
        },
        frame_fault(layer, buf) is None ==> frame_payload(buf).len() == buf[4] * 16_777_216 + buf[5]
            * 65_536 + buf[6] * 256 + buf[7] && frame_payload(buf).is_prefix_of(buf.skip(8)),
        open_fault(buf) is None <==> frame_fault("framing"@, buf) is None && (buf[2] == 1 || buf[2]
            == 2),
        open_kind(1) == Some(OpenKind::New),
        open_kind(2) == Some(OpenKind::Reconnect),
{
    if frame_fault(layer, buf) is None {
        let n = frame_payload(buf).len();
        assert(frame_payload(buf) =~= buf.skip(8).subrange(0, n as int));
    }
}

/// A chunk is taken exactly when it is whole and no longer than a reader takes; then its
/// offset and its data are those that its header and its bytes give.
pub proof fn law_chunks_are_taken_when_whole(buf: Seq<u8>)
    requires
        buf.len() > 0,
    ensures
        chunk_fault(buf) is None <==> {
            &&& buf.len() >= 10
            &&& buf[8] * 256 + buf[9] <= 16_384
            &&& buf.len() >= 10 + buf[8] * 256 + buf[9]
        },
        chunk_len(buf) == buf[8] * 256 + buf[9],
        from_be64(buf, 0) == buf[0] * 72_057_594_037_927_936 + buf[1] * 281_474_976_710_656 + buf[2]
            * 1_099_511_627_776 + buf[3] * 4_294_967_296 + buf[4] * 16_777_216 + buf[5] * 65_536
            + buf[6] * 256 + buf[7],
{
}

/// A header carries what is known of a stream: identity, size, attributes, and the
/// priority as the byte that a signed byte reads back as the same level.
pub proof fn law_header_carries_the_stream(meta: StreamMeta)
    ensures
        header_of(meta).uuid == meta.uuid,
        header_of(meta).size_bytes == meta.info.size_bytes,
        header_of(meta).attrs == meta.info.attrs,
        header_of(meta).priority as i8 == meta.priority.0,
        info_of(header_of(meta)).size_bytes == meta.info.size_bytes,
        info_of(header_of(meta)).attrs == meta.info.attrs,
{
    let p: i8 = meta.priority.0;
    assert((p as u8) as i8 == p) by (bit_vector);
}

} // verus!
