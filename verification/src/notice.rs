//! What the local client is called back with, on both ends of the call.

use vstd::prelude::*;

use crate::failure::FailReason;
use crate::ids::{hyphenated, id_to_text, parsed_uuid};
use crate::mapping::{
    link_state_to_wire, queue_status_to_wire, stream_info_to_wire, texts_of, wire_state_of,
    WireLinkState, WireQueueStatus, WireStreamInfo,
};
use crate::session::{QueueStatus, StreamInfo};
use crate::transport::LinkState;

verus! {

/// An event of the agent that its client is to learn of.
#[derive(Debug)]
pub enum CallbackCmd {
    /// A stream has got its port.
    StreamStarted { uuid: u128, info: StreamInfo, port: u16 },
    /// A stream has come further.
    StreamProgress { uuid: u128, bytes: u64 },
    /// A stream has ended with success.
    StreamDone { uuid: u128, bytes: u64 },
    /// A stream has ended without success.
    StreamFailed { uuid: u128, code: FailReason, reason: String },
    /// The link state has changed.
    LinkStatus(LinkState),
    /// The queue has changed.
    QueueStatus(QueueStatus),
}

/// A call that the client gets.
#[derive(Debug)]
pub enum Notice {
    /// The agent asks whether the client is there.
    Ping,
    StreamStarted { uuid: String, info: WireStreamInfo, port: i32 },
    StreamProgress { uuid: String, bytes: i64 },
    StreamDone { uuid: String, bytes: i64 },
    StreamFailed { uuid: String, code: FailReason, reason: String },
    LinkStatus(WireLinkState),
    QueueStatus(WireQueueStatus),
}

/// The text names the stream: it is its hyphenated form, and reads back as it.
pub open spec fn names(text: Seq<char>, uuid: u128) -> bool {
    &&& text == hyphenated(uuid)
    &&& parsed_uuid(text) == Ok::<u128, Seq<char>>(uuid)
}

/// The call tells the client of the event.
pub open spec fn tells_of(n: Notice, cmd: CallbackCmd) -> bool {
    match cmd {
        CallbackCmd::StreamStarted { uuid, info, port } => {
            &&& n matches Notice::StreamStarted { uuid: t, info: w, port: p }
            &&& names(t@, uuid)
            &&& w.size_bytes == (match info.size_bytes {
                Some(v) => Some(v as i64),
                None => None,
            })
            &&& w.attrs == Some(info.attrs)
            &&& p == port
        },
        CallbackCmd::StreamProgress { uuid, bytes } => {
            &&& n matches Notice::StreamProgress { uuid: t, bytes: b }
            &&& names(t@, uuid)
            &&& b == bytes as i64
        },
        CallbackCmd::StreamDone { uuid, bytes } => {
            &&& n matches Notice::StreamDone { uuid: t, bytes: b }
            &&& names(t@, uuid)
            &&& b == bytes as i64
        },
        CallbackCmd::StreamFailed { uuid, code, reason } => {
            &&& n matches Notice::StreamFailed { uuid: t, code: c, reason: why }
            &&& names(t@, uuid)
            &&& c == code
            &&& why == reason
        },
        CallbackCmd::LinkStatus(state) => n == Notice::LinkStatus(wire_state_of(state)),
        CallbackCmd::QueueStatus(status) => {
            &&& n matches Notice::QueueStatus(w)
            &&& w.active_count == Some(status.active_count)
            &&& w.max_concurrent == Some(status.max_concurrent)
            &&& w.max_pending == Some(status.max_pending)
            &&& w.pending matches Some(p) && texts_of(p@, status.pending@)
        },
    }
}

/// The call that tells the client of an event.
pub fn notice_of(cmd: CallbackCmd) -> (n: Notice)
    ensures
        tells_of(n, cmd),
{
    match cmd {
        CallbackCmd::StreamStarted { uuid, info, port } => Notice::StreamStarted {
            uuid: id_to_text(uuid),
            info: stream_info_to_wire(info),
            port: port as i32,
        },
        CallbackCmd::StreamProgress { uuid, bytes } => Notice::StreamProgress {
            uuid: id_to_text(uuid),
            bytes: #[verifier::truncate] (bytes as i64),
        },
        CallbackCmd::StreamDone { uuid, bytes } => Notice::StreamDone {
            uuid: id_to_text(uuid),
            bytes: #[verifier::truncate] (bytes as i64),
        },
        CallbackCmd::StreamFailed { uuid, code, reason } => Notice::StreamFailed {
            uuid: id_to_text(uuid),
            code,
            reason,
        },
        CallbackCmd::LinkStatus(state) => Notice::LinkStatus(link_state_to_wire(state)),
        CallbackCmd::QueueStatus(status) => Notice::QueueStatus(queue_status_to_wire(&status)),
    }
}

/// The client finds in a call the port, the byte count and the stream that the agent
/// put there: ports and byte counts survive the signed numbers of the interface.
pub proof fn law_numbers_survive_the_call(port: u16, bytes: u64)
    ensures
        (port as i32) as u16 == port,
        (bytes as i64) as u64 == bytes,
{
    assert((port as i32) as u16 == port) by (bit_vector);
    assert((bytes as i64) as u64 == bytes) by (bit_vector);
}

} // verus!
