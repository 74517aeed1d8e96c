//! Demonstration of the conversions between the relay's types and their wire forms.

use std::collections::HashMap;

use vstd::prelude::*;

use crate::ids::{marked_random, new_id};
use crate::mapping::{
    law_link_state_round_trip, law_queue_ids_round_trip, law_size_round_trip, link_state_from_wire,
    link_state_to_wire, queue_status_from_wire, queue_status_to_wire, stream_info_from_wire,
    stream_info_to_wire,
};
use crate::session::{QueueStatus, StreamInfo};
use crate::transport::LinkState;

verus! {

/// What came back of each conversion there and back.
#[derive(Debug)]
pub struct DemoReport {
    pub link_states_ok: bool,
    pub info: StreamInfo,
    pub queue: QueueStatus,
}

fn round_trip_link_state(given: LinkState) -> (same: bool)
    ensures
        same,
{
    let restored: LinkState = link_state_from_wire(link_state_to_wire(given));
    proof {
        law_link_state_round_trip(given);
    }
    restored == given
}

/// Stream metadata there and back: the same size and the same attributes.
pub fn round_trip_stream_info(given: StreamInfo) -> (restored: StreamInfo)
    ensures
        restored.size_bytes == given.size_bytes,
        restored.attrs == given.attrs,
{
    proof {
        if let Some(v) = given.size_bytes {
            law_size_round_trip(v);
        }
    }
    stream_info_from_wire(stream_info_to_wire(given))
}

/// A queue snapshot there and back: the same numbers and the same streams.
pub fn round_trip_queue_status(given: &QueueStatus) -> (restored: QueueStatus)
    ensures
        restored.active_count == given.active_count,
        restored.max_concurrent == given.max_concurrent,
        restored.max_pending == given.max_pending,
        restored.pending@ == given.pending@,
{
    let wire = queue_status_to_wire(given);
    proof {
        law_queue_ids_round_trip(wire.pending->0@, given.pending@);
    }
    queue_status_from_wire(&wire)
}

/// Takes link states, stream metadata and a queue snapshot there and back.
pub fn run() -> (r: DemoReport)
    ensures
        r.link_states_ok,
        r.info.size_bytes == Some(1_048_576u64),
        r.queue.active_count == 2,
        r.queue.max_concurrent == 4,
        r.queue.max_pending == 16,
        r.queue.pending@.len() == 3,
        forall|i: int| 0 <= i < 3 ==> marked_random(#[trigger] r.queue.pending@[i]),
{
    let link_states_ok: bool = round_trip_link_state(LinkState::Connecting)
        && round_trip_link_state(LinkState::Normal) && round_trip_link_state(LinkState::Degraded)
        && round_trip_link_state(LinkState::Failed);
    let mut attrs: HashMap<String, String> = HashMap::new();
    attrs.insert("filename".to_owned(), "telemetry-2026.bin".to_owned());
    attrs.insert("sha256".to_owned(), "abc123def456".to_owned());
    attrs.insert("content_type".to_owned(), "application/octet-stream".to_owned());
    let info: StreamInfo = round_trip_stream_info(
        StreamInfo { size_bytes: Some(1_048_576), attrs },
    );
    let pending: Vec<u128> = vec![new_id(), new_id(), new_id()];
    let queue: QueueStatus = round_trip_queue_status(
        &QueueStatus { active_count: 2, max_concurrent: 4, max_pending: 16, pending },
    );
    DemoReport { link_states_ok, info, queue }
}

} // verus!
