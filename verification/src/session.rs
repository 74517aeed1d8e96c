//! Stream metadata and queue snapshots.

use std::collections::HashMap;

use vstd::prelude::*;

use crate::priority::Priority;

verus! {

/// Metadata that the client attaches to a stream; forwarded as it is.
#[derive(Debug)]
pub struct StreamInfo {
    /// Length in bytes, when it is known.
    pub size_bytes: Option<u64>,
    /// Application attributes, such as `filename`, `sha256` or `content_type`.
    pub attrs: HashMap<String, String>,
}

/// What is kept of every active or pending stream.
#[derive(Debug)]
pub struct StreamMeta {
    /// Identity; survives reconnections.
    pub uuid: u128,
    /// Priority at which the stream was opened.
    pub priority: Priority,
    /// Metadata of the client.
    pub info: StreamInfo,
}

/// Snapshot of the queue of streams.
#[derive(Debug)]
pub struct QueueStatus {
    /// Streams that are transferring.
    pub active_count: i32,
    /// Most streams that may transfer at a time.
    pub max_concurrent: i32,
    /// Most streams that may wait.
    pub max_pending: i32,
    /// Waiting streams, the next to start first.
    pub pending: Vec<u128>,
}

} // verus!
