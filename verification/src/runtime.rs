//! The agent's control interface: live settings and the commands that calls lead to.

use vstd::prelude::*;

use crate::config::{DEFAULT_CHUNK_SIZE_BYTES, DEFAULT_MAX_CONCURRENT, MAX_CHUNK_SIZE_BYTES};
use crate::ids::{id_from_text, parsed_uuid};
use crate::mapping::{
    link_state_to_wire, stream_info_from_wire, wire_state_of, WireLinkState, WireStreamInfo,
};
use crate::priority::Priority;
use crate::session::StreamInfo;
use crate::session_manager::{SessionManager, StartStatus, StreamRef};
use crate::text::{decimal, joined, push_decimal};
use crate::transport::LinkState;

verus! {

/// Settings that can be changed while the agent runs.
#[derive(Debug, Clone, Copy, PartialEq, Eq, Structural)]
pub struct RuntimeConfig {
    /// Bandwidth limit in megabits per second; zero means no limit.
    pub bw_cap_mbps: u64,
    /// Data bytes per chunk of streams that are started from now on.
    pub chunk_size_bytes: usize,
    /// Most concurrent streams; zero means no limit.
    pub max_concurrent: usize,
}

/// A command of the control interface to the agent.
#[derive(Debug)]
pub enum AgentCmd {
    /// Start a stream.
    StreamStart { uuid: u128, info: StreamInfo, priority: Priority },
    /// Report the connection's counters.
    GetConnStats,
    /// Switch the link on or off.
    LinkEnable(bool),
    /// Change the limit on concurrent streams.
    SetMaxConcurrent(usize),
}

/// A command of the agent to the session manager.
#[derive(Debug)]
pub enum SessionCommand {
    /// Start a stream.
    StreamStart { uuid: u128, info: StreamInfo, priority: Priority },
    /// Report the connection's counters.
    GetConnStats,
    /// Switch the link on or off.
    LinkEnable(bool),
    /// Change the limit on concurrent streams; nothing means no limit.
    SetMaxConcurrent(Option<usize>),
}

impl RuntimeConfig {
    /// Settings with the given values.
    pub fn new(bw_cap_mbps: u64, chunk_size_bytes: usize, max_concurrent: usize) -> (r: Self)
        ensures
            r == (RuntimeConfig { bw_cap_mbps, chunk_size_bytes, max_concurrent }),
    {
        RuntimeConfig { bw_cap_mbps, chunk_size_bytes, max_concurrent }
    }

    /// The bandwidth limit as the control interface reports it.
    pub fn bandwidth_cap_mbps(&self) -> (r: i32)
        ensures
            r == self.bw_cap_mbps as i32,
    {
        #[verifier::truncate] (self.bw_cap_mbps as i32)
    }

    /// Sets the limit on concurrent streams, zero standing for the default; gives the
    /// command for the agent.
    pub fn set_max_concurrent(&mut self, n: i32) -> (r: AgentCmd)
        ensures
            *final(self) == (RuntimeConfig {
                max_concurrent: if n as usize == 0 {
                    DEFAULT_MAX_CONCURRENT
                } else {
                    n as usize
                },
                ..*old(self)
            }),
            r == AgentCmd::SetMaxConcurrent(n as usize),
    {
        let requested: usize = #[verifier::truncate] (n as usize);
        self.max_concurrent = if requested == 0 {
            DEFAULT_MAX_CONCURRENT
        } else {
            requested
        };
        AgentCmd::SetMaxConcurrent(requested)
    }

    /// The chunk size that a request leads to, zero standing for the default.
    pub open spec fn effective_chunk_size(n: i32) -> usize {
        if n as usize == 0 {
            DEFAULT_CHUNK_SIZE_BYTES
        } else {
            n as usize
        }
    }

    /// Sets the chunk size; one that a chunk's length field cannot hold is refused.
    pub fn set_chunk_size_bytes(&mut self, n: i32) -> (r: Result<(), String>)
        ensures
            ({
                let size = RuntimeConfig::effective_chunk_size(n);
                match r {
                    Ok(_) => {
                        &&& size <= MAX_CHUNK_SIZE_BYTES
                        &&& *final(self) == (RuntimeConfig {
                            chunk_size_bytes: size,
                            ..*old(self)
                        })
                    },
                    Err(e) => {
                        &&& size > MAX_CHUNK_SIZE_BYTES
                        &&& *final(self) == *old(self)
                        &&& e@ == "chunk_size_bytes "@ + decimal(size as nat)
                            + " exceeds u16 max (65535)"@
                    },
                }
            }),
    {
        let requested: usize = #[verifier::truncate] (n as usize);
        let effective: usize = if requested == 0 {
            DEFAULT_CHUNK_SIZE_BYTES
        } else {
            requested
        };
        if effective > MAX_CHUNK_SIZE_BYTES {
            let mut s: String = "chunk_size_bytes ".to_owned();
            push_decimal(&mut s, effective as u64);
            s.append(" exceeds u16 max (65535)");
            return Err(s);
        }
        self.chunk_size_bytes = effective;
        Ok(())
    }
}

/// The message for a stream identity that cannot be read.
pub open spec fn invalid_uuid_text(uuid_text: Seq<char>, detail: Seq<char>) -> Seq<char> {
    "thrift_srv: Invalid UUID:"@ + uuid_text + ":"@ + detail
}

/// The command for a request to start a stream, once its identity has been read;
/// nothing is commanded when it could not be.
pub fn stream_start_parsed(
    parsed: Result<u128, String>,
    uuid_text: &str,
    info: WireStreamInfo,
    priority: i8,
) -> (r: Result<AgentCmd, String>)
    ensures
        match parsed {
            Ok(id) => {
                &&& r is Ok
                &&& r->Ok_0 matches AgentCmd::StreamStart { uuid, info: i, priority: p } && {
                    &&& uuid == id
                    &&& p == Priority(priority)
                    &&& i.size_bytes == (match info.size_bytes {
                        Some(v) => Some(v as u64),
                        None => None,
                    })
                    &&& match info.attrs {
                        Some(a) => i.attrs == a,
                        None => i.attrs@ == Map::<String, String>::empty(),
                    }
                }
            },
            Err(e) => r is Err && r->Err_0@ == invalid_uuid_text(uuid_text@, e@),
        },
{
    match parsed {
        Ok(uuid) => Ok(
            AgentCmd::StreamStart {
                uuid,
                info: stream_info_from_wire(info),
                priority: Priority::from_i8(priority),
            },
        ),
        Err(e) => {
            let mut s: String = joined("thrift_srv: Invalid UUID:", uuid_text);
            s.append(":");
            s.append(e.as_str());
            Err(s)
        },
    }
}

/// The command for a request to start a stream. It is refused when the identity cannot
/// be read.
pub fn stream_start(uuid_text: &str, info: WireStreamInfo, priority: i8) -> (r: Result<
    AgentCmd,
    String,
>)
    ensures
        match parsed_uuid(uuid_text@) {
            Ok(id) => {
                &&& r is Ok
                &&& r->Ok_0 matches AgentCmd::StreamStart { uuid, info: i, priority: p } && {
                    &&& uuid == id
                    &&& p == Priority(priority)
                    &&& i.size_bytes == (match info.size_bytes {
                        Some(v) => Some(v as u64),
                        None => None,
                    })
                    &&& match info.attrs {
                        Some(a) => i.attrs == a,
                        None => i.attrs@ == Map::<String, String>::empty(),
                    }
                }
            },
            Err(e) => r is Err && r->Err_0@ == invalid_uuid_text(uuid_text@, e),
        },
{
    stream_start_parsed(id_from_text(uuid_text), uuid_text, info, priority)
}

/// The link state as the control interface reports it.
pub fn get_link_state(state: LinkState) -> (r: WireLinkState)
    ensures
        r == wire_state_of(state),
{
    link_state_to_wire(state)
}

/// What the agent passes on to the session manager.
pub fn dispatch(cmd: AgentCmd) -> (r: SessionCommand)
    ensures
        match cmd {
            AgentCmd::StreamStart { uuid, info, priority } => r == SessionCommand::StreamStart {
                uuid,
                info,
                priority,
            },
            AgentCmd::GetConnStats => r == SessionCommand::GetConnStats,
            AgentCmd::LinkEnable(enabled) => r == SessionCommand::LinkEnable(enabled),
            AgentCmd::SetMaxConcurrent(n) => r == SessionCommand::SetMaxConcurrent(
                if n == 0 {
                    None
                } else {
                    Some(n)
                },
            ),
        },
{
    match cmd {
        AgentCmd::StreamStart { uuid, info, priority } => SessionCommand::StreamStart {
            uuid,
            info,
            priority,
        },
        AgentCmd::GetConnStats => SessionCommand::GetConnStats,
        AgentCmd::LinkEnable(enabled) => SessionCommand::LinkEnable(enabled),
        AgentCmd::SetMaxConcurrent(n) => {
            let limit: Option<usize> = if n == 0 {
                None
            } else {
                Some(n)
            };
            SessionCommand::SetMaxConcurrent(limit)
        },
    }
}

/// The answer to a request to start a stream.
#[derive(Debug)]
pub struct StartReply {
    pub status: StartStatus,
    /// Zero for a stream that runs, the number of waiting streams for one that waits,
    /// and minus one for one that was refused.
    pub queue_position: i32,
    /// Empty unless the stream was refused.
    pub err_msg: String,
    /// Waiting streams, the next to start first.
    pub pending_queue: Vec<u128>,
}

/// The position that a status is reported with.
pub open spec fn position_of(status: StartStatus) -> i32 {
    match status {
        StartStatus::Running => 0,
        StartStatus::Pending(depth) => depth as i32,
        StartStatus::QueueFull => -1i32,
    }
}

/// Streams that wait are told apart by their positions: each is told how many streams
/// wait with it, none of them is told what a stream that runs or is refused is told, and
/// a stream that is queued behind more streams is told a larger number.
pub proof fn law_positions_tell_the_depth(n: usize, m: usize)
    requires
        0 < n < m <= i32::MAX,
    ensures
        position_of(StartStatus::Running) == 0,
        position_of(StartStatus::QueueFull) == -1,
        position_of(StartStatus::Pending(m)) == m,
        position_of(StartStatus::Pending(n)) == n,
        position_of(StartStatus::Pending(n)) < position_of(StartStatus::Pending(m)),
        position_of(StartStatus::Pending(n)) > position_of(StartStatus::Running),
{
}

/// Answers a request to start a stream.
pub fn start_reply(manager: &SessionManager, status: StartStatus) -> (r: StartReply)
    ensures
        r.status == status,
        r.queue_position == position_of(status),
        status == StartStatus::Running ==> r.queue_position == 0,
        status matches StartStatus::Pending(n) ==> n <= i32::MAX ==> r.queue_position == n,
        status == StartStatus::QueueFull ==> r.queue_position == -1,
        r.err_msg@ == (if status == StartStatus::QueueFull {
            "pending queue full"@
        } else {
            ""@
        }),
        r.pending_queue@ == manager@.pending.map_values(|p: StreamRef| p.uuid),
{
    let queue_position: i32 = match status {
        StartStatus::Running => 0,
        StartStatus::Pending(depth) => #[verifier::truncate] (depth as i32),
        StartStatus::QueueFull => -1,
    };
    let err_msg: String = match status {
        StartStatus::QueueFull => "pending queue full".to_owned(),
        _ => "".to_owned(),
    };
    let pending_queue: Vec<u128> = manager.queue_status().pending;
    StartReply { status, queue_position, err_msg, pending_queue }
}

/// A chunk size that is asked for is used as it is, and zero stands for sixteen KiB.
pub proof fn law_chunk_size_is_used(n: i32)
    requires
        n >= 0,
    ensures
        n > 0 ==> RuntimeConfig::effective_chunk_size(n) == n,
        n == 0 ==> RuntimeConfig::effective_chunk_size(n) == 16_384,
{
}

} // verus!
