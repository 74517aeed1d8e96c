use std::collections::HashMap;

use quelay::downlink::Reconnected;
use quelay::framing::{ReconnectHeader, StreamHeader, StreamOpen};
use quelay::mapping::WireStreamInfo;
use quelay::priority::Priority;
use quelay::runtime::{
    dispatch, get_link_state, start_reply, stream_start, stream_start_parsed, AgentCmd,
    RuntimeConfig, SessionCommand,
};
use quelay::session_manager::{
    AcceptAction, AcceptNext, Backoff, LinkAction, RestoreOutcome, SessionManager, StartDecision,
    StartStatus, StreamRef,
};
use quelay::transport::LinkState;

fn stream(uuid: u128, level: i8) -> StreamRef {
    StreamRef {
        uuid,
        priority: Priority::from_i8(level),
    }
}

fn ids(list: &[StreamRef]) -> Vec<u128> {
    list.iter().map(|r| r.uuid).collect()
}

fn start(m: &mut SessionManager, r: StreamRef) -> StartStatus {
    match m.stream_start(r) {
        StartDecision::Open => m.on_open_result(r, true),
        StartDecision::Pending(n) => StartStatus::Pending(n),
        StartDecision::QueueFull => StartStatus::QueueFull,
    }
}

#[test]
fn streams_beyond_the_limit_wait_by_priority() {
    let mut m = SessionManager::new(2, 100);
    let levels = [12i8, 60, 24, 48, 36];
    let mut replies = Vec::new();
    for (i, level) in levels.iter().enumerate() {
        replies.push(start(&mut m, stream(i as u128, *level)));
    }
    assert_eq!(
        replies,
        vec![
            StartStatus::Running,
            StartStatus::Running,
            StartStatus::Pending(1),
            StartStatus::Pending(2),
            StartStatus::Pending(3),
        ]
    );
    let q = m.queue_status();
    assert_eq!(q.active_count, 2);
    assert_eq!(q.max_concurrent, 2);
    assert_eq!(q.max_pending, 100);
    assert_eq!(q.pending, vec![3, 4, 2]);
}

#[test]
fn equal_priorities_keep_their_order() {
    let mut m = SessionManager::new(1, 100);
    start(&mut m, stream(1, 0));
    for id in [2u128, 3, 4] {
        start(&mut m, stream(id, 10));
    }
    assert_eq!(m.queue_status().pending, vec![2, 3, 4]);
}

#[test]
fn full_queue_refuses() {
    let mut m = SessionManager::new(1, 1);
    start(&mut m, stream(1, 0));
    assert_eq!(start(&mut m, stream(2, 0)), StartStatus::Pending(1));
    let status = start(&mut m, stream(3, 0));
    assert_eq!(status, StartStatus::QueueFull);
    let reply = start_reply(&m, status);
    assert_eq!(reply.queue_position, -1);
    assert!(!reply.err_msg.is_empty());
    assert_eq!(reply.pending_queue, vec![2]);
    let reply = start_reply(&m, StartStatus::Pending(1));
    assert_eq!(reply.queue_position, 1);
    assert_eq!(reply.err_msg, "");
    assert_eq!(start_reply(&m, StartStatus::Running).queue_position, 0);
}

#[test]
fn ended_stream_makes_room() {
    let mut m = SessionManager::new(1, 100);
    start(&mut m, stream(1, 0));
    start(&mut m, stream(2, 5));
    assert!(!m.may_open());
    m.on_stream_ended(1);
    assert!(m.may_open());
    let next = m.drain_order();
    assert_eq!(ids(&next), vec![2]);
    m.on_reissued(next[0], true);
    assert!(m.queue_status().pending.is_empty());
    assert_eq!(m.queue_status().active_count, 1);
}

#[test]
fn limit_can_be_lifted() {
    let mut m = SessionManager::new(1, 100);
    start(&mut m, stream(1, 0));
    assert!(!m.may_open());
    m.set_max_concurrent(None);
    assert!(m.may_open());
    assert_eq!(m.queue_status().max_concurrent, 0);
}

#[test]
fn outage_keeps_streams_and_queues_new_ones() {
    let mut m = SessionManager::new(0, 100);
    start(&mut m, stream(1, 0));
    assert_eq!(m.on_link_state(LinkState::Degraded), LinkAction::Nothing);
    assert_eq!(m.on_link_state(LinkState::Failed), LinkAction::Reconnect);
    assert_eq!(m.link_state(), LinkState::Failed);
    assert_eq!(start(&mut m, stream(2, 0)), StartStatus::Pending(1));
    assert!(m.restore_order().is_empty());
    assert!(m.drain_order().is_empty());
    assert_eq!(m.accept_next(None), AcceptNext::AwaitSession);
    assert_eq!(m.accept_next(Some(true)), AcceptNext::ReadHeader);
    assert_eq!(m.accept_next(Some(false)), AcceptNext::CloseAndAwait);
    m.on_reconnected();
    assert_eq!(m.link_state(), LinkState::Normal);
    assert_eq!(ids(&m.restore_order()), vec![1]);
    m.on_restored(1, RestoreOutcome::Delivered);
    assert_eq!(ids(&m.restore_order()), vec![1]);
    assert_eq!(ids(&m.drain_order()), vec![2]);
    m.on_reissued(stream(2, 0), false);
    assert_eq!(m.queue_status().pending, vec![2]);
    m.on_restored(1, RestoreOutcome::PumpGone);
    assert!(m.restore_order().is_empty());
}

#[test]
fn stream_that_cannot_be_opened_waits() {
    let mut m = SessionManager::new(0, 100);
    let r = stream(1, 0);
    assert_eq!(m.stream_start(r), StartDecision::Open);
    assert_eq!(m.on_open_result(r, false), StartStatus::Pending(1));
    assert_eq!(m.queue_status().pending, vec![1]);
}

#[test]
fn ended_uplinks_are_pruned() {
    let mut m = SessionManager::new(0, 100);
    for id in [1u128, 2, 3] {
        start(&mut m, stream(id, 0));
    }
    m.prune_uplinks(&vec![1, 3, 9]);
    assert_eq!(ids(&m.restore_order()), vec![2]);
}

#[test]
fn inbound_streams_are_dispatched() {
    let mut m = SessionManager::new(0, 100);
    assert_eq!(m.accept_next(None), AcceptNext::Accept);
    assert_eq!(m.accept_next(Some(true)), AcceptNext::ReadHeader);
    assert_eq!(m.accept_next(Some(false)), AcceptNext::CloseAndAwait);
    let mut attrs = HashMap::new();
    attrs.insert("filename".to_string(), "a.bin".to_string());
    let open = StreamOpen::New(StreamHeader {
        uuid: 7,
        priority: 0,
        size_bytes: Some(10),
        attrs,
    });
    match m.on_accept(open, &vec![]) {
        AcceptAction::Spawn { uuid, info } => {
            assert_eq!(uuid, 7);
            assert_eq!(info.size_bytes, Some(10));
            assert_eq!(info.attrs["filename"], "a.bin");
        }
        other => panic!("{other:?}"),
    }
    m.on_downlink_spawned(7);
    let again = |uuid| {
        StreamOpen::Reconnect(ReconnectHeader {
            uuid,
            replay_from: 5,
        })
    };
    assert!(matches!(
        m.on_accept(again(7), &vec![]),
        AcceptAction::Deliver {
            uuid: 7,
            replay_from: 5
        }
    ));
    assert!(matches!(
        m.on_accept(again(8), &vec![]),
        AcceptAction::DropUnknown { uuid: 8 }
    ));
    assert!(matches!(
        m.on_accept(again(7), &vec![7]),
        AcceptAction::DropUnknown { uuid: 7 }
    ));
}

#[test]
fn link_switch_tells_every_pump() {
    let mut m = SessionManager::new(0, 100);
    start(&mut m, stream(1, 0));
    start(&mut m, stream(2, 0));
    let off = m.link_enable(false);
    assert_eq!(off.notify, vec![1, 2]);
    assert!(off.close_session);
    let on = m.link_enable(true);
    assert!(on.notify.is_empty());
    assert!(!on.close_session);
    m.on_link_state(LinkState::Failed);
    assert!(!m.link_enable(false).close_session);
}

#[test]
fn backoff_doubles_up_to_half_a_minute() {
    let mut b = Backoff::new();
    let waits: Vec<u64> = (0..8).map(|_| b.on_failure()).collect();
    assert_eq!(waits, vec![1, 2, 4, 8, 16, 30, 30, 30]);
}

fn wire_info() -> WireStreamInfo {
    WireStreamInfo {
        size_bytes: Some(4096),
        attrs: None,
    }
}

#[test]
fn start_request_is_read() {
    match stream_start("67e55044-10b1-426f-9247-bb680e5fe0c8", wire_info(), 10) {
        Ok(AgentCmd::StreamStart {
            uuid,
            info,
            priority,
        }) => {
            assert_eq!(uuid, 0x67e55044_10b1_426f_9247_bb680e5fe0c8);
            assert_eq!(info.size_bytes, Some(4096));
            assert!(info.attrs.is_empty());
            assert_eq!(priority.as_i8(), 10);
        }
        other => panic!("{other:?}"),
    }
    let e = stream_start("nonsense", wire_info(), 0).unwrap_err();
    assert!(e.starts_with("thrift_srv: Invalid UUID:nonsense:"), "{e}");
    let e = stream_start_parsed(Err("why".to_string()), "x", wire_info(), 0).unwrap_err();
    assert_eq!(e, "thrift_srv: Invalid UUID:x:why");
}

#[test]
fn commands_are_dispatched() {
    assert!(matches!(
        dispatch(AgentCmd::SetMaxConcurrent(0)),
        SessionCommand::SetMaxConcurrent(None)
    ));
    assert!(matches!(
        dispatch(AgentCmd::SetMaxConcurrent(3)),
        SessionCommand::SetMaxConcurrent(Some(3))
    ));
    assert!(matches!(
        dispatch(AgentCmd::LinkEnable(true)),
        SessionCommand::LinkEnable(true)
    ));
    assert!(matches!(
        dispatch(AgentCmd::GetConnStats),
        SessionCommand::GetConnStats
    ));
}

#[test]
fn runtime_settings() {
    let mut cfg = RuntimeConfig::new(10, 16_384, 4);
    assert_eq!(cfg.bandwidth_cap_mbps(), 10);
    assert!(cfg.set_chunk_size_bytes(1_024).is_ok());
    assert_eq!(cfg.chunk_size_bytes, 1_024);
    assert!(cfg.set_chunk_size_bytes(0).is_ok());
    assert_eq!(cfg.chunk_size_bytes, 16_384);
    assert_eq!(
        cfg.set_chunk_size_bytes(65_536),
        Err("chunk_size_bytes 65536 exceeds u16 max (65535)".to_string())
    );
    assert_eq!(cfg.chunk_size_bytes, 16_384);
    assert!(cfg.set_chunk_size_bytes(-1).is_err());
    assert!(matches!(
        cfg.set_max_concurrent(0),
        AgentCmd::SetMaxConcurrent(0)
    ));
    assert_eq!(cfg.max_concurrent, 0);
    assert!(matches!(
        cfg.set_max_concurrent(2),
        AgentCmd::SetMaxConcurrent(2)
    ));
    assert_eq!(cfg.max_concurrent, 2);
    assert_eq!(
        get_link_state(LinkState::Degraded),
        quelay::mapping::WireLinkState::Degraded
    );
}

#[test]
fn inbound_stream_with_lost_bytes_is_given_up() {
    let mut m = SessionManager::new(0, 100);
    m.on_downlink_spawned(7);
    m.on_downlink_spawned(8);
    let delivers = |m: &mut SessionManager, uuid| {
        let open = StreamOpen::Reconnect(ReconnectHeader {
            uuid,
            replay_from: 5,
        });
        matches!(m.on_accept(open, &vec![]), AcceptAction::Deliver { .. })
    };
    m.on_resumed(7, Reconnected::Delivered);
    m.on_resumed(7, Reconnected::Unavailable);
    assert!(delivers(&mut m, 7));
    m.on_resumed(7, Reconnected::Gap);
    assert!(!delivers(&mut m, 7));
    assert!(delivers(&mut m, 8));
}
