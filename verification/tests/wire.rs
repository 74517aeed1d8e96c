use std::collections::HashMap;

use quelay::callback::{CallbackAction, CallbackAgent};
use quelay::demo;
use quelay::digest::{digests_match, sha256_hex, to_hex};
use quelay::error::QueLayError;
use quelay::failure::FailReason;
use quelay::ids::{id_from_text, id_to_text, new_id};
use quelay::linksim::{outage_states, LinkSimLimits, LinkSimReader};
use quelay::mapping::{
    link_state_from_wire, link_state_name, link_state_to_wire, queue_status_from_wire,
    queue_status_to_wire, stream_info_from_wire, stream_info_to_wire, WireLinkState,
    WireQueueStatus, WireStreamInfo,
};
use quelay::notice::{notice_of, CallbackCmd, Notice};
use quelay::quic::{connect_name, CertBundle, QuicError, Recovery, StreamFault};
use quelay::session::{QueueStatus, StreamInfo};
use quelay::transport::{ConnStats, LinkState, StreamSignal, WriteHalf, MAX_RESET_CODE};

// --- identities

#[test]
fn identity_texts() {
    let id = 0x67e55044_10b1_426f_9247_bb680e5fe0c8u128;
    assert_eq!(id_to_text(id), "67e55044-10b1-426f-9247-bb680e5fe0c8");
    assert_eq!(id_from_text("67e55044-10b1-426f-9247-bb680e5fe0c8"), Ok(id));
    assert_eq!(id_from_text("67E5504410B1426F9247BB680E5FE0C8"), Ok(id));
    assert!(id_from_text("67e55044-10b1").is_err());
    assert_eq!(id_to_text(0), "00000000-0000-0000-0000-000000000000");
}

#[test]
fn fresh_identities_are_marked_and_differ() {
    let a = new_id();
    let b = new_id();
    assert_ne!(a, b);
    assert_eq!((a >> 76) & 0xF, 4);
    assert_eq!((a >> 62) & 0x3, 2);
    assert_eq!(id_from_text(&id_to_text(a)), Ok(a));
}

// --- digests

#[test]
fn known_digests() {
    assert_eq!(
        sha256_hex(b"abc"),
        "ba7816bf8f01cfea414140de5dae2223b00361a396177a9cb410ff61f20015ad"
    );
    assert_eq!(
        sha256_hex(b""),
        "e3b0c44298fc1c149afbf4c8996fb92427ae41e4649b934ca495991b7852b855"
    );
    assert_eq!(to_hex(&vec![0x00, 0x0f, 0xa5, 0xff]), "000fa5ff");
}

#[test]
fn digests_tell_payloads_apart() {
    assert!(digests_match(b"same", b"same"));
    assert!(!digests_match(b"same", b"Same"));
}

// --- mapping

#[test]
fn link_states_survive_the_wire() {
    for s in [
        LinkState::Connecting,
        LinkState::Normal,
        LinkState::Degraded,
        LinkState::Failed,
    ] {
        assert_eq!(link_state_from_wire(link_state_to_wire(s)), s);
    }
    assert_eq!(link_state_from_wire(WireLinkState::Other(9)), LinkState::Failed);
    assert_eq!(link_state_name(WireLinkState::Normal), "Normal");
    assert_eq!(link_state_name(WireLinkState::Other(9)), "Unknown");
}

#[test]
fn stream_info_survives_the_wire() {
    let mut attrs = HashMap::new();
    attrs.insert("filename".to_string(), "telemetry-2026.bin".to_string());
    let wire = stream_info_to_wire(StreamInfo {
        size_bytes: Some(1_048_576),
        attrs,
    });
    assert_eq!(wire.size_bytes, Some(1_048_576));
    let back = stream_info_from_wire(wire);
    assert_eq!(back.size_bytes, Some(1_048_576));
    assert_eq!(back.attrs["filename"], "telemetry-2026.bin");
    let bare = stream_info_from_wire(WireStreamInfo {
        size_bytes: None,
        attrs: None,
    });
    assert_eq!(bare.size_bytes, None);
    assert!(bare.attrs.is_empty());
}

#[test]
fn queue_status_survives_the_wire() {
    let original = QueueStatus {
        active_count: 2,
        max_concurrent: 4,
        max_pending: 16,
        pending: vec![new_id(), new_id(), new_id()],
    };
    let wire = queue_status_to_wire(&original);
    assert_eq!(
        wire.pending.as_ref().unwrap()[0],
        id_to_text(original.pending[0])
    );
    let back = queue_status_from_wire(&wire);
    assert_eq!(back.active_count, 2);
    assert_eq!(back.max_concurrent, 4);
    assert_eq!(back.max_pending, 16);
    assert_eq!(back.pending, original.pending);
}

#[test]
fn queue_status_skips_what_is_no_identity() {
    let id = new_id();
    let back = queue_status_from_wire(&WireQueueStatus {
        active_count: None,
        max_concurrent: Some(3),
        max_pending: None,
        pending: Some(vec!["junk".to_string(), id_to_text(id)]),
    });
    assert_eq!(back.active_count, 0);
    assert_eq!(back.max_concurrent, 3);
    assert_eq!(back.pending, vec![id]);
}

#[test]
fn mapping_demo() {
    let r = demo::run();
    assert!(r.link_states_ok);
    assert_eq!(r.info.size_bytes, Some(1024 * 1024));
    assert_eq!(r.info.attrs.len(), 3);
    assert_eq!(r.info.attrs["sha256"], "abc123def456");
    assert_eq!(r.queue.active_count, 2);
    assert_eq!(r.queue.pending.len(), 3);
}

// --- callbacks

#[test]
fn events_become_calls() {
    let id = new_id();
    let text = id_to_text(id);
    match notice_of(CallbackCmd::StreamStarted {
        uuid: id,
        info: StreamInfo {
            size_bytes: Some(5),
            attrs: HashMap::new(),
        },
        port: 65_000,
    }) {
        Notice::StreamStarted { uuid, info, port } => {
            assert_eq!(uuid, text);
            assert_eq!(info.size_bytes, Some(5));
            assert_eq!(port, 65_000);
        }
        other => panic!("{other:?}"),
    }
    assert!(matches!(
        notice_of(CallbackCmd::StreamProgress { uuid: id, bytes: 3 }),
        Notice::StreamProgress { ref uuid, bytes: 3 } if *uuid == text
    ));
    assert!(matches!(
        notice_of(CallbackCmd::StreamDone { uuid: id, bytes: 9 }),
        Notice::StreamDone { bytes: 9, .. }
    ));
    assert!(matches!(
        notice_of(CallbackCmd::StreamFailed {
            uuid: id,
            code: FailReason::LinkFailed,
            reason: "gone".to_string()
        }),
        Notice::StreamFailed { code: FailReason::LinkFailed, ref reason, .. } if reason == "gone"
    ));
    assert!(matches!(
        notice_of(CallbackCmd::LinkStatus(LinkState::Failed)),
        Notice::LinkStatus(WireLinkState::Failed)
    ));
    match notice_of(CallbackCmd::QueueStatus(QueueStatus {
        active_count: 1,
        max_concurrent: 2,
        max_pending: 3,
        pending: vec![id],
    })) {
        Notice::QueueStatus(w) => assert_eq!(w.pending, Some(vec![text])),
        other => panic!("{other:?}"),
    }
}

#[test]
fn callback_connection() {
    let mut a = CallbackAgent::new();
    assert_eq!(a.on_event(), CallbackAction::Skip);
    assert_eq!(a.on_register(), CallbackAction::Connect);
    assert_eq!(a.on_event(), CallbackAction::Skip);
    a.on_connected(true);
    assert_eq!(a.on_event(), CallbackAction::Call);
    a.on_called(true);
    assert_eq!(a.on_event(), CallbackAction::Call);
    a.on_called(false);
    assert_eq!(a.on_event(), CallbackAction::Skip);
    a.on_connected(true);
    a.on_register();
    a.on_connected(false);
    assert_eq!(a.on_event(), CallbackAction::Skip);
}

// --- transport

#[test]
fn write_half_finishes_once() {
    let mut w = WriteHalf::new();
    assert!(matches!(w.finish(), Ok(StreamSignal::Fin)));
    assert!(matches!(w.finish(), Err(QueLayError::AlreadyFinished)));
    assert_eq!(w.finish_non_blocking(), StreamSignal::Nothing);
    let mut w = WriteHalf::new();
    assert_eq!(w.finish_non_blocking(), StreamSignal::Fin);
    assert_eq!(w.finish_non_blocking(), StreamSignal::Nothing);
    let mut w = WriteHalf::new();
    assert_eq!(w.reset(7), StreamSignal::Reset(7));
    assert!(w.finished);
    assert_eq!(w.reset(u64::MAX), StreamSignal::Reset(MAX_RESET_CODE));
    let mut w = WriteHalf::new();
    assert_eq!(w.abort(u64::MAX), StreamSignal::Reset(u64::MAX));
    assert!(w.finished);
}

#[test]
fn statistics_of_a_transfer() {
    let zero = ConnStats::default();
    assert_eq!(zero.sent_packets, 0);
    let before = ConnStats {
        sent_packets: 10,
        lost_packets: 1,
        congestion_events: 0,
    };
    let after = ConnStats {
        sent_packets: 110,
        lost_packets: 6,
        congestion_events: 2,
    };
    let d = after.since(before);
    assert_eq!(
        (d.sent_packets, d.lost_packets, d.congestion_events),
        (100, 5, 2)
    );
}

#[test]
fn error_texts() {
    assert_eq!(
        QueLayError::Transport("x".to_string()).message(),
        "transport error: x"
    );
    assert_eq!(
        QueLayError::StreamReset { code: 42 }.message(),
        "stream reset by remote (code 42)"
    );
    assert_eq!(
        QueLayError::AlreadyFinished.message(),
        "stream already finished"
    );
    assert_eq!(QueLayError::SessionClosed.message(), "session closed");
    assert_eq!(
        QueLayError::StreamNotFound(1).message(),
        "stream not found: 00000000-0000-0000-0000-000000000001"
    );
    assert_eq!(QueLayError::Io("eof".to_string()).message(), "io error: eof");
}

#[test]
fn quic_errors_and_their_remedies() {
    let lost = |t: &str| QuicError::WriteFailed(StreamFault::ConnectionLost, t.to_string());
    assert_eq!(lost("x").recovery(), Recovery::RewindAndReconnect);
    assert_eq!(lost("x").connection_alive(), Some(false));
    assert_eq!(lost("x").message(), "QUIC write failed: x");
    let read_lost = QuicError::ReadFailed(StreamFault::ConnectionLost, "x".to_string());
    assert_eq!(read_lost.recovery(), Recovery::Reconnect);
    assert_eq!(
        QuicError::ConnectionLost("x".to_string()).recovery(),
        Recovery::Reconnect
    );
    let stopped = QuicError::WriteFailed(StreamFault::Aborted(3), "x".to_string());
    assert_eq!(stopped.recovery(), Recovery::AbortStream);
    assert_eq!(stopped.connection_alive(), Some(true));
    let reset = QuicError::ReadFailed(StreamFault::Aborted(3), "x".to_string());
    assert_eq!(reset.recovery(), Recovery::AbortStream);
    assert_eq!(
        QuicError::ConnectFailed("x".to_string()).recovery(),
        Recovery::RetryWithBackoff
    );
    assert_eq!(
        QuicError::Endpoint("x".to_string()).recovery(),
        Recovery::Fatal
    );
    assert_eq!(QuicError::AlreadyFinished.recovery(), Recovery::LogicError);
    assert_eq!(
        QuicError::Endpoint("x".to_string()).into_relay_error().message(),
        "transport error: QUIC endpoint error: x"
    );
}

#[test]
fn only_the_connecting_side_connects() {
    assert!(matches!(
        connect_name(Some("quelay".to_string())),
        Ok(ref n) if n == "quelay"
    ));
    assert_eq!(
        connect_name(None).unwrap_err().message(),
        "transport error: connect() called on server-side transport"
    );
}

#[test]
fn certificates_are_generated() {
    let a = CertBundle::generate("quelay").unwrap();
    let b = CertBundle::generate("quelay").unwrap();
    assert_ne!(a.cert_der, b.cert_der);
    assert!(a.cert_der.windows(6).any(|w| w == b"quelay"));
    assert!(!a.key_der.is_empty());
    assert!(matches!(
        CertBundle::generate("qu\u{e9}lay"),
        Err(QuicError::Endpoint(_))
    ));
    match CertBundle::from_generated(Err("bad name".to_string())) {
        Err(e) => assert_eq!(e.message(), "QUIC endpoint error: bad name"),
        Ok(_) => panic!("expected an error"),
    }
}

fn holds(cert: &[u8], bytes: &[u8]) -> bool {
    cert.windows(bytes.len()).any(|w| w == bytes)
}

#[test]
fn certificates_are_valid_for_their_names_alone() {
    let a = CertBundle::generate("quelay").unwrap();
    let entry = b"\x06\x03\x55\x1d\x11\x04\x0a\x30\x08\x82\x06quelay";
    assert!(holds(&a.cert_der, entry));
    let b = CertBundle::generate("quelayx").unwrap();
    assert!(!holds(&b.cert_der, entry));
    // Only hexadecimal digits, but no address.
    let c = CertBundle::generate("cafe").unwrap();
    assert!(holds(&c.cert_der, b"\x55\x1d\x11\x04\x08\x30\x06\x82\x04cafe"));
    // Longer lengths take more bytes.
    for (n, head) in [
        (125, &b"\x55\x1d\x11\x04\x81\x81\x30\x7f\x82\x7d"[..]),
        (127, &b"\x55\x1d\x11\x04\x81\x84\x30\x81\x81\x82\x7f"[..]),
        (200, &b"\x55\x1d\x11\x04\x81\xce\x30\x81\xcb\x82\x81\xc8"[..]),
        (300, &b"\x55\x1d\x11\x04\x82\x01\x34\x30\x82\x01\x30\x82\x82\x01\x2c"[..]),
    ] {
        let name = "n".repeat(n);
        let d = CertBundle::generate(&name).unwrap();
        assert!(holds(&d.cert_der, &[head, name.as_bytes()].concat()), "{n}");
    }
    // An address is written as one.
    let e = CertBundle::generate("127.0.0.1").unwrap();
    assert!(holds(&e.cert_der, b"\x87\x04\x7f\x00\x00\x01"));
    assert!(!e.key_der.is_empty());
}

// --- simulated link

#[test]
fn simulated_links() {
    assert_eq!(LinkSimLimits::perfect().bw_cap_bps, None);
    assert_eq!(LinkSimLimits::perfect().outage_delay_ms, 100);
    assert_eq!(LinkSimLimits::degraded().bw_cap_bps, Some(512_000));
    assert_eq!(LinkSimLimits::outage_60s().outage_ms, Some(60_000));
    assert_eq!(LinkSimLimits::outage_60s().outage_delay_ms, 200);
    assert_eq!(outage_states(), (LinkState::Failed, LinkState::Normal));
}

#[test]
fn simulated_reads_keep_the_rest() {
    let mut r = LinkSimReader::new();
    assert_eq!(r.read(3, &b"abcdefg".to_vec()), b"abc");
    assert!(r.has_buffered());
    assert_eq!(r.read(10, &vec![]), b"defg");
    assert!(!r.has_buffered());
    assert_eq!(r.read(10, &vec![]), b"");
}
