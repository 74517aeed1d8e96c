use quelay::downlink::{
    self, Downlink, DownlinkAction, DownlinkEvent, DownlinkPhase, DownlinkPump, Received,
    Reconnected,
};
use quelay::failure::{progress_due, FailReason, PROGRESS_INTERVAL_BYTES};
use quelay::framing::{read_chunk, write_chunk, Chunk, WormholeMsg, ACK_INTERVAL, CHUNK_SIZE};
use quelay::pump::{
    resume_commands, uncapped_event, DrainStep, PumpAction, PumpEvent, PumpLoop, PumpNext, PumpPhase, RateAction, RateCmd,
    RateLimiter, StreamPump,
};
use quelay::spool::{SpoolBuffer, SPOOL_CAPACITY};
use quelay::uplink::{
    self, may_read, on_client_data, on_client_eof, on_feedback, AckMsg, AckTask, ClientReader,
    FeedbackEvent, FeedbackLoop, FeedbackMove, FeedbackPhase, ReaderEvent, ReaderMove, ReaderNext,
    UplinkNext,
};

// --- spool

#[test]
fn spool_keeps_what_is_not_acknowledged() {
    let mut s = SpoolBuffer::new();
    assert_eq!(s.available(), SPOOL_CAPACITY);
    s.push(b"hello world");
    assert_eq!(s.head_offset(), 11);
    assert_eq!(s.available(), SPOOL_CAPACITY - 11);
    assert_eq!(s.slice_from(0, 5), b"hello");
    s.ack(6);
    assert_eq!(s.bytes_acked(), 6);
    assert_eq!(s.slice_from(6, 100), b"world");
    assert_eq!(s.head_offset(), 11);
    // Old acknowledgements change nothing, and none goes beyond the data.
    s.ack(2);
    assert_eq!(s.bytes_acked(), 6);
    s.ack(1_000);
    assert_eq!(s.bytes_acked(), 11);
    assert_eq!(s.slice_from(11, 100), b"");
}

#[test]
fn spool_end_is_remembered() {
    let mut s = SpoolBuffer::new();
    s.push(b"abc");
    assert!(!s.at_eof());
    s.close();
    assert!(s.at_eof());
    assert_eq!(s.head_offset(), 3);
    s.ack(1);
    assert_eq!(s.head_offset(), 3);
    assert_eq!(s.slice_from(1, 10), b"bc");
}

// --- uplink

#[test]
fn reader_pauses_when_the_spool_is_full() {
    let mut s = SpoolBuffer::new();
    let chunk = vec![7u8; CHUNK_SIZE];
    let mut pushed: u64 = 0;
    while may_read(&s) {
        pushed += CHUNK_SIZE as u64;
        assert_eq!(on_client_data(&mut s, &chunk, 0), pushed);
    }
    assert_eq!(pushed as usize, SPOOL_CAPACITY);
    s.ack(1);
    assert!(!may_read(&s));
    s.ack(CHUNK_SIZE as u64);
    assert!(may_read(&s));
}

#[test]
fn backlog_is_what_is_not_sent() {
    let mut s = SpoolBuffer::new();
    assert_eq!(on_client_data(&mut s, b"abcdef", 2), 4);
    assert_eq!(on_client_eof(&mut s, 5), 1);
    assert!(s.at_eof());
    assert_eq!(on_client_eof(&mut s, 9), 0);
}

#[test]
fn reader_failures_have_texts() {
    let f = uplink::accept_failed("refused");
    assert_eq!(f.code, FailReason::Unknown);
    assert_eq!(f.reason, "TCP accept failed: refused");
    let f = uplink::read_failed("reset");
    assert_eq!(f.code, FailReason::SenderClosed);
    assert_eq!(f.reason, "TCP read error: reset");
}

#[test]
fn feedback_is_passed_on() {
    let (m, n) = on_feedback(Ok(WormholeMsg::Ack { bytes_received: 9 }));
    assert!(matches!(m, AckMsg::Ack { bytes_received: 9 }));
    assert!(matches!(n, ReaderNext::Continue));
    let (m, n) = on_feedback(Ok(WormholeMsg::Done));
    assert!(matches!(m, AckMsg::Done));
    assert!(matches!(n, ReaderNext::Exit));
    let (m, n) = on_feedback(Ok(WormholeMsg::Error {
        code: 3,
        reason: "x".to_string(),
    }));
    assert!(matches!(m, AckMsg::Error { code: 3, .. }));
    assert!(matches!(n, ReaderNext::Exit));
    let (m, n) = on_feedback(Err("gone".to_string()));
    assert!(matches!(m, AckMsg::StreamError(ref e) if e == "gone"));
    assert!(matches!(n, ReaderNext::AwaitStream));
}

#[test]
fn acknowledgements_free_the_spool_and_report_progress() {
    let mut s = SpoolBuffer::new();
    let mut task = AckTask::new();
    for _ in 0..64 {
        on_client_data(&mut s, &vec![1u8; CHUNK_SIZE], 0);
    }
    let a = task.on_ack(&mut s, 100);
    assert!(a.fresh);
    assert_eq!(a.progress, 0);
    let a = task.on_ack(&mut s, 100);
    assert!(!a.fresh);
    let a = task.on_ack(&mut s, PROGRESS_INTERVAL_BYTES);
    assert!(a.fresh);
    assert_eq!(a.progress, 1);
    assert_eq!(task.bytes_sent, PROGRESS_INTERVAL_BYTES);
    assert_eq!(s.bytes_acked(), PROGRESS_INTERVAL_BYTES);
}

#[test]
fn finish_is_sent_once_per_stream() {
    let mut s = SpoolBuffer::new();
    let mut task = AckTask::new();
    assert!(!task.try_send_finish(&s));
    s.close();
    assert!(task.try_send_finish(&s));
    assert!(!task.try_send_finish(&s));
    assert_eq!(task.on_fresh_stream(&s), 0);
    assert!(task.try_send_finish(&s));
}

#[test]
fn end_of_an_uplink() {
    let mut s = SpoolBuffer::new();
    let mut task = AckTask::new();
    on_client_data(&mut s, b"abcd", 0);
    task.on_ack(&mut s, 4);
    assert!(matches!(
        task.on_message(Some(AckMsg::Done)),
        UplinkNext::Done(4)
    ));
    assert!(matches!(
        task.on_message(Some(AckMsg::StreamError("e".to_string()))),
        UplinkNext::AwaitStream
    ));
    match task.on_message(Some(AckMsg::Error {
        code: 7,
        reason: "disk".to_string(),
    })) {
        UplinkNext::Failed(f) => {
            assert_eq!(f.code, FailReason::Code(7));
            assert_eq!(f.reason, "disk");
        }
        other => panic!("{other:?}"),
    }
    match task.on_message(None) {
        UplinkNext::Failed(f) => {
            assert_eq!(f.code, FailReason::LinkFailed);
            assert_eq!(f.reason, "ack reader exited without Done");
        }
        other => panic!("{other:?}"),
    }
    let f = task.on_handle_dropped();
    assert_eq!(f.code, FailReason::LinkFailed);
    assert_eq!(f.reason, "link failed permanently");
}

#[test]
fn progress_once_per_interval() {
    let mut next = PROGRESS_INTERVAL_BYTES;
    assert_eq!(progress_due(PROGRESS_INTERVAL_BYTES - 1, &mut next), 0);
    assert_eq!(progress_due(3 * PROGRESS_INTERVAL_BYTES + 5, &mut next), 3);
    assert_eq!(next, 4 * PROGRESS_INTERVAL_BYTES);
}

// --- downlink

fn chunk(stream_offset: u64, payload: &[u8]) -> Chunk {
    Chunk {
        stream_offset,
        payload: payload.to_vec(),
    }
}

#[test]
fn chunks_are_trimmed_dropped_or_refused() {
    let mut d = Downlink::new(10);
    assert!(matches!(d.on_chunk(&chunk(0, b"0123456789")), Received::Duplicate));
    match d.on_chunk(&chunk(8, b"89abc")) {
        Received::Fresh(data) => assert_eq!(data, b"abc"),
        other => panic!("{other:?}"),
    }
    match d.on_chunk(&chunk(12, b"zz")) {
        Received::Gap(f) => {
            assert_eq!(f.code, FailReason::Unknown);
            assert_eq!(f.reason, "chunk offset gap — pump logic error");
            assert_eq!(
                f.to_peer,
                Some("chunk gap: expected 10, got 12".to_string())
            );
        }
        other => panic!("{other:?}"),
    }
    let w = d.on_written(3);
    assert_eq!(d.bytes_written, 13);
    assert!(w.ack.is_none());
    assert_eq!(d.on_eof(), 13);
}

#[test]
fn acknowledgements_every_interval() {
    let mut d = Downlink::new(0);
    assert!(d.on_written(ACK_INTERVAL - 1).ack.is_none());
    assert_eq!(d.on_written(1).ack, Some(ACK_INTERVAL));
    assert!(d.on_written(5).ack.is_none());
    let w = d.on_written(PROGRESS_INTERVAL_BYTES);
    assert_eq!(w.progress, 1);
    assert_eq!(w.ack, Some(ACK_INTERVAL + 5 + PROGRESS_INTERVAL_BYTES));
}

#[test]
fn reconnection_needs_the_missing_bytes() {
    let d = Downlink::new(100);
    assert!(matches!(d.on_reconnect(100, true), Reconnected::Delivered));
    assert!(matches!(d.on_reconnect(40, true), Reconnected::Delivered));
    assert!(matches!(d.on_reconnect(40, false), Reconnected::Unavailable));
    assert!(matches!(d.on_reconnect(101, true), Reconnected::Gap));
    assert!(downlink::replay_accepted(5, 5));
    assert!(!downlink::replay_accepted(5, 6));
}

#[test]
fn downlink_failures_have_texts() {
    let f = downlink::accept_failed("no");
    assert_eq!(f.reason, "TCP accept failed: no");
    assert_eq!(f.to_peer, Some("TCP accept failed: no".to_string()));
    let f = downlink::write_failed("broken pipe");
    assert_eq!(f.reason, "TCP write error: broken pipe");
    assert_eq!(f.to_peer, Some("TCP write error: broken pipe".to_string()));
    assert!(downlink::on_read_failed(true).is_none());
    let f = downlink::on_read_failed(false).unwrap();
    assert_eq!(f.code, FailReason::LinkFailed);
    assert_eq!(f.reason, "link failed permanently");
}

// --- pump

/// Lets the pump send up to `budget` bytes; gives the bytes on the wire and whether the
/// end was sent.
fn drain(p: &mut StreamPump, s: &SpoolBuffer, budget: u64) -> (Vec<u8>, bool) {
    let mut wire = Vec::new();
    let mut left = budget;
    let mut fin = false;
    loop {
        match p.next_step(s, left, CHUNK_SIZE) {
            DrainStep::Stop => break,
            DrainStep::Fin => {
                fin = true;
                break;
            }
            DrainStep::Send(c) => {
                wire.extend(write_chunk(c.stream_offset, &c.payload).unwrap());
                left = p.on_sent(c.payload.len() as u64, left);
            }
        }
    }
    if !fin && !p.done {
        fin = p.after_drain(s);
    }
    (wire, fin)
}

fn deliver(d: &mut Downlink, mut wire: &[u8], out: &mut Vec<u8>) {
    while let Some((c, used)) = read_chunk(wire).unwrap() {
        wire = &wire[used..];
        if let Received::Fresh(data) = d.on_chunk(&c) {
            out.extend_from_slice(&data);
            d.on_written(data.len() as u64);
        }
    }
}

#[test]
fn pump_sends_within_its_ticket() {
    let mut s = SpoolBuffer::new();
    s.push(b"abcdefghij");
    let mut p = StreamPump::new();
    assert!(p.takes_ticket());
    let (wire, fin) = drain(&mut p, &s, 4);
    assert_eq!(wire, write_chunk(0, b"abcd").unwrap());
    assert!(!fin);
    assert_eq!(p.q, 4);
    assert_eq!(p.on_command(RateCmd::Finish, &s), PumpNext::Run);
    let (_, fin) = drain(&mut p, &s, 100);
    assert!(!fin, "the client has not closed its end");
    s.close();
    assert_eq!(p.on_command(RateCmd::Finish, &s), PumpNext::DrainNow);
    let (wire, fin) = drain(&mut p, &s, 1);
    assert!(wire.is_empty());
    assert!(fin);
    assert!(p.done);
}

#[test]
fn budget_that_ends_with_the_data_still_sends_the_end() {
    let mut s = SpoolBuffer::new();
    s.push(b"abcd");
    s.close();
    let mut p = StreamPump::new();
    p.on_command(RateCmd::Finish, &s);
    let (wire, fin) = drain(&mut p, &s, 4);
    assert_eq!(wire.len(), 14);
    assert!(fin);
}

#[test]
fn outage_rewinds_to_the_last_acknowledged_byte() {
    let mut s = SpoolBuffer::new();
    s.push(b"abcdefghij");
    let mut p = StreamPump::new();
    drain(&mut p, &s, 8);
    s.ack(3);
    assert_eq!(p.on_command(RateCmd::LinkDown, &s), PumpNext::Wait);
    assert_eq!(p.q, 3);
    assert!(!p.takes_ticket());
    s.ack(5);
    assert_eq!(p.on_command(RateCmd::LinkUp, &s), PumpNext::Resume);
    assert_eq!(p.q, 5);
    let (wire, _) = drain(&mut p, &s, 100);
    assert_eq!(wire, write_chunk(5, b"fghij").unwrap());
    assert_eq!(p.on_command(RateCmd::Closed, &s), PumpNext::Exit);
}

#[test]
fn limiter_commands() {
    let capped = RateLimiter::new(true);
    assert_eq!(capped.link_down(), RateAction::Command(RateCmd::LinkDown));
    assert_eq!(capped.link_up(), RateAction::Command(RateCmd::LinkUp));
    assert_eq!(capped.finish(), RateAction::Command(RateCmd::Finish));
    let uncapped = RateLimiter::new(false);
    assert_eq!(uncapped.link_down(), RateAction::Nothing);
    assert_eq!(uncapped.link_up(), RateAction::ReplaceDirect);
    assert_eq!(uncapped.finish(), RateAction::Nothing);
}

#[test]
fn outages_lose_and_double_nothing() {
    let data: Vec<u8> = (0..200_000u32).map(|i| (i % 251) as u8).collect();
    let mut s = SpoolBuffer::new();
    let mut task = AckTask::new();
    let mut p = StreamPump::new();
    let mut d = Downlink::new(0);
    let mut out = Vec::new();
    let mut fed = 0;
    let mut round = 0;
    while out.len() < data.len() {
        while fed < data.len() && may_read(&s) {
            let n = CHUNK_SIZE.min(data.len() - fed);
            on_client_data(&mut s, &data[fed..fed + n], p.q);
            fed += n;
        }
        let (wire, _) = drain(&mut p, &s, 30_000);
        round += 1;
        if round % 3 == 0 {
            // Half of it gets through before the link goes down.
            let mut half = Vec::new();
            let mut rest: &[u8] = &wire;
            if let Some((c, used)) = read_chunk(rest).unwrap() {
                half.extend(write_chunk(c.stream_offset, &c.payload).unwrap());
                rest = &rest[used..];
            }
            assert!(rest.len() < wire.len());
            deliver(&mut d, &half, &mut out);
            p.on_command(RateCmd::LinkDown, &s);
            let replay_from = task.on_fresh_stream(&s);
            assert!(matches!(
                d.on_reconnect(replay_from, true),
                Reconnected::Delivered
            ));
            p.on_command(RateCmd::LinkUp, &s);
        } else {
            deliver(&mut d, &wire, &mut out);
            if round % 2 == 0 {
                task.on_ack(&mut s, d.bytes_written);
            }
        }
        assert!(data.starts_with(&out));
        assert!(round < 100);
    }
    assert_eq!(out, data);
}

// --- event machines

fn chunk_at(offset: u64, payload: &[u8]) -> DownlinkEvent {
    DownlinkEvent::Chunk(Chunk {
        stream_offset: offset,
        payload: payload.to_vec(),
    })
}

fn reading_pump() -> DownlinkPump {
    let mut pump = DownlinkPump::new(0);
    assert!(matches!(
        pump.on_event(DownlinkEvent::Stream(true)),
        DownlinkAction::AcceptClient
    ));
    assert!(matches!(
        pump.on_event(DownlinkEvent::Client(Ok(()))),
        DownlinkAction::Read
    ));
    pump
}

fn hand_over(pump: &mut DownlinkPump, event: DownlinkEvent, expected: &[u8]) {
    match pump.on_event(event) {
        DownlinkAction::Write(data) => assert_eq!(data, expected),
        other => panic!("{other:?}"),
    }
    assert!(matches!(
        pump.on_event(DownlinkEvent::Wrote),
        DownlinkAction::Report(_)
    ));
}

#[test]
fn downlink_pump_delivers_and_completes() {
    let mut pump = reading_pump();
    hand_over(&mut pump, chunk_at(0, &[1, 2, 3]), &[1, 2, 3]);
    assert!(matches!(
        pump.on_event(chunk_at(0, &[1, 2, 3])),
        DownlinkAction::Read
    ));
    hand_over(&mut pump, chunk_at(1, &[2, 3, 4]), &[4]);
    assert!(matches!(
        pump.on_event(DownlinkEvent::Eof),
        DownlinkAction::Complete(4)
    ));
    assert_eq!(pump.phase, DownlinkPhase::Ended);
    assert!(matches!(
        pump.on_event(DownlinkEvent::Eof),
        DownlinkAction::Ignore
    ));
}

#[test]
fn downlink_pump_acknowledges_and_reports() {
    let mut pump = reading_pump();
    let block = vec![7u8; 16_384];
    let mut acks = Vec::new();
    let mut reports = 0;
    for i in 0..64u64 {
        assert!(matches!(
            pump.on_event(chunk_at(i * 16_384, &block)),
            DownlinkAction::Write(_)
        ));
        match pump.on_event(DownlinkEvent::Wrote) {
            DownlinkAction::Report(due) => {
                reports += due.progress;
                acks.extend(due.ack);
            }
            other => panic!("{other:?}"),
        }
    }
    assert_eq!(reports, 1);
    assert_eq!(acks.len(), 16);
    assert_eq!(acks[0], 65_536);
    assert_eq!(acks[15], 1_048_576);
}

#[test]
fn downlink_pump_goes_on_after_an_outage() {
    let mut pump = reading_pump();
    hand_over(&mut pump, chunk_at(0, &[1, 2]), &[1, 2]);
    assert!(matches!(
        pump.on_event(DownlinkEvent::ReadFailed),
        DownlinkAction::AwaitStream
    ));
    assert!(matches!(
        pump.on_event(DownlinkEvent::Stream(true)),
        DownlinkAction::Read
    ));
    hand_over(&mut pump, chunk_at(0, &[1, 2, 3]), &[3]);
    assert!(matches!(
        pump.on_event(DownlinkEvent::ReadFailed),
        DownlinkAction::AwaitStream
    ));
    match pump.on_event(DownlinkEvent::Stream(false)) {
        DownlinkAction::Fail(f) => {
            assert_eq!(f.code, FailReason::LinkFailed);
            assert_eq!(f.reason, "link failed permanently");
            assert_eq!(f.to_peer, None);
        }
        other => panic!("{other:?}"),
    }
}

#[test]
fn downlink_pump_tells_of_failures() {
    let mut pump = DownlinkPump::new(0);
    assert!(matches!(
        pump.on_event(DownlinkEvent::Stream(false)),
        DownlinkAction::Stop
    ));

    let mut pump = DownlinkPump::new(0);
    pump.on_event(DownlinkEvent::Stream(true));
    match pump.on_event(DownlinkEvent::Client(Err("refused".to_string()))) {
        DownlinkAction::Fail(f) => assert_eq!(f.reason, "TCP accept failed: refused"),
        other => panic!("{other:?}"),
    }

    let mut pump = reading_pump();
    match pump.on_event(chunk_at(5, &[1])) {
        DownlinkAction::Fail(f) => {
            assert_eq!(f.to_peer.as_deref(), Some("chunk gap: expected 0, got 5"));
        }
        other => panic!("{other:?}"),
    }

    let mut pump = reading_pump();
    pump.on_event(chunk_at(0, &[1]));
    match pump.on_event(DownlinkEvent::WriteFailed("broken".to_string())) {
        DownlinkAction::Fail(f) => assert_eq!(f.reason, "TCP write error: broken"),
        other => panic!("{other:?}"),
    }
}

#[test]
fn client_reader_holds_the_client_back() {
    let mut spool = SpoolBuffer::new();
    let mut reader = ClientReader::new();
    let step = reader.on_event(ReaderEvent::Client(Ok(())), &mut spool, 0);
    assert!(matches!(step.next, ReaderMove::Read));
    assert_eq!(step.backlog, None);
    let block = vec![1u8; CHUNK_SIZE];
    for i in 1..=64u64 {
        let step = reader.on_event(ReaderEvent::Data(block.clone()), &mut spool, 0);
        assert_eq!(step.backlog, Some(i * CHUNK_SIZE as u64));
        if i < 64 {
            assert!(matches!(step.next, ReaderMove::Read));
        } else {
            assert!(matches!(step.next, ReaderMove::AwaitSpace));
        }
    }
    spool.ack(1);
    let step = reader.on_event(ReaderEvent::Space, &mut spool, 0);
    assert!(matches!(step.next, ReaderMove::AwaitSpace));
    spool.ack(CHUNK_SIZE as u64);
    let step = reader.on_event(ReaderEvent::Space, &mut spool, 0);
    assert!(matches!(step.next, ReaderMove::Read));
    let step = reader.on_event(ReaderEvent::Eof, &mut spool, 1_000_000);
    assert!(matches!(step.next, ReaderMove::Stop));
    assert_eq!(step.backlog, Some(48_576));
    assert!(spool.at_eof());
    let step = reader.on_event(ReaderEvent::Space, &mut spool, 0);
    assert!(matches!(step.next, ReaderMove::Ignore));
}

#[test]
fn client_reader_tells_of_failures() {
    let mut spool = SpoolBuffer::new();
    let mut reader = ClientReader::new();
    let refused = ReaderEvent::Client(Err("refused".to_string()));
    match reader.on_event(refused, &mut spool, 0).next {
        ReaderMove::Fail(f) => {
            assert_eq!(f.code, FailReason::Unknown);
            assert_eq!(f.reason, "TCP accept failed: refused");
        }
        other => panic!("{other:?}"),
    }
    let mut reader = ClientReader::new();
    reader.on_event(ReaderEvent::Client(Ok(())), &mut spool, 0);
    let reset = ReaderEvent::Failed("reset".to_string());
    match reader.on_event(reset, &mut spool, 0).next {
        ReaderMove::Fail(f) => {
            assert_eq!(f.code, FailReason::SenderClosed);
            assert_eq!(f.reason, "TCP read error: reset");
        }
        other => panic!("{other:?}"),
    }
}

#[test]
fn feedback_loop_tells_the_pump_to_finish_anew_after_an_outage() {
    let mut spool = SpoolBuffer::new();
    let mut feedback = FeedbackLoop::new();
    spool.push(&[0u8; 100]);
    assert!(!feedback.on_event(FeedbackEvent::Woken, &mut spool).finish);
    spool.close();
    assert!(feedback.on_event(FeedbackEvent::Woken, &mut spool).finish);
    assert!(!feedback.on_event(FeedbackEvent::Woken, &mut spool).finish);
    let ack = FeedbackEvent::Feedback(Some(AckMsg::Ack { bytes_received: 40 }));
    let step = feedback.on_event(ack, &mut spool);
    assert!(step.space && !step.finish);
    assert_eq!(feedback.task.bytes_sent, 40);
    let lost = FeedbackEvent::Feedback(Some(AckMsg::StreamError("reset".to_string())));
    let step = feedback.on_event(lost, &mut spool);
    assert!(matches!(step.next, FeedbackMove::LinkDown));
    assert_eq!(feedback.phase, FeedbackPhase::AwaitStream);
    let step = feedback.on_event(FeedbackEvent::Stream(true), &mut spool);
    assert!(matches!(step.next, FeedbackMove::Resume(40)));
    assert!(step.finish);
    let done = FeedbackEvent::Feedback(Some(AckMsg::Done));
    let step = feedback.on_event(done, &mut spool);
    assert!(matches!(step.next, FeedbackMove::Done(40)));
    assert_eq!(feedback.phase, FeedbackPhase::Ended);
    let step = feedback.on_event(FeedbackEvent::Woken, &mut spool);
    assert!(matches!(step.next, FeedbackMove::Ignore));
}

#[test]
fn feedback_loop_tells_of_failures() {
    let mut spool = SpoolBuffer::new();
    let refused = AckMsg::Error {
        code: 7,
        reason: "disk full".to_string(),
    };
    let mut feedback = FeedbackLoop::new();
    match feedback
        .on_event(FeedbackEvent::Feedback(Some(refused)), &mut spool)
        .next
    {
        FeedbackMove::Fail(f) => {
            assert_eq!(f.code, FailReason::Code(7));
            assert_eq!(f.reason, "disk full");
        }
        other => panic!("{other:?}"),
    }
    let mut feedback = FeedbackLoop::new();
    match feedback
        .on_event(FeedbackEvent::Feedback(None), &mut spool)
        .next
    {
        FeedbackMove::Fail(f) => assert_eq!(f.reason, "ack reader exited without Done"),
        other => panic!("{other:?}"),
    }
    let mut feedback = FeedbackLoop::new();
    let lost = FeedbackEvent::Feedback(Some(AckMsg::StreamError(String::new())));
    feedback.on_event(lost, &mut spool);
    match feedback
        .on_event(FeedbackEvent::Stream(false), &mut spool)
        .next
    {
        FeedbackMove::Fail(f) => assert_eq!(f.reason, "link failed permanently"),
        other => panic!("{other:?}"),
    }
}

#[test]
fn feedback_loop_reports_progress() {
    let mut spool = SpoolBuffer::new();
    let mut feedback = FeedbackLoop::new();
    spool.push(&vec![0u8; 1_048_576]);
    let ack = FeedbackEvent::Feedback(Some(AckMsg::Ack {
        bytes_received: 1_048_576,
    }));
    assert_eq!(feedback.on_event(ack, &mut spool).progress, 1);
    let again = FeedbackEvent::Feedback(Some(AckMsg::Ack {
        bytes_received: 1_048_576,
    }));
    let step = feedback.on_event(again, &mut spool);
    assert_eq!(step.progress, 0);
    assert!(!step.space);
}

#[test]
fn pump_replays_after_a_failed_write() {
    let mut spool = SpoolBuffer::new();
    spool.push(&[9u8; 50]);
    let mut pump = StreamPump::new();
    match pump.next_step(&spool, 30, 100) {
        DrainStep::Send(c) => assert_eq!(c.payload.len(), 30),
        other => panic!("{other:?}"),
    }
    assert_eq!(pump.on_sent(30, 30), 0);
    pump.on_write_failed();
    assert!(!pump.takes_ticket());
    spool.ack(10);
    assert_eq!(pump.on_command(RateCmd::LinkUp, &spool), PumpNext::Resume);
    assert!(pump.takes_ticket());
    match pump.next_step(&spool, 1_000, 100) {
        DrainStep::Send(c) => {
            assert_eq!(c.stream_offset, 10);
            assert_eq!(c.payload.len(), 40);
        }
        other => panic!("{other:?}"),
    }
}

#[test]
fn pump_loop_spends_a_grant_chunk_by_chunk() {
    let mut spool = SpoolBuffer::new();
    spool.push(&[5u8; 100]);
    let mut pump = PumpLoop::new(16);
    let mut action = pump.on_event(PumpEvent::Ticket(Some(40)), &spool);
    let mut sent = Vec::new();
    while let PumpAction::Write(c) = action {
        sent.push((c.stream_offset, c.payload.len()));
        action = pump.on_event(PumpEvent::Wrote, &spool);
    }
    assert!(matches!(action, PumpAction::Wait));
    assert_eq!(sent, vec![(0, 16), (16, 16), (32, 8)]);
    assert_eq!(pump.pump.q, 40);
    assert_eq!(pump.phase, PumpPhase::Idle);
}

#[test]
fn pump_loop_ends_the_stream_behind_the_last_byte() {
    let mut spool = SpoolBuffer::new();
    spool.push(&[5u8; 10]);
    spool.close();
    let mut pump = PumpLoop::new(16);
    let finish = PumpEvent::Command(RateCmd::Finish);
    assert!(matches!(pump.on_event(finish, &spool), PumpAction::Wait));
    let exact = PumpEvent::Ticket(Some(10));
    assert!(matches!(pump.on_event(exact, &spool), PumpAction::Write(_)));
    assert!(matches!(
        pump.on_event(PumpEvent::Wrote, &spool),
        PumpAction::Fin
    ));
    assert_eq!(pump.phase, PumpPhase::Ended);
    assert!(matches!(
        pump.on_event(exact, &spool),
        PumpAction::Ignore
    ));

    // A pump that has sent everything ends as soon as the client has closed.
    let mut pump = PumpLoop::new(16);
    pump.on_event(exact, &spool);
    assert!(matches!(
        pump.on_event(PumpEvent::Wrote, &spool),
        PumpAction::Wait
    ));
    assert!(matches!(pump.on_event(finish, &spool), PumpAction::Fin));
}

#[test]
fn pump_loop_waits_for_the_link() {
    let mut spool = SpoolBuffer::new();
    spool.push(&[5u8; 30]);
    let mut pump = PumpLoop::new(10);
    let grant = PumpEvent::Ticket(Some(1_000));
    assert!(matches!(pump.on_event(grant, &spool), PumpAction::Write(_)));
    assert!(matches!(
        pump.on_event(PumpEvent::Wrote, &spool),
        PumpAction::Write(_)
    ));
    assert!(matches!(
        pump.on_event(PumpEvent::WriteFailed, &spool),
        PumpAction::Wait
    ));
    assert!(matches!(pump.on_event(grant, &spool), PumpAction::Wait));
    spool.ack(4);
    let up = PumpEvent::Command(RateCmd::LinkUp);
    assert!(matches!(pump.on_event(up, &spool), PumpAction::Install));
    match pump.on_event(grant, &spool) {
        PumpAction::Write(c) => assert_eq!(c.stream_offset, 4),
        other => panic!("{other:?}"),
    }
    let mut pump = PumpLoop::new(10);
    let closed = PumpEvent::Command(RateCmd::Closed);
    assert!(matches!(pump.on_event(closed, &spool), PumpAction::Exit));
}

#[test]
fn chunk_far_ahead_fails_the_stream() {
    let mut pump = reading_pump();
    hand_over(&mut pump, chunk_at(0, &[1, 2]), &[1, 2]);
    match pump.on_event(chunk_at(u64::MAX, &[9, 9, 9])) {
        DownlinkAction::Fail(f) => {
            assert_eq!(f.code, FailReason::Unknown);
            assert_eq!(
                f.to_peer.as_deref(),
                Some("chunk gap: expected 2, got 18446744073709551615")
            );
        }
        other => panic!("{other:?}"),
    }
    assert!(matches!(
        pump.on_event(chunk_at(2, &[3])),
        DownlinkAction::Ignore
    ));
    assert_eq!(pump.delivery.bytes_written, 2);
}

#[test]
fn pump_that_gets_no_stream_any_more_fails() {
    let mut pump = reading_pump();
    hand_over(&mut pump, chunk_at(0, &[1, 2]), &[1, 2]);
    assert!(matches!(
        pump.on_event(DownlinkEvent::ReadFailed),
        DownlinkAction::AwaitStream
    ));
    assert_eq!(
        pump.delivery.on_reconnect(3, false),
        Reconnected::Gap
    );
    match pump.on_event(DownlinkEvent::Stream(false)) {
        DownlinkAction::Fail(f) => {
            assert_eq!(f.code, FailReason::LinkFailed);
            assert_eq!(f.reason, "link failed permanently");
        }
        other => panic!("{other:?}"),
    }
    assert_eq!(pump.phase, DownlinkPhase::Ended);
    assert_eq!(pump.delivery.bytes_written, 2);
}

#[test]
fn pump_without_a_cap() {
    let mut spool = SpoolBuffer::new();
    spool.push(&[5u8; 30]);
    let mut pump = PumpLoop::new(20);
    let all = PumpEvent::Ticket(Some(u64::MAX));
    assert_eq!(uncapped_event(&pump, &spool), all);
    assert!(matches!(pump.on_event(all, &spool), PumpAction::Write(_)));
    assert!(matches!(
        pump.on_event(PumpEvent::Wrote, &spool),
        PumpAction::Write(_)
    ));
    assert!(matches!(
        pump.on_event(PumpEvent::Wrote, &spool),
        PumpAction::Wait
    ));
    // A fresh write half: everything that is not acknowledged goes out again.
    spool.ack(10);
    let cmds = resume_commands(RateLimiter::new(false).link_up());
    assert_eq!(cmds, vec![RateCmd::LinkDown, RateCmd::LinkUp]);
    for cmd in cmds {
        pump.on_event(PumpEvent::Command(cmd), &spool);
    }
    assert_eq!((pump.pump.q, pump.pump.paused), (10, false));
    spool.close();
    assert_eq!(
        uncapped_event(&pump, &spool),
        PumpEvent::Command(RateCmd::Finish)
    );
    pump.on_event(PumpEvent::Command(RateCmd::Finish), &spool);
    assert_eq!(uncapped_event(&pump, &spool), all);
    assert!(matches!(pump.on_event(all, &spool), PumpAction::Write(_)));
    assert!(matches!(
        pump.on_event(PumpEvent::Wrote, &spool),
        PumpAction::Fin
    ));
    assert_eq!(
        resume_commands(RateLimiter::new(true).link_up()),
        vec![RateCmd::LinkUp]
    );
}
