use quelay::cic::{
    aggregate_bytes, failures, forward, Cic, CicAction, CicMsg, CicTimer, Role, TimerAction,
    TunerPair,
};
use quelay::e2e::{
    about_stream, anchor_bytes, bw_check_applies, check_burst, check_drr_reply, check_queue_snapshot,
    drr_priorities, event_is_for, file_sizes, generate_payload, generate_test_data, interleave,
    last_queue_status, multi_file_plan, on_notice, payload_bytes, payload_seed, query_cap,
    recv_event_for, small_file_plan, sort_descending, spread_priorities, test_data_seed,
    transfer_timeout,
    MaxConcurrentFault, MultiFileArgs, MultiFilePlan, ReplyFault, SmallFileEdgeCasesArgs,
    SubmitReply, TestCallbackEvent, TransferMonitor, TransferNext, TransferPhase,
};
use quelay::failure::FailReason;
use quelay::mapping::{WireLinkState, WireQueueStatus, WireStreamInfo};
use quelay::notice::Notice;
use quelay::session_manager::StartStatus;
use quelay::tuner::{
    ReceiverAction, ReceiverPhase, ReceiverTuner, SenderAction, SenderPhase, SenderTuner, TunerCmd,
    TunerOutcome, TunerResult,
};

fn plain() -> MultiFileArgs {
    MultiFileArgs {
        large: false,
        small: false,
        size_mb: None,
        duration_secs: None,
        count: 2,
        bidirectional: false,
        link_outage: false,
        link_fail: false,
    }
}

#[test]
fn transfer_sizes() {
    let large = MultiFileArgs {
        large: true,
        ..plain()
    };
    assert_eq!(
        file_sizes(&large, None),
        vec![30 * 1024 * 1024, 2 * 1024 * 1024, 512 * 1024]
    );
    let small = MultiFileArgs {
        small: true,
        ..plain()
    };
    assert_eq!(file_sizes(&small, Some(10)), vec![9_000, 1_024, 512, 1]);
    let mb = MultiFileArgs {
        size_mb: Some(3),
        ..plain()
    };
    assert_eq!(file_sizes(&mb, None), vec![3 * 1024 * 1024; 2]);
    let timed = MultiFileArgs {
        duration_secs: Some(4),
        count: 1,
        ..plain()
    };
    assert_eq!(file_sizes(&timed, Some(10)), vec![5_000_000]);
    assert_eq!(file_sizes(&timed, None), vec![32 * 1024 * 1024]);
    assert_eq!(file_sizes(&plain(), Some(10)), vec![12_500_000; 2]);
    // A size that is not picked need not fit.
    let huge = MultiFileArgs {
        size_mb: Some(usize::MAX),
        duration_secs: Some(u64::MAX),
        ..small
    };
    assert_eq!(file_sizes(&huge, Some(10)), vec![9_000, 1_024, 512, 1]);
    let none = MultiFileArgs {
        size_mb: Some(usize::MAX),
        count: 0,
        ..plain()
    };
    assert!(file_sizes(&none, None).is_empty());
}

#[test]
fn transfer_plans() {
    let outage = MultiFileArgs {
        link_outage: true,
        ..plain()
    };
    assert!(matches!(
        multi_file_plan(&outage, Some(10)),
        MultiFilePlan::Outage {
            second_bytes: 12_500_000
        }
    ));
    let one = MultiFileArgs { count: 1, ..outage };
    assert!(matches!(
        multi_file_plan(&one, Some(10)),
        MultiFilePlan::Outage {
            second_bytes: 65_536
        }
    ));
    let fail = MultiFileArgs {
        link_fail: true,
        ..plain()
    };
    assert!(matches!(
        multi_file_plan(&fail, None),
        MultiFilePlan::LinkFail
    ));
    let both = MultiFileArgs {
        bidirectional: true,
        size_mb: Some(1),
        ..plain()
    };
    match multi_file_plan(&both, None) {
        MultiFilePlan::Transfers(t) => {
            let got: Vec<(usize, bool)> = t.iter().map(|x| (x.bytes, x.reverse)).collect();
            assert_eq!(
                got,
                vec![
                    (1_048_576, false),
                    (1_048_576, true),
                    (1_048_576, false),
                    (1_048_576, true)
                ]
            );
        }
        other => panic!("{other:?}"),
    }
    let t = small_file_plan(&SmallFileEdgeCasesArgs {
        bidirectional: false,
    });
    let sizes: Vec<usize> = t.iter().map(|x| x.bytes).collect();
    assert_eq!(sizes, vec![9_000, 1_024, 512, 1]);
    assert!(t.iter().all(|x| !x.reverse));
}

#[test]
fn timeouts_and_checks() {
    assert_eq!(transfer_timeout(1, None), 30);
    assert_eq!(transfer_timeout(12_500_000, Some(10)), 40);
    assert_eq!(transfer_timeout(1_000, Some(10)), 30);
    assert_eq!(transfer_timeout(1_000, Some(0)), u64::MAX);
    assert_eq!(query_cap(0), None);
    assert_eq!(query_cap(-3), None);
    assert_eq!(query_cap(10), Some(10));
    assert!(bw_check_applies(1_048_576, 500, Some(10)));
    assert!(!bw_check_applies(1_048_575, 500, Some(10)));
    assert!(!bw_check_applies(1_048_576, 499, Some(10)));
    assert!(!bw_check_applies(1_048_576, 500, None));
    assert_eq!(payload_bytes(Some(10), 5), 25_000_000);
    assert_eq!(payload_bytes(None, 5), 32 * 1024 * 1024);
    assert_eq!(payload_bytes(Some(u32::MAX), u64::MAX), usize::MAX);
    assert_eq!(anchor_bytes(Some(10)), 3_750_000);
    assert_eq!(anchor_bytes(None), 4 * 1024 * 1024);
}

#[test]
fn payloads_are_reproducible() {
    let a = generate_test_data(1_000);
    assert_eq!(a.len(), 1_000);
    assert_eq!(a, generate_test_data(1_000));
    assert_ne!(a, vec![0u8; 1_000]);
    assert_eq!(test_data_seed(), 0xDEAD_BEEF_CAFE_1234);
    assert_eq!(a, generate_payload(1_000, test_data_seed()));
    assert_eq!(payload_seed(2), 0xDEAD_BEEF_0000_0002);
    assert_ne!(
        generate_payload(100, payload_seed(0)),
        generate_payload(100, payload_seed(1))
    );
}

fn started(uuid: &str, port: u16) -> TestCallbackEvent {
    TestCallbackEvent::Started {
        uuid: uuid.to_string(),
        port,
    }
}

fn done(uuid: &str) -> TestCallbackEvent {
    TestCallbackEvent::Done {
        uuid: uuid.to_string(),
        bytes: 1,
    }
}

fn failed(uuid: &str) -> TestCallbackEvent {
    TestCallbackEvent::Failed {
        uuid: uuid.to_string(),
        reason: "why".to_string(),
    }
}

fn snapshot(active: i32) -> TestCallbackEvent {
    TestCallbackEvent::QueueStatus(WireQueueStatus {
        active_count: Some(active),
        max_concurrent: None,
        max_pending: None,
        pending: None,
    })
}

#[test]
fn events_are_told_apart() {
    let b = "b".to_string();
    assert!(event_is_for(&failed("b"), &b));
    assert!(!event_is_for(&done("a"), &b));
    assert!(!event_is_for(
        &TestCallbackEvent::LinkState(WireLinkState::Failed),
        &b
    ));
    let events = vec![snapshot(1), started("a", 1), started("b", 2), done("b")];
    assert_eq!(recv_event_for(&events, &b), Some(2));
    assert_eq!(recv_event_for(&events, &"c".to_string()), None);
    assert_eq!(last_queue_status(&events), Some(0));
    assert_eq!(
        last_queue_status(&vec![snapshot(1), done("a"), snapshot(2), done("b")]),
        Some(2)
    );
    assert_eq!(last_queue_status(&vec![done("a")]), None);
}

#[test]
fn callbacks_become_events() {
    let mut count = 0;
    assert!(on_notice(Notice::Ping, &mut count).is_none());
    assert!(on_notice(
        Notice::StreamProgress {
            uuid: "a".to_string(),
            bytes: 1
        },
        &mut count
    )
    .is_none());
    assert_eq!(count, 1);
    assert!(matches!(
        on_notice(
            Notice::StreamDone {
                uuid: "a".to_string(),
                bytes: 12
            },
            &mut count
        ),
        Some(TestCallbackEvent::Done { bytes: 12, .. })
    ));
    assert!(matches!(
        on_notice(
            Notice::StreamStarted {
                uuid: "a".to_string(),
                info: WireStreamInfo {
                    size_bytes: None,
                    attrs: None
                },
                port: 40_000
            },
            &mut count
        ),
        Some(TestCallbackEvent::Started { port: 40_000, .. })
    ));
    assert_eq!(count, 1);
}

#[test]
fn complete_transfer() {
    let mut m = TransferMonitor::new();
    assert!(matches!(
        m.on_event(started("a", 5)),
        TransferNext::WriteTo(5)
    ));
    assert!(matches!(
        m.on_event(started("a", 6)),
        TransferNext::ReadFrom(6)
    ));
    assert!(matches!(m.on_event(done("a")), TransferNext::Wait));
    assert!(matches!(m.on_event(snapshot(1)), TransferNext::Wait));
    assert!(matches!(m.on_event(started("a", 7)), TransferNext::Wait));
    assert!(matches!(m.on_event(done("a")), TransferNext::Complete));
    assert_eq!(m.phase, TransferPhase::Complete);
}

#[test]
fn strict_transfer() {
    let mut m = TransferMonitor::new_strict();
    m.on_event(started("a", 5));
    m.on_event(started("a", 6));
    assert!(matches!(m.on_event(done("a")), TransferNext::Wait));
    let mut broken = m;
    assert!(matches!(
        broken.on_event(started("a", 7)),
        TransferNext::Unexpected
    ));
    assert_eq!(broken.phase, TransferPhase::Failed);
    assert!(matches!(m.on_event(done("a")), TransferNext::Complete));
    assert!(about_stream(&done("b")));
    assert!(about_stream(&started("b", 1)));
    assert!(about_stream(&failed("b")));
    assert!(!about_stream(&snapshot(1)));
}

#[test]
fn broken_transfers() {
    let mut m = TransferMonitor::new();
    assert!(matches!(m.on_event(done("a")), TransferNext::Unexpected));
    assert_eq!(m.phase, TransferPhase::Failed);
    let mut m = TransferMonitor::new();
    m.on_event(started("a", 5));
    m.on_event(started("a", 6));
    assert!(matches!(
        m.on_event(failed("a")),
        TransferNext::StreamFailed(ref r) if r == "why"
    ));
    let mut m = TransferMonitor::new();
    m.on_event(started("a", 5));
    m.on_event(started("a", 6));
    m.on_event(done("a"));
    assert!(matches!(
        m.on_event(failed("a")),
        TransferNext::StreamFailed(_)
    ));
    assert!(matches!(m.on_event(done("a")), TransferNext::Unexpected));
}

#[test]
fn scheduling_order_test() {
    assert_eq!(
        drr_priorities(9),
        vec![(10, "low"), (30, "high"), (20, "med")]
    );
    assert_eq!(drr_priorities(1), vec![(10, "low")]);
    assert_eq!(
        check_drr_reply(0, Some(StartStatus::Pending(1)), Some(1)),
        None
    );
    assert_eq!(
        check_drr_reply(1, Some(StartStatus::Pending(1)), Some(1)),
        Some(ReplyFault::Position {
            expected: 2,
            got: Some(1)
        })
    );
    assert_eq!(
        check_drr_reply(0, Some(StartStatus::Running), Some(1)),
        Some(ReplyFault::Status)
    );
    assert_eq!(check_drr_reply(0, None, Some(1)), Some(ReplyFault::Status));
}

#[test]
fn priorities_out_of_order() {
    assert_eq!(spread_priorities(5), vec![12, 24, 36, 48, 60]);
    assert_eq!(
        interleave(&spread_priorities(5)),
        vec![12, 60, 24, 48, 36]
    );
    assert_eq!(interleave(&vec![1, 2, 3, 4]), vec![1, 4, 2, 3]);
    assert_eq!(interleave(&vec![9]), vec![9]);
    assert_eq!(spread_priorities(100), vec![0; 100]);
    assert_eq!(
        sort_descending(&vec![3, -1, 7, 3]),
        vec![7, 3, 3, -1]
    );
}

fn run(position: Option<i32>) -> SubmitReply {
    SubmitReply {
        status: Some(StartStatus::Running),
        position,
    }
}

fn wait(position: Option<i32>) -> SubmitReply {
    SubmitReply {
        status: Some(StartStatus::Pending(1)),
        position,
    }
}

#[test]
fn burst_of_requests() {
    let good = vec![
        run(Some(0)),
        run(None),
        wait(Some(1)),
        wait(Some(2)),
        wait(Some(3)),
    ];
    assert_eq!(check_burst(&good, 2), None);
    assert_eq!(
        check_burst(&good, 5),
        Some(MaxConcurrentFault::TooFewStreams)
    );
    assert_eq!(
        check_burst(&good, 1),
        Some(MaxConcurrentFault::RunningCount { got: 2 })
    );
    assert_eq!(
        check_burst(&vec![run(Some(1)), wait(Some(1))], 1),
        Some(MaxConcurrentFault::RunningPosition { stream: 0 })
    );
    assert_eq!(
        check_burst(&vec![run(None), wait(None)], 1),
        Some(MaxConcurrentFault::PendingPosition { stream: 1 })
    );
    assert_eq!(
        check_burst(&vec![run(None), wait(Some(0))], 1),
        Some(MaxConcurrentFault::PendingPosition { stream: 1 })
    );
    let refused = SubmitReply {
        status: Some(StartStatus::QueueFull),
        position: Some(-1),
    };
    assert_eq!(
        check_burst(&vec![run(None), refused], 1),
        Some(MaxConcurrentFault::Refused { stream: 1 })
    );
    let mute = SubmitReply {
        status: None,
        position: None,
    };
    assert_eq!(
        check_burst(&vec![run(None), mute], 1),
        Some(MaxConcurrentFault::NoStatus { stream: 1 })
    );
    assert_eq!(
        check_burst(&vec![run(None), wait(Some(2)), wait(Some(2))], 1),
        Some(MaxConcurrentFault::Positions)
    );
    assert_eq!(
        check_burst(&vec![run(None), wait(Some(2)), wait(Some(1))], 1),
        None
    );
}

#[test]
fn queue_snapshot_after_a_burst() {
    let submitted = vec![12, 60, 24, 48, 36];
    assert_eq!(
        check_queue_snapshot(Some(2), &vec![48, 36, 24], &submitted, 2),
        None
    );
    assert_eq!(
        check_queue_snapshot(Some(3), &vec![48, 36, 24], &submitted, 2),
        Some(MaxConcurrentFault::ActiveCount)
    );
    assert_eq!(
        check_queue_snapshot(None, &vec![48, 36, 24], &submitted, 2),
        Some(MaxConcurrentFault::ActiveCount)
    );
    assert_eq!(
        check_queue_snapshot(Some(2), &vec![36, 48, 24], &submitted, 2),
        Some(MaxConcurrentFault::PendingOrder)
    );
    assert_eq!(
        check_queue_snapshot(Some(2), &vec![48, 36], &submitted, 2),
        Some(MaxConcurrentFault::PendingOrder)
    );
}

// --- load generators

#[test]
fn sending_generator() {
    let mut t = SenderTuner::new("s".to_string());
    assert!(matches!(
        t.on_cmd(Some(TunerCmd::Shutdown), 0),
        SenderAction::Ignore
    ));
    assert!(matches!(
        t.on_cmd(Some(TunerCmd::Port(8)), 0),
        SenderAction::Connect(8)
    ));
    assert!(matches!(
        t.on_cmd(Some(TunerCmd::Shutdown), 0),
        SenderAction::CloseSocket
    ));
    match t.on_cmd(
        Some(TunerCmd::Done {
            role: Role::Sender,
            bytes: 77,
        }),
        123,
    ) {
        SenderAction::Report(r) => {
            assert!(matches!(r.outcome, TunerOutcome::Pass));
            assert_eq!(r.uuid, "s");
            assert_eq!((r.bytes, r.elapsed_ms), (77, 123));
        }
        other => panic!("{other:?}"),
    }
    assert_eq!(t.phase, SenderPhase::Ended);
    let mut t = SenderTuner::new("s".to_string());
    match t.on_cmd(Some(TunerCmd::Kill), 5) {
        SenderAction::Report(r) => assert!(matches!(
            r.outcome,
            TunerOutcome::Fail { ref reason } if reason == "killed by failsafe"
        )),
        other => panic!("{other:?}"),
    }
    let mut t = SenderTuner::new("s".to_string());
    t.on_cmd(Some(TunerCmd::Port(8)), 0);
    match t.on_cmd(None, 5) {
        SenderAction::AbortAndReport(r) => assert!(matches!(
            r.outcome,
            TunerOutcome::Fail { ref reason } if reason == "CIC channel closed"
        )),
        other => panic!("{other:?}"),
    }
}

#[test]
fn receiving_generator() {
    let mut t = ReceiverTuner::new("r".to_string());
    assert!(matches!(
        t.on_cmd(Some(TunerCmd::Port(9)), 0),
        ReceiverAction::Connect(9)
    ));
    assert!(matches!(
        t.on_cmd(Some(TunerCmd::Shutdown), 0),
        ReceiverAction::Ignore
    ));
    let outcome = match t.on_cmd(
        Some(TunerCmd::Failed {
            role: Role::Receiver,
            reason: "x".to_string(),
        }),
        0,
    ) {
        ReceiverAction::AbortReader(o) => o,
        other => panic!("{other:?}"),
    };
    assert_eq!(t.phase, ReceiverPhase::AwaitReader);
    let r = t.on_reader_ended(outcome, None, 9);
    assert_eq!(r.bytes, 0);
    assert!(matches!(r.outcome, TunerOutcome::Fail { .. }));
    let r = t.on_reader_ended(TunerOutcome::Pass, Some(55), 9);
    assert_eq!(r.bytes, 55);
}

fn result(role: Role, bytes: u64, outcome: TunerOutcome) -> TunerResult {
    TunerResult {
        uuid: "u".to_string(),
        role,
        outcome,
        bytes,
        elapsed_ms: 1,
    }
}

fn bare() -> WireStreamInfo {
    WireStreamInfo {
        size_bytes: None,
        attrs: None,
    }
}

#[test]
fn control_routes_and_ends() {
    let mut cic = Cic::new();
    for role in [Role::Sender, Role::Receiver] {
        cic.register("u".to_string(), role);
    }
    cic.register_pair(TunerPair {
        sender_uuid: "u".to_string(),
        receiver_uuid: "u".to_string(),
    });
    let port = |port| CicMsg::StreamStarted {
        role: Role::Sender,
        uuid: "u".to_string(),
        info: bare(),
        port,
    };
    assert!(matches!(
        cic.on_msg(port(5)),
        CicAction::Send {
            role: Role::Sender,
            cmd: TunerCmd::Port(5),
            ..
        }
    ));
    assert!(matches!(cic.on_msg(port(6)), CicAction::Nothing));
    assert!(matches!(
        cic.on_msg(CicMsg::StreamDone {
            role: Role::Receiver,
            uuid: "x".to_string(),
            bytes: 1
        }),
        CicAction::Nothing
    ));
    match cic.on_timer(CicTimer::Duration) {
        TimerAction::ShutdownSenders(list) => assert_eq!(list, vec!["u".to_string()]),
        other => panic!("{other:?}"),
    }
    assert!(matches!(
        cic.on_timer(CicTimer::Duration),
        TimerAction::Nothing
    ));
    let finished = |role| CicMsg::TunerFinished {
        uuid: "u".to_string(),
        role,
        result: result(role, 10, TunerOutcome::Pass),
    };
    assert!(matches!(
        cic.on_msg(finished(Role::Sender)),
        CicAction::Nothing
    ));
    match cic.on_timer(CicTimer::Failsafe) {
        TimerAction::KillAll(list) => {
            assert_eq!(list.len(), 1);
            assert_eq!(list[0].role, Role::Receiver);
        }
        other => panic!("{other:?}"),
    }
    assert!(matches!(
        cic.on_msg(finished(Role::Receiver)),
        CicAction::Finished
    ));
    assert_eq!(cic.into_results().len(), 2);
}

#[test]
fn results_are_summed_up() {
    let results = vec![
        result(Role::Sender, 10, TunerOutcome::Pass),
        result(Role::Receiver, 99, TunerOutcome::Pass),
        result(
            Role::Sender,
            5,
            TunerOutcome::Fail {
                reason: "x".to_string(),
            },
        ),
    ];
    assert_eq!(aggregate_bytes(&results), 15);
    assert_eq!(failures(&results), 1);
    assert_eq!(failures(&vec![]), 0);
}

#[test]
fn callbacks_reach_the_control() {
    assert!(forward(Role::Sender, Notice::Ping).is_none());
    assert!(matches!(
        forward(
            Role::Receiver,
            Notice::StreamFailed {
                uuid: "u".to_string(),
                code: FailReason::Unknown,
                reason: "r".to_string()
            }
        ),
        Some(CicMsg::StreamFailed {
            role: Role::Receiver,
            ..
        })
    ));
    assert!(matches!(
        forward(
            Role::Sender,
            Notice::StreamDone {
                uuid: "u".to_string(),
                bytes: -1
            }
        ),
        Some(CicMsg::StreamDone {
            bytes: u64::MAX,
            ..
        })
    ));
}
