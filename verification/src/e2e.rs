//! Plans and verdicts of the end-to-end test.

use rand::{RngCore, SeedableRng};

use vstd::prelude::*;

use crate::ids::hyphenated;
use crate::mapping::{link_state_of, WireLinkState, WireQueueStatus};
use crate::notice::{law_numbers_survive_the_call, tells_of, CallbackCmd, Notice};
use crate::session_manager::StartStatus;

verus! {

// ---------------------------------------------------------------------------
// Arguments
// ---------------------------------------------------------------------------

/// Arguments of the test of scheduling order.
#[derive(Debug, Clone, Copy, PartialEq, Eq, Structural)]
pub struct DrrArgs {
    /// Streams to queue behind the first one.
    pub file_count: usize,
}

/// Arguments of the test of the limit on concurrent streams.
#[derive(Debug, Clone, Copy, PartialEq, Eq, Structural)]
pub struct MaxConcurrentArgs {
    /// Limit to be set.
    pub max_concurrent: usize,
    /// Streams to submit.
    pub stream_count: usize,
}

/// Arguments of the test of transfers.
#[derive(Debug, Clone, Copy, PartialEq, Eq, Structural)]
pub struct MultiFileArgs {
    /// Three large transfers.
    pub large: bool,
    /// Four transfers of boundary sizes.
    pub small: bool,
    /// Size of a transfer in MiB.
    pub size_mb: Option<usize>,
    /// Duration of a transfer at the bandwidth limit, in seconds.
    pub duration_secs: Option<u64>,
    /// Number of transfers.
    pub count: usize,
    /// Transfer in both directions.
    pub bidirectional: bool,
    /// Interrupt the link for a while.
    pub link_outage: bool,
    /// Interrupt the link for good.
    pub link_fail: bool,
}

/// Arguments of the test of boundary sizes.
#[derive(Debug, Clone, Copy, PartialEq, Eq, Structural)]
pub struct SmallFileEdgeCasesArgs {
    /// Transfer in both directions.
    pub bidirectional: bool,
}

// ---------------------------------------------------------------------------
// Sizes and times
// ---------------------------------------------------------------------------

/// Size of a transfer when there is no bandwidth limit to derive it from.
pub const UNCAPPED_BYTES: usize = 33_554_432;

/// Size of the first stream of the scheduling test without a bandwidth limit.
pub const UNCAPPED_ANCHOR_BYTES: usize = 4_194_304;

/// Size of the second transfer of the outage test, when none is planned.
pub const OUTAGE_SECOND_BYTES: usize = 65_536;

/// Smallest transfer whose bandwidth is checked.
pub const MIN_BW_TEST_BYTES: usize = 1_048_576;

/// Shortest transfer whose bandwidth is checked, in milliseconds.
pub const MIN_BW_TEST_MS: u64 = 500;

/// Shortest timeout of a transfer, in seconds.
pub const TIMEOUT_MIN_SECS: u64 = 30;

/// Bytes that a bandwidth limit in megabits per second allows in some seconds.
pub open spec fn bytes_in(cap_mbps: u32, secs: nat) -> nat {
    (cap_mbps as nat * 1_000_000) / 8 * secs
}

/// The bandwidth limit that the agent reports: none unless it is positive.
pub fn query_cap(reported: i32) -> (r: Option<u32>)
    ensures
        r == (if reported <= 0 {
            None
        } else {
            Some(reported as u32)
        }),
{
    if reported <= 0 {
        None
    } else {
        Some(reported as u32)
    }
}

/// Size of a transfer that takes some seconds at the bandwidth limit, or a given size
/// without one.
fn timed_size(cap_mbps: Option<u32>, secs: u64, uncapped: usize) -> (r: usize)
    requires
        cap_mbps matches Some(c) ==> bytes_in(c, secs as nat) <= usize::MAX,
    ensures
        r == (match cap_mbps {
            Some(c) => bytes_in(c, secs as nat),
            None => uncapped as nat,
        }),
{
    match cap_mbps {
        None => uncapped,
        Some(c) => {
            let per_sec: u64 = (c as u64) * 1_000_000 / 8;
            assert((per_sec as nat) * (secs as nat) == bytes_in(c, secs as nat));
            let bytes: u128 = mul_wide(per_sec, secs);
            bytes as usize
        },
    }
}

fn mul_wide(a: u64, b: u64) -> (r: u128)
    ensures
        r == (a as nat) * (b as nat),
{
    assert((a as nat) * (b as nat) <= 0xFFFF_FFFF_FFFF_FFFFnat * 0xFFFF_FFFF_FFFF_FFFFnat)
        by (nonlinear_arith)
        requires
            a <= 0xFFFF_FFFF_FFFF_FFFFu64,
            b <= 0xFFFF_FFFF_FFFF_FFFFu64,
    ;
    (a as u128) * (b as u128)
}

/// Sizes of the transfers that the arguments ask for.
pub open spec fn planned_sizes(args: MultiFileArgs, cap_mbps: Option<u32>) -> Seq<nat> {
    if args.large {
        seq![31_457_280nat, 2_097_152nat, 524_288nat]
    } else if args.small {
        seq![9_000nat, 1_024nat, 512nat, 1nat]
    } else {
        let size = match args.size_mb {
            Some(mb) => mb as nat * 1_048_576,
            None => match cap_mbps {
                Some(c) => bytes_in(
                    c,
                    match args.duration_secs {
                        Some(s) => s as nat,
                        None => 10,
                    },
                ),
                None => UNCAPPED_BYTES as nat,
            },
        };
        Seq::new(args.count as nat, |i: int| size)
    }
}

/// The sizes fit the machine.
pub open spec fn sizes_fit(args: MultiFileArgs, cap_mbps: Option<u32>) -> bool {
    let sizes = planned_sizes(args, cap_mbps);
    forall|i: int| 0 <= i < sizes.len() ==> #[trigger] sizes[i] <= usize::MAX
}

/// The same numbers, as machine integers.
pub open spec fn same_sizes(v: Seq<usize>, s: Seq<nat>) -> bool {
    &&& v.len() == s.len()
    &&& forall|i: int| 0 <= i < v.len() ==> #[trigger] v[i] == s[i]
}

/// Sizes of the transfers that the arguments ask for.
pub fn file_sizes(args: &MultiFileArgs, cap_mbps: Option<u32>) -> (r: Vec<usize>)
    requires
        sizes_fit(*args, cap_mbps),
    ensures
        same_sizes(r@, planned_sizes(*args, cap_mbps)),
{
    if args.large {
        return vec![31_457_280, 2_097_152, 524_288];
    }
    if args.small {
        return vec![9_000, 1_024, 512, 1];
    }
    if args.count == 0 {
        return Vec::new();
    }
    assert(planned_sizes(*args, cap_mbps)[0] <= usize::MAX);
    let size: usize = match args.size_mb {
        Some(mb) => mb * 1_048_576,
        None => {
            let secs: u64 = match args.duration_secs {
                Some(s) => s,
                None => 10,
            };
            timed_size(cap_mbps, secs, UNCAPPED_BYTES)
        },
    };
    let mut out: Vec<usize> = Vec::new();
    let mut i: usize = 0;
    while i < args.count
        invariant
            i <= args.count,
            out@.len() == i,
            forall|j: int| 0 <= j < i ==> #[trigger] out@[j] == size,
        decreases args.count - i,
    {
        out.push(size);
        i = i + 1;
    }
    out
}

/// One transfer: its size, and whether it goes from the receiving to the sending side.
#[derive(Debug, Clone, Copy, PartialEq, Eq, Structural)]
pub struct Transfer {
    pub bytes: usize,
    pub reverse: bool,
}

/// What the test of transfers does.
#[derive(Debug)]
pub enum MultiFilePlan {
    /// Interrupt the link, then transfer so many bytes.
    Outage { second_bytes: usize },
    /// Interrupt the link for good.
    LinkFail,
    /// These transfers, one after the other.
    Transfers(Vec<Transfer>),
}

/// Each size once, or, in both directions, twice: there and back.
pub open spec fn transfers_of(sizes: Seq<usize>, bidirectional: bool) -> Seq<Transfer>
    decreases sizes.len(),
{
    if sizes.len() == 0 {
        Seq::empty()
    } else {
        let front = transfers_of(sizes.drop_last(), bidirectional).push(
            Transfer { bytes: sizes.last(), reverse: false },
        );
        if bidirectional {
            front.push(Transfer { bytes: sizes.last(), reverse: true })
        } else {
            front
        }
    }
}

fn plan_transfers(sizes: &Vec<usize>, bidirectional: bool) -> (r: Vec<Transfer>)
    ensures
        r@ == transfers_of(sizes@, bidirectional),
{
    let mut out: Vec<Transfer> = Vec::new();
    let mut i: usize = 0;
    assert(sizes@.take(0) =~= Seq::<usize>::empty());
    while i < sizes.len()
        invariant
            i <= sizes@.len(),
            out@ == transfers_of(sizes@.take(i as int), bidirectional),
        decreases sizes@.len() - i,
    {
        proof {
            assert(sizes@.take(i + 1).drop_last() =~= sizes@.take(i as int));
            assert(sizes@.take(i + 1).last() == sizes@[i as int]);
        }
        out.push(Transfer { bytes: sizes[i], reverse: false });
        if bidirectional {
            out.push(Transfer { bytes: sizes[i], reverse: true });
        }
        i = i + 1;
    }
    assert(sizes@.take(i as int) =~= sizes@);
    out
}

/// What the test of transfers does. An outage goes before a failure of the link, and
/// both before plain transfers.
pub fn multi_file_plan(args: &MultiFileArgs, cap_mbps: Option<u32>) -> (r: MultiFilePlan)
    requires
        sizes_fit(*args, cap_mbps),
    ensures
        ({
            let sizes = planned_sizes(*args, cap_mbps);
            if args.link_outage {
                r matches MultiFilePlan::Outage { second_bytes } && second_bytes == (
                if sizes.len() > 1 {
                    sizes[1]
                } else {
                    OUTAGE_SECOND_BYTES as nat
                })
            } else if args.link_fail {
                r is LinkFail
            } else {
                r matches MultiFilePlan::Transfers(t) && exists|v: Seq<usize>|
                    #![trigger transfers_of(v, args.bidirectional)]
                    same_sizes(v, sizes) && t@ == transfers_of(v, args.bidirectional)
            }
        }),
{
    let sizes: Vec<usize> = file_sizes(args, cap_mbps);
    if args.link_outage {
        let second_bytes: usize = if sizes.len() > 1 {
            sizes[1]
        } else {
            OUTAGE_SECOND_BYTES
        };
        return MultiFilePlan::Outage { second_bytes };
    }
    if args.link_fail {
        return MultiFilePlan::LinkFail;
    }
    MultiFilePlan::Transfers(plan_transfers(&sizes, args.bidirectional))
}

/// The transfers of the test of boundary sizes.
pub fn small_file_plan(args: &SmallFileEdgeCasesArgs) -> (r: Vec<Transfer>)
    ensures
        r@ == transfers_of(seq![9_000usize, 1_024usize, 512usize, 1usize], args.bidirectional),
{
    let sizes: Vec<usize> = vec![9_000, 1_024, 512, 1];
    assert(sizes@ =~= seq![9_000usize, 1_024usize, 512usize, 1usize]);
    plan_transfers(&sizes, args.bidirectional)
}

/// Seconds after which a transfer counts as stuck: four times what it takes at the
/// bandwidth limit, but no less than the shortest timeout. At a limit of zero it would
/// take forever.
pub fn transfer_timeout(bytes: usize, cap_mbps: Option<u32>) -> (secs: u64)
    ensures
        secs == (match cap_mbps {
            None => TIMEOUT_MIN_SECS as nat,
            Some(c) => if c == 0 {
                if bytes == 0 {
                    TIMEOUT_MIN_SECS as nat
                } else {
                    u64::MAX as nat
                }
            } else {
                let quadruple = (bytes as nat * 32) / (c as nat * 1_000_000);
                if quadruple < TIMEOUT_MIN_SECS {
                    TIMEOUT_MIN_SECS as nat
                } else {
                    quadruple
                }
            },
        }),
{
    match cap_mbps {
        None => TIMEOUT_MIN_SECS,
        Some(c) => {
            if c == 0 {
                return if bytes == 0 {
                    TIMEOUT_MIN_SECS
                } else {
                    u64::MAX
                };
            }
            let per_sec: u128 = (c as u128) * 1_000_000;
            let quadruple: u128 = (bytes as u128) * 32 / per_sec;
            assert((bytes * 32) / (per_sec as int) <= bytes) by (nonlinear_arith)
                requires
                    per_sec >= 1_000_000,
                    bytes >= 0,
            ;
            if quadruple < TIMEOUT_MIN_SECS as u128 {
                TIMEOUT_MIN_SECS
            } else {
                quadruple as u64
            }
        },
    }
}

/// Whether the bandwidth of a transfer is checked: there is a limit, and the transfer
/// was large and long enough to be shaped by it.
pub fn bw_check_applies(bytes: usize, elapsed_ms: u64, cap_mbps: Option<u32>) -> (r: bool)
    ensures
        r == (cap_mbps is Some && bytes >= MIN_BW_TEST_BYTES && elapsed_ms >= MIN_BW_TEST_MS),
{
    cap_mbps.is_some() && bytes >= MIN_BW_TEST_BYTES && elapsed_ms >= MIN_BW_TEST_MS
}

/// Size of the payload of one generator of the bandwidth test: four times what the
/// limit allows in the time, so that it is not used up before, as far as a payload of
/// that size can be.
pub fn payload_bytes(cap_mbps: Option<u32>, duration_secs: u64) -> (r: usize)
    ensures
        r == (match cap_mbps {
            Some(c) => if bytes_in(c, duration_secs as nat) * 4 <= usize::MAX {
                bytes_in(c, duration_secs as nat) * 4
            } else {
                usize::MAX as nat
            },
            None => UNCAPPED_BYTES as nat,
        }),
{
    match cap_mbps {
        None => UNCAPPED_BYTES,
        Some(c) => {
            let per_sec: u64 = (c as u64) * 1_000_000 / 8;
            assert((per_sec as nat) * (duration_secs as nat) == bytes_in(
                c,
                duration_secs as nat,
            ));
            let bytes: u128 = mul_wide(per_sec, duration_secs);
            if bytes <= (usize::MAX / 4) as u128 {
                bytes as usize * 4
            } else {
                usize::MAX
            }
        },
    }
}

/// The first `n` bytes of the generator `rand::rngs::SmallRng` from a seed, on a machine
/// with addresses of so many bits.
pub uninterp spec fn small_rng_bytes(seed: u64, n: nat, word_bits: nat) -> Seq<u8>;

/// Calls `rand::rngs::SmallRng::seed_from_u64` and fills a buffer with
/// `rand::RngCore::fill_bytes`: so many bytes, no more than an allocation can hold.
/// Which ones they are depends on the seed, their number and the size of addresses,
/// by which the generator is chosen.
#[verifier::external_body]
fn random_bytes(n: usize, seed: u64) -> (r: Vec<u8>)
    requires
        n <= isize::MAX,
    ensures
        r@.len() == n,
        r@ == small_rng_bytes(seed, n as nat, usize::BITS as nat),
{
    let mut rng = rand::rngs::SmallRng::seed_from_u64(seed);
    let mut buf = vec![0u8; n];
    rng.fill_bytes(&mut buf);
    buf
}

/// Seed of the payload of the `i`-th generator of the bandwidth test.
pub fn payload_seed(i: usize) -> (r: u64)
    ensures
        r == 0xDEAD_BEEF_0000_0000u64 | (i as u64),
{
    0xDEAD_BEEF_0000_0000u64 | (i as u64)
}

/// A payload of so many bytes, which the seed reproduces.
pub fn generate_payload(n: usize, seed: u64) -> (r: Vec<u8>)
    requires
        n <= isize::MAX,
    ensures
        r@.len() == n,
        r@ == small_rng_bytes(seed, n as nat, usize::BITS as nat),
{
    random_bytes(n, seed)
}

/// Seed of the payload of a transfer.
pub fn test_data_seed() -> (r: u64)
    ensures
        r == 0xDEAD_BEEF_CAFE_1234u64,
{
    0xDEAD_BEEF_CAFE_1234
}

/// The payload of a transfer of so many bytes.
pub fn generate_test_data(n: usize) -> (r: Vec<u8>)
    requires
        n <= isize::MAX,
    ensures
        r@.len() == n,
        r@ == small_rng_bytes(0xDEAD_BEEF_CAFE_1234u64, n as nat, usize::BITS as nat),
{
    generate_payload(n, test_data_seed())
}

/// Size of the first stream of the scheduling test: three seconds at the limit.
pub fn anchor_bytes(cap_mbps: Option<u32>) -> (r: usize)
    requires
        cap_mbps matches Some(c) ==> bytes_in(c, 3) <= usize::MAX,
    ensures
        r == (match cap_mbps {
            Some(c) => bytes_in(c, 3),
            None => UNCAPPED_ANCHOR_BYTES as nat,
        }),
{
    timed_size(cap_mbps, 3, UNCAPPED_ANCHOR_BYTES)
}

// ---------------------------------------------------------------------------
// Events
// ---------------------------------------------------------------------------

/// What an agent calls back with.
#[derive(Debug)]
pub enum TestCallbackEvent {
    Started { uuid: String, port: u16 },
    Done { uuid: String, bytes: u64 },
    Failed { uuid: String, reason: String },
    LinkState(WireLinkState),
    QueueStatus(WireQueueStatus),
}

/// The event that a callback of an agent makes, if it makes one.
pub open spec fn event_of(n: Notice) -> Option<TestCallbackEvent> {
    match n {
        Notice::Ping => None,
        Notice::StreamStarted { uuid, info, port } => Some(
            TestCallbackEvent::Started { uuid, port: port as u16 },
        ),
        Notice::StreamProgress { .. } => None,
        Notice::StreamDone { uuid, bytes } => Some(
            TestCallbackEvent::Done { uuid, bytes: bytes as u64 },
        ),
        Notice::StreamFailed { uuid, code, reason } => Some(
            TestCallbackEvent::Failed { uuid, reason },
        ),
        Notice::LinkStatus(state) => Some(TestCallbackEvent::LinkState(state)),
        Notice::QueueStatus(status) => Some(TestCallbackEvent::QueueStatus(status)),
    }
}

/// Takes a callback of an agent; reports of progress are counted.
pub fn on_notice(n: Notice, progress_count: &mut usize) -> (r: Option<TestCallbackEvent>)
    requires
        *old(progress_count) < usize::MAX,
    ensures
        r == event_of(n),
        *final(progress_count) == *old(progress_count) + (if n is StreamProgress {
            1int
        } else {
            0int
        }),
{
    match n {
        Notice::Ping => None,
        Notice::StreamStarted { uuid, info, port } => Some(
            TestCallbackEvent::Started { uuid, port: #[verifier::truncate] (port as u16) },
        ),
        Notice::StreamProgress { .. } => {
            *progress_count = *progress_count + 1;
            None
        },
        Notice::StreamDone { uuid, bytes } => Some(
            TestCallbackEvent::Done { uuid, bytes: #[verifier::truncate] (bytes as u64) },
        ),
        Notice::StreamFailed { uuid, code, reason } => Some(
            TestCallbackEvent::Failed { uuid, reason },
        ),
        Notice::LinkStatus(state) => Some(TestCallbackEvent::LinkState(state)),
        Notice::QueueStatus(status) => Some(TestCallbackEvent::QueueStatus(status)),
    }
}

/// The stream that an event is about.
pub open spec fn stream_of(e: TestCallbackEvent) -> Option<Seq<char>> {
    match e {
        TestCallbackEvent::Started { uuid, .. } => Some(uuid@),
        TestCallbackEvent::Done { uuid, .. } => Some(uuid@),
        TestCallbackEvent::Failed { uuid, .. } => Some(uuid@),
        TestCallbackEvent::LinkState(_) => None,
        TestCallbackEvent::QueueStatus(_) => None,
    }
}

/// Whether an event is about a stream.
pub fn event_is_for(event: &TestCallbackEvent, wanted: &String) -> (r: bool)
    ensures
        r == (stream_of(*event) == Some(wanted@)),
{
    match event {
        TestCallbackEvent::Started { uuid, .. } => *uuid == *wanted,
        TestCallbackEvent::Done { uuid, .. } => *uuid == *wanted,
        TestCallbackEvent::Failed { uuid, .. } => *uuid == *wanted,
        TestCallbackEvent::LinkState(_) => false,
        TestCallbackEvent::QueueStatus(_) => false,
    }
}

/// Whether an event is about a stream, whichever it is.
pub fn about_stream(event: &TestCallbackEvent) -> (r: bool)
    ensures
        r == (stream_of(*event) is Some),
{
    match event {
        TestCallbackEvent::LinkState(_) => false,
        TestCallbackEvent::QueueStatus(_) => false,
        _ => true,
    }
}

/// The first of some events that is about a stream; those before it are discarded.
pub fn recv_event_for(events: &Vec<TestCallbackEvent>, wanted: &String) -> (r: Option<usize>)
    ensures
        match r {
            Some(i) => {
                &&& i < events@.len()
                &&& stream_of(events@[i as int]) == Some(wanted@)
                &&& forall|j: int|
                    0 <= j < i ==> stream_of(#[trigger] events@[j]) != Some(wanted@)
            },
            None => forall|j: int|
                0 <= j < events@.len() ==> stream_of(#[trigger] events@[j]) != Some(wanted@),
        },
{
    let mut i: usize = 0;
    while i < events.len()
        invariant
            i <= events@.len(),
            forall|j: int| 0 <= j < i ==> stream_of(#[trigger] events@[j]) != Some(wanted@),
        decreases events@.len() - i,
    {
        if event_is_for(&events[i], wanted) {
            return Some(i);
        }
        i = i + 1;
    }
    None
}

/// The last of some events that is a queue snapshot.
pub fn last_queue_status(events: &Vec<TestCallbackEvent>) -> (r: Option<usize>)
    ensures
        match r {
            Some(i) => {
                &&& i < events@.len()
                &&& events@[i as int] is QueueStatus
                &&& forall|j: int|
                    i < j < events@.len() ==> !((#[trigger] events@[j]) is QueueStatus)
            },
            None => forall|j: int|
                0 <= j < events@.len() ==> !((#[trigger] events@[j]) is QueueStatus),
        },
{
    let mut i: usize = events.len();
    while i > 0
        invariant
            i <= events@.len(),
            forall|j: int| i <= j < events@.len() ==> !((#[trigger] events@[j]) is QueueStatus),
        decreases i,
    {
        i = i - 1;
        match &events[i] {
            TestCallbackEvent::QueueStatus(_) => {
                return Some(i);
            },
            _ => {},
        }
    }
    None
}

/// How far a transfer has come.
#[derive(Debug, Clone, Copy, PartialEq, Eq, Structural)]
pub enum TransferPhase {
    /// The sending agent is to open its port.
    SenderStart,
    /// The receiving agent is to open its port.
    ReceiverStart,
    /// The receiving agent is to finish.
    ReceiverDone,
    /// The sending agent is to finish.
    SenderDone,
    /// Both have finished.
    Complete,
    /// It failed.
    Failed,
}

/// What an event leads to.
#[derive(Debug)]
pub enum TransferNext {
    /// Write the payload to this port.
    WriteTo(u16),
    /// Read the payload from this port.
    ReadFrom(u16),
    /// Wait for the next event.
    Wait,
    /// The transfer is over.
    Complete,
    /// The agent gave the stream up, with this reason.
    StreamFailed(String),
    /// Another event was due.
    Unexpected,
}

/// Watches one transfer through the events of both agents.
#[derive(Debug, Clone, Copy, PartialEq, Eq, Structural)]
pub struct TransferMonitor {
    pub phase: TransferPhase,
    /// Whether any other event than the sending agent's end is a fault when that is due.
    pub strict: bool,
}

impl TransferMonitor {
    /// A transfer that has been requested; while the sending agent is to finish, its
    /// other events do not matter.
    pub fn new() -> (r: Self)
        ensures
            r == (TransferMonitor { phase: TransferPhase::SenderStart, strict: false }),
    {
        TransferMonitor { phase: TransferPhase::SenderStart, strict: false }
    }

    /// A transfer that has been requested, in which every event has its turn.
    pub fn new_strict() -> (r: Self)
        ensures
            r == (TransferMonitor { phase: TransferPhase::SenderStart, strict: true }),
    {
        TransferMonitor { phase: TransferPhase::SenderStart, strict: true }
    }

    /// Takes the next event of the agent that the phase waits for.
    pub fn on_event(&mut self, event: TestCallbackEvent) -> (r: TransferNext)
        ensures
            final(self).strict == old(self).strict,
            final(self).phase == phase_after(old(self).strict, old(self).phase, event),
            r == next_after(old(self).strict, old(self).phase, event),
    {
        match self.phase {
            TransferPhase::SenderStart => match event {
                TestCallbackEvent::Started { port, .. } => {
                    self.phase = TransferPhase::ReceiverStart;
                    TransferNext::WriteTo(port)
                },
                _ => {
                    self.phase = TransferPhase::Failed;
                    TransferNext::Unexpected
                },
            },
            TransferPhase::ReceiverStart => match event {
                TestCallbackEvent::Started { port, .. } => {
                    self.phase = TransferPhase::ReceiverDone;
                    TransferNext::ReadFrom(port)
                },
                _ => {
                    self.phase = TransferPhase::Failed;
                    TransferNext::Unexpected
                },
            },
            TransferPhase::ReceiverDone => match event {
                TestCallbackEvent::Done { .. } => {
                    self.phase = TransferPhase::SenderDone;
                    TransferNext::Wait
                },
                TestCallbackEvent::Failed { reason, .. } => {
                    self.phase = TransferPhase::Failed;
                    TransferNext::StreamFailed(reason)
                },
                _ => {
                    self.phase = TransferPhase::Failed;
                    TransferNext::Unexpected
                },
            },
            TransferPhase::SenderDone => match event {
                TestCallbackEvent::Done { .. } => {
                    self.phase = TransferPhase::Complete;
                    TransferNext::Complete
                },
                TestCallbackEvent::Failed { reason, .. } => {
                    self.phase = TransferPhase::Failed;
                    TransferNext::StreamFailed(reason)
                },
                _ => {
                    if self.strict {
                        self.phase = TransferPhase::Failed;
                        TransferNext::Unexpected
                    } else {
                        TransferNext::Wait
                    }
                },
            },
            TransferPhase::Complete => TransferNext::Complete,
            TransferPhase::Failed => TransferNext::Unexpected,
        }
    }
}

/// The phase after an event: first both agents open their ports, the sending one before
/// the receiving one, then both finish, the receiving one before the sending one. While
/// the sending agent is to finish, other events than its end are a fault where `strict`
/// holds, and otherwise do not matter.
pub open spec fn phase_after(
    strict: bool,
    phase: TransferPhase,
    event: TestCallbackEvent,
) -> TransferPhase {
    match phase {
        TransferPhase::SenderStart => if event is Started {
            TransferPhase::ReceiverStart
        } else {
            TransferPhase::Failed
        },
        TransferPhase::ReceiverStart => if event is Started {
            TransferPhase::ReceiverDone
        } else {
            TransferPhase::Failed
        },
        TransferPhase::ReceiverDone => if event is Done {
            TransferPhase::SenderDone
        } else {
            TransferPhase::Failed
        },
        TransferPhase::SenderDone => if event is Done {
            TransferPhase::Complete
        } else if event is Failed || strict {
            TransferPhase::Failed
        } else {
            TransferPhase::SenderDone
        },
        TransferPhase::Complete => TransferPhase::Complete,
        TransferPhase::Failed => TransferPhase::Failed,
    }
}

/// What an event leads to.
pub open spec fn next_after(
    strict: bool,
    phase: TransferPhase,
    event: TestCallbackEvent,
) -> TransferNext {
    match (phase, event) {
        (TransferPhase::SenderStart, TestCallbackEvent::Started { port, .. }) =>
            TransferNext::WriteTo(port),
        (TransferPhase::ReceiverStart, TestCallbackEvent::Started { port, .. }) =>
            TransferNext::ReadFrom(port),
        (TransferPhase::ReceiverDone, TestCallbackEvent::Done { .. }) => TransferNext::Wait,
        (TransferPhase::ReceiverDone, TestCallbackEvent::Failed { reason, .. }) =>
            TransferNext::StreamFailed(reason),
        (TransferPhase::SenderDone, TestCallbackEvent::Done { .. }) => TransferNext::Complete,
        (TransferPhase::SenderDone, TestCallbackEvent::Failed { reason, .. }) =>
            TransferNext::StreamFailed(reason),
        (TransferPhase::SenderDone, _) => if strict {
            TransferNext::Unexpected
        } else {
            TransferNext::Wait
        },
        (TransferPhase::Complete, _) => TransferNext::Complete,
        _ => TransferNext::Unexpected,
    }
}

/// The phase after some events.
pub open spec fn phase_after_all(strict: bool, events: Seq<TestCallbackEvent>) -> TransferPhase
    decreases events.len(),
{
    if events.len() == 0 {
        TransferPhase::SenderStart
    } else {
        phase_after(strict, phase_after_all(strict, events.drop_last()), events.last())
    }
}

/// An event at each of these places, in this order: two ports, then two ends.
pub open spec fn in_turn(events: Seq<TestCallbackEvent>, a: int, b: int, c: int, d: int) -> bool {
    &&& 0 <= a < b < c < d < events.len()
    &&& events[a] is Started
    &&& events[b] is Started
    &&& events[c] is Done
    &&& events[d] is Done
}

proof fn lemma_phases_in_turn(strict: bool, events: Seq<TestCallbackEvent>)
    ensures
        phase_after_all(strict, events) == TransferPhase::SenderStart ==> events.len() == 0,
        phase_after_all(strict, events) == TransferPhase::ReceiverStart ==> events.len() == 1
            && events[0] is Started,
        phase_after_all(strict, events) == TransferPhase::ReceiverDone ==> events.len() == 2
            && events[0] is Started && events[1] is Started,
        phase_after_all(strict, events) == TransferPhase::SenderDone ==> events.len() >= 3
            && events[0] is Started && events[1] is Started && events[2] is Done,
        phase_after_all(strict, events) == TransferPhase::Complete ==> exists|d: int| #[trigger]
            in_turn(events, 0, 1, 2, d),
    decreases events.len(),
{
    if events.len() > 0 {
        let front = events.drop_last();
        lemma_phases_in_turn(strict, front);
        if phase_after_all(strict, front) == TransferPhase::Complete {
            let d = choose|d: int| #[trigger] in_turn(front, 0, 1, 2, d);
            assert(in_turn(events, 0, 1, 2, d));
        } else if phase_after_all(strict, events) == TransferPhase::Complete {
            assert(in_turn(events, 0, 1, 2, events.len() - 1));
        }
    }
}

/// A transfer counts as complete only once both agents have opened their ports, and
/// after that have both finished.
pub proof fn law_complete_transfer_ended_on_both_sides(
    strict: bool,
    events: Seq<TestCallbackEvent>,
)
    requires
        phase_after_all(strict, events) == TransferPhase::Complete,
    ensures
        exists|d: int| #[trigger] in_turn(events, 0, 1, 2, d),
{
    lemma_phases_in_turn(strict, events);
}

// ---------------------------------------------------------------------------
// Scheduling order
// ---------------------------------------------------------------------------

/// Priorities and labels of the streams that are queued behind the first one: at most
/// three, out of order.
pub fn drr_priorities(file_count: usize) -> (r: Vec<(i8, &'static str)>)
    ensures
        r@.len() == (if file_count < 3 {
            file_count as nat
        } else {
            3
        }),
        forall|i: int|
            0 <= i < r@.len() ==> (#[trigger] r@[i]).0 == seq![10i8, 30i8, 20i8][i] && r@[i].1@
                == seq!["low"@, "high"@, "med"@][i],
{
    let mut out: Vec<(i8, &'static str)> = Vec::new();
    if file_count > 0 {
        out.push((10, "low"));
    }
    if file_count > 1 {
        out.push((30, "high"));
    }
    if file_count > 2 {
        out.push((20, "med"));
    }
    out
}

/// What is wrong with the answer to a request to start a stream.
#[derive(Debug, Clone, Copy, PartialEq, Eq, Structural)]
pub enum ReplyFault {
    /// It has another position than the expected one.
    Position { expected: i32, got: Option<i32> },
    /// It has another status.
    Status,
}

/// Checks the answer for the `idx`-th stream behind the first one, which holds the
/// only place: it waits, and as many streams wait as have been queued.
pub fn check_drr_reply(idx: usize, status: Option<StartStatus>, position: Option<i32>) -> (r:
    Option<ReplyFault>)
    requires
        idx < i32::MAX,
    ensures
        r == (if position != Some((idx + 1) as i32) {
            Some(ReplyFault::Position { expected: (idx + 1) as i32, got: position })
        } else if !(status matches Some(StartStatus::Pending(_))) {
            Some(ReplyFault::Status)
        } else {
            None
        }),
{
    let expected: i32 = idx as i32 + 1;
    let position_ok: bool = match position {
        Some(p) => p == expected,
        None => false,
    };
    if !position_ok {
        return Some(ReplyFault::Position { expected, got: position });
    }
    match status {
        Some(StartStatus::Pending(_)) => None,
        _ => Some(ReplyFault::Status),
    }
}

// ---------------------------------------------------------------------------
// Limit on concurrent streams
// ---------------------------------------------------------------------------

/// The `i`-th of `count` priorities that are spread over the bulk levels.
pub open spec fn spread_level(count: nat, i: int) -> int {
    let step = 62int / count as int;
    if (i + 1) * step < 62 {
        (i + 1) * step
    } else {
        62
    }
}

/// Up to sixty-two streams get distinct priorities, ascending and all of them bulk.
pub proof fn law_spread_priorities_are_distinct(count: nat, i: int, j: int)
    requires
        0 < count <= 62,
        0 <= i < j < count,
    ensures
        0 < spread_level(count, i) < spread_level(count, j) < crate::priority::STRICT_MIN,
{
    let step = 62int / count as int;
    assert(0 < step && 0 < (i + 1) * step < (j + 1) * step && (j + 1) * step <= 62)
        by (nonlinear_arith)
        requires
            0 < count <= 62,
            0 <= i < j < count,
            step == 62int / count as int,
    ;
}

/// Priorities spread over the bulk levels, in ascending order.
pub fn spread_priorities(count: usize) -> (r: Vec<i8>)
    requires
        0 < count,
    ensures
        r@.len() == count,
        forall|i: int| 0 <= i < count ==> #[trigger] r@[i] == spread_level(count as nat, i),
        forall|i: int| 0 <= i < count ==> 0 <= #[trigger] r@[i] <= 62,
{
    let step: usize = 62usize / count;
    let mut out: Vec<i8> = Vec::new();
    let mut i: usize = 0;
    while i < count
        invariant
            i <= count,
            0 < count,
            step == 62int / count as int,
            out@.len() == i,
            forall|j: int| 0 <= j < i ==> #[trigger] out@[j] == spread_level(count as nat, j),
            forall|j: int| 0 <= j < i ==> 0 <= #[trigger] out@[j] <= 62,
        decreases count - i,
    {
        assert(0 <= (i + 1) * step <= 62) by (nonlinear_arith)
            requires
                0 <= i,
                i + 1 <= count,
                0 < count,
                step == 62int / count as int,
        ;
        let level: usize = (i + 1) * step;
        let level8: i8 = if level < 62 {
            level as i8
        } else {
            62
        };
        out.push(level8);
        i = i + 1;
    }
    out
}

/// The `k`-th element of a list whose elements are taken from the front and from the
/// back in turn.
pub open spec fn interleaved_at(list: Seq<i8>, k: int) -> i8 {
    if k % 2 == 0 {
        list[k / 2]
    } else {
        list[list.len() - 1 - k / 2]
    }
}

/// The elements of a list taken from the front and from the back in turn, so that they
/// come out of order.
pub fn interleave(list: &Vec<i8>) -> (r: Vec<i8>)
    requires
        list@.len() > 0,
    ensures
        r@.len() == list@.len(),
        forall|k: int| 0 <= k < r@.len() ==> #[trigger] r@[k] == interleaved_at(list@, k),
{
    let mut out: Vec<i8> = Vec::with_capacity(list.len());
    let mut lo: usize = 0;
    let mut hi: usize = list.len() - 1;
    let mut take_lo: bool = true;
    while lo <= hi
        invariant_except_break
            lo <= hi,
            out@.len() == lo + (list@.len() - 1 - hi),
            take_lo == (out@.len() % 2 == 0),
            take_lo ==> lo == list@.len() - 1 - hi,
            !take_lo ==> lo == list@.len() - hi,
        invariant
            hi < list@.len(),
            out@.len() <= list@.len(),
            forall|k: int| 0 <= k < out@.len() ==> #[trigger] out@[k] == interleaved_at(list@, k),
        ensures
            out@.len() == list@.len(),
        decreases hi - lo,
    {
        if lo == hi {
            out.push(list[lo]);
            break;
        }
        if take_lo {
            out.push(list[lo]);
            lo = lo + 1;
        } else {
            out.push(list[hi]);
            hi = hi - 1;
        }
        take_lo = !take_lo;
    }
    out
}

/// From larger to smaller.
pub open spec fn descending(s: Seq<i32>) -> bool {
    forall|i: int, j: int| 0 <= i < j < s.len() ==> #[trigger] s[i] >= #[trigger] s[j]
}

/// Sorts from larger to smaller.
pub fn sort_descending(list: &Vec<i32>) -> (r: Vec<i32>)
    ensures
        descending(r@),
        r@.to_multiset() == list@.to_multiset(),
        r@.len() == list@.len(),
{
    broadcast use vstd::seq_lib::group_to_multiset_ensures;

    let mut out: Vec<i32> = Vec::new();
    let mut i: usize = 0;
    assert(list@.take(0) =~= Seq::<i32>::empty());
    while i < list.len()
        invariant
            i <= list@.len(),
            out@.len() == i,
            descending(out@),
            out@.to_multiset() == list@.take(i as int).to_multiset(),
        decreases list@.len() - i,
    {
        let x: i32 = list[i];
        let ghost before = out@;
        let mut at: usize = 0;
        while at < out.len()
            invariant_except_break
                at <= out@.len(),
                forall|j: int| 0 <= j < at ==> #[trigger] out@[j] >= x,
            invariant
                out@ == before,
                descending(before),
            ensures
                at <= before.len(),
                forall|j: int| 0 <= j < at ==> #[trigger] before[j] >= x,
                at < before.len() ==> before[at as int] < x,
            decreases out@.len() - at,
        {
            if out[at] < x {
                break;
            }
            at = at + 1;
        }
        out.insert(at, x);
        proof {
            assert(list@.take(i + 1) =~= list@.take(i as int).push(x));
            assert(out@ =~= before.insert(at as int, x));
            vstd::seq_lib::to_multiset_insert(before, at as int, x);
            vstd::seq_lib::to_multiset_build(list@.take(i as int), x);
            assert(out@.to_multiset() == list@.take(i + 1).to_multiset());
            assert forall|a: int, b: int| 0 <= a < b < out@.len() implies #[trigger] out@[a]
                >= #[trigger] out@[b] by {
                let pa = if a < at { a } else { a - 1 };
                let pb = if b < at { b } else { b - 1 };
                if a != at {
                    assert(out@[a] == before[pa]);
                }
                if b != at {
                    assert(out@[b] == before[pb]);
                }
                if a == at && pb > at {
                    assert(before[at as int] >= before[pb]);
                }
            }
        }
        i = i + 1;
    }
    assert(list@.take(i as int) =~= list@);
    out
}

/// The answer for one submitted stream: its status and position, as far as it has them.
#[derive(Debug, Clone, Copy, PartialEq, Eq, Structural)]
pub struct SubmitReply {
    pub status: Option<StartStatus>,
    pub position: Option<i32>,
}

/// What is wrong with the answers to a burst of requests.
#[derive(Debug, Clone, Copy, PartialEq, Eq, Structural)]
pub enum MaxConcurrentFault {
    /// No more streams than places were to be submitted.
    TooFewStreams,
    /// The answer for a stream has no status.
    NoStatus { stream: usize },
    /// A stream that runs has a position in the queue.
    RunningPosition { stream: usize },
    /// A stream that waits has no position in the queue.
    PendingPosition { stream: usize },
    /// A stream was refused.
    Refused { stream: usize },
    /// Another number of streams runs.
    RunningCount { got: usize },
    /// Another number of streams waits.
    PendingCount { got: usize },
    /// The positions are not the numbers from one up.
    Positions,
    /// The queue snapshot shows another number of running streams.
    ActiveCount,
    /// The queue snapshot does not run from higher to lower priorities.
    PendingOrder,
}

/// What is wrong with the answer for a stream in itself, if anything.
pub open spec fn reply_fault(r: SubmitReply, stream: usize) -> Option<MaxConcurrentFault> {
    match r.status {
        None => Some(MaxConcurrentFault::NoStatus { stream }),
        Some(StartStatus::Running) => if r.position is None || r.position == Some(0i32) {
            None
        } else {
            Some(MaxConcurrentFault::RunningPosition { stream })
        },
        Some(StartStatus::Pending(_)) => if r.position matches Some(p) && p >= 1 {
            None
        } else {
            Some(MaxConcurrentFault::PendingPosition { stream })
        },
        Some(StartStatus::QueueFull) => Some(MaxConcurrentFault::Refused { stream }),
    }
}

/// The first `n` answers are in order, each in itself.
pub open spec fn replies_in_order(replies: Seq<SubmitReply>, n: int) -> bool {
    forall|i: int| 0 <= i < n ==> reply_fault(#[trigger] replies[i], i as usize) is None
}

/// Streams that run.
pub open spec fn running() -> spec_fn(SubmitReply) -> bool {
    |r: SubmitReply| r.status == Some(StartStatus::Running)
}

/// Positions of the streams that wait, in order of submission.
pub open spec fn pending_positions(replies: Seq<SubmitReply>) -> Seq<i32>
    decreases replies.len(),
{
    if replies.len() == 0 {
        Seq::empty()
    } else {
        let front = pending_positions(replies.drop_last());
        match (replies.last().status, replies.last().position) {
            (Some(StartStatus::Pending(_)), Some(p)) => front.push(p),
            _ => front,
        }
    }
}

/// The numbers from `n` down to one.
pub open spec fn countdown(n: nat) -> Seq<i32> {
    Seq::new(n, |i: int| (n - i) as i32)
}

/// What is wrong with the answers to a burst of requests: an answer that is wrong in
/// itself, the first one; or another number of streams than there are places runs, the
/// others do not wait, or their positions are not the numbers from one up.
pub open spec fn burst_fault(replies: Seq<SubmitReply>, max_concurrent: nat, f: Option<
    MaxConcurrentFault,
>) -> bool {
    let n = replies.len();
    let positions = pending_positions(replies);
    if n <= max_concurrent {
        f == Some(MaxConcurrentFault::TooFewStreams)
    } else if !replies_in_order(replies, n as int) {
        exists|i: int|
            0 <= i < n && replies_in_order(replies, i) && f is Some && f == reply_fault(
                #[trigger] replies[i],
                i as usize,
            )
    } else if replies.filter(running()).len() != max_concurrent {
        f matches Some(MaxConcurrentFault::RunningCount { got }) && got == replies.filter(
            running(),
        ).len()
    } else if positions.len() != n - max_concurrent {
        f matches Some(MaxConcurrentFault::PendingCount { got }) && got == positions.len()
    } else if positions.to_multiset() != countdown((n - max_concurrent) as nat).to_multiset() {
        f == Some(MaxConcurrentFault::Positions)
    } else {
        f is None
    }
}

/// Two descending lists of the same numbers are the same.
proof fn lemma_descending_unique(a: Seq<i32>, b: Seq<i32>)
    requires
        descending(a),
        descending(b),
        a.to_multiset() == b.to_multiset(),
    ensures
        a == b,
{
    let leq = |x: i32, y: i32| x >= y;
    assert(vstd::relations::sorted_by(a, leq));
    assert(vstd::relations::sorted_by(b, leq));
    assert(vstd::relations::total_ordering(leq)) by {
        assert(vstd::relations::reflexive(leq));
        assert(vstd::relations::antisymmetric(leq));
        assert(vstd::relations::transitive(leq));
        assert(vstd::relations::strongly_connected(leq));
    }
    vstd::seq_lib::lemma_sorted_unique(a, b, leq);
}

/// Checks the answer for a stream in itself.
fn check_reply(reply: &SubmitReply, stream: usize) -> (r: Option<MaxConcurrentFault>)
    ensures
        r == reply_fault(*reply, stream),
{
    match reply.status {
        None => Some(MaxConcurrentFault::NoStatus { stream }),
        Some(StartStatus::Running) => match reply.position {
            None => None,
            Some(p) => if p == 0 {
                None
            } else {
                Some(MaxConcurrentFault::RunningPosition { stream })
            },
        },
        Some(StartStatus::Pending(_)) => match reply.position {
            None => Some(MaxConcurrentFault::PendingPosition { stream }),
            Some(p) => if p >= 1 {
                None
            } else {
                Some(MaxConcurrentFault::PendingPosition { stream })
            },
        },
        Some(StartStatus::QueueFull) => Some(MaxConcurrentFault::Refused { stream }),
    }
}

/// Whether the sorted positions are the numbers down to one.
fn is_countdown(sorted: &Vec<i32>) -> (r: bool)
    requires
        sorted@.len() <= i32::MAX,
    ensures
        r == (sorted@ == countdown(sorted@.len())),
{
    let n: usize = sorted.len();
    let mut k: usize = 0;
    while k < n
        invariant
            k <= n,
            n == sorted@.len(),
            n <= i32::MAX,
            forall|j: int| 0 <= j < k ==> #[trigger] sorted@[j] == countdown(n as nat)[j],
        decreases n - k,
    {
        if sorted[k] != (n - k) as i32 {
            assert(sorted@[k as int] != countdown(n as nat)[k as int]);
            return false;
        }
        k = k + 1;
    }
    assert(sorted@ =~= countdown(n as nat));
    true
}

/// Checks the answers to a burst of requests for distinct streams: what is wrong with
/// them, if anything.
pub fn check_burst(replies: &Vec<SubmitReply>, max_concurrent: usize) -> (r: Option<
    MaxConcurrentFault,
>)
    requires
        replies@.len() <= i32::MAX,
    ensures
        burst_fault(replies@, max_concurrent as nat, r),
{
    if replies.len() <= max_concurrent {
        return Some(MaxConcurrentFault::TooFewStreams);
    }
    let mut run_count: usize = 0;
    let mut positions: Vec<i32> = Vec::new();
    let mut i: usize = 0;
    proof {
        reveal(Seq::filter);
        assert(replies@.take(0) =~= Seq::<SubmitReply>::empty());
    }
    while i < replies.len()
        invariant
            i <= replies@.len(),
            replies@.len() > max_concurrent,
            run_count <= i,
            run_count == replies@.take(i as int).filter(running()).len(),
            positions@ == pending_positions(replies@.take(i as int)),
            replies_in_order(replies@, i as int),
        decreases replies@.len() - i,
    {
        let reply: SubmitReply = replies[i];
        proof {
            assert(replies@.take(i + 1) =~= replies@.take(i as int).push(reply));
            assert(replies@.take(i + 1).drop_last() =~= replies@.take(i as int));
            replies@.take(i as int).lemma_filter_push(reply, running());
        }
        let fault: Option<MaxConcurrentFault> = check_reply(&reply, i);
        if fault.is_some() {
            proof {
                assert(reply_fault(replies@[i as int], i as usize) is Some);
                assert(!replies_in_order(replies@, replies@.len() as int));
            }
            return fault;
        }
        match reply.status {
            Some(StartStatus::Running) => {
                run_count = run_count + 1;
            },
            Some(StartStatus::Pending(_)) => {
                match reply.position {
                    Some(p) => {
                        positions.push(p);
                    },
                    None => {},
                }
            },
            _ => {},
        }
        i = i + 1;
    }
    assert(replies@.take(i as int) =~= replies@);
    if run_count != max_concurrent {
        return Some(MaxConcurrentFault::RunningCount { got: run_count });
    }
    let expected: usize = replies.len() - max_concurrent;
    if positions.len() != expected {
        return Some(MaxConcurrentFault::PendingCount { got: positions.len() });
    }
    let sorted: Vec<i32> = sort_descending(&positions);
    proof {
        let want = countdown(expected as nat);
        assert(descending(want));
        if positions@.to_multiset() == want.to_multiset() {
            lemma_descending_unique(sorted@, want);
        }
    }
    if is_countdown(&sorted) {
        None
    } else {
        Some(MaxConcurrentFault::Positions)
    }
}

/// Checks the queue snapshot after a burst: the running streams fill the places, and
/// the waiting ones are listed from higher to lower priorities.
pub fn check_queue_snapshot(
    active_count: Option<i32>,
    shown: &Vec<i32>,
    submitted: &Vec<i32>,
    max_concurrent: usize,
) -> (r: Option<MaxConcurrentFault>)
    requires
        max_concurrent <= submitted@.len(),
    ensures
        r == (if active_count != Some(max_concurrent as i32) {
            Some(MaxConcurrentFault::ActiveCount)
        } else if !(descending(shown@) && shown@.to_multiset() == submitted@.skip(
            max_concurrent as int,
        ).to_multiset()) {
            Some(MaxConcurrentFault::PendingOrder)
        } else {
            None
        }),
{
    let active_ok: bool = match active_count {
        Some(n) => n == #[verifier::truncate] (max_concurrent as i32),
        None => false,
    };
    if !active_ok {
        return Some(MaxConcurrentFault::ActiveCount);
    }
    let ghost waiting = submitted@.skip(max_concurrent as int);
    let mut rest: Vec<i32> = Vec::new();
    let mut i: usize = max_concurrent;
    while i < submitted.len()
        invariant
            max_concurrent <= i <= submitted@.len(),
            rest@ == submitted@.subrange(max_concurrent as int, i as int),
        decreases submitted@.len() - i,
    {
        rest.push(submitted[i]);
        assert(rest@ =~= submitted@.subrange(max_concurrent as int, i + 1));
        i = i + 1;
    }
    assert(rest@ =~= waiting);
    let wanted: Vec<i32> = sort_descending(&rest);
    proof {
        shown@.to_multiset_ensures();
        wanted@.to_multiset_ensures();
        if descending(shown@) && shown@.to_multiset() == waiting.to_multiset() {
            lemma_descending_unique(shown@, wanted@);
        }
    }
    if same_list(shown, &wanted) {
        None
    } else {
        Some(MaxConcurrentFault::PendingOrder)
    }
}

fn same_list(a: &Vec<i32>, b: &Vec<i32>) -> (r: bool)
    ensures
        r == (a@ == b@),
{
    if a.len() != b.len() {
        return false;
    }
    let mut k: usize = 0;
    while k < a.len()
        invariant
            k <= a@.len(),
            a@.len() == b@.len(),
            forall|j: int| 0 <= j < k ==> #[trigger] a@[j] == b@[j],
        decreases a@.len() - k,
    {
        if a[k] != b[k] {
            return false;
        }
        k = k + 1;
    }
    assert(a@ =~= b@);
    true
}

// ---------------------------------------------------------------------------
// Laws
// ---------------------------------------------------------------------------

/// What the test learns of a stream is what the agent said: the same stream, and its
/// port, its bytes or the reason; the state of the link and the queue come as they are,
/// and reports of progress are no events.
pub proof fn law_news_reach_the_test(n: Notice, cmd: CallbackCmd)
    requires
        tells_of(n, cmd),
    ensures
        cmd matches CallbackCmd::StreamStarted { uuid, port, .. } ==> (event_of(n) matches Some(e)
            && stream_of(e) == Some(hyphenated(uuid)) && (e matches TestCallbackEvent::Started {
            port: p,
            ..
        } && p == port)),
        cmd matches CallbackCmd::StreamDone { uuid, bytes } ==> (event_of(n) matches Some(e)
            && stream_of(e) == Some(hyphenated(uuid)) && (e matches TestCallbackEvent::Done {
            bytes: b,
            ..
        } && b == bytes)),
        cmd matches CallbackCmd::StreamFailed { uuid, reason, .. } ==> (event_of(n) matches Some(e)
            && stream_of(e) == Some(hyphenated(uuid)) && (e matches TestCallbackEvent::Failed {
            reason: why,
            ..
        } && why == reason)),
        cmd matches CallbackCmd::LinkStatus(state) ==> (event_of(n) matches Some(e) && stream_of(e)
            is None && (e matches TestCallbackEvent::LinkState(w) && link_state_of(w) == state)),
        cmd is QueueStatus ==> (event_of(n) matches Some(e) && stream_of(e) is None && e
            is QueueStatus),
        cmd is StreamProgress ==> event_of(n) is None,
{
    match cmd {
        CallbackCmd::StreamStarted { port, .. } => {
            law_numbers_survive_the_call(port, 0);
        },
        CallbackCmd::StreamDone { bytes, .. } => {
            law_numbers_survive_the_call(0, bytes);
        },
        _ => {},
    }
}

/// Every size is transferred: in one direction once, and in both directions there and
/// back, one right after the other, in the order of the sizes.
pub proof fn law_every_size_is_transferred(sizes: Seq<usize>, i: int)
    requires
        0 <= i < sizes.len(),
    ensures
        transfers_of(sizes, false).len() == sizes.len(),
        transfers_of(sizes, true).len() == 2 * sizes.len(),
        transfers_of(sizes, false)[i].bytes == sizes[i] && !transfers_of(sizes, false)[i].reverse,
        transfers_of(sizes, true)[2 * i].bytes == sizes[i] && !transfers_of(sizes, true)[2
            * i].reverse,
        transfers_of(sizes, true)[2 * i + 1].bytes == sizes[i] && transfers_of(sizes, true)[2 * i
            + 1].reverse,
    decreases sizes.len(),
{
    let front = sizes.drop_last();
    if front.len() > 0 {
        law_every_size_is_transferred(front, if i < front.len() { i } else { 0 });
    } else {
        assert(transfers_of(front, true).len() == 0);
        assert(transfers_of(front, false).len() == 0);
    }
}

/// A bandwidth of some megabits per second carries an eighth of its bits in bytes, and
/// twice as much in twice the time.
pub proof fn law_bytes_follow_the_bandwidth(cap_mbps: u32, secs: nat, more: nat)
    ensures
        bytes_in(cap_mbps, secs) * 8 == cap_mbps * 1_000_000 * secs,
        bytes_in(cap_mbps, secs + more) == bytes_in(cap_mbps, secs) + bytes_in(cap_mbps, more),
{
    let per_sec = (cap_mbps as nat * 1_000_000) / 8;
    assert(per_sec * 8 == cap_mbps * 1_000_000);
    assert(per_sec * secs * 8 == per_sec * 8 * secs) by (nonlinear_arith);
    assert(per_sec * (secs + more) == per_sec * secs + per_sec * more) by (nonlinear_arith);
}

/// Unless sizes are given, as many transfers are planned as asked for, all of one size:
/// so many MiB, or else what the bandwidth limit allows in the time, ten seconds unless
/// it is set, or else 32 MiB.
pub proof fn law_transfers_are_planned_alike(args: MultiFileArgs, cap_mbps: Option<u32>, i: int)
    requires
        !args.large && !args.small,
        0 <= i < args.count,
    ensures
        planned_sizes(args, cap_mbps).len() == args.count,
        args.size_mb matches Some(mb) ==> planned_sizes(args, cap_mbps)[i] == mb * 1024 * 1024,
        args.size_mb is None ==> (cap_mbps matches Some(c) ==> planned_sizes(args, cap_mbps)[i] * 8
            == c * 1_000_000 * (match args.duration_secs {
            Some(s) => s as nat,
            None => 10,
        })),
        args.size_mb is None && cap_mbps is None ==> planned_sizes(args, cap_mbps)[i] == 32 * 1024
            * 1024,
{
    if let Some(c) = cap_mbps {
        let secs = match args.duration_secs {
            Some(s) => s as nat,
            None => 10,
        };
        law_bytes_follow_the_bandwidth(c, secs, 0);
    }
}

/// Both agents open their ports and then finish: the payload is written to the first
/// port and read from the second, the transfer is complete with the second end, and not
/// before; an event out of turn fails it at once.
pub proof fn law_transfer_runs_in_turn(
    strict: bool,
    a: TestCallbackEvent,
    b: TestCallbackEvent,
    c: TestCallbackEvent,
    d: TestCallbackEvent,
)
    ensures
        ({
            let p0 = TransferPhase::SenderStart;
            let p1 = phase_after(strict, p0, a);
            let p2 = phase_after(strict, p1, b);
            let p3 = phase_after(strict, p2, c);
            let p4 = phase_after(strict, p3, d);
            &&& p1 != TransferPhase::Complete && p2 != TransferPhase::Complete
            &&& p3 != TransferPhase::Complete
            &&& p4 == TransferPhase::Complete <==> a is Started && b is Started && c is Done && d
                is Done
            &&& !(a is Started) ==> p1 == TransferPhase::Failed && next_after(strict, p0, a)
                is Unexpected
            &&& a matches TestCallbackEvent::Started { port, .. } ==> next_after(strict, p0, a)
                == TransferNext::WriteTo(port)
            &&& a is Started && !(b is Started) ==> p2 == TransferPhase::Failed && next_after(
                strict,
                p1,
                b,
            ) is Unexpected
            &&& a is Started ==> (b matches TestCallbackEvent::Started { port, .. } ==> next_after(
                strict,
                p1,
                b,
            ) == TransferNext::ReadFrom(port))
            &&& a is Started && b is Started && c is Done ==> next_after(strict, p2, c) is Wait
            &&& a is Started && b is Started && !(c is Done) ==> p3 == TransferPhase::Failed
            &&& a is Started && b is Started ==> (c matches TestCallbackEvent::Failed { reason, .. }
                ==> next_after(strict, p2, c) == TransferNext::StreamFailed(reason))
            &&& p4 == TransferPhase::Complete ==> next_after(strict, p3, d) is Complete
            &&& a is Started && b is Started && c is Done ==> (d matches TestCallbackEvent::Failed {
                reason,
                ..
            } ==> p4 == TransferPhase::Failed && next_after(strict, p3, d)
                == TransferNext::StreamFailed(reason))
            &&& a is Started && b is Started && c is Done && !(d is Done) && !(d is Failed) ==> (
            strict <==> p4 == TransferPhase::Failed)
        }),
{
}

/// Taking the elements from both ends in turn takes each one exactly once: the one at
/// `i` comes at one place, and at no other.
pub proof fn law_interleaving_takes_each_once(list: Seq<i8>, i: int)
    requires
        0 <= i < list.len(),
        list.no_duplicates(),
    ensures
        exists|k: int| 0 <= k < list.len() && #[trigger] interleaved_at(list, k) == list[i],
        forall|k: int, l: int|
            0 <= k < l < list.len() ==> #[trigger] interleaved_at(list, k) != #[trigger] interleaved_at(
                list,
                l,
            ),
        interleaved_at(list, 0) == list[0],
        list.len() > 1 ==> interleaved_at(list, 1) == list.last(),
{
    let n = list.len() as int;
    let k = if 2 * i < n { 2 * i } else { 2 * (n - 1 - i) + 1 };
    assert(interleaved_at(list, k) == list[i]);
    assert forall|k: int, l: int| 0 <= k < l < n implies #[trigger] interleaved_at(list, k)
        != #[trigger] interleaved_at(list, l) by {
        let a = if k % 2 == 0 { k / 2 } else { n - 1 - k / 2 };
        let b = if l % 2 == 0 { l / 2 } else { n - 1 - l / 2 };
        assert(0 <= a < n && 0 <= b < n && a != b);
        assert(list[a] != list[b]);
    }
}

/// The positions of the streams that wait are those in their answers, in order.
pub proof fn law_positions_are_collected(a: Seq<SubmitReply>, b: Seq<SubmitReply>, r: SubmitReply)
    ensures
        pending_positions(a + b) == pending_positions(a) + pending_positions(b),
        match (r.status, r.position) {
            (Some(StartStatus::Pending(_)), Some(p)) => pending_positions(seq![r]) == seq![p],
            _ => pending_positions(seq![r]) == Seq::<i32>::empty(),
        },
    decreases b.len(),
{
    assert(seq![r].drop_last() =~= Seq::<SubmitReply>::empty());
    assert(pending_positions(seq![r].drop_last()) == Seq::<i32>::empty());
    assert(seq![r].last() == r);
    if b.len() == 0 {
        assert(a + b =~= a);
        assert(pending_positions(b) =~= Seq::<i32>::empty());
    } else {
        law_positions_are_collected(a, b.drop_last(), r);
        assert((a + b).drop_last() =~= a + b.drop_last());
        assert((a + b).last() == b.last());
        assert(pending_positions(a + b) =~= pending_positions(a) + pending_positions(b));
    }
}

proof fn lemma_position_was_answered(replies: Seq<SubmitReply>, p: i32)
    requires
        pending_positions(replies).contains(p),
    ensures
        exists|i: int|
            0 <= i < replies.len() && (#[trigger] replies[i]).position == Some(p)
                && replies[i].status matches Some(StartStatus::Pending(_)),
    decreases replies.len(),
{
    if replies.len() > 0 {
        let front = replies.drop_last();
        let all = pending_positions(replies);
        let k = choose|k: int| 0 <= k < all.len() && all[k] == p;
        if k < pending_positions(front).len() {
            assert(pending_positions(front)[k] == p);
            lemma_position_was_answered(front, p);
            let i = choose|i: int|
                0 <= i < front.len() && (#[trigger] front[i]).position == Some(p)
                    && front[i].status matches Some(StartStatus::Pending(_));
            assert(replies[i] == front[i]);
        } else {
            assert(replies[replies.len() - 1] == replies.last());
        }
    }
}

/// The answers to a burst are found right only when as many streams run as there are
/// places, no stream was refused, and every position from one up to the number of the
/// others was given to a stream that waits.
pub proof fn law_burst_fills_places_and_positions(
    replies: Seq<SubmitReply>,
    max_concurrent: nat,
    p: int,
)
    requires
        replies.len() <= i32::MAX,
        burst_fault(replies, max_concurrent, None),
    ensures
        replies.len() > max_concurrent,
        replies.filter(running()).len() == max_concurrent,
        forall|i: int|
            0 <= i < replies.len() ==> (#[trigger] replies[i]).status is Some && replies[i].status
                != Some(StartStatus::QueueFull),
        1 <= p <= replies.len() - max_concurrent ==> exists|i: int|
            0 <= i < replies.len() && (#[trigger] replies[i]).position == Some(p as i32)
                && replies[i].status matches Some(StartStatus::Pending(_)),
{
    let n = replies.len();
    assert forall|i: int| 0 <= i < replies.len() implies (#[trigger] replies[i]).status is Some
        && replies[i].status != Some(StartStatus::QueueFull) by {
        assert(reply_fault(replies[i], i as usize) is None);
    }
    if 1 <= p <= n - max_concurrent {
        let m = (n - max_concurrent) as nat;
        let want = countdown(m);
        assert(want[m - p] == p as i32);
        want.to_multiset_ensures();
        pending_positions(replies).to_multiset_ensures();
        assert(want.contains(p as i32));
        assert(want.to_multiset().count(p as i32) > 0);
        assert(pending_positions(replies).contains(p as i32));
        lemma_position_was_answered(replies, p as i32);
    }
}

} // verus!
