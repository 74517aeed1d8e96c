//! Control of the bandwidth test: it routes what the agents report to the load
//! generators, stops them in time and collects their results.

use vstd::prelude::*;

use crate::ids::hyphenated;
use crate::mapping::{WireLinkState, WireStreamInfo};
use crate::notice::{law_numbers_survive_the_call, tells_of, CallbackCmd, Notice};
use crate::tuner::{TunerCmd, TunerOutcome, TunerResult};

verus! {

/// Side of the link.
#[derive(Debug, Clone, Copy, PartialEq, Eq, Hash, Structural)]
pub enum Role {
    /// The side where data comes from.
    Sender,
    /// The side where data goes to.
    Receiver,
}

/// A report to the control.
#[derive(Debug)]
pub enum CicMsg {
    /// The agent has opened a port for the stream.
    StreamStarted { role: Role, uuid: String, info: WireStreamInfo, port: u16 },
    /// The agent has finished the stream.
    StreamDone { role: Role, uuid: String, bytes: u64 },
    /// The agent has given the stream up.
    StreamFailed { role: Role, uuid: String, reason: String },
    /// The link state has changed on one side.
    LinkStatus { role: Role, state: WireLinkState },
    /// A load generator has ended.
    TunerFinished { uuid: String, role: Role, result: TunerResult },
}

/// The two generators of one stream.
#[derive(Debug)]
pub struct TunerPair {
    pub sender_uuid: String,
    pub receiver_uuid: String,
}

/// A generator: its stream and its side.
#[derive(Debug)]
pub struct JobKey {
    pub uuid: String,
    pub role: Role,
}

impl View for JobKey {
    type V = (Seq<char>, Role);

    open spec fn view(&self) -> (Seq<char>, Role) {
        (self.uuid@, self.role)
    }
}

/// The generators of a list.
pub open spec fn keys(list: Seq<JobKey>) -> Seq<(Seq<char>, Role)> {
    list.map_values(|k: JobKey| k@)
}

/// What the control does with a report.
#[derive(Debug)]
pub enum CicAction {
    /// Nothing.
    Nothing,
    /// Command a generator.
    Send { uuid: String, role: Role, cmd: TunerCmd },
    /// End: every generator has reported.
    Finished,
}

/// A timer of the control.
#[derive(Debug, Clone, Copy, PartialEq, Eq, Structural)]
pub enum CicTimer {
    /// The time to send is over.
    Duration,
    /// Too much time has passed.
    Failsafe,
}

/// What a timer leads to.
#[derive(Debug)]
pub enum TimerAction {
    /// Nothing.
    Nothing,
    /// Tell the senders of these streams to stop.
    ShutdownSenders(Vec<String>),
    /// Tell these generators to give up, and end.
    KillAll(Vec<JobKey>),
}

/// State of the control.
#[derive(Debug)]
pub struct Cic {
    dispatch: Vec<JobKey>,
    pairs: Vec<TunerPair>,
    total_tasks: usize,
    results: Vec<TunerResult>,
    ported: Vec<JobKey>,
    shutdown_sent: bool,
}

/// State of the control: generators that can be commanded, streams, the number of
/// generators, their results, and those that have got their port.
#[verifier::ext_equal]
pub struct CicState {
    pub dispatch: Seq<(Seq<char>, Role)>,
    pub senders: Seq<Seq<char>>,
    pub total_tasks: nat,
    pub results: Seq<TunerResult>,
    pub ported: Seq<(Seq<char>, Role)>,
    pub shutdown_sent: bool,
}

impl View for Cic {
    type V = CicState;

    closed spec fn view(&self) -> CicState {
        CicState {
            dispatch: keys(self.dispatch@),
            senders: self.pairs@.map_values(|p: TunerPair| p.sender_uuid@),
            total_tasks: self.total_tasks as nat,
            results: self.results@,
            ported: keys(self.ported@),
            shutdown_sent: self.shutdown_sent,
        }
    }
}

/// The generators other than one.
pub open spec fn other_key(key: (Seq<char>, Role)) -> spec_fn((Seq<char>, Role)) -> bool {
    |k: (Seq<char>, Role)| k != key
}

fn has_key(list: &Vec<JobKey>, uuid: &String, role: Role) -> (r: bool)
    ensures
        r == keys(list@).contains((uuid@, role)),
{
    let mut i: usize = 0;
    while i < list.len()
        invariant
            i <= list@.len(),
            forall|j: int| 0 <= j < i ==> #[trigger] keys(list@)[j] != (uuid@, role),
        decreases list@.len() - i,
    {
        if list[i].role == role && list[i].uuid == *uuid {
            assert(keys(list@)[i as int] == (uuid@, role));
            return true;
        }
        i = i + 1;
    }
    false
}

/// The list without a generator.
fn keys_without(list: &Vec<JobKey>, uuid: &String, role: Role) -> (r: Vec<JobKey>)
    ensures
        keys(r@) == keys(list@).filter(other_key((uuid@, role))),
{
    let ghost p = other_key((uuid@, role));
    let mut out: Vec<JobKey> = Vec::new();
    let mut i: usize = 0;
    proof {
        reveal(Seq::filter);
        assert(keys(out@) =~= Seq::<(Seq<char>, Role)>::empty());
        assert(keys(list@).take(0) =~= Seq::<(Seq<char>, Role)>::empty());
    }
    while i < list.len()
        invariant
            i <= list@.len(),
            p == other_key((uuid@, role)),
            keys(out@) == keys(list@).take(i as int).filter(p),
        decreases list@.len() - i,
    {
        let ghost k = keys(list@)[i as int];
        proof {
            assert(keys(list@).take(i + 1) =~= keys(list@).take(i as int).push(k));
            keys(list@).take(i as int).lemma_filter_push(k, p);
        }
        if !(list[i].role == role && list[i].uuid == *uuid) {
            let ghost before = out@;
            out.push(JobKey { uuid: list[i].uuid.clone(), role: list[i].role });
            assert(keys(out@) =~= keys(before).push(k));
        }
        i = i + 1;
    }
    assert(keys(list@).take(i as int) =~= keys(list@));
    out
}

impl Cic {
    /// No generators yet.
    pub fn new() -> (r: Self)
        ensures
            r@ == (CicState {
                dispatch: Seq::empty(),
                senders: Seq::empty(),
                total_tasks: 0,
                results: Seq::empty(),
                ported: Seq::empty(),
                shutdown_sent: false,
            }),
    {
        let r = Cic {
            dispatch: Vec::new(),
            pairs: Vec::new(),
            total_tasks: 0,
            results: Vec::new(),
            ported: Vec::new(),
            shutdown_sent: false,
        };
        assert(r@.dispatch =~= Seq::empty());
        assert(r@.ported =~= Seq::empty());
        assert(r@.senders =~= Seq::empty());
        r
    }

    /// Adds a generator.
    pub fn register(&mut self, uuid: String, role: Role)
        requires
            old(self)@.total_tasks < usize::MAX,
        ensures
            final(self)@ == (CicState {
                dispatch: if old(self)@.dispatch.contains((uuid@, role)) {
                    old(self)@.dispatch
                } else {
                    old(self)@.dispatch.push((uuid@, role))
                },
                total_tasks: old(self)@.total_tasks + 1,
                ..old(self)@
            }),
    {
        if !has_key(&self.dispatch, &uuid, role) {
            let ghost before = self.dispatch@;
            let ghost key = (uuid@, role);
            self.dispatch.push(JobKey { uuid, role });
            assert(keys(self.dispatch@) =~= keys(before).push(key));
        }
        self.total_tasks = self.total_tasks + 1;
    }

    /// Adds the two generators of a stream to those that are stopped in time.
    pub fn register_pair(&mut self, pair: TunerPair)
        ensures
            final(self)@ == (CicState {
                senders: old(self)@.senders.push(pair.sender_uuid@),
                ..old(self)@
            }),
    {
        let ghost before = self@.senders;
        let ghost uuid = pair.sender_uuid@;
        self.pairs.push(pair);
        assert(self@.senders =~= before.push(uuid));
    }

    /// A command for a generator, when it can be commanded.
    fn route(&self, uuid: String, role: Role, cmd: TunerCmd) -> (r: CicAction)
        ensures
            if self@.dispatch.contains((uuid@, role)) {
                r == (CicAction::Send { uuid, role, cmd })
            } else {
                r is Nothing
            },
    {
        if has_key(&self.dispatch, &uuid, role) {
            CicAction::Send { uuid, role, cmd }
        } else {
            CicAction::Nothing
        }
    }

    /// Takes a report. A port is passed on once per generator; the control ends when
    /// as many generators have reported as there are.
    pub fn on_msg(&mut self, msg: CicMsg) -> (r: CicAction)
        ensures
            final(self)@ == state_after(old(self)@, msg),
            answers(old(self)@, msg, r),
    {
        match msg {
            CicMsg::StreamStarted { role, uuid, info, port } => {
                if has_key(&self.ported, &uuid, role) {
                    return CicAction::Nothing;
                }
                let ghost before = self.ported@;
                self.ported.push(JobKey { uuid: uuid.clone(), role });
                assert(keys(self.ported@) =~= keys(before).push((uuid@, role)));
                self.route(uuid, role, TunerCmd::Port(port))
            },
            CicMsg::StreamDone { role, uuid, bytes } => self.route(
                uuid,
                role,
                TunerCmd::Done { role, bytes },
            ),
            CicMsg::StreamFailed { role, uuid, reason } => self.route(
                uuid,
                role,
                TunerCmd::Failed { role, reason },
            ),
            CicMsg::LinkStatus { .. } => CicAction::Nothing,
            CicMsg::TunerFinished { uuid, role, result } => {
                self.dispatch = keys_without(&self.dispatch, &uuid, role);
                self.results.push(result);
                if self.results.len() == self.total_tasks {
                    CicAction::Finished
                } else {
                    CicAction::Nothing
                }
            },
        }
    }

    /// A timer has fired: when the time is over the senders that are left are told to
    /// stop, once; at the failsafe every generator that is left is told to give up.
    pub fn on_timer(&mut self, timer: CicTimer) -> (r: TimerAction)
        ensures
            match timer {
                CicTimer::Failsafe => {
                    &&& final(self)@ == old(self)@
                    &&& r matches TimerAction::KillAll(list) && keys(list@) == old(self)@.dispatch
                },
                CicTimer::Duration => {
                    &&& final(self)@ == (CicState { shutdown_sent: true, ..old(self)@ })
                    &&& if old(self)@.shutdown_sent {
                        r is Nothing
                    } else {
                        r matches TimerAction::ShutdownSenders(list) && list@.map_values(
                            |s: String| s@,
                        ) == old(self)@.senders.filter(still_sending(old(self)@.dispatch))
                    }
                },
            },
    {
        match timer {
            CicTimer::Failsafe => {
                let mut list: Vec<JobKey> = Vec::new();
                let mut i: usize = 0;
                assert(keys(list@) =~= keys(self.dispatch@).take(0));
                while i < self.dispatch.len()
                    invariant
                        i <= self.dispatch@.len(),
                        keys(list@) == keys(self.dispatch@).take(i as int),
                    decreases self.dispatch@.len() - i,
                {
                    let ghost before = list@;
                    list.push(
                        JobKey {
                            uuid: self.dispatch[i].uuid.clone(),
                            role: self.dispatch[i].role,
                        },
                    );
                    assert(keys(list@) =~= keys(before).push(keys(self.dispatch@)[i as int]));
                    assert(keys(self.dispatch@).take(i + 1) =~= keys(self.dispatch@).take(
                        i as int,
                    ).push(keys(self.dispatch@)[i as int]));
                    i = i + 1;
                }
                assert(keys(self.dispatch@).take(i as int) =~= keys(self.dispatch@));
                TimerAction::KillAll(list)
            },
            CicTimer::Duration => {
                if self.shutdown_sent {
                    return TimerAction::Nothing;
                }
                self.shutdown_sent = true;
                TimerAction::ShutdownSenders(self.sending())
            },
        }
    }

    /// The streams whose senders can still be commanded.
    fn sending(&self) -> (r: Vec<String>)
        ensures
            r@.map_values(|s: String| s@) == self@.senders.filter(
                still_sending(self@.dispatch),
            ),
    {
        let ghost senders = self@.senders;
        let ghost p = still_sending(self@.dispatch);
        let mut list: Vec<String> = Vec::new();
        let mut i: usize = 0;
        proof {
            reveal(Seq::filter);
            assert(senders.take(0) =~= Seq::<Seq<char>>::empty());
            assert(list@.map_values(|s: String| s@) =~= Seq::<Seq<char>>::empty());
        }
        while i < self.pairs.len()
            invariant
                i <= self.pairs@.len(),
                senders == self@.senders,
                p == still_sending(self@.dispatch),
                list@.map_values(|s: String| s@) == senders.take(i as int).filter(p),
            decreases self.pairs@.len() - i,
        {
            let uuid: &String = &self.pairs[i].sender_uuid;
            proof {
                assert(senders.take(i + 1) =~= senders.take(i as int).push(uuid@));
                senders.take(i as int).lemma_filter_push(uuid@, p);
            }
            if has_key(&self.dispatch, uuid, Role::Sender) {
                let ghost before = list@;
                list.push(uuid.clone());
                assert(list@.map_values(|s: String| s@) =~= before.map_values(
                    |s: String| s@,
                ).push(uuid@));
            }
            i = i + 1;
        }
        assert(senders.take(i as int) =~= senders);
        list
    }

    /// The results so far.
    pub fn into_results(self) -> (r: Vec<TunerResult>)
        ensures
            r@ == self@.results,
    {
        self.results
    }
}

/// The state after a report.
pub open spec fn state_after(s: CicState, msg: CicMsg) -> CicState {
    match msg {
        CicMsg::StreamStarted { role, uuid, .. } => if s.ported.contains((uuid@, role)) {
            s
        } else {
            CicState { ported: s.ported.push((uuid@, role)), ..s }
        },
        CicMsg::StreamDone { .. } => s,
        CicMsg::StreamFailed { .. } => s,
        CicMsg::LinkStatus { .. } => s,
        CicMsg::TunerFinished { uuid, role, result } => CicState {
            dispatch: s.dispatch.filter(other_key((uuid@, role))),
            results: s.results.push(result),
            ..s
        },
    }
}

/// The action commands this generator with this command, if it can be commanded, and
/// is none otherwise.
pub open spec fn commands(
    s: CicState,
    action: CicAction,
    uuid: Seq<char>,
    role: Role,
    cmd: TunerCmd,
) -> bool {
    if s.dispatch.contains((uuid, role)) {
        action matches CicAction::Send { uuid: u, role: o, cmd: c } && u@ == uuid && o == role && c
            == cmd
    } else {
        action is Nothing
    }
}

/// The action that a report leads to.
pub open spec fn answers(s: CicState, msg: CicMsg, action: CicAction) -> bool {
    match msg {
        CicMsg::StreamStarted { role, uuid, port, .. } => if s.ported.contains((uuid@, role)) {
            action is Nothing
        } else {
            commands(s, action, uuid@, role, TunerCmd::Port(port))
        },
        CicMsg::StreamDone { role, uuid, bytes } => commands(
            s,
            action,
            uuid@,
            role,
            TunerCmd::Done { role, bytes },
        ),
        CicMsg::StreamFailed { role, uuid, reason } => commands(
            s,
            action,
            uuid@,
            role,
            TunerCmd::Failed { role, reason },
        ),
        CicMsg::LinkStatus { .. } => action is Nothing,
        CicMsg::TunerFinished { .. } => if s.results.len() + 1 == s.total_tasks {
            action is Finished
        } else {
            action is Nothing
        },
    }
}

/// The streams whose senders can still be commanded.
pub open spec fn still_sending(dispatch: Seq<(Seq<char>, Role)>) -> spec_fn(Seq<char>) -> bool {
    |uuid: Seq<char>| dispatch.contains((uuid, Role::Sender))
}

/// Bytes that the senders report.
pub open spec fn sent_bytes(results: Seq<TunerResult>) -> nat
    decreases results.len(),
{
    if results.len() == 0 {
        0
    } else {
        sent_bytes(results.drop_last()) + if results.last().role == Role::Sender {
            results.last().bytes as nat
        } else {
            0
        }
    }
}

proof fn lemma_sent_bytes_prefix(results: Seq<TunerResult>, i: int)
    requires
        0 <= i <= results.len(),
    ensures
        sent_bytes(results.take(i)) <= sent_bytes(results),
    decreases results.len() - i,
{
    if i < results.len() {
        lemma_sent_bytes_prefix(results, i + 1);
        assert(results.take(i + 1).drop_last() =~= results.take(i));
    } else {
        assert(results.take(i) =~= results);
    }
}

/// Bytes that the senders report, over which the aggregate bandwidth is measured.
pub fn aggregate_bytes(results: &Vec<TunerResult>) -> (r: u64)
    requires
        sent_bytes(results@) <= u64::MAX,
    ensures
        r == sent_bytes(results@),
{
    let mut total: u64 = 0;
    let mut i: usize = 0;
    assert(results@.take(0) =~= Seq::<TunerResult>::empty());
    while i < results.len()
        invariant
            i <= results@.len(),
            total == sent_bytes(results@.take(i as int)),
            sent_bytes(results@) <= u64::MAX,
        decreases results@.len() - i,
    {
        proof {
            assert(results@.take(i + 1).drop_last() =~= results@.take(i as int));
            lemma_sent_bytes_prefix(results@, i + 1);
        }
        if results[i].role == Role::Sender {
            total = total + results[i].bytes;
        }
        i = i + 1;
    }
    assert(results@.take(i as int) =~= results@);
    total
}

/// Results that are failures.
pub open spec fn failed() -> spec_fn(TunerResult) -> bool {
    |r: TunerResult| r.outcome is Fail
}

/// How many generators failed; the test passes when none did.
pub fn failures(results: &Vec<TunerResult>) -> (r: usize)
    ensures
        r == results@.filter(failed()).len(),
        r == 0 <==> forall|i: int|
            0 <= i < results@.len() ==> (#[trigger] results@[i]).outcome is Pass,
{
    let mut n: usize = 0;
    let mut i: usize = 0;
    proof {
        reveal(Seq::filter);
        assert(results@.take(0) =~= Seq::<TunerResult>::empty());
    }
    while i < results.len()
        invariant
            i <= results@.len(),
            n <= i,
            n == results@.take(i as int).filter(failed()).len(),
            n == 0 <==> forall|j: int| 0 <= j < i ==> (#[trigger] results@[j]).outcome is Pass,
        decreases results@.len() - i,
    {
        proof {
            assert(results@.take(i + 1) =~= results@.take(i as int).push(results@[i as int]));
            results@.take(i as int).lemma_filter_push(results@[i as int], failed());
        }
        match results[i].outcome {
            TunerOutcome::Pass => {},
            TunerOutcome::Fail { .. } => {
                n = n + 1;
            },
        }
        i = i + 1;
    }
    assert(results@.take(i as int) =~= results@);
    n
}

/// The report that a callback of an agent makes, if it makes one.
pub open spec fn report_of(role: Role, n: Notice) -> Option<CicMsg> {
    match n {
        Notice::Ping => None,
        Notice::StreamStarted { uuid, info, port } => Some(
            CicMsg::StreamStarted { role, uuid, info, port: port as u16 },
        ),
        Notice::StreamProgress { .. } => None,
        Notice::StreamDone { uuid, bytes } => Some(
            CicMsg::StreamDone { role, uuid, bytes: bytes as u64 },
        ),
        Notice::StreamFailed { uuid, code, reason } => Some(
            CicMsg::StreamFailed { role, uuid, reason },
        ),
        Notice::LinkStatus(state) => Some(CicMsg::LinkStatus { role, state }),
        Notice::QueueStatus(_) => None,
    }
}

/// Forwards a callback of the agent on one side to the control.
pub fn forward(role: Role, n: Notice) -> (r: Option<CicMsg>)
    ensures
        r == report_of(role, n),
{
    match n {
        Notice::Ping => None,
        Notice::StreamStarted { uuid, info, port } => Some(
            CicMsg::StreamStarted { role, uuid, info, port: #[verifier::truncate] (port as u16) },
        ),
        Notice::StreamProgress { .. } => None,
        Notice::StreamDone { uuid, bytes } => Some(
            CicMsg::StreamDone { role, uuid, bytes: #[verifier::truncate] (bytes as u64) },
        ),
        Notice::StreamFailed { uuid, code, reason } => Some(
            CicMsg::StreamFailed { role, uuid, reason },
        ),
        Notice::LinkStatus(state) => Some(CicMsg::LinkStatus { role, state }),
        Notice::QueueStatus(_) => None,
    }
}

/// The state after some reports.
pub open spec fn state_after_all(s: CicState, msgs: Seq<CicMsg>) -> CicState
    decreases msgs.len(),
{
    if msgs.len() == 0 {
        s
    } else {
        state_after(state_after_all(s, msgs.drop_last()), msgs.last())
    }
}

/// The report is that the generator has got a port.
pub open spec fn reports_port(msg: CicMsg, key: (Seq<char>, Role)) -> bool {
    msg matches CicMsg::StreamStarted { role, uuid, .. } && (uuid@, role) == key
}

proof fn lemma_ported_stays(s: CicState, msgs: Seq<CicMsg>, i: int, key: (Seq<char>, Role))
    requires
        0 <= i < msgs.len(),
        reports_port(msgs[i], key),
    ensures
        state_after_all(s, msgs).ported.contains(key),
    decreases msgs.len(),
{
    let before = state_after_all(s, msgs.drop_last());
    let after = state_after(before, msgs.last());
    if i < msgs.len() - 1 {
        lemma_ported_stays(s, msgs.drop_last(), i, key);
    }
    if before.ported.contains(key) {
        let k = choose|k: int| 0 <= k < before.ported.len() && before.ported[k] == key;
        assert(after.ported[k] == key);
    } else {
        assert(after.ported[after.ported.len() - 1] == key);
    }
}

/// A generator is told its port at most once: of two reports that it has got a port,
/// the later one leads to nothing, whatever lies between.
pub proof fn law_port_is_passed_on_once(
    s: CicState,
    msgs: Seq<CicMsg>,
    i: int,
    j: int,
    key: (Seq<char>, Role),
    action: CicAction,
)
    requires
        0 <= i < j < msgs.len(),
        reports_port(msgs[i], key),
        reports_port(msgs[j], key),
        answers(state_after_all(s, msgs.take(j)), msgs[j], action),
    ensures
        action is Nothing,
{
    assert(msgs.take(j)[i] == msgs[i]);
    lemma_ported_stays(s, msgs.take(j), i, key);
}

/// The bytes that the senders report add up, and receivers add nothing.
pub proof fn law_sent_bytes_add_up(a: Seq<TunerResult>, b: Seq<TunerResult>, r: TunerResult)
    ensures
        sent_bytes(a + b) == sent_bytes(a) + sent_bytes(b),
        sent_bytes(Seq::empty()) == 0,
        r.role == Role::Sender ==> sent_bytes(seq![r]) == r.bytes,
        r.role == Role::Receiver ==> sent_bytes(seq![r]) == 0,
    decreases b.len(),
{
    assert(seq![r].drop_last() =~= Seq::<TunerResult>::empty());
    assert(sent_bytes(seq![r].drop_last()) == 0);
    if b.len() == 0 {
        assert(a + b =~= a);
    } else {
        law_sent_bytes_add_up(a, b.drop_last(), r);
        assert((a + b).drop_last() =~= a + b.drop_last());
    }
}

proof fn lemma_other_keys(list: Seq<(Seq<char>, Role)>, key: (Seq<char>, Role))
    ensures
        forall|k: (Seq<char>, Role)| #[trigger]
            list.filter(other_key(key)).contains(k) <==> list.contains(k) && k != key,
    decreases list.len(),
{
    let p = other_key(key);
    reveal(Seq::filter);
    if list.len() > 0 {
        let d = list.drop_last();
        let x = list.last();
        lemma_other_keys(d, key);
        let f = list.filter(p);
        let g = d.filter(p);
        assert(f == if p(x) { g.push(x) } else { g });
        assert forall|k: (Seq<char>, Role)| #[trigger] f.contains(k) <==> list.contains(k) && k
            != key by {
            if f.contains(k) {
                let i = choose|i: int| 0 <= i < f.len() && f[i] == k;
                if i < g.len() {
                    assert(g[i] == k);
                    assert(g.contains(k));
                    let j = choose|j: int| 0 <= j < d.len() && d[j] == k;
                    assert(list[j] == k);
                } else {
                    assert(list[list.len() - 1] == k);
                }
            }
            if list.contains(k) && k != key {
                let j = choose|j: int| 0 <= j < list.len() && list[j] == k;
                if j < d.len() {
                    assert(d[j] == k);
                    assert(d.contains(k));
                    assert(g.contains(k));
                    let i = choose|i: int| 0 <= i < g.len() && g[i] == k;
                    assert(f[i] == k);
                } else {
                    assert(f[f.len() - 1] == k);
                }
            }
        }
    }
}

/// A generator that has reported is commanded no more, its result is kept behind the
/// earlier ones, the other generators go on, and the control ends with the last result
/// that it waits for, and with no other report.
pub proof fn law_generator_reports_once(
    s: CicState,
    msg: CicMsg,
    action: CicAction,
    key: (Seq<char>, Role),
)
    requires
        answers(s, msg, action),
    ensures
        ({
            let t = state_after(s, msg);
            &&& t.total_tasks == s.total_tasks && t.senders == s.senders
            &&& t.shutdown_sent == s.shutdown_sent
            &&& msg matches CicMsg::TunerFinished { uuid, role, result } ==> {
                &&& t.results == s.results.push(result)
                &&& t.dispatch.contains(key) <==> s.dispatch.contains(key) && key != (uuid@, role)
            }
            &&& !(msg is TunerFinished) ==> t.results == s.results && t.dispatch == s.dispatch
            &&& action is Finished <==> msg is TunerFinished && t.results.len() == s.total_tasks
            &&& action matches CicAction::Send { uuid, role, .. } ==> s.dispatch.contains(
                (uuid@, role),
            )
        }),
{
    if let CicMsg::TunerFinished { uuid, role, .. } = msg {
        lemma_other_keys(s.dispatch, (uuid@, role));
    }
}

/// What an agent tells of a stream reaches the generator of that stream on the agent's
/// side, and says there what the agent said: its port, the bytes, or the reason.
pub proof fn law_news_reach_their_generator(
    s: CicState,
    role: Role,
    n: Notice,
    cmd: CallbackCmd,
    action: CicAction,
    id: u128,
)
    requires
        tells_of(n, cmd),
        report_of(role, n) matches Some(msg) && answers(s, msg, action),
        cmd matches CallbackCmd::StreamStarted { uuid, .. } ==> uuid == id && !s.ported.contains(
            (hyphenated(id), role),
        ),
        cmd matches CallbackCmd::StreamDone { uuid, .. } ==> uuid == id,
        cmd matches CallbackCmd::StreamFailed { uuid, .. } ==> uuid == id,
        cmd is StreamStarted || cmd is StreamDone || cmd is StreamFailed,
    ensures
        action is Send <==> s.dispatch.contains((hyphenated(id), role)),
        action matches CicAction::Send { uuid, role: side, cmd: c } ==> {
            &&& uuid@ == hyphenated(id) && side == role
            &&& cmd matches CallbackCmd::StreamStarted { port, .. } ==> c == TunerCmd::Port(port)
            &&& cmd matches CallbackCmd::StreamDone { bytes, .. } ==> c == (TunerCmd::Done {
                role,
                bytes,
            })
            &&& cmd matches CallbackCmd::StreamFailed { reason, .. } ==> c == (TunerCmd::Failed {
                role,
                reason,
            })
        },
{
    match cmd {
        CallbackCmd::StreamStarted { port, .. } => {
            law_numbers_survive_the_call(port, 0);
        },
        CallbackCmd::StreamDone { bytes, .. } => {
            law_numbers_survive_the_call(0, bytes);
        },
        _ => {},
    }
}

/// A change of the link, reports of progress and of the queue lead to no command.
pub proof fn law_other_news_lead_to_nothing(
    s: CicState,
    role: Role,
    n: Notice,
    cmd: CallbackCmd,
    action: CicAction,
)
    requires
        tells_of(n, cmd),
        report_of(role, n) matches Some(msg) ==> answers(s, msg, action),
        cmd is StreamProgress || cmd is LinkStatus || cmd is QueueStatus,
    ensures
        report_of(role, n) is Some ==> action is Nothing,
        report_of(role, n) is Some <==> cmd is LinkStatus,
{
}

/// When the time is over, those streams are stopped that were paired and whose sender
/// has not reported.
pub proof fn law_running_senders_are_stopped(s: CicState, uuid: Seq<char>)
    ensures
        s.senders.filter(still_sending(s.dispatch)).contains(uuid) <==> s.senders.contains(uuid)
            && s.dispatch.contains((uuid, Role::Sender)),
{
    lemma_senders_left(s.senders, s.dispatch, uuid);
}

proof fn lemma_senders_left(
    list: Seq<Seq<char>>,
    dispatch: Seq<(Seq<char>, Role)>,
    uuid: Seq<char>,
)
    ensures
        list.filter(still_sending(dispatch)).contains(uuid) <==> list.contains(uuid)
            && dispatch.contains((uuid, Role::Sender)),
    decreases list.len(),
{
    let p = still_sending(dispatch);
    reveal(Seq::filter);
    if list.len() > 0 {
        let d = list.drop_last();
        let x = list.last();
        lemma_senders_left(d, dispatch, uuid);
        let f = list.filter(p);
        let g = d.filter(p);
        assert(f == if p(x) { g.push(x) } else { g });
        if f.contains(uuid) {
            let i = choose|i: int| 0 <= i < f.len() && f[i] == uuid;
            if i < g.len() {
                assert(g[i] == uuid);
                assert(d.contains(uuid));
                let j = choose|j: int| 0 <= j < d.len() && d[j] == uuid;
                assert(list[j] == uuid);
            } else {
                assert(list[list.len() - 1] == uuid);
            }
        }
        if list.contains(uuid) && p(uuid) {
            let j = choose|j: int| 0 <= j < list.len() && list[j] == uuid;
            if j < d.len() {
                assert(d[j] == uuid);
                assert(d.contains(uuid));
                let i = choose|i: int| 0 <= i < g.len() && g[i] == uuid;
                assert(f[i] == uuid);
            } else {
                assert(f[f.len() - 1] == uuid);
            }
        }
    }
}

} // verus!
