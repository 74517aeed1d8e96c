//! The session with the remote peer: which streams run, which wait, and what
//! happens to them when the link goes down and comes back.

use vstd::prelude::*;

use crate::downlink::Reconnected;
use crate::framing::{info_of, StreamOpen};
use crate::priority::Priority;
use crate::session::{QueueStatus, StreamInfo};
use crate::transport::LinkState;

verus! {

/// A stream and its priority.
#[derive(Debug, Clone, Copy, PartialEq, Eq, Structural)]
pub struct StreamRef {
    pub uuid: u128,
    pub priority: Priority,
}

/// The stream is in the list.
pub open spec fn known(list: Seq<StreamRef>, uuid: u128) -> bool {
    exists|i: int| 0 <= i < list.len() && (#[trigger] list[i]).uuid == uuid
}

/// Where the stream is in the list.
pub open spec fn place(list: Seq<StreamRef>, uuid: u128) -> int {
    choose|i: int| 0 <= i < list.len() && (#[trigger] list[i]).uuid == uuid
}

/// The list without the stream.
pub open spec fn removed(list: Seq<StreamRef>, uuid: u128) -> Seq<StreamRef> {
    if known(list, uuid) {
        list.remove(place(list, uuid))
    } else {
        list
    }
}

/// No stream is listed twice.
pub open spec fn unique(list: Seq<StreamRef>) -> bool {
    forall|i: int, j: int|
        0 <= i < j < list.len() ==> (#[trigger] list[i]).uuid != (#[trigger] list[j]).uuid
}

/// The list runs from higher to lower levels.
pub open spec fn by_priority(list: Seq<StreamRef>) -> bool {
    forall|i: int, j: int|
        0 <= i < j < list.len() ==> (#[trigger] list[i]).priority.0 >= (
        #[trigger] list[j]).priority.0
}

/// `i` is where a stream of the given level enters a list ordered by level: behind
/// all streams of its own or a higher level.
pub open spec fn is_queue_slot(list: Seq<StreamRef>, level: i8, i: int) -> bool {
    &&& 0 <= i <= list.len()
    &&& forall|j: int| 0 <= j < i ==> (#[trigger] list[j]).priority.0 >= level
    &&& i < list.len() ==> list[i].priority.0 < level
}

/// `after` is the queue `before` with stream `r` entered by its level, its former
/// entry dropped.
pub open spec fn enqueues(before: Seq<StreamRef>, after: Seq<StreamRef>, r: StreamRef) -> bool {
    let rest = removed(before, r.uuid);
    exists|i: int|
        #![trigger rest.insert(i, r)]
        is_queue_slot(rest, r.priority.0, i) && after == rest.insert(i, r)
}

/// State of the session with the remote peer.
#[verifier::ext_equal]
pub struct ManagerState {
    /// Whether a session is live.
    pub session_up: bool,
    pub link_state: LinkState,
    /// Streams that wait to be opened, the next one first.
    pub pending: Seq<StreamRef>,
    /// Outbound streams that are open.
    pub uplinks: Seq<StreamRef>,
    /// Inbound streams that are open.
    pub downlinks: Seq<u128>,
    /// Most outbound streams at a time, when there is a limit.
    pub max_concurrent: Option<usize>,
    /// Most streams that may wait.
    pub max_pending: usize,
}

/// Whether one more outbound stream may be opened.
pub open spec fn slot_free(s: ManagerState) -> bool {
    match s.max_concurrent {
        None => true,
        Some(n) => s.uplinks.len() < n,
    }
}

/// Lists without repetition, the queue ordered and within its bound.
pub open spec fn in_order(s: ManagerState) -> bool {
    &&& unique(s.pending)
    &&& by_priority(s.pending)
    &&& s.pending.len() <= s.max_pending
    &&& unique(s.uplinks)
    &&& s.downlinks.no_duplicates()
}

/// The state once an outbound stream is open.
pub open spec fn opened_state(s: ManagerState, r: StreamRef) -> ManagerState {
    ManagerState { uplinks: removed(s.uplinks, r.uuid).push(r), ..s }
}

/// Whether a stream can be queued.
pub open spec fn queue_has_room(s: ManagerState, r: StreamRef) -> bool {
    removed(s.pending, r.uuid).len() < s.max_pending
}

/// `t` is the state with the stream queued.
pub open spec fn queues(s: ManagerState, t: ManagerState, r: StreamRef) -> bool {
    enqueues(s.pending, t.pending, r) && t == (ManagerState { pending: t.pending, ..s })
}

/// The state once an outbound stream has ended.
pub open spec fn ended_state(s: ManagerState, uuid: u128) -> ManagerState {
    ManagerState { uplinks: removed(s.uplinks, uuid), ..s }
}

/// The state once a waiting stream was to be opened.
pub open spec fn reissued_state(s: ManagerState, r: StreamRef, opened: bool) -> ManagerState {
    if opened {
        ManagerState { pending: removed(s.pending, r.uuid), ..opened_state(s, r) }
    } else {
        s
    }
}

/// The state after a change of the link state: a failed link has no session.
pub open spec fn link_changed(s: ManagerState, state: LinkState) -> ManagerState {
    ManagerState {
        link_state: state,
        session_up: s.session_up && state != LinkState::Failed,
        ..s
    }
}

/// The state with a new session.
pub open spec fn reconnected_state(s: ManagerState) -> ManagerState {
    ManagerState { link_state: LinkState::Normal, session_up: true, ..s }
}

/// The state once a fresh stream was offered to an outbound stream.
pub open spec fn restored_state(
    s: ManagerState,
    uuid: u128,
    outcome: RestoreOutcome,
) -> ManagerState {
    if outcome == RestoreOutcome::PumpGone {
        ended_state(s, uuid)
    } else {
        s
    }
}

/// The state without the outbound streams that have ended.
pub open spec fn pruned_state(s: ManagerState, ended: Seq<u128>) -> ManagerState {
    ManagerState { uplinks: s.uplinks.filter(still_there(ended)), ..s }
}

/// The streams other than one.
pub open spec fn other_than(uuid: u128) -> spec_fn(u128) -> bool {
    |x: u128| x != uuid
}

/// The state once a sender's stream was offered to an inbound stream: one with a gap is
/// given up.
pub open spec fn resumed_state(s: ManagerState, uuid: u128, outcome: Reconnected) -> ManagerState {
    if outcome == Reconnected::Gap {
        ManagerState { downlinks: s.downlinks.filter(other_than(uuid)), ..s }
    } else {
        s
    }
}

/// What a request to start a stream leads to.
#[derive(Debug, Clone, Copy, PartialEq, Eq, Structural)]
pub enum StartDecision {
    /// Open it on the session now.
    Open,
    /// It waits; so many streams wait now.
    Pending(usize),
    /// The queue is full.
    QueueFull,
}

/// How a request to start a stream was answered.
#[derive(Debug, Clone, Copy, PartialEq, Eq, Structural)]
pub enum StartStatus {
    /// The stream is open.
    Running,
    /// It waits; so many streams waited when it was queued.
    Pending(usize),
    /// The queue is full.
    QueueFull,
}

/// What to do after a change of the link state.
#[derive(Debug, Clone, Copy, PartialEq, Eq, Structural)]
pub enum LinkAction {
    Nothing,
    /// Establish a new session.
    Reconnect,
}

/// What the loop that accepts inbound streams does next.
#[derive(Debug, Clone, Copy, PartialEq, Eq, Structural)]
pub enum AcceptNext {
    /// Wait until a session has been restored.
    AwaitSession,
    /// Wait for the next stream of the session.
    Accept,
    /// Close the session, so that a new one is established, and wait for it.
    CloseAndAwait,
    /// Read how the accepted stream opens.
    ReadHeader,
}

/// What to do with an inbound stream.
#[derive(Debug)]
pub enum AcceptAction {
    /// Start delivering a new stream.
    Spawn { uuid: u128, info: StreamInfo },
    /// Hand it to the delivery of a known stream.
    Deliver { uuid: u128, replay_from: u64 },
    /// Drop it: no such stream is being delivered.
    DropUnknown { uuid: u128 },
}

/// What became of the fresh stream for an outbound stream.
#[derive(Debug, Clone, Copy, PartialEq, Eq, Structural)]
pub enum RestoreOutcome {
    /// The pump has it.
    Delivered,
    /// It could not be opened or its header not be written.
    Failed,
    /// The pump is gone.
    PumpGone,
}

/// What switching the link on or off leads to.
#[derive(Debug)]
pub struct LinkSwitch {
    /// Outbound streams whose pumps are told that the link is down.
    pub notify: Vec<u128>,
    /// Whether the session is to be closed.
    pub close_session: bool,
}

/// Session manager.
#[derive(Debug)]
pub struct SessionManager {
    session_up: bool,
    link_state: LinkState,
    pending: Vec<StreamRef>,
    uplinks: Vec<StreamRef>,
    downlinks: Vec<u128>,
    max_concurrent: Option<usize>,
    max_pending: usize,
}

impl View for SessionManager {
    type V = ManagerState;

    closed spec fn view(&self) -> ManagerState {
        ManagerState {
            session_up: self.session_up,
            link_state: self.link_state,
            pending: self.pending@,
            uplinks: self.uplinks@,
            downlinks: self.downlinks@,
            max_concurrent: self.max_concurrent,
            max_pending: self.max_pending,
        }
    }
}

/// Taking a stream out keeps order and uniqueness, and leaves no trace of it.
pub proof fn lemma_removed(list: Seq<StreamRef>, uuid: u128)
    requires
        unique(list),
    ensures
        unique(removed(list, uuid)),
        by_priority(list) ==> by_priority(removed(list, uuid)),
        !known(removed(list, uuid), uuid),
        removed(list, uuid).len() <= list.len(),
        forall|x: u128| x != uuid ==> (#[trigger] known(removed(list, uuid), x) <==> known(list, x)),
{
    if known(list, uuid) {
        let at = place(list, uuid);
        let r = removed(list, uuid);
        assert forall|i: int, j: int| 0 <= i < j < r.len() implies (#[trigger] r[i]).uuid != (
        #[trigger] r[j]).uuid by {
            let a = if i < at { i } else { i + 1 };
            let b = if j < at { j } else { j + 1 };
            assert(r[i] == list[a] && r[j] == list[b]);
        }
        if by_priority(list) {
            assert forall|i: int, j: int| 0 <= i < j < r.len() implies (#[trigger] r[i]).priority.0
                >= (#[trigger] r[j]).priority.0 by {
                let a = if i < at { i } else { i + 1 };
                let b = if j < at { j } else { j + 1 };
                assert(r[i] == list[a] && r[j] == list[b]);
            }
        }
        assert forall|i: int| 0 <= i < r.len() implies (#[trigger] r[i]).uuid != uuid by {
            let a = if i < at { i } else { i + 1 };
            assert(r[i] == list[a]);
            assert(list[at].uuid == uuid);
        }
        assert forall|x: u128| x != uuid implies (#[trigger] known(r, x) <==> known(list, x)) by {
            if known(r, x) {
                let i = place(r, x);
                let a = if i < at { i } else { i + 1 };
                assert(list[a].uuid == x);
            }
            if known(list, x) {
                let a = place(list, x);
                let i = if a < at { a } else { a - 1 };
                assert(r[i].uuid == x);
            }
        }
    }
}

/// Entering a stream keeps order and uniqueness.
pub proof fn lemma_enqueues(before: Seq<StreamRef>, after: Seq<StreamRef>, r: StreamRef)
    requires
        unique(before),
        by_priority(before),
        enqueues(before, after, r),
    ensures
        unique(after),
        by_priority(after),
        after.len() == removed(before, r.uuid).len() + 1,
        known(after, r.uuid),
{
    lemma_removed(before, r.uuid);
    let rest = removed(before, r.uuid);
    let at = choose|i: int|
        #![trigger rest.insert(i, r)]
        is_queue_slot(rest, r.priority.0, i) && after == rest.insert(i, r);
    assert(after[at] == r);
    assert forall|i: int, j: int| 0 <= i < j < after.len() implies (#[trigger] after[i]).uuid != (
    #[trigger] after[j]).uuid && after[i].priority.0 >= after[j].priority.0 by {
        let a = if i < at { i } else { i - 1 };
        let b = if j < at { j } else { j - 1 };
        if i != at {
            assert(after[i] == rest[a]);
            assert(rest[a].uuid != r.uuid);
        }
        if j != at {
            assert(after[j] == rest[b]);
            assert(rest[b].uuid != r.uuid);
        }
        if i == at && b > at {
            assert(rest[at].priority.0 >= rest[b].priority.0);
        }
    }
}

/// The index of a stream in a list.
fn find(list: &Vec<StreamRef>, uuid: u128) -> (r: Option<usize>)
    requires
        unique(list@),
    ensures
        match r {
            Some(i) => known(list@, uuid) && i == place(list@, uuid) && i < list@.len(),
            None => !known(list@, uuid),
        },
{
    let mut i: usize = 0;
    while i < list.len()
        invariant
            i <= list@.len(),
            unique(list@),
            forall|j: int| 0 <= j < i ==> (#[trigger] list@[j]).uuid != uuid,
        decreases list@.len() - i,
    {
        if list[i].uuid == uuid {
            proof {
                assert(list@[i as int].uuid == uuid);
                let p = place(list@, uuid);
                assert(list@[p].uuid == uuid);
                if p < i {
                } else if i < p {
                    assert(list@[i as int].uuid != list@[p].uuid);
                }
            }
            return Some(i);
        }
        i = i + 1;
    }
    None
}

/// Takes a stream out of a list.
fn take_out(list: &mut Vec<StreamRef>, uuid: u128) -> (was_there: bool)
    requires
        unique(old(list)@),
    ensures
        final(list)@ == removed(old(list)@, uuid),
        was_there == known(old(list)@, uuid),
{
    match find(list, uuid) {
        Some(i) => {
            let gone: StreamRef = list.remove(i);
            true
        },
        None => false,
    }
}

/// Whether a list of identities holds `id`.
fn holds_id(list: &Vec<u128>, id: u128) -> (r: bool)
    ensures
        r == list@.contains(id),
{
    let mut i: usize = 0;
    while i < list.len()
        invariant
            i <= list@.len(),
            forall|j: int| 0 <= j < i ==> #[trigger] list@[j] != id,
        decreases list@.len() - i,
    {
        if list[i] == id {
            assert(list@[i as int] == id);
            return true;
        }
        i = i + 1;
    }
    false
}

/// Takes streams out of a list of identities.
fn ids_without(list: &Vec<u128>, gone: &Vec<u128>) -> (r: Vec<u128>)
    ensures
        r@ == list@.filter(|x: u128| !gone@.contains(x)),
{
    let ghost keep = |x: u128| !gone@.contains(x);
    let mut kept: Vec<u128> = Vec::new();
    let mut i: usize = 0;
    proof {
        reveal(Seq::filter);
        assert(list@.take(0).filter(keep) =~= Seq::<u128>::empty());
    }
    while i < list.len()
        invariant
            i <= list@.len(),
            keep == (|x: u128| !gone@.contains(x)),
            kept@ == list@.take(i as int).filter(keep),
        decreases list@.len() - i,
    {
        let x: u128 = list[i];
        let found: bool = holds_id(gone, x);
        proof {
            assert(list@.take(i + 1) =~= list@.take(i as int).push(x));
            list@.take(i as int).lemma_filter_push(x, keep);
        }
        if !found {
            kept.push(x);
        }
        i = i + 1;
    }
    assert(list@.take(i as int) =~= list@);
    kept
}

/// The streams of a list, some of which have gone.
pub open spec fn still_there(gone: Seq<u128>) -> spec_fn(StreamRef) -> bool {
    |r: StreamRef| !gone.contains(r.uuid)
}

fn refs_without(list: &Vec<StreamRef>, gone: &Vec<u128>) -> (r: Vec<StreamRef>)
    ensures
        r@ == list@.filter(still_there(gone@)),
{
    let mut kept: Vec<StreamRef> = Vec::new();
    let mut i: usize = 0;
    proof {
        reveal(Seq::filter);
        assert(list@.take(0).filter(still_there(gone@)) =~= Seq::<StreamRef>::empty());
    }
    while i < list.len()
        invariant
            i <= list@.len(),
            kept@ == list@.take(i as int).filter(still_there(gone@)),
        decreases list@.len() - i,
    {
        let x: StreamRef = list[i];
        let found: bool = holds_id(gone, x.uuid);
        proof {
            assert(list@.take(i + 1) =~= list@.take(i as int).push(x));
            list@.take(i as int).lemma_filter_push(x, still_there(gone@));
        }
        if !found {
            kept.push(x);
        }
        i = i + 1;
    }
    assert(list@.take(i as int) =~= list@);
    kept
}

/// A filtered list of distinct streams has distinct streams.
pub proof fn lemma_filter_unique(list: Seq<StreamRef>, gone: Seq<u128>)
    requires
        unique(list),
    ensures
        unique(list.filter(still_there(gone))),
        list.filter(still_there(gone)).len() <= list.len(),
        forall|x: u128| #[trigger]
            known(list.filter(still_there(gone)), x) <==> known(list, x) && !gone.contains(x),
    decreases list.len(),
{
    reveal(Seq::filter);
    if list.len() > 0 {
        let p = list.drop_last();
        let x = list.last();
        assert forall|i: int, j: int| 0 <= i < j < p.len() implies (#[trigger] p[i]).uuid != (
        #[trigger] p[j]).uuid by {
            assert(p[i] == list[i] && p[j] == list[j]);
        }
        lemma_filter_unique(p, gone);
        let g = p.filter(still_there(gone));
        let f = list.filter(still_there(gone));
        assert forall|i: int, j: int| 0 <= i < j < f.len() implies (#[trigger] f[i]).uuid != (
        #[trigger] f[j]).uuid by {
            assert(f[i] == g[i]);
            if j < g.len() {
                assert(f[j] == g[j]);
            } else {
                assert(known(g, g[i].uuid));
                let k = place(p, g[i].uuid);
                assert(p[k] == list[k]);
                assert(list[k].uuid != list[list.len() - 1].uuid);
            }
        }
        assert forall|y: u128| #[trigger] known(f, y) implies known(list, y) && !gone.contains(y) by {
            let i = place(f, y);
            if i < g.len() {
                assert(f[i] == g[i]);
                assert(known(g, y));
                let k = place(p, y);
                assert(list[k] == p[k]);
            } else {
                assert(list[list.len() - 1].uuid == y);
            }
        }
        assert forall|y: u128| known(list, y) && !gone.contains(y) implies #[trigger] known(f, y) by {
            let i = place(list, y);
            if i < p.len() {
                assert(p[i] == list[i]);
                assert(known(p, y));
                assert(known(g, y));
                let k = place(g, y);
                assert(f[k] == g[k]);
            } else {
                assert(f[f.len() - 1] == x);
            }
        }
    }
}

pub proof fn lemma_ids_filter_unique(list: Seq<u128>, keep: spec_fn(u128) -> bool)
    requires
        list.no_duplicates(),
    ensures
        list.filter(keep).no_duplicates(),
        forall|x: u128| #[trigger] list.filter(keep).contains(x) <==> list.contains(x) && keep(x),
    decreases list.len(),
{
    reveal(Seq::filter);
    if list.len() > 0 {
        let p = list.drop_last();
        let x = list.last();
        lemma_ids_filter_unique(p, keep);
        let g = p.filter(keep);
        let f = list.filter(keep);
        assert(f == if keep(x) { g.push(x) } else { g });
        assert forall|y: u128| #[trigger] f.contains(y) <==> list.contains(y) && keep(y) by {
            if f.contains(y) {
                let i = choose|i: int| 0 <= i < f.len() && f[i] == y;
                if i < g.len() {
                    assert(g[i] == y);
                    assert(g.contains(y));
                    let k = choose|k: int| 0 <= k < p.len() && p[k] == y;
                    assert(list[k] == y);
                } else {
                    assert(list[list.len() - 1] == y);
                }
            }
            if list.contains(y) && keep(y) {
                let k = choose|k: int| 0 <= k < list.len() && list[k] == y;
                if k < p.len() {
                    assert(p[k] == y);
                    assert(p.contains(y));
                    assert(g.contains(y));
                    let i = choose|i: int| 0 <= i < g.len() && g[i] == y;
                    assert(f[i] == y);
                } else {
                    assert(f[f.len() - 1] == y);
                }
            }
        }
        assert(f.no_duplicates()) by {
            assert forall|i: int, j: int| 0 <= i < f.len() && 0 <= j < f.len() && i != j implies f[i]
                != f[j] by {
                let lo = if i < j { i } else { j };
                let hi = if i < j { j } else { i };
                if hi == g.len() {
                    assert(f[lo] == g[lo]);
                    assert(g.contains(g[lo]));
                    let k = choose|k: int| 0 <= k < p.len() && p[k] == g[lo];
                    assert(list[k] != list[list.len() - 1]);
                } else {
                    assert(f[lo] == g[lo] && f[hi] == g[hi]);
                }
            }
        }
    }
}

impl SessionManager {
    /// The lists are without repetition, the queue is ordered and within its bound.
    pub open spec fn wf(&self) -> bool {
        in_order(self@)
    }

    /// A manager with a live session; a limit of zero means no limit.
    pub fn new(max_concurrent: usize, max_pending: usize) -> (r: Self)
        ensures
            r.wf(),
            r@ == (ManagerState {
                session_up: true,
                link_state: LinkState::Normal,
                pending: Seq::empty(),
                uplinks: Seq::empty(),
                downlinks: Seq::empty(),
                max_concurrent: if max_concurrent == 0 {
                    None
                } else {
                    Some(max_concurrent)
                },
                max_pending,
            }),
    {
        SessionManager {
            session_up: true,
            link_state: LinkState::Normal,
            pending: Vec::new(),
            uplinks: Vec::new(),
            downlinks: Vec::new(),
            max_concurrent: if max_concurrent == 0 {
                None
            } else {
                Some(max_concurrent)
            },
            max_pending,
        }
    }

    /// Sets the limit on outbound streams; streams that are open stay open.
    pub fn set_max_concurrent(&mut self, limit: Option<usize>)
        requires
            old(self).wf(),
        ensures
            final(self).wf(),
            final(self)@ == (ManagerState { max_concurrent: limit, ..old(self)@ }),
    {
        self.max_concurrent = limit;
    }

    /// Whether an outbound stream may be opened: a session is live and the limit is
    /// not reached.
    pub fn may_open(&self) -> (r: bool)
        ensures
            r == (self@.session_up && slot_free(self@)),
    {
        self.session_up && match self.max_concurrent {
            None => true,
            Some(n) => self.uplinks.len() < n,
        }
    }

    /// Queues a stream by priority, unless the queue is full. Gives the number of
    /// streams that wait then.
    fn enqueue(&mut self, r: StreamRef) -> (depth: Option<usize>)
        requires
            old(self).wf(),
        ensures
            final(self).wf(),
            match depth {
                Some(d) => {
                    &&& queue_has_room(old(self)@, r)
                    &&& d == final(self)@.pending.len()
                    &&& queues(old(self)@, final(self)@, r)
                },
                None => !queue_has_room(old(self)@, r) && final(self)@ == old(self)@,
            },
    {
        proof {
            lemma_removed(self.pending@, r.uuid);
        }
        let again: Option<usize> = find(&self.pending, r.uuid);
        let waiting: usize = match again {
            Some(_) => self.pending.len() - 1,
            None => self.pending.len(),
        };
        if waiting >= self.max_pending {
            return None;
        }
        let ghost before = self.pending@;
        let was_there: bool = take_out(&mut self.pending, r.uuid);
        let ghost rest = self.pending@;
        let mut at: usize = 0;
        while at < self.pending.len()
            invariant_except_break
                at <= rest.len(),
                forall|j: int| 0 <= j < at ==> (#[trigger] rest[j]).priority.0 >= r.priority.0,
            invariant
                self.pending@ == rest,
                rest == removed(before, r.uuid),
                before == old(self)@.pending,
                self@ == (ManagerState { pending: rest, ..old(self)@ }),
            ensures
                is_queue_slot(rest, r.priority.0, at as int),
            decreases rest.len() - at,
        {
            if self.pending[at].priority.as_i8() < r.priority.as_i8() {
                break;
            }
            at = at + 1;
        }
        self.pending.insert(at, r);
        proof {
            assert(self.pending@ == rest.insert(at as int, r));
            lemma_enqueues(before, self.pending@, r);
        }
        Some(self.pending.len())
    }

    /// Decides on a request to start a stream: it is opened when a session is live
    /// and the limit is not reached, and queued otherwise.
    pub fn stream_start(&mut self, r: StreamRef) -> (d: StartDecision)
        requires
            old(self).wf(),
        ensures
            final(self).wf(),
            if old(self)@.session_up && slot_free(old(self)@) {
                d == StartDecision::Open && final(self)@ == old(self)@
            } else if queue_has_room(old(self)@, r) {
                &&& d == StartDecision::Pending(final(self)@.pending.len() as usize)
                &&& queues(old(self)@, final(self)@, r)
            } else {
                d == StartDecision::QueueFull && final(self)@ == old(self)@
            },
    {
        if self.may_open() {
            return StartDecision::Open;
        }
        match self.enqueue(r) {
            Some(depth) => StartDecision::Pending(depth),
            None => StartDecision::QueueFull,
        }
    }

    /// Notes whether a stream that was to be opened is open; if not, it is queued.
    pub fn on_open_result(&mut self, r: StreamRef, opened: bool) -> (status: StartStatus)
        requires
            old(self).wf(),
        ensures
            final(self).wf(),
            if opened {
                &&& status == StartStatus::Running
                &&& final(self)@ == opened_state(old(self)@, r)
            } else if queue_has_room(old(self)@, r) {
                &&& status == StartStatus::Pending(final(self)@.pending.len() as usize)
                &&& queues(old(self)@, final(self)@, r)
            } else {
                status == StartStatus::QueueFull && final(self)@ == old(self)@
            },
    {
        if opened {
            self.add_uplink(r);
            return StartStatus::Running;
        }
        match self.enqueue(r) {
            Some(depth) => StartStatus::Pending(depth),
            None => StartStatus::QueueFull,
        }
    }

    fn add_uplink(&mut self, r: StreamRef)
        requires
            old(self).wf(),
        ensures
            final(self).wf(),
            final(self)@ == opened_state(old(self)@, r),
    {
        proof {
            lemma_removed(self.uplinks@, r.uuid);
        }
        let was_there: bool = take_out(&mut self.uplinks, r.uuid);
        let ghost rest = self.uplinks@;
        self.uplinks.push(r);
        proof {
            let list = self.uplinks@;
            assert forall|i: int, j: int| 0 <= i < j < list.len() implies (#[trigger] list[i]).uuid
                != (#[trigger] list[j]).uuid by {
                assert(list[i] == rest[i]);
                assert(rest[i].uuid != r.uuid);
            }
        }
    }

    /// The outbound stream has ended: its place is free.
    pub fn on_stream_ended(&mut self, uuid: u128)
        requires
            old(self).wf(),
        ensures
            final(self).wf(),
            final(self)@ == ended_state(old(self)@, uuid),
    {
        proof {
            lemma_removed(self.uplinks@, uuid);
        }
        let was_there: bool = take_out(&mut self.uplinks, uuid);
    }

    /// The streams to be opened now that there may be room, the first one first; none
    /// without a live session. Before each, ask [`Self::may_open`].
    pub fn drain_order(&self) -> (r: Vec<StreamRef>)
        ensures
            r@ == (if self@.session_up {
                self@.pending
            } else {
                Seq::empty()
            }),
    {
        let mut out: Vec<StreamRef> = Vec::new();
        if !self.session_up {
            return out;
        }
        let mut i: usize = 0;
        while i < self.pending.len()
            invariant
                i <= self.pending@.len(),
                out@ == self.pending@.take(i as int),
            decreases self.pending@.len() - i,
        {
            out.push(self.pending[i]);
            assert(out@ =~= self.pending@.take(i + 1));
            i = i + 1;
        }
        assert(self.pending@.take(i as int) =~= self.pending@);
        out
    }

    /// Notes whether a waiting stream could be opened; if not, it goes on waiting at
    /// its place.
    pub fn on_reissued(&mut self, r: StreamRef, opened: bool)
        requires
            old(self).wf(),
            known(old(self)@.pending, r.uuid),
        ensures
            final(self).wf(),
            final(self)@ == reissued_state(old(self)@, r, opened),
    {
        if opened {
            proof {
                lemma_removed(self.pending@, r.uuid);
            }
            let was_there: bool = take_out(&mut self.pending, r.uuid);
            self.add_uplink(r);
        }
    }

    /// Notes a new link state. When the link has failed the session is gone and a
    /// new one is to be established; streams are kept.
    pub fn on_link_state(&mut self, state: LinkState) -> (r: LinkAction)
        requires
            old(self).wf(),
        ensures
            final(self).wf(),
            final(self)@ == link_changed(old(self)@, state),
            r == (if state == LinkState::Failed {
                LinkAction::Reconnect
            } else {
                LinkAction::Nothing
            }),
    {
        self.link_state = state;
        if state == LinkState::Failed {
            self.session_up = false;
            LinkAction::Reconnect
        } else {
            LinkAction::Nothing
        }
    }

    /// A new session is live.
    pub fn on_reconnected(&mut self)
        requires
            old(self).wf(),
        ensures
            final(self).wf(),
            final(self)@ == reconnected_state(old(self)@),
    {
        self.session_up = true;
        self.link_state = LinkState::Normal;
    }

    /// The outbound streams that need a fresh stream on a new session.
    pub fn restore_order(&self) -> (r: Vec<StreamRef>)
        ensures
            r@ == (if self@.session_up {
                self@.uplinks
            } else {
                Seq::empty()
            }),
    {
        let mut out: Vec<StreamRef> = Vec::new();
        if !self.session_up {
            return out;
        }
        let mut i: usize = 0;
        while i < self.uplinks.len()
            invariant
                i <= self.uplinks@.len(),
                out@ == self.uplinks@.take(i as int),
            decreases self.uplinks@.len() - i,
        {
            out.push(self.uplinks[i]);
            assert(out@ =~= self.uplinks@.take(i + 1));
            i = i + 1;
        }
        assert(self.uplinks@.take(i as int) =~= self.uplinks@);
        out
    }

    /// Notes what became of a fresh stream: an outbound stream whose pump is gone is
    /// dropped.
    pub fn on_restored(&mut self, uuid: u128, outcome: RestoreOutcome)
        requires
            old(self).wf(),
        ensures
            final(self).wf(),
            final(self)@ == restored_state(old(self)@, uuid, outcome),
    {
        if outcome == RestoreOutcome::PumpGone {
            self.on_stream_ended(uuid);
        }
    }

    /// Drops the outbound streams that have ended.
    pub fn prune_uplinks(&mut self, ended: &Vec<u128>)
        requires
            old(self).wf(),
        ensures
            final(self).wf(),
            final(self)@ == pruned_state(old(self)@, ended@),
    {
        proof {
            lemma_filter_unique(self.uplinks@, ended@);
        }
        self.uplinks = refs_without(&self.uplinks, ended);
    }

    /// What the accepting loop does: `accepted` is nothing while no attempt was
    /// made, and otherwise whether a stream arrived. What has arrived is looked at even
    /// when the session has failed since.
    pub fn accept_next(&self, accepted: Option<bool>) -> (r: AcceptNext)
        ensures
            r == (match accepted {
                None => if self@.session_up {
                    AcceptNext::Accept
                } else {
                    AcceptNext::AwaitSession
                },
                Some(true) => AcceptNext::ReadHeader,
                Some(false) => AcceptNext::CloseAndAwait,
            }),
    {
        match accepted {
            None => {
                if self.session_up {
                    AcceptNext::Accept
                } else {
                    AcceptNext::AwaitSession
                }
            },
            Some(true) => AcceptNext::ReadHeader,
            Some(false) => AcceptNext::CloseAndAwait,
        }
    }

    /// Decides on an inbound stream. For one that continues a transfer, the inbound
    /// streams in `ended` are dropped first.
    pub fn on_accept(&mut self, open: StreamOpen, ended: &Vec<u128>) -> (r: AcceptAction)
        requires
            old(self).wf(),
        ensures
            final(self).wf(),
            match open {
                StreamOpen::New(h) => {
                    &&& r == (AcceptAction::Spawn { uuid: h.uuid, info: info_of(h) })
                    &&& final(self)@ == old(self)@
                },
                StreamOpen::Reconnect(h) => {
                    let left = old(self)@.downlinks.filter(|x: u128| !ended@.contains(x));
                    &&& final(self)@ == (ManagerState { downlinks: left, ..old(self)@ })
                    &&& r == (if left.contains(h.uuid) {
                        AcceptAction::Deliver { uuid: h.uuid, replay_from: h.replay_from }
                    } else {
                        AcceptAction::DropUnknown { uuid: h.uuid }
                    })
                },
            },
    {
        match open {
            StreamOpen::New(h) => AcceptAction::Spawn {
                uuid: h.uuid,
                info: StreamInfo { size_bytes: h.size_bytes, attrs: h.attrs },
            },
            StreamOpen::Reconnect(h) => {
                proof {
                    lemma_ids_filter_unique(self.downlinks@, |x: u128| !ended@.contains(x));
                }
                self.downlinks = ids_without(&self.downlinks, ended);
                if holds_id(&self.downlinks, h.uuid) {
                    return AcceptAction::Deliver { uuid: h.uuid, replay_from: h.replay_from };
                }
                AcceptAction::DropUnknown { uuid: h.uuid }
            },
        }
    }

    /// Delivery of an inbound stream has started.
    pub fn on_downlink_spawned(&mut self, uuid: u128)
        requires
            old(self).wf(),
        ensures
            final(self).wf(),
            final(self)@ == (ManagerState {
                downlinks: if old(self)@.downlinks.contains(uuid) {
                    old(self)@.downlinks
                } else {
                    old(self)@.downlinks.push(uuid)
                },
                ..old(self)@
            }),
    {
        if holds_id(&self.downlinks, uuid) {
            return;
        }
        self.downlinks.push(uuid);
    }

    /// Notes what became of a sender's stream that continues a transfer: when bytes are
    /// lost, the inbound stream is given up.
    pub fn on_resumed(&mut self, uuid: u128, outcome: Reconnected)
        requires
            old(self).wf(),
        ensures
            final(self).wf(),
            final(self)@ == resumed_state(old(self)@, uuid, outcome),
    {
        if outcome == Reconnected::Gap {
            let gone: Vec<u128> = vec![uuid];
            let ghost keep = |x: u128| !gone@.contains(x);
            proof {
                assert(gone@[0] == uuid);
                assert(keep =~= other_than(uuid));
                lemma_ids_filter_unique(self.downlinks@, keep);
            }
            self.downlinks = ids_without(&self.downlinks, &gone);
            assert(self.downlinks@ == old(self).downlinks@.filter(keep));
        }
    }

    /// Switches the link off: every pump is told and a live session is closed.
    /// Switching it on does nothing by itself.
    pub fn link_enable(&self, enabled: bool) -> (r: LinkSwitch)
        ensures
            if enabled {
                r.notify@.len() == 0 && !r.close_session
            } else {
                &&& r.notify@ == self@.uplinks.map_values(|u: StreamRef| u.uuid)
                &&& r.close_session == self@.session_up
            },
    {
        let mut notify: Vec<u128> = Vec::new();
        if enabled {
            return LinkSwitch { notify, close_session: false };
        }
        let mut i: usize = 0;
        while i < self.uplinks.len()
            invariant
                i <= self.uplinks@.len(),
                notify@ == self.uplinks@.take(i as int).map_values(|u: StreamRef| u.uuid),
            decreases self.uplinks@.len() - i,
        {
            notify.push(self.uplinks[i].uuid);
            assert(notify@ =~= self.uplinks@.take(i + 1).map_values(|u: StreamRef| u.uuid));
            i = i + 1;
        }
        assert(self.uplinks@.take(i as int) =~= self.uplinks@);
        LinkSwitch { notify, close_session: self.session_up }
    }

    /// Snapshot of the queue; a limit of zero stands for no limit.
    pub fn queue_status(&self) -> (r: QueueStatus)
        ensures
            r.active_count == self@.uplinks.len() as i32,
            r.max_concurrent == (match self@.max_concurrent {
                Some(n) => n as i32,
                None => 0i32,
            }),
            r.max_pending == self@.max_pending as i32,
            r.pending@ == self@.pending.map_values(|p: StreamRef| p.uuid),
    {
        let mut pending: Vec<u128> = Vec::new();
        let mut i: usize = 0;
        while i < self.pending.len()
            invariant
                i <= self.pending@.len(),
                pending@ == self.pending@.take(i as int).map_values(|p: StreamRef| p.uuid),
            decreases self.pending@.len() - i,
        {
            pending.push(self.pending[i].uuid);
            assert(pending@ =~= self.pending@.take(i + 1).map_values(|p: StreamRef| p.uuid));
            i = i + 1;
        }
        assert(self.pending@.take(i as int) =~= self.pending@);
        QueueStatus {
            active_count: #[verifier::truncate] (self.uplinks.len() as i32),
            max_concurrent: match self.max_concurrent {
                Some(n) => #[verifier::truncate] (n as i32),
                None => 0,
            },
            max_pending: #[verifier::truncate] (self.max_pending as i32),
            pending,
        }
    }

    /// The link state that clients are told.
    pub fn link_state(&self) -> (r: LinkState)
        ensures
            r == self@.link_state,
    {
        self.link_state
    }
}

// ---------------------------------------------------------------------------
// Reconnection delay
// ---------------------------------------------------------------------------

/// First delay between attempts to reconnect, in seconds.
pub const FIRST_BACKOFF_SECS: u64 = 1;

/// Longest delay between attempts to reconnect, in seconds.
pub const MAX_BACKOFF_SECS: u64 = 30;

/// The delay after `failures` failed attempts: it doubles up to the longest one.
pub open spec fn backoff_after(failures: nat) -> nat
    decreases failures,
{
    if failures == 0 {
        FIRST_BACKOFF_SECS as nat
    } else {
        let twice = 2 * backoff_after((failures - 1) as nat);
        if twice <= MAX_BACKOFF_SECS {
            twice
        } else {
            MAX_BACKOFF_SECS as nat
        }
    }
}

/// Delay between attempts to reconnect.
#[derive(Debug, Clone, Copy, PartialEq, Eq, Structural)]
pub struct Backoff {
    /// Seconds to wait after the next failure.
    pub secs: u64,
}

impl Backoff {
    /// The delay before any failure.
    pub fn new() -> (r: Self)
        ensures
            r.secs == FIRST_BACKOFF_SECS,
            r.secs == backoff_after(0),
    {
        Backoff { secs: FIRST_BACKOFF_SECS }
    }

    /// Notes a failed attempt; gives the seconds to wait before the next one.
    pub fn on_failure(&mut self) -> (wait: u64)
        requires
            old(self).secs <= MAX_BACKOFF_SECS,
        ensures
            wait == old(self).secs,
            final(self).secs == (if 2 * old(self).secs <= MAX_BACKOFF_SECS {
                2 * old(self).secs
            } else {
                MAX_BACKOFF_SECS as int
            }),
            final(self).secs <= MAX_BACKOFF_SECS,
            forall|n: nat| old(self).secs == #[trigger] backoff_after(n) ==> final(self).secs
                == backoff_after(n + 1),
    {
        let wait: u64 = self.secs;
        let twice: u64 = self.secs * 2;
        self.secs = if twice <= MAX_BACKOFF_SECS {
            twice
        } else {
            MAX_BACKOFF_SECS
        };
        wait
    }
}

/// The delay starts at one second, never shrinks, and stays at thirty once five
/// attempts have failed.
pub proof fn law_backoff(failures: nat)
    ensures
        FIRST_BACKOFF_SECS <= backoff_after(failures) <= MAX_BACKOFF_SECS,
        backoff_after(failures) <= backoff_after(failures + 1),
        failures >= 5 ==> backoff_after(failures) == MAX_BACKOFF_SECS,
    decreases failures,
{
    reveal_with_fuel(backoff_after, 6);
    if failures > 0 {
        law_backoff((failures - 1) as nat);
    }
}

// ---------------------------------------------------------------------------
// Laws
// ---------------------------------------------------------------------------

/// Among streams of one priority, the queue keeps the order of arrival: a stream that
/// is entered stands behind all that are already there, and no stream of another
/// priority is passed out of turn.
pub proof fn law_queue_is_fair(before: Seq<StreamRef>, after: Seq<StreamRef>, r: StreamRef, i: int)
    requires
        unique(before),
        by_priority(before),
        !known(before, r.uuid),
        enqueues(before, after, r),
        0 <= i < before.len(),
    ensures
        ({
            let old_place = place(after, before[i].uuid);
            let new_place = place(after, r.uuid);
            &&& after[old_place] == before[i]
            &&& after[new_place] == r
            &&& before[i].priority.0 >= r.priority.0 <==> old_place < new_place
        }),
{
    lemma_enqueues(before, after, r);
    let at = choose|k: int|
        #![trigger before.insert(k, r)]
        is_queue_slot(before, r.priority.0, k) && after == before.insert(k, r);
    let j = if i < at { i } else { i + 1 };
    assert(after[j] == before[i]);
    assert(after[at] == r);
    let old_place = place(after, before[i].uuid);
    let new_place = place(after, r.uuid);
    assert(old_place == j) by {
        assert(after[old_place].uuid == after[j].uuid);
        if old_place < j {
            assert(after[old_place].uuid != after[j].uuid);
        } else if j < old_place {
            assert(after[j].uuid != after[old_place].uuid);
        }
    }
    assert(new_place == at) by {
        assert(after[new_place].uuid == after[at].uuid);
        if new_place < at {
            assert(after[new_place].uuid != after[at].uuid);
        } else if at < new_place {
            assert(after[at].uuid != after[new_place].uuid);
        }
    }
    if i >= at {
        if i > at {
            assert(before[at].priority.0 >= before[i].priority.0);
        }
    }
}

/// The delays are one, two, four, eight and sixteen seconds, and thirty from there on.
pub proof fn law_backoff_doubles(failures: nat)
    ensures
        backoff_after(0) == 1,
        failures < 4 ==> backoff_after(failures + 1) == backoff_after(failures) + backoff_after(
            failures,
        ),
        failures >= 5 ==> backoff_after(failures) == 30,
{
    reveal_with_fuel(backoff_after, 6);
    law_backoff(failures);
}

} // verus!
