//! Deficit round robin scheduling with a strict-priority tier.

use std::collections::{HashMap, VecDeque};

use vstd::prelude::*;

use crate::error::QueLayError;
use crate::priority::Priority;

verus! {

broadcast use {
    vstd::std_specs::hash::group_hash_axioms,
    vstd::std_specs::vecdeque::group_vec_dequeue_axioms,
};

/// Credit per round that every bulk stream gets from a rebalance, in bytes.
pub const BULK_QUANTUM_BYTES: u32 = 4096;

/// What the scheduler keeps of one stream.
#[derive(Debug, Clone, Copy)]
pub struct StreamEntry {
    /// Priority level given at registration.
    pub priority: Priority,
    /// Unused credit in bytes, carried over between rounds.
    pub deficit: u32,
    /// Credit added per round, in bytes.
    pub quantum: u32,
    /// Bytes waiting to be sent.
    pub backlog: u64,
}

/// Scheduler over all active streams.
///
/// Each round adds a stream's quantum to its deficit; the stream may then send
/// up to its deficit, and what it does not use carries over. Strict streams are
/// served before any bulk stream.
#[derive(Debug)]
pub struct DrrScheduler {
    streams: HashMap<u128, StreamEntry>,
    bulk_order: VecDeque<u128>,
    c2i_queue: VecDeque<u128>,
}

/// The scheduler's state: its table of streams and its two queues.
#[verifier::ext_equal]
pub struct SchedulerState {
    pub streams: Map<u128, StreamEntry>,
    pub bulk: Seq<u128>,
    pub strict: Seq<u128>,
}

/// A list of `(stream, bytes)` allocations.
pub type Allocs = Seq<(u128, u64)>;

/// Bytes granted by a list of allocations.
pub open spec fn allocated(allocs: Allocs) -> nat
    decreases allocs.len(),
{
    if allocs.len() == 0 {
        0
    } else {
        allocated(allocs.drop_last()) + allocs.last().1 as nat
    }
}

pub open spec fn min(a: nat, b: nat) -> nat {
    if a <= b {
        a
    } else {
        b
    }
}

// ---------------------------------------------------------------------------
// Strict tier
// ---------------------------------------------------------------------------

/// Where the strict pass stands: what it granted, what is left of the budget,
/// and the first queued stream that is not in the table, if it met one.
#[verifier::ext_equal]
pub struct StrictPass {
    pub allocs: Allocs,
    pub budget: nat,
    pub missing: Option<u128>,
}

/// What a strict stream gets out of a budget.
pub open spec fn strict_grant(e: StreamEntry, budget: nat) -> nat {
    min(min(budget, e.backlog as nat), e.quantum as nat)
}

/// The strict pass: each queued stream in turn gets as much as its backlog, its
/// quantum and the remaining budget allow.
pub open spec fn strict_pass(
    streams: Map<u128, StreamEntry>,
    queue: Seq<u128>,
    budget: nat,
) -> StrictPass
    decreases queue.len(),
{
    if queue.len() == 0 {
        StrictPass { allocs: Seq::empty(), budget, missing: None }
    } else {
        let p = strict_pass(streams, queue.drop_last(), budget);
        let id = queue.last();
        if p.missing is Some || p.budget == 0 {
            p
        } else if !streams.contains_key(id) {
            StrictPass { missing: Some(id), ..p }
        } else {
            let sent = strict_grant(streams[id], p.budget);
            if sent > 0 {
                StrictPass {
                    allocs: p.allocs.push((id, sent as u64)),
                    budget: (p.budget - sent) as nat,
                    missing: None,
                }
            } else {
                p
            }
        }
    }
}

// ---------------------------------------------------------------------------
// Bulk tier
// ---------------------------------------------------------------------------

/// Where the bulk pass stands.
#[verifier::ext_equal]
pub struct Round {
    pub streams: Map<u128, StreamEntry>,
    pub order: Seq<u128>,
    pub allocs: Allocs,
    pub budget: nat,
    pub missing: Option<u128>,
}

/// `i` is the first allocation for stream `id`.
pub open spec fn is_first_alloc(allocs: Allocs, id: u128, i: int) -> bool {
    &&& 0 <= i < allocs.len()
    &&& allocs[i].0 == id
    &&& forall|j: int| 0 <= j < i ==> (#[trigger] allocs[j]).0 != id
}

/// Adds `n` bytes to a stream's allocation, which is made when it is not there.
pub open spec fn accumulate(allocs: Allocs, id: u128, n: nat) -> Allocs {
    if exists|i: int| is_first_alloc(allocs, id, i) {
        let i = choose|i: int| is_first_alloc(allocs, id, i);
        allocs.update(i, (id, (allocs[i].1 + n) as u64))
    } else {
        allocs.push((id, n as u64))
    }
}

/// A stream's deficit once its quantum has been added; it stays at the largest
/// representable value when the sum exceeds it.
pub open spec fn credit(e: StreamEntry) -> nat {
    min((e.deficit + e.quantum) as nat, u32::MAX as nat)
}

/// What a bulk stream sends in one turn.
pub open spec fn bulk_grant(e: StreamEntry, budget: nat) -> nat {
    min(min(budget, credit(e)), e.backlog as nat)
}

/// A bulk stream after a turn: credit that was not used carries over, unless the
/// stream sent nothing.
pub open spec fn after_turn(e: StreamEntry, sent: nat) -> StreamEntry {
    StreamEntry { deficit: if sent > 0 { (credit(e) - sent) as u32 } else { 0 }, ..e }
}

/// One turn: the stream in front is served and goes to the back.
pub open spec fn turn(s: Round) -> Round {
    let id = s.order[0];
    if !s.streams.contains_key(id) {
        Round { missing: Some(id), ..s }
    } else {
        let e = s.streams[id];
        let sent = bulk_grant(e, s.budget);
        Round {
            streams: s.streams.insert(id, after_turn(e, sent)),
            order: s.order.skip(1).push(id),
            allocs: if sent > 0 {
                accumulate(s.allocs, id, sent)
            } else {
                s.allocs
            },
            budget: (s.budget - sent) as nat,
            missing: None,
        }
    }
}

/// Up to `k` turns, as long as there is budget.
pub open spec fn sweep(s: Round, k: nat) -> Round
    decreases k,
{
    if k == 0 || s.budget == 0 || s.missing is Some {
        s
    } else {
        sweep(turn(s), (k - 1) as nat)
    }
}

/// Turns until the budget is used up or `n` streams in a row sent nothing, the
/// last `idle` of which already did.
pub open spec fn drain(s: Round, idle: nat, n: nat) -> Round
    decreases s.budget, n - idle,
{
    if s.budget == 0 || idle >= n || s.missing is Some {
        s
    } else {
        let t = turn(s);
        if t.missing is Some {
            t
        } else if t.budget < s.budget {
            drain(t, 0, n)
        } else {
            drain(t, idle + 1, n)
        }
    }
}

/// The bulk pass before its first turn.
pub open spec fn bulk_start(s: SchedulerState, budget: nat) -> Round {
    Round { streams: s.streams, order: s.bulk, allocs: Seq::empty(), budget, missing: None }
}

/// The bulk pass: one turn for every stream, then further turns while there is
/// budget and some stream can use it.
pub open spec fn bulk_pass(s: SchedulerState, budget: nat) -> Round {
    drain(sweep(bulk_start(s, budget), s.bulk.len()), 0, s.bulk.len())
}

/// What scheduling a budget gives: the strict allocations followed by the bulk
/// allocations, or the first queued stream met that is not in the table.
pub open spec fn schedule_result(s: SchedulerState, budget: nat) -> Result<Allocs, u128> {
    let strict = strict_pass(s.streams, s.strict, budget);
    let bulk = bulk_pass(s, strict.budget);
    match strict.missing {
        Some(id) => Err(id),
        None => match bulk.missing {
            Some(id) => Err(id),
            None => Ok(strict.allocs + bulk.allocs),
        },
    }
}

/// The scheduler after scheduling a budget. When it fails in the strict pass
/// nothing has changed; turns taken in the bulk pass keep their effect.
pub open spec fn schedule_state(s: SchedulerState, budget: nat) -> SchedulerState {
    let strict = strict_pass(s.streams, s.strict, budget);
    let bulk = bulk_pass(s, strict.budget);
    if strict.missing is Some {
        s
    } else {
        SchedulerState { streams: bulk.streams, bulk: bulk.order, strict: s.strict }
    }
}

/// The scheduler with a stream's backlog set; unchanged when the stream is not in
/// the table.
pub open spec fn with_backlog(s: SchedulerState, id: u128, backlog: u64) -> SchedulerState {
    if s.streams.contains_key(id) {
        SchedulerState {
            streams: s.streams.insert(id, StreamEntry { backlog, ..s.streams[id] }),
            ..s
        }
    } else {
        s
    }
}

// ---------------------------------------------------------------------------
// Registration
// ---------------------------------------------------------------------------

/// The level a queued stream counts with: zero when it is not in the table.
pub open spec fn level_of(streams: Map<u128, StreamEntry>, id: u128) -> i8 {
    if streams.contains_key(id) {
        streams[id].priority.0
    } else {
        0
    }
}

/// `i` is where a stream of the given level enters the strict queue: behind all
/// streams up to the first one of a lower level.
pub open spec fn is_strict_slot(
    streams: Map<u128, StreamEntry>,
    queue: Seq<u128>,
    level: i8,
    i: int,
) -> bool {
    &&& 0 <= i <= queue.len()
    &&& forall|j: int| 0 <= j < i ==> level_of(streams, #[trigger] queue[j]) >= level
    &&& i < queue.len() ==> level_of(streams, queue[i]) < level
}

/// The table with the quantum of every listed stream set to the bulk quantum.
pub open spec fn rebalanced(streams: Map<u128, StreamEntry>, ids: Seq<u128>) -> Map<
    u128,
    StreamEntry,
> {
    streams.map_entries(
        |id: u128, e: StreamEntry|
            if ids.contains(id) {
                StreamEntry { quantum: BULK_QUANTUM_BYTES, ..e }
            } else {
                e
            },
    )
}

/// The identities other than `id`.
pub open spec fn other_than(id: u128) -> spec_fn(u128) -> bool {
    |x: u128| x != id
}

/// A stream's entry at registration.
pub open spec fn new_entry(priority: Priority) -> StreamEntry {
    StreamEntry {
        priority,
        deficit: 0,
        quantum: if priority.strict() {
            crate::priority::STRICT_QUANTUM
        } else {
            crate::priority::BULK_QUANTUM
        },
        backlog: 0,
    }
}

/// `t` is `s` after stream `id` has been registered: a strict stream is queued by
/// level, behind those of its own level; a bulk stream goes to the end of the
/// round, and the bulk quanta are rebalanced.
pub open spec fn registers(
    s: SchedulerState,
    t: SchedulerState,
    id: u128,
    priority: Priority,
) -> bool {
    let streams = s.streams.insert(id, new_entry(priority));
    if priority.strict() {
        &&& t.streams == streams
        &&& t.bulk == s.bulk
        &&& exists|i: int|
            #![trigger s.strict.insert(i, id)]
            is_strict_slot(streams, s.strict, priority.0, i) && t.strict == s.strict.insert(i, id)
    } else {
        &&& t.bulk == s.bulk.push(id)
        &&& t.strict == s.strict
        &&& t.streams == rebalanced(streams, t.bulk)
    }
}

/// The state after stream `id` has been taken out of the table and out of its
/// tier's queue; unchanged when the stream is not in the table.
pub open spec fn deregistered(s: SchedulerState, id: u128) -> SchedulerState {
    if !s.streams.contains_key(id) {
        s
    } else if s.streams[id].priority.strict() {
        SchedulerState {
            streams: s.streams.remove(id),
            strict: s.strict.filter(other_than(id)),
            ..s
        }
    } else {
        let bulk = s.bulk.filter(other_than(id));
        SchedulerState { streams: rebalanced(s.streams.remove(id), bulk), bulk, ..s }
    }
}

// ---------------------------------------------------------------------------
// Proofs
// ---------------------------------------------------------------------------

/// Granting more to a listed stream raises the total by as much.
proof fn lemma_allocated_update(allocs: Allocs, i: int, v: (u128, u64))
    requires
        0 <= i < allocs.len(),
    ensures
        allocated(allocs.update(i, v)) == allocated(allocs) - allocs[i].1 + v.1,
    decreases allocs.len(),
{
    if i == allocs.len() - 1 {
        assert(allocs.update(i, v).drop_last() =~= allocs.drop_last());
    } else {
        lemma_allocated_update(allocs.drop_last(), i, v);
        assert(allocs.update(i, v).drop_last() =~= allocs.drop_last().update(i, v));
    }
}

/// No single allocation exceeds the total.
proof fn lemma_allocated_bounds(allocs: Allocs, i: int)
    requires
        0 <= i < allocs.len(),
    ensures
        allocs[i].1 <= allocated(allocs),
    decreases allocs.len(),
{
    if i < allocs.len() - 1 {
        lemma_allocated_bounds(allocs.drop_last(), i);
    }
}

/// The total of two lists is the sum of their totals.
pub proof fn lemma_allocated_concat(a: Allocs, b: Allocs)
    ensures
        allocated(a + b) == allocated(a) + allocated(b),
    decreases b.len(),
{
    if b.len() == 0 {
        assert(a + b =~= a);
    } else {
        lemma_allocated_concat(a, b.drop_last());
        assert((a + b).drop_last() =~= a + b.drop_last());
    }
}

/// Accumulating `n` bytes raises the total by `n`.
pub proof fn lemma_accumulate(allocs: Allocs, id: u128, n: nat)
    requires
        allocated(allocs) + n <= u64::MAX,
    ensures
        allocated(accumulate(allocs, id, n)) == allocated(allocs) + n,
{
    if exists|i: int| is_first_alloc(allocs, id, i) {
        let i = choose|i: int| is_first_alloc(allocs, id, i);
        lemma_allocated_bounds(allocs, i);
        lemma_allocated_update(allocs, i, (id, (allocs[i].1 + n) as u64));
    } else {
        assert(allocs.push((id, n as u64)).drop_last() =~= allocs);
    }
}

/// Once the strict pass has stopped, the rest of the queue does not change it.
proof fn lemma_strict_pass_stopped(
    streams: Map<u128, StreamEntry>,
    queue: Seq<u128>,
    budget: nat,
    i: int,
)
    requires
        0 <= i <= queue.len(),
        strict_pass(streams, queue.take(i), budget).budget == 0 || strict_pass(
            streams,
            queue.take(i),
            budget,
        ).missing is Some,
    ensures
        strict_pass(streams, queue, budget) == strict_pass(streams, queue.take(i), budget),
    decreases queue.len(),
{
    if i == queue.len() {
        assert(queue.take(i) =~= queue);
    } else {
        assert(queue.drop_last().take(i) =~= queue.take(i));
        lemma_strict_pass_stopped(streams, queue.drop_last(), budget, i);
    }
}

/// What the strict pass granted and what it left add up to the budget.
pub proof fn lemma_strict_pass_total(
    streams: Map<u128, StreamEntry>,
    queue: Seq<u128>,
    budget: nat,
)
    requires
        budget <= u64::MAX,
    ensures
        ({
            let p = strict_pass(streams, queue, budget);
            allocated(p.allocs) + p.budget == budget
        }),
    decreases queue.len(),
{
    if queue.len() > 0 {
        lemma_strict_pass_total(streams, queue.drop_last(), budget);
        let p = strict_pass(streams, queue.drop_last(), budget);
        let id = queue.last();
        if !(p.missing is Some || p.budget == 0) && streams.contains_key(id) {
            let sent = strict_grant(streams[id], p.budget);
            if sent > 0 {
                assert(p.allocs.push((id, sent as u64)).drop_last() =~= p.allocs);
            }
        }
    }
}

/// A turn moves what it takes out of the budget into the allocations.
pub proof fn lemma_turn_total(s: Round)
    requires
        allocated(s.allocs) + s.budget <= u64::MAX,
    ensures
        allocated(turn(s).allocs) + turn(s).budget == allocated(s.allocs) + s.budget,
        turn(s).budget <= s.budget,
{
    let id = s.order[0];
    if s.streams.contains_key(id) {
        let sent = bulk_grant(s.streams[id], s.budget);
        if sent > 0 {
            lemma_accumulate(s.allocs, id, sent);
        }
    }
}

/// Likewise for a sweep.
pub proof fn lemma_sweep_total(s: Round, k: nat)
    requires
        allocated(s.allocs) + s.budget <= u64::MAX,
    ensures
        allocated(sweep(s, k).allocs) + sweep(s, k).budget == allocated(s.allocs) + s.budget,
    decreases k,
{
    if !(k == 0 || s.budget == 0 || s.missing is Some) {
        lemma_turn_total(s);
        lemma_sweep_total(turn(s), (k - 1) as nat);
    }
}

/// Likewise for a drain.
pub proof fn lemma_drain_total(s: Round, idle: nat, n: nat)
    requires
        allocated(s.allocs) + s.budget <= u64::MAX,
    ensures
        allocated(drain(s, idle, n).allocs) + drain(s, idle, n).budget == allocated(s.allocs)
            + s.budget,
    decreases s.budget, n - idle,
{
    if !(s.budget == 0 || idle >= n || s.missing is Some) {
        let t = turn(s);
        lemma_turn_total(s);
        if t.missing is Some {
        } else if t.budget < s.budget {
            lemma_drain_total(t, 0, n);
        } else {
            lemma_drain_total(t, idle + 1, n);
        }
    }
}

// ---------------------------------------------------------------------------
// Scheduler
// ---------------------------------------------------------------------------

impl View for DrrScheduler {
    type V = SchedulerState;

    closed spec fn view(&self) -> SchedulerState {
        SchedulerState {
            streams: self.streams@,
            bulk: self.bulk_order@,
            strict: self.c2i_queue@,
        }
    }
}

/// Adds `n` bytes to the allocation of stream `id`.
fn add_alloc(allocs: &mut Vec<(u128, u64)>, id: u128, n: u64)
    requires
        allocated(old(allocs)@) + n <= u64::MAX,
    ensures
        final(allocs)@ == accumulate(old(allocs)@, id, n as nat),
        allocated(final(allocs)@) == allocated(old(allocs)@) + n,
{
    proof {
        lemma_accumulate(allocs@, id, n as nat);
    }
    let mut i: usize = 0;
    while i < allocs.len()
        invariant
            i <= allocs.len(),
            allocs@ == old(allocs)@,
            allocated(allocs@) + n <= u64::MAX,
            allocated(accumulate(allocs@, id, n as nat)) == allocated(allocs@) + n,
            forall|j: int| 0 <= j < i ==> (#[trigger] allocs@[j]).0 != id,
        decreases allocs.len() - i,
    {
        if allocs[i].0 == id {
            proof {
                assert(is_first_alloc(allocs@, id, i as int));
                let c = choose|c: int| is_first_alloc(allocs@, id, c);
                assert(c == i) by {
                    assert(is_first_alloc(allocs@, id, c));
                    if c < i {
                        assert(allocs@[c].0 != id);
                    } else if i < c {
                        assert(allocs@[i as int].0 != id);
                    }
                }
                lemma_allocated_bounds(allocs@, i as int);
            }
            let sum: u64 = allocs[i].1 + n;
            allocs.set(i, (id, sum));
            return;
        }
        i = i + 1;
    }
    proof {
        assert forall|c: int| !is_first_alloc(allocs@, id, c) by {
            if 0 <= c < allocs@.len() {
                assert(allocs@[c].0 != id);
            }
        }
    }
    allocs.push((id, n));
}

/// The queue without any occurrence of `id`.
fn without(queue: &VecDeque<u128>, id: u128) -> (r: VecDeque<u128>)
    ensures
        r@ == queue@.filter(other_than(id)),
{
    let mut kept: VecDeque<u128> = VecDeque::new();
    let mut i: usize = 0;
    proof {
        reveal(Seq::filter);
        assert(queue@.take(0).filter(other_than(id)) =~= Seq::<u128>::empty());
    }
    while i < queue.len()
        invariant
            i <= queue@.len(),
            kept@ == queue@.take(i as int).filter(other_than(id)),
        decreases queue@.len() - i,
    {
        let x: u128 = queue[i];
        proof {
            assert(queue@.take(i + 1) =~= queue@.take(i as int).push(x));
            queue@.take(i as int).lemma_filter_push(x, other_than(id));
        }
        if x != id {
            kept.push_back(x);
        }
        i = i + 1;
    }
    assert(queue@.take(i as int) =~= queue@);
    kept
}

impl DrrScheduler {
    /// A scheduler without streams.
    pub fn new() -> (r: Self)
        ensures
            r@ == (SchedulerState {
                streams: Map::empty(),
                bulk: Seq::empty(),
                strict: Seq::empty(),
            }),
    {
        DrrScheduler {
            streams: HashMap::new(),
            bulk_order: VecDeque::new(),
            c2i_queue: VecDeque::new(),
        }
    }

    /// Adds a stream. A strict stream is queued by level, behind those of its
    /// own level; a bulk stream goes to the end of the round, and all bulk
    /// quanta are set to the common value.
    pub fn register(&mut self, id: u128, priority: Priority)
        ensures
            registers(old(self)@, final(self)@, id, priority),
    {
        let quantum: u32 = priority.initial_quantum();
        self.streams.insert(id, StreamEntry { priority, deficit: 0, quantum, backlog: 0 });
        if priority.is_strict() {
            let ghost streams = self@.streams;
            let mut at: usize = 0;
            while at < self.c2i_queue.len()
                invariant_except_break
                    at <= self@.strict.len(),
                    forall|j: int|
                        0 <= j < at ==> level_of(streams, #[trigger] self@.strict[j]) >= priority.0,
                invariant
                    self@.streams == streams,
                    self@.bulk == old(self)@.bulk,
                    self@.strict == old(self)@.strict,
                ensures
                    is_strict_slot(streams, self@.strict, priority.0, at as int),
                decreases self@.strict.len() - at,
            {
                let other: u128 = self.c2i_queue[at];
                let level: i8 = match self.streams.get(&other) {
                    Some(e) => e.priority.as_i8(),
                    None => 0,
                };
                assert(level == level_of(streams, self@.strict[at as int]));
                if level < priority.as_i8() {
                    break;
                }
                at = at + 1;
            }
            self.c2i_queue.insert(at, id);
            assert(self@.strict == old(self)@.strict.insert(at as int, id));
        } else {
            self.bulk_order.push_back(id);
            self.rebalance();
        }
    }

    /// Takes a stream out of the table and out of its tier's queue; without
    /// effect when the stream is not in the table.
    pub fn deregister(&mut self, id: u128)
        ensures
            final(self)@ == deregistered(old(self)@, id),
    {
        match self.streams.remove(&id) {
            Some(entry) => {
                if entry.priority.is_strict() {
                    self.c2i_queue = without(&self.c2i_queue, id);
                } else {
                    self.bulk_order = without(&self.bulk_order, id);
                    self.rebalance();
                }
            },
            None => {
                assert(self@.streams =~= old(self)@.streams);
            },
        }
    }

    /// Sets the credit that a stream gets per round.
    pub fn set_quantum(&mut self, id: u128, quantum: u32)
        ensures
            final(self)@ == (SchedulerState {
                streams: if old(self)@.streams.contains_key(id) {
                    old(self)@.streams.insert(
                        id,
                        StreamEntry { quantum, ..old(self)@.streams[id] },
                    )
                } else {
                    old(self)@.streams
                },
                ..old(self)@
            }),
    {
        let found: Option<StreamEntry> = match self.streams.get(&id) {
            Some(e) => Some(*e),
            None => None,
        };
        if let Some(e) = found {
            self.streams.insert(id, StreamEntry { quantum, ..e });
        }
    }

    /// Sets the number of bytes that a stream has waiting.
    pub fn set_backlog(&mut self, id: u128, backlog: u64)
        ensures
            final(self)@ == with_backlog(old(self)@, id, backlog),
    {
        let found: Option<StreamEntry> = match self.streams.get(&id) {
            Some(e) => Some(*e),
            None => None,
        };
        if let Some(e) = found {
            self.streams.insert(id, StreamEntry { backlog, ..e });
        }
    }

    /// The entry of a stream, when it is in the table.
    pub fn entry(&self, id: u128) -> (r: Option<StreamEntry>)
        ensures
            r == (if self@.streams.contains_key(id) {
                Some(self@.streams[id])
            } else {
                None
            }),
    {
        match self.streams.get(&id) {
            Some(e) => Some(*e),
            None => None,
        }
    }

    /// Sets the quantum of every bulk stream to the common value.
    pub fn rebalance(&mut self)
        ensures
            final(self)@ == (SchedulerState {
                streams: rebalanced(old(self)@.streams, old(self)@.bulk),
                ..old(self)@
            }),
    {
        let ghost streams = self@.streams;
        let ghost order = self@.bulk;
        let mut i: usize = 0;
        proof {
            assert(rebalanced(streams, order.take(0)) =~= streams);
        }
        while i < self.bulk_order.len()
            invariant
                i <= order.len(),
                self@.bulk == order,
                self@.strict == old(self)@.strict,
                self@.streams == rebalanced(streams, order.take(i as int)),
            decreases order.len() - i,
        {
            let id: u128 = self.bulk_order[i];
            let found: Option<StreamEntry> = match self.streams.get(&id) {
                Some(e) => Some(*e),
                None => None,
            };
            if let Some(e) = found {
                self.streams.insert(id, StreamEntry { quantum: BULK_QUANTUM_BYTES, ..e });
            }
            proof {
                let seen = order.take(i as int);
                let next = order.take(i + 1);
                assert(next =~= seen.push(id));
                assert forall|k: u128| next.contains(k) <==> (seen.contains(k) || k == id) by {
                    if seen.contains(k) {
                        let j = choose|j: int| 0 <= j < seen.len() && seen[j] == k;
                        assert(next[j] == k);
                    }
                    if k == id {
                        assert(next[i as int] == k);
                    }
                    if next.contains(k) && k != id {
                        let j = choose|j: int| 0 <= j < next.len() && next[j] == k;
                        assert(seen[j] == k);
                    }
                }
                assert(self@.streams =~= rebalanced(streams, next));
            }
            i = i + 1;
        }
        assert(order.take(order.len() as int) =~= order);
    }

    /// Serves the bulk stream in front out of `budget` and moves it to the back.
    fn serve_front(&mut self, allocs: &mut Vec<(u128, u64)>, budget: u64) -> (r: Result<u64, u128>)
        requires
            old(self)@.bulk.len() > 0,
            allocated(old(allocs)@) + budget <= u64::MAX,
        ensures
            final(self)@.strict == old(self)@.strict,
            ({
                let before = Round {
                    streams: old(self)@.streams,
                    order: old(self)@.bulk,
                    allocs: old(allocs)@,
                    budget: budget as nat,
                    missing: None,
                };
                match r {
                    Ok(sent) => {
                        &&& sent <= budget
                        &&& turn(before) == (Round {
                            streams: final(self)@.streams,
                            order: final(self)@.bulk,
                            allocs: final(allocs)@,
                            budget: (budget - sent) as nat,
                            missing: None,
                        })
                        &&& allocated(final(allocs)@) == allocated(old(allocs)@) + sent
                        &&& final(self)@.bulk.len() == old(self)@.bulk.len()
                    },
                    Err(id) => {
                        &&& turn(before) == (Round { missing: Some(id), ..before })
                        &&& final(self)@ == old(self)@
                    },
                }
            }),
    {
        let id: u128 = self.bulk_order[0];
        let e: StreamEntry = match self.streams.get(&id) {
            Some(e) => *e,
            None => {
                return Err(id);
            },
        };
        let deficit: u32 = e.deficit.saturating_add(e.quantum);
        let mut sent: u64 = budget;
        if (deficit as u64) < sent {
            sent = deficit as u64;
        }
        if e.backlog < sent {
            sent = e.backlog;
        }
        if sent > 0 {
            add_alloc(allocs, id, sent);
            self.streams.insert(id, StreamEntry { deficit: deficit - sent as u32, ..e });
        } else {
            self.streams.insert(id, StreamEntry { deficit: 0, ..e });
        }
        let front: Option<u128> = self.bulk_order.pop_front();
        self.bulk_order.push_back(id);
        assert(self@.bulk =~= old(self)@.bulk.skip(1).push(id));
        Ok(sent)
    }

    /// Distributes `budget` bytes: strict streams first, in queue order, then the
    /// bulk streams by deficit round robin. Gives the allocations in the order in
    /// which the streams were first served.
    ///
    /// Fails with the identity of the first queued stream that is not in the
    /// table; turns taken before it was met keep their effect.
    pub fn schedule(&mut self, budget: u64) -> (r: Result<Vec<(u128, u64)>, QueLayError>)
        ensures
            final(self)@ == schedule_state(old(self)@, budget as nat),
            match r {
                Ok(v) => schedule_result(old(self)@, budget as nat) == Ok::<Allocs, u128>(v@),
                Err(e) => e matches QueLayError::StreamNotFound(id) && schedule_result(
                    old(self)@,
                    budget as nat,
                ) == Err::<Allocs, u128>(id),
            },
            r is Ok ==> allocated(r->Ok_0@) <= budget,
    {
        let ghost s = self@;
        let ghost strict = strict_pass(s.streams, s.strict, budget as nat);
        let mut result: Vec<(u128, u64)> = Vec::new();
        let mut left: u64 = budget;
        let mut i: usize = 0;
        while i < self.c2i_queue.len() && left > 0
            invariant
                self@ == s,
                i <= s.strict.len(),
                left <= budget,
                strict == strict_pass(s.streams, s.strict, budget as nat),
                strict_pass(s.streams, s.strict.take(i as int), budget as nat) == (StrictPass {
                    allocs: result@,
                    budget: left as nat,
                    missing: None,
                }),
            decreases s.strict.len() - i,
        {
            let id: u128 = self.c2i_queue[i];
            proof {
                assert(s.strict.take(i + 1).drop_last() =~= s.strict.take(i as int));
                assert(s.strict.take(i + 1).last() == id);
            }
            let e: StreamEntry = match self.streams.get(&id) {
                Some(e) => *e,
                None => {
                    proof {
                        lemma_strict_pass_stopped(s.streams, s.strict, budget as nat, i + 1);
                    }
                    return Err(QueLayError::StreamNotFound(id));
                },
            };
            let mut sent: u64 = left;
            if e.backlog < sent {
                sent = e.backlog;
            }
            if (e.quantum as u64) < sent {
                sent = e.quantum as u64;
            }
            if sent > 0 {
                result.push((id, sent));
                left = left - sent;
            }
            i = i + 1;
        }
        proof {
            if i < s.strict.len() {
                lemma_strict_pass_stopped(s.streams, s.strict, budget as nat, i as int);
            } else {
                assert(s.strict.take(i as int) =~= s.strict);
            }
            lemma_strict_pass_total(s.streams, s.strict, budget as nat);
        }
        let ghost strict_allocs = result@;
        let ghost start = bulk_start(s, left as nat);
        let n: usize = self.bulk_order.len();
        let mut bulk: Vec<(u128, u64)> = Vec::new();
        let ghost strict_left = left;
        let mut turns: usize = 0;
        while turns < n && left > 0
            invariant
                turns <= n,
                n == self@.bulk.len(),
                n == s.bulk.len(),
                s == old(self)@,
                self@.strict == s.strict,
                start == bulk_start(s, strict_left as nat),
                strict == strict_pass(s.streams, s.strict, budget as nat),
                strict.missing is None,
                strict.budget == strict_left,
                strict.allocs == strict_allocs,
                result@ == strict_allocs,
                allocated(bulk@) + left <= u64::MAX,
                sweep(
                    Round {
                        streams: self@.streams,
                        order: self@.bulk,
                        allocs: bulk@,
                        budget: left as nat,
                        missing: None,
                    },
                    (n - turns) as nat,
                ) == sweep(start, n as nat),
            decreases n - turns,
        {
            let ghost cur = Round {
                streams: self@.streams,
                order: self@.bulk,
                allocs: bulk@,
                budget: left as nat,
                missing: None,
            };
            match self.serve_front(&mut bulk, left) {
                Ok(sent) => {
                    left = left - sent;
                },
                Err(id) => {
                    assert(sweep(turn(cur), (n - turns - 1) as nat) == turn(cur));
                    return Err(QueLayError::StreamNotFound(id));
                },
            }
            turns = turns + 1;
        }
        let ghost swept = Round {
            streams: self@.streams,
            order: self@.bulk,
            allocs: bulk@,
            budget: left as nat,
            missing: None,
        };
        assert(swept == sweep(start, n as nat));
        let mut idle: usize = 0;
        while left > 0 && idle < n
            invariant
                idle <= n,
                n == self@.bulk.len(),
                n == s.bulk.len(),
                s == old(self)@,
                self@.strict == s.strict,
                start == bulk_start(s, strict_left as nat),
                swept == sweep(start, n as nat),
                strict == strict_pass(s.streams, s.strict, budget as nat),
                strict.missing is None,
                strict.budget == strict_left,
                strict.allocs == strict_allocs,
                result@ == strict_allocs,
                allocated(bulk@) + left <= u64::MAX,
                drain(
                    Round {
                        streams: self@.streams,
                        order: self@.bulk,
                        allocs: bulk@,
                        budget: left as nat,
                        missing: None,
                    },
                    idle as nat,
                    n as nat,
                ) == drain(swept, 0, n as nat),
            decreases left, n - idle,
        {
            match self.serve_front(&mut bulk, left) {
                Ok(sent) => {
                    if sent > 0 {
                        idle = 0;
                    } else {
                        idle = idle + 1;
                    }
                    left = left - sent;
                },
                Err(id) => {
                    return Err(QueLayError::StreamNotFound(id));
                },
            }
        }
        proof {
            lemma_sweep_total(start, n as nat);
            lemma_drain_total(swept, 0, n as nat);
            lemma_allocated_concat(strict_allocs, bulk@);
        }
        result.append(&mut bulk);
        Ok(result)
    }
}

} // verus!
