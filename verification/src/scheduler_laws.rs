//! What holds of the scheduler as a whole.

use vstd::prelude::*;

use crate::priority::Priority;
use crate::scheduler::{
    accumulate, allocated, bulk_grant, bulk_pass, bulk_start, credit, deregistered, drain,
    is_first_alloc, is_strict_slot, lemma_allocated_concat, lemma_drain_total, lemma_strict_pass_total,
    lemma_sweep_total, lemma_turn_total, level_of, min, new_entry, other_than, registers,
    schedule_result, schedule_state, strict_pass, sweep, turn, with_backlog, Allocs, Round,
    SchedulerState, StreamEntry,
};

verus! {

/// The queues and the table agree: every queued stream is in the table with a
/// priority of its queue's tier, no stream is queued twice, every stream of the
/// table is queued, and the strict queue runs from higher to lower levels.
pub open spec fn consistent(s: SchedulerState) -> bool {
    &&& forall|i: int|
        0 <= i < s.strict.len() ==> s.streams.contains_key(#[trigger] s.strict[i])
            && s.streams[s.strict[i]].priority.strict()
    &&& forall|i: int|
        0 <= i < s.bulk.len() ==> s.streams.contains_key(#[trigger] s.bulk[i])
            && !s.streams[s.bulk[i]].priority.strict()
    &&& s.strict.no_duplicates()
    &&& s.bulk.no_duplicates()
    &&& forall|id: u128| #[trigger]
        s.streams.contains_key(id) ==> if s.streams[id].priority.strict() {
            s.strict.contains(id)
        } else {
            s.bulk.contains(id)
        }
    &&& forall|i: int, j: int|
        0 <= i < j < s.strict.len() ==> s.streams[#[trigger] s.strict[i]].priority.0
            >= s.streams[#[trigger] s.strict[j]].priority.0
}

/// A scheduler without streams is consistent.
pub proof fn law_new_is_consistent()
    ensures
        consistent(
            SchedulerState { streams: Map::empty(), bulk: Seq::empty(), strict: Seq::empty() },
        ),
{
}

/// Registering a stream that is not in the table keeps the scheduler consistent.
/// In particular the strict queue stays ordered by level.
pub proof fn law_register_keeps_consistency(
    s: SchedulerState,
    t: SchedulerState,
    id: u128,
    priority: Priority,
)
    requires
        consistent(s),
        !s.streams.contains_key(id),
        registers(s, t, id, priority),
    ensures
        consistent(t),
        t.streams.dom() == s.streams.dom().insert(id),
        t.streams[id].priority == priority,
        t.streams[id].deficit == 0,
        t.streams[id].backlog == 0,
{
    let streams = s.streams.insert(id, new_entry(priority));
    if priority.strict() {
        let at = choose|i: int|
            #![trigger s.strict.insert(i, id)]
            is_strict_slot(streams, s.strict, priority.0, i) && t.strict == s.strict.insert(i, id);
        assert forall|i: int| 0 <= i < t.strict.len() implies t.streams.contains_key(
            #[trigger] t.strict[i],
        ) && t.streams[t.strict[i]].priority.strict() by {
            if i < at {
                assert(t.strict[i] == s.strict[i]);
            } else if i > at {
                assert(t.strict[i] == s.strict[i - 1]);
            }
        }
        assert forall|x: u128| #[trigger] t.streams.contains_key(x) implies if t.streams[x].priority.strict() {
            t.strict.contains(x)
        } else {
            t.bulk.contains(x)
        } by {
            if x == id {
                assert(t.strict[at] == id);
            } else {
                assert(s.streams.contains_key(x));
                if s.streams[x].priority.strict() {
                    let j = choose|j: int| 0 <= j < s.strict.len() && s.strict[j] == x;
                    if j < at {
                        assert(t.strict[j] == x);
                    } else {
                        assert(t.strict[j + 1] == x);
                    }
                }
            }
        }
        assert forall|i: int, j: int| 0 <= i < j < t.strict.len() implies t.streams[#[trigger] t.strict[i]].priority.0
            >= t.streams[#[trigger] t.strict[j]].priority.0 by {
            let si = if i < at { i } else { i - 1 };
            let sj = if j < at { j } else { j - 1 };
            if i == at {
                assert(t.strict[j] == s.strict[sj]);
                if sj > at {
                    assert(s.streams[s.strict[at]].priority.0 >= s.streams[s.strict[sj]].priority.0);
                }
                assert(level_of(streams, s.strict[at]) < priority.0);
            } else if j == at {
                assert(t.strict[i] == s.strict[si]);
                assert(level_of(streams, s.strict[si]) >= priority.0);
            } else {
                assert(t.strict[i] == s.strict[si]);
                assert(t.strict[j] == s.strict[sj]);
            }
        }
        assert(t.strict.no_duplicates()) by {
            assert forall|i: int, j: int|
                0 <= i < t.strict.len() && 0 <= j < t.strict.len() && i != j implies t.strict[i]
                != t.strict[j] by {
                let si = if i < at { i } else { i - 1 };
                let sj = if j < at { j } else { j - 1 };
                if i != at {
                    assert(t.strict[i] == s.strict[si]);
                }
                if j != at {
                    assert(t.strict[j] == s.strict[sj]);
                }
            }
        }
        assert(t.streams.dom() =~= s.streams.dom().insert(id));
    } else {
        assert forall|i: int| 0 <= i < t.bulk.len() implies t.streams.contains_key(
            #[trigger] t.bulk[i],
        ) && !t.streams[t.bulk[i]].priority.strict() by {
            if i < s.bulk.len() {
                assert(t.bulk[i] == s.bulk[i]);
            }
        }
        assert forall|x: u128| #[trigger] t.streams.contains_key(x) implies if t.streams[x].priority.strict() {
            t.strict.contains(x)
        } else {
            t.bulk.contains(x)
        } by {
            if x == id {
                assert(t.bulk[s.bulk.len() as int] == id);
            } else {
                assert(s.streams.contains_key(x));
                if !s.streams[x].priority.strict() {
                    let j = choose|j: int| 0 <= j < s.bulk.len() && s.bulk[j] == x;
                    assert(t.bulk[j] == x);
                }
            }
        }
        assert forall|i: int| 0 <= i < t.strict.len() implies t.streams.contains_key(
            #[trigger] t.strict[i],
        ) && t.streams[t.strict[i]].priority.strict() by {
            assert(s.streams.contains_key(s.strict[i]));
        }
        assert(t.streams.dom() =~= s.streams.dom().insert(id));
    }
}

/// `x` stands somewhere before `y`.
pub open spec fn in_order(q: Seq<u128>, x: u128, y: u128) -> bool {
    exists|a: int, b: int| 0 <= a < b < q.len() && q[a] == x && q[b] == y
}

/// A filtered queue keeps its order, loses exactly `id` and gains nothing.
proof fn lemma_without(q: Seq<u128>, id: u128)
    requires
        q.no_duplicates(),
    ensures
        q.filter(other_than(id)).no_duplicates(),
        forall|x: u128| #[trigger]
            q.filter(other_than(id)).contains(x) <==> q.contains(x) && x != id,
        forall|i: int, j: int|
            0 <= i < j < q.filter(other_than(id)).len() ==> #[trigger] in_order(
                q,
                q.filter(other_than(id))[i],
                q.filter(other_than(id))[j],
            ),
    decreases q.len(),
{
    reveal(Seq::filter);
    let f = q.filter(other_than(id));
    if q.len() > 0 {
        let p = q.drop_last();
        let x = q.last();
        lemma_without(p, id);
        let g = p.filter(other_than(id));
        assert(q =~= p.push(x));
        assert(f == if x != id { g.push(x) } else { g });
        assert forall|y: u128| #[trigger] f.contains(y) <==> q.contains(y) && y != id by {
            if f.contains(y) {
                let i = choose|i: int| 0 <= i < f.len() && f[i] == y;
                if i < g.len() {
                    assert(g[i] == y);
                    assert(g.contains(y));
                    let k = choose|k: int| 0 <= k < p.len() && p[k] == y;
                    assert(q[k] == y);
                } else {
                    assert(q[q.len() - 1] == y);
                }
            }
            if q.contains(y) && y != id {
                let k = choose|k: int| 0 <= k < q.len() && q[k] == y;
                if k < p.len() {
                    assert(p[k] == y);
                    assert(p.contains(y));
                    assert(g.contains(y));
                    let i = choose|i: int| 0 <= i < g.len() && g[i] == y;
                    assert(f[i] == y);
                } else {
                    assert(f[f.len() - 1] == y);
                }
            }
        }
        assert forall|i: int, j: int| 0 <= i < j < f.len() implies #[trigger] in_order(
            q,
            f[i],
            f[j],
        ) by {
            if j < g.len() {
                assert(f[i] == g[i] && f[j] == g[j]);
                assert(in_order(p, g[i], g[j]));
                let (a, b) = choose|a: int, b: int|
                    0 <= a < b < p.len() && p[a] == g[i] && p[b] == g[j];
                assert(q[a] == f[i] && q[b] == f[j]);
            } else {
                assert(f[i] == g[i]);
                assert(g.contains(g[i]));
                let a = choose|a: int| 0 <= a < p.len() && p[a] == g[i];
                assert(q[a] == f[i] && q[q.len() - 1] == f[j]);
            }
        }
        assert(f.no_duplicates()) by {
            assert forall|i: int, j: int| 0 <= i < f.len() && 0 <= j < f.len() && i != j implies f[i]
                != f[j] by {
                let lo = if i < j { i } else { j };
                let hi = if i < j { j } else { i };
                assert(in_order(q, f[lo], f[hi]));
                let (a, b) = choose|a: int, b: int|
                    0 <= a < b < q.len() && q[a] == f[lo] && q[b] == f[hi];
                assert(q[a] != q[b]);
            }
        }
    }
}

/// Deregistering keeps the scheduler consistent, and the stream is gone from the
/// table and from both queues.
pub proof fn law_deregister_removes(s: SchedulerState, id: u128)
    requires
        consistent(s),
    ensures
        consistent(deregistered(s, id)),
        !deregistered(s, id).streams.contains_key(id),
        !deregistered(s, id).bulk.contains(id),
        !deregistered(s, id).strict.contains(id),
        forall|x: u128|
            x != id ==> (#[trigger] deregistered(s, id).streams.contains_key(x)
                <==> s.streams.contains_key(x)),
{
    let t = deregistered(s, id);
    if !s.streams.contains_key(id) {
        if s.bulk.contains(id) {
            let i = choose|i: int| 0 <= i < s.bulk.len() && s.bulk[i] == id;
            assert(s.streams.contains_key(s.bulk[i]));
        }
        if s.strict.contains(id) {
            let i = choose|i: int| 0 <= i < s.strict.len() && s.strict[i] == id;
            assert(s.streams.contains_key(s.strict[i]));
        }
    } else if s.streams[id].priority.strict() {
        lemma_without(s.strict, id);
        if s.bulk.contains(id) {
            let i = choose|i: int| 0 <= i < s.bulk.len() && s.bulk[i] == id;
            assert(!s.streams[s.bulk[i]].priority.strict());
        }
        assert forall|i: int| 0 <= i < t.strict.len() implies t.streams.contains_key(
            #[trigger] t.strict[i],
        ) && t.streams[t.strict[i]].priority.strict() by {
            assert(t.strict.contains(t.strict[i]));
            let k = choose|k: int| 0 <= k < s.strict.len() && s.strict[k] == t.strict[i];
            assert(s.streams.contains_key(s.strict[k]));
        }
        assert forall|i: int, j: int| 0 <= i < j < t.strict.len() implies t.streams[#[trigger] t.strict[i]].priority.0
            >= t.streams[#[trigger] t.strict[j]].priority.0 by {
            assert(in_order(s.strict, t.strict[i], t.strict[j]));
            let (a, b) = choose|a: int, b: int|
                0 <= a < b < s.strict.len() && s.strict[a] == t.strict[i] && s.strict[b]
                    == t.strict[j];
            assert(t.strict.contains(t.strict[i]));
            assert(t.strict.contains(t.strict[j]));
            assert(s.streams[s.strict[a]].priority.0 >= s.streams[s.strict[b]].priority.0);
        }
        assert forall|i: int| 0 <= i < t.bulk.len() implies t.streams.contains_key(
            #[trigger] t.bulk[i],
        ) && !t.streams[t.bulk[i]].priority.strict() by {
            assert(s.streams.contains_key(s.bulk[i]));
        }
    } else {
        lemma_without(s.bulk, id);
        if s.strict.contains(id) {
            let i = choose|i: int| 0 <= i < s.strict.len() && s.strict[i] == id;
            assert(s.streams[s.strict[i]].priority.strict());
        }
        assert forall|i: int| 0 <= i < t.bulk.len() implies t.streams.contains_key(
            #[trigger] t.bulk[i],
        ) && !t.streams[t.bulk[i]].priority.strict() by {
            assert(t.bulk.contains(t.bulk[i]));
            let k = choose|k: int| 0 <= k < s.bulk.len() && s.bulk[k] == t.bulk[i];
            assert(s.streams.contains_key(s.bulk[k]));
        }
        assert forall|i: int| 0 <= i < t.strict.len() implies t.streams.contains_key(
            #[trigger] t.strict[i],
        ) && t.streams[t.strict[i]].priority.strict() by {
            assert(s.streams.contains_key(s.strict[i]));
        }
        assert forall|i: int, j: int| 0 <= i < j < t.strict.len() implies t.streams[#[trigger] t.strict[i]].priority.0
            >= t.streams[#[trigger] t.strict[j]].priority.0 by {
            assert(s.streams.contains_key(s.strict[i]) && s.streams.contains_key(s.strict[j]));
            assert(s.streams[s.strict[i]].priority.0 >= s.streams[s.strict[j]].priority.0);
        }
    }
}

// ---------------------------------------------------------------------------
// What a round leaves alone
// ---------------------------------------------------------------------------

/// Two rounds have the same streams in the round-robin order, and the same
/// priorities, quanta and backlogs; only deficits, order and grants differ.
pub open spec fn same_streams(a: Round, b: Round) -> bool {
    &&& a.order.len() == b.order.len()
    &&& forall|x: u128|
        #![trigger a.order.contains(x)]
        #![trigger b.order.contains(x)]
        a.order.contains(x) <==> b.order.contains(x)
    &&& a.order.no_duplicates() ==> b.order.no_duplicates()
    &&& a.streams.dom() == b.streams.dom()
    &&& forall|x: u128|
        #![trigger a.streams[x]]
        #![trigger b.streams[x]]
        a.streams.contains_key(x) ==> {
            &&& a.streams[x].priority == b.streams[x].priority
            &&& a.streams[x].quantum == b.streams[x].quantum
            &&& a.streams[x].backlog == b.streams[x].backlog
        }
}

proof fn lemma_same_streams_trans(a: Round, b: Round, c: Round)
    requires
        same_streams(a, b),
        same_streams(b, c),
    ensures
        same_streams(a, c),
{
    assert forall|x: u128| #[trigger] a.order.contains(x) <==> c.order.contains(x) by {
        assert(a.order.contains(x) <==> b.order.contains(x));
    }
    assert forall|x: u128| #[trigger] a.streams.contains_key(x) implies a.streams[x].priority
        == c.streams[x].priority && a.streams[x].quantum == c.streams[x].quantum
        && a.streams[x].backlog == c.streams[x].backlog by {
        assert(b.streams.dom().contains(x));
        assert(a.streams[x].priority == b.streams[x].priority);
        assert(b.streams[x].priority == c.streams[x].priority);
    }
}

proof fn lemma_turn_same_streams(s: Round)
    requires
        s.order.len() > 0,
    ensures
        same_streams(s, turn(s)),
{
    let t = turn(s);
    let id = s.order[0];
    if s.streams.contains_key(id) {
        assert(t.streams.dom() =~= s.streams.dom());
        assert forall|x: u128| #[trigger] s.order.contains(x) <==> t.order.contains(x) by {
            if s.order.contains(x) {
                let i = choose|i: int| 0 <= i < s.order.len() && s.order[i] == x;
                if i == 0 {
                    assert(t.order[s.order.len() - 1] == x);
                } else {
                    assert(t.order[i - 1] == x);
                }
            }
            if t.order.contains(x) {
                let i = choose|i: int| 0 <= i < t.order.len() && t.order[i] == x;
                if i == t.order.len() - 1 {
                    assert(s.order[0] == x);
                } else {
                    assert(s.order[i + 1] == x);
                }
            }
        }
        if s.order.no_duplicates() {
            assert forall|i: int, j: int|
                0 <= i < t.order.len() && 0 <= j < t.order.len() && i != j implies t.order[i]
                != t.order[j] by {
                let si = if i == t.order.len() - 1 { 0 } else { i + 1 };
                let sj = if j == t.order.len() - 1 { 0 } else { j + 1 };
                assert(s.order[si] != s.order[sj]);
            }
        }
    }
}

proof fn lemma_sweep_same_streams(s: Round, k: nat)
    requires
        s.order.len() > 0 || k == 0,
    ensures
        same_streams(s, sweep(s, k)),
    decreases k,
{
    if !(k == 0 || s.budget == 0 || s.missing is Some) {
        lemma_turn_same_streams(s);
        lemma_sweep_same_streams(turn(s), (k - 1) as nat);
        lemma_same_streams_trans(s, turn(s), sweep(turn(s), (k - 1) as nat));
    }
}

proof fn lemma_drain_same_streams(s: Round, idle: nat, n: nat)
    requires
        s.order.len() == n,
    ensures
        same_streams(s, drain(s, idle, n)),
    decreases s.budget, n - idle,
{
    if !(s.budget == 0 || idle >= n || s.missing is Some) {
        let t = turn(s);
        lemma_turn_same_streams(s);
        if t.missing is Some {
        } else if t.budget < s.budget {
            lemma_drain_same_streams(t, 0, n);
            lemma_same_streams_trans(s, t, drain(t, 0, n));
        } else {
            lemma_drain_same_streams(t, idle + 1, n);
            lemma_same_streams_trans(s, t, drain(t, idle + 1, n));
        }
    }
}

/// Scheduling changes deficits and rotates the bulk order; which streams there
/// are, their priorities, quanta and backlogs stay as they were.
pub proof fn law_schedule_keeps_streams(s: SchedulerState, budget: nat)
    ensures
        same_streams(bulk_start(s, budget), bulk_pass(s, budget)),
{
    let n = s.bulk.len();
    let start = bulk_start(s, budget);
    lemma_sweep_same_streams(start, n);
    lemma_drain_same_streams(sweep(start, n), 0, n);
    lemma_same_streams_trans(start, sweep(start, n), drain(sweep(start, n), 0, n));
}

// ---------------------------------------------------------------------------
// Who is served
// ---------------------------------------------------------------------------

/// Every allocation goes to a stream of the queue.
pub open spec fn only_from(allocs: Allocs, queue: Seq<u128>) -> bool {
    forall|i: int| 0 <= i < allocs.len() ==> queue.contains((#[trigger] allocs[i]).0)
}

/// Every allocation grants at least one byte.
pub open spec fn all_positive(allocs: Allocs) -> bool {
    forall|i: int| 0 <= i < allocs.len() ==> (#[trigger] allocs[i]).1 > 0
}

/// The strict pass serves queued streams only, and never with nothing.
pub proof fn law_strict_serves_queue_only(
    streams: Map<u128, StreamEntry>,
    queue: Seq<u128>,
    budget: nat,
)
    requires
        budget <= u64::MAX,
    ensures
        only_from(strict_pass(streams, queue, budget).allocs, queue),
        all_positive(strict_pass(streams, queue, budget).allocs),
        strict_pass(streams, queue, budget).budget <= budget,
    decreases queue.len(),
{
    if queue.len() > 0 {
        let p = strict_pass(streams, queue.drop_last(), budget);
        let r = strict_pass(streams, queue, budget);
        law_strict_serves_queue_only(streams, queue.drop_last(), budget);
        assert forall|i: int| 0 <= i < r.allocs.len() implies queue.contains(
            (#[trigger] r.allocs[i]).0,
        ) by {
            if i < p.allocs.len() {
                assert(r.allocs[i] == p.allocs[i]);
                let q = queue.drop_last();
                assert(q.contains(p.allocs[i].0));
                let j = choose|j: int| 0 <= j < q.len() && q[j] == p.allocs[i].0;
                assert(queue[j] == p.allocs[i].0);
            } else {
                assert(queue[queue.len() - 1] == r.allocs[i].0);
            }
        }
        assert forall|i: int| 0 <= i < r.allocs.len() implies (#[trigger] r.allocs[i]).1 > 0 by {
            if i < p.allocs.len() {
                assert(r.allocs[i] == p.allocs[i]);
            }
        }
    }
}

proof fn lemma_turn_only_from(s: Round, queue: Seq<u128>)
    requires
        s.order.len() > 0,
        only_from(s.allocs, queue),
        all_positive(s.allocs),
        queue.contains(s.order[0]),
        allocated(s.allocs) + s.budget <= u64::MAX,
    ensures
        only_from(turn(s).allocs, queue),
        all_positive(turn(s).allocs),
        allocated(turn(s).allocs) + turn(s).budget <= u64::MAX,
{
    lemma_turn_total(s);
    let id = s.order[0];
    if s.streams.contains_key(id) {
        let sent = bulk_grant(s.streams[id], s.budget);
        let t = turn(s);
        if sent > 0 && exists|i: int| is_first_alloc(s.allocs, id, i) {
            let c = choose|i: int| is_first_alloc(s.allocs, id, i);
            lemma_one_within_total(s.allocs, c);
            assert forall|i: int| 0 <= i < t.allocs.len() implies queue.contains(
                (#[trigger] t.allocs[i]).0,
            ) && t.allocs[i].1 > 0 by {
                assert(s.allocs[i].1 > 0);
                if i != c {
                    assert(t.allocs[i] == s.allocs[i]);
                }
            }
        } else if sent > 0 {
            assert forall|i: int| 0 <= i < t.allocs.len() implies queue.contains(
                (#[trigger] t.allocs[i]).0,
            ) && t.allocs[i].1 > 0 by {
                if i < s.allocs.len() {
                    assert(t.allocs[i] == s.allocs[i]);
                }
            }
        }
    }
}

proof fn lemma_one_within_total(allocs: Allocs, i: int)
    requires
        0 <= i < allocs.len(),
    ensures
        allocs[i].1 <= allocated(allocs),
    decreases allocs.len(),
{
    if i < allocs.len() - 1 {
        lemma_one_within_total(allocs.drop_last(), i);
    }
}

proof fn lemma_sweep_only_from(s: Round, k: nat, queue: Seq<u128>)
    requires
        s.order.len() > 0 || k == 0,
        only_from(s.allocs, queue),
        all_positive(s.allocs),
        forall|x: u128| #[trigger] s.order.contains(x) ==> queue.contains(x),
        allocated(s.allocs) + s.budget <= u64::MAX,
    ensures
        only_from(sweep(s, k).allocs, queue),
        all_positive(sweep(s, k).allocs),
        allocated(sweep(s, k).allocs) + sweep(s, k).budget <= u64::MAX,
    decreases k,
{
    if !(k == 0 || s.budget == 0 || s.missing is Some) {
        assert(s.order.contains(s.order[0]));
        lemma_turn_only_from(s, queue);
        lemma_turn_same_streams(s);
        lemma_sweep_only_from(turn(s), (k - 1) as nat, queue);
    }
}

proof fn lemma_drain_only_from(s: Round, idle: nat, n: nat, queue: Seq<u128>)
    requires
        s.order.len() == n,
        only_from(s.allocs, queue),
        all_positive(s.allocs),
        forall|x: u128| #[trigger] s.order.contains(x) ==> queue.contains(x),
        allocated(s.allocs) + s.budget <= u64::MAX,
    ensures
        only_from(drain(s, idle, n).allocs, queue),
        all_positive(drain(s, idle, n).allocs),
    decreases s.budget, n - idle,
{
    if !(s.budget == 0 || idle >= n || s.missing is Some) {
        let t = turn(s);
        assert(s.order.contains(s.order[0]));
        lemma_turn_only_from(s, queue);
        lemma_turn_same_streams(s);
        if t.missing is Some {
        } else if t.budget < s.budget {
            lemma_drain_only_from(t, 0, n, queue);
        } else {
            lemma_drain_only_from(t, idle + 1, n, queue);
        }
    }
}

/// The bulk pass serves streams of the bulk order only, and never with nothing.
/// With [`law_deregister_removes`]: a deregistered stream gets no allocation.
pub proof fn law_bulk_serves_order_only(s: SchedulerState, budget: nat)
    requires
        budget <= u64::MAX,
    ensures
        only_from(bulk_pass(s, budget).allocs, s.bulk),
        all_positive(bulk_pass(s, budget).allocs),
{
    let n = s.bulk.len();
    let start = bulk_start(s, budget);
    lemma_sweep_only_from(start, n, s.bulk);
    lemma_sweep_same_streams(start, n);
    lemma_drain_only_from(sweep(start, n), 0, n, s.bulk);
}

/// What the two passes granted and what is left over add up to the budget: it is
/// a hard ceiling and no part of it is lost.
pub proof fn law_budget_is_accounted_for(s: SchedulerState, budget: nat)
    requires
        budget <= u64::MAX,
    ensures
        ({
            let strict = strict_pass(s.streams, s.strict, budget);
            let bulk = bulk_pass(s, strict.budget);
            allocated(strict.allocs + bulk.allocs) + bulk.budget == budget
        }),
{
    let strict = strict_pass(s.streams, s.strict, budget);
    lemma_strict_pass_total(s.streams, s.strict, budget);
    let start = bulk_start(s, strict.budget);
    let n = s.bulk.len();
    lemma_sweep_total(start, n);
    lemma_drain_total(sweep(start, n), 0, n);
    lemma_allocated_concat(strict.allocs, bulk_pass(s, strict.budget).allocs);
}

/// Bulk streams get something only once every strict stream has all that its
/// backlog and quantum allow.
pub proof fn law_strict_before_bulk(
    streams: Map<u128, StreamEntry>,
    queue: Seq<u128>,
    budget: nat,
    i: int,
)
    requires
        budget <= u64::MAX,
        0 <= i < queue.len(),
        strict_pass(streams, queue, budget).missing is None,
        strict_pass(streams, queue, budget).budget > 0,
    ensures
        streams.contains_key(queue[i]),
        ({
            let want = min(streams[queue[i]].backlog as nat, streams[queue[i]].quantum as nat);
            want > 0 ==> strict_pass(streams, queue, budget).allocs.contains(
                (queue[i], want as u64),
            )
        }),
    decreases queue.len(),
{
    let p = strict_pass(streams, queue.drop_last(), budget);
    let r = strict_pass(streams, queue, budget);
    if i < queue.len() - 1 {
        law_strict_before_bulk(streams, queue.drop_last(), budget, i);
        let want = min(streams[queue[i]].backlog as nat, streams[queue[i]].quantum as nat);
        if want > 0 {
            let j = choose|j: int| 0 <= j < p.allocs.len() && p.allocs[j] == (queue[i], want as u64);
            assert(r.allocs[j] == (queue[i], want as u64));
        }
    } else {
        let want = min(streams[queue[i]].backlog as nat, streams[queue[i]].quantum as nat);
        if want > 0 {
            assert(r.allocs[r.allocs.len() - 1] == (queue[i], want as u64));
        }
    }
}

// ---------------------------------------------------------------------------
// No failure on a consistent scheduler
// ---------------------------------------------------------------------------

proof fn lemma_strict_pass_none_missing(
    streams: Map<u128, StreamEntry>,
    queue: Seq<u128>,
    budget: nat,
)
    requires
        forall|i: int| 0 <= i < queue.len() ==> streams.contains_key(#[trigger] queue[i]),
    ensures
        strict_pass(streams, queue, budget).missing is None,
    decreases queue.len(),
{
    if queue.len() > 0 {
        assert forall|i: int| 0 <= i < queue.len() - 1 implies streams.contains_key(
            #[trigger] queue.drop_last()[i],
        ) by {
            assert(streams.contains_key(queue[i]));
        }
        lemma_strict_pass_none_missing(streams, queue.drop_last(), budget);
        assert(streams.contains_key(queue[queue.len() - 1]));
    }
}

proof fn lemma_sweep_none_missing(s: Round, k: nat)
    requires
        s.order.len() > 0 || k == 0,
        s.missing is None,
        forall|x: u128| #[trigger] s.order.contains(x) ==> s.streams.contains_key(x),
    ensures
        sweep(s, k).missing is None,
    decreases k,
{
    if !(k == 0 || s.budget == 0) {
        assert(s.order.contains(s.order[0]));
        lemma_turn_same_streams(s);
        assert forall|x: u128| #[trigger] turn(s).order.contains(x) implies turn(
            s,
        ).streams.contains_key(x) by {
            assert(s.order.contains(x));
        }
        lemma_sweep_none_missing(turn(s), (k - 1) as nat);
    }
}

proof fn lemma_drain_none_missing(s: Round, idle: nat, n: nat)
    requires
        s.order.len() == n,
        s.missing is None,
        forall|x: u128| #[trigger] s.order.contains(x) ==> s.streams.contains_key(x),
    ensures
        drain(s, idle, n).missing is None,
    decreases s.budget, n - idle,
{
    if !(s.budget == 0 || idle >= n) {
        let t = turn(s);
        assert(s.order.contains(s.order[0]));
        lemma_turn_same_streams(s);
        assert forall|x: u128| #[trigger] t.order.contains(x) implies t.streams.contains_key(x) by {
            assert(s.order.contains(x));
        }
        if t.budget < s.budget {
            lemma_drain_none_missing(t, 0, n);
        } else {
            lemma_drain_none_missing(t, idle + 1, n);
        }
    }
}

/// Scheduling never fails on a consistent scheduler, and leaves it consistent.
pub proof fn law_schedule_keeps_consistency(s: SchedulerState, budget: nat)
    requires
        consistent(s),
    ensures
        strict_pass(s.streams, s.strict, budget).missing is None,
        ({
            let bulk = bulk_pass(s, strict_pass(s.streams, s.strict, budget).budget);
            &&& bulk.missing is None
            &&& consistent(
                SchedulerState { streams: bulk.streams, bulk: bulk.order, strict: s.strict },
            )
        }),
{
    let left = strict_pass(s.streams, s.strict, budget).budget;
    lemma_strict_pass_none_missing(s.streams, s.strict, budget);
    let n = s.bulk.len();
    let start = bulk_start(s, left);
    assert forall|x: u128| #[trigger] start.order.contains(x) implies start.streams.contains_key(
        x,
    ) by {
        let i = choose|i: int| 0 <= i < s.bulk.len() && s.bulk[i] == x;
        assert(s.streams.contains_key(s.bulk[i]));
    }
    lemma_sweep_none_missing(start, n);
    lemma_sweep_same_streams(start, n);
    let swept = sweep(start, n);
    assert forall|x: u128| #[trigger] swept.order.contains(x) implies swept.streams.contains_key(
        x,
    ) by {
        assert(start.order.contains(x));
    }
    lemma_drain_none_missing(swept, 0, n);
    law_schedule_keeps_streams(s, left);
    let bulk = bulk_pass(s, left);
    let t = SchedulerState { streams: bulk.streams, bulk: bulk.order, strict: s.strict };
    assert forall|i: int| 0 <= i < t.bulk.len() implies t.streams.contains_key(
        #[trigger] t.bulk[i],
    ) && !t.streams[t.bulk[i]].priority.strict() by {
        assert(bulk.order.contains(t.bulk[i]));
        assert(start.order.contains(t.bulk[i]));
        let j = choose|j: int| 0 <= j < s.bulk.len() && s.bulk[j] == t.bulk[i];
        assert(s.streams.contains_key(s.bulk[j]));
        assert(start.streams[s.bulk[j]].priority == bulk.streams[s.bulk[j]].priority);
    }
    assert forall|i: int| 0 <= i < t.strict.len() implies t.streams.contains_key(
        #[trigger] t.strict[i],
    ) && t.streams[t.strict[i]].priority.strict() by {
        assert(s.streams.contains_key(s.strict[i]));
        assert(start.streams[s.strict[i]].priority == bulk.streams[s.strict[i]].priority);
    }
    assert forall|x: u128| #[trigger] t.streams.contains_key(x) implies if t.streams[x].priority.strict() {
        t.strict.contains(x)
    } else {
        t.bulk.contains(x)
    } by {
        assert(s.streams.dom().contains(x));
        assert(start.streams[x].priority == bulk.streams[x].priority);
        if !t.streams[x].priority.strict() {
            assert(start.order.contains(x));
        }
    }
    assert forall|i: int, j: int| 0 <= i < j < t.strict.len() implies t.streams[#[trigger] t.strict[i]].priority.0
        >= t.streams[#[trigger] t.strict[j]].priority.0 by {
        assert(s.streams.contains_key(s.strict[i]) && s.streams.contains_key(s.strict[j]));
        assert(start.streams[s.strict[i]].priority == bulk.streams[s.strict[i]].priority);
        assert(start.streams[s.strict[j]].priority == bulk.streams[s.strict[j]].priority);
        assert(s.streams[s.strict[i]].priority.0 >= s.streams[s.strict[j]].priority.0);
    }
}

// ---------------------------------------------------------------------------
// Idle streams
// ---------------------------------------------------------------------------

/// A stream that cannot use a turn: it has no credit left over and either nothing
/// to send or no quantum.
pub open spec fn idle_entry(e: StreamEntry) -> bool {
    e.deficit == 0 && (e.backlog == 0 || e.quantum == 0)
}

/// The last `k` streams of the order cannot use a turn.
pub open spec fn idle_tail(s: Round, k: nat) -> bool {
    forall|j: int|
        s.order.len() - k <= j < s.order.len() && 0 <= j ==> s.streams.contains_key(
            #[trigger] s.order[j],
        ) && idle_entry(s.streams[s.order[j]])
}

proof fn lemma_drain_uses_budget(s: Round, idle: nat, n: nat)
    requires
        s.order.len() == n,
        idle <= n,
        idle_tail(s, idle),
    ensures
        ({
            let r = drain(s, idle, n);
            r.missing is None && r.budget > 0 ==> idle_tail(r, n)
        }),
    decreases s.budget, n - idle,
{
    if !(s.budget == 0 || idle >= n || s.missing is Some) {
        let t = turn(s);
        lemma_turn_same_streams(s);
        if t.missing is Some {
        } else if t.budget < s.budget {
            lemma_drain_uses_budget(t, 0, n);
        } else {
            assert forall|j: int| n - (idle + 1) <= j < n && 0 <= j implies t.streams.contains_key(
                #[trigger] t.order[j],
            ) && idle_entry(t.streams[t.order[j]]) by {
                if j < n - 1 {
                    assert(t.order[j] == s.order[j + 1]);
                }
            }
            lemma_drain_uses_budget(t, idle + 1, n);
        }
    }
}

/// Budget is left over only when no bulk stream can use it: each has an empty
/// backlog or no quantum.
pub proof fn law_work_conserving(s: SchedulerState, budget: nat, i: int)
    requires
        bulk_pass(s, budget).missing is None,
        bulk_pass(s, budget).budget > 0,
        0 <= i < s.bulk.len(),
    ensures
        s.streams.contains_key(s.bulk[i]),
        s.streams[s.bulk[i]].backlog == 0 || s.streams[s.bulk[i]].quantum == 0,
{
    let n = s.bulk.len();
    let start = bulk_start(s, budget);
    lemma_sweep_same_streams(start, n);
    lemma_drain_uses_budget(sweep(start, n), 0, n);
    law_schedule_keeps_streams(s, budget);
    let r = bulk_pass(s, budget);
    assert(start.order.contains(s.bulk[i]));
    assert(r.order.contains(s.bulk[i]));
    let j = choose|j: int| 0 <= j < r.order.len() && r.order[j] == s.bulk[i];
    assert(idle_entry(r.streams[r.order[j]]));
    assert(r.streams.dom().contains(s.bulk[i]));
    assert(start.streams[s.bulk[i]].backlog == r.streams[s.bulk[i]].backlog);
}

/// A turn in which a stream sends nothing takes away the credit that it had.
pub proof fn law_idle_turn_forfeits_credit(s: Round)
    requires
        s.order.len() > 0,
        s.streams.contains_key(s.order[0]),
        bulk_grant(s.streams[s.order[0]], s.budget) == 0,
    ensures
        turn(s).streams[s.order[0]].deficit == 0,
        turn(s).allocs == s.allocs,
        turn(s).budget == s.budget,
{
}

/// Stream `id` has nothing to send and no credit.
pub open spec fn without_credit(s: Round, id: u128) -> bool {
    s.streams.contains_key(id) && s.streams[id].backlog == 0 && s.streams[id].deficit == 0
}

proof fn lemma_sweep_idle_stream(s: Round, k: nat, id: u128)
    requires
        s.order.len() > 0 || k == 0,
        without_credit(s, id),
    ensures
        without_credit(sweep(s, k), id),
    decreases k,
{
    if !(k == 0 || s.budget == 0 || s.missing is Some) {
        lemma_turn_same_streams(s);
        lemma_sweep_idle_stream(turn(s), (k - 1) as nat, id);
    }
}

proof fn lemma_drain_idle_stream(s: Round, idle: nat, n: nat, id: u128)
    requires
        s.order.len() == n,
        without_credit(s, id),
    ensures
        without_credit(drain(s, idle, n), id),
    decreases s.budget, n - idle,
{
    if !(s.budget == 0 || idle >= n || s.missing is Some) {
        let t = turn(s);
        lemma_turn_same_streams(s);
        if t.missing is Some {
        } else if t.budget < s.budget {
            lemma_drain_idle_stream(t, 0, n, id);
        } else {
            lemma_drain_idle_stream(t, idle + 1, n, id);
        }
    }
}

/// A stream with nothing to send gains no credit from being scheduled.
pub proof fn law_idle_stream_gains_no_credit(s: SchedulerState, budget: nat, id: u128)
    requires
        s.streams.contains_key(id),
        s.streams[id].backlog == 0,
        s.streams[id].deficit == 0,
    ensures
        bulk_pass(s, budget).streams.contains_key(id),
        bulk_pass(s, budget).streams[id].deficit == 0,
{
    let n = s.bulk.len();
    let start = bulk_start(s, budget);
    lemma_sweep_idle_stream(start, n, id);
    lemma_sweep_same_streams(start, n);
    lemma_drain_idle_stream(sweep(start, n), 0, n, id);
}

// ---------------------------------------------------------------------------
// Fairness
// ---------------------------------------------------------------------------

/// Bytes granted to one stream.
pub open spec fn granted(allocs: Allocs, id: u128) -> nat
    decreases allocs.len(),
{
    if allocs.len() == 0 {
        0
    } else {
        granted(allocs.drop_last(), id) + if allocs.last().0 == id {
            allocs.last().1 as nat
        } else {
            0
        }
    }
}

proof fn lemma_granted_update(allocs: Allocs, i: int, n: u64, id: u128)
    requires
        0 <= i < allocs.len(),
    ensures
        granted(allocs.update(i, (allocs[i].0, n)), id) == granted(allocs, id) + if allocs[i].0
            == id {
            n - allocs[i].1
        } else {
            0
        },
    decreases allocs.len(),
{
    let u = allocs.update(i, (allocs[i].0, n));
    if i == allocs.len() - 1 {
        assert(u.drop_last() =~= allocs.drop_last());
    } else {
        lemma_granted_update(allocs.drop_last(), i, n, id);
        assert(u.drop_last() =~= allocs.drop_last().update(i, (allocs[i].0, n)));
    }
}

proof fn lemma_granted_accumulate(allocs: Allocs, id: u128, n: nat, x: u128)
    requires
        allocated(allocs) + n <= u64::MAX,
    ensures
        granted(accumulate(allocs, id, n), x) == granted(allocs, x) + if x == id {
            n
        } else {
            0
        },
{
    if exists|i: int| is_first_alloc(allocs, id, i) {
        let i = choose|i: int| is_first_alloc(allocs, id, i);
        lemma_one_within_total(allocs, i);
        lemma_granted_update(allocs, i, (allocs[i].1 + n) as u64, x);
    } else {
        assert(allocs.push((id, n as u64)).drop_last() =~= allocs);
    }
}

/// In the middle of a round in which every stream takes its full quantum `q`: the
/// last `k` streams have had one turn more than the others.
spec fn mid_round(s: Round, q: nat, base: nat, k: nat, most: nat) -> bool {
    &&& k < s.order.len()
    &&& q > 0
    &&& s.missing is None
    &&& s.order.no_duplicates()
    &&& s.budget <= most
    &&& allocated(s.allocs) + s.budget <= u64::MAX
    &&& forall|j: int|
        0 <= j < s.order.len() ==> {
            let e = s.streams[#[trigger] s.order[j]];
            &&& s.streams.contains_key(s.order[j])
            &&& e.quantum == q
            &&& e.deficit == 0
            &&& e.backlog >= most
            &&& granted(s.allocs, s.order[j]) == if j < s.order.len() - k {
                base
            } else {
                base + q
            }
        }
}

/// No two streams of the order are further apart than `q` bytes.
pub open spec fn within(allocs: Allocs, order: Seq<u128>, q: nat) -> bool {
    forall|i: int, j: int|
        0 <= i < order.len() && 0 <= j < order.len() ==> granted(allocs, #[trigger] order[i])
            <= granted(allocs, #[trigger] order[j]) + q
}

/// One step of such a round: it goes on, or the budget is used up and the streams
/// are within one quantum of each other.
proof fn lemma_fair_turn(s: Round, q: nat, base: nat, k: nat, most: nat) -> (next: (nat, nat))
    requires
        mid_round(s, q, base, k, most),
        s.budget > 0,
    ensures
        turn(s).missing is None,
        turn(s).budget < s.budget,
        turn(s).order.len() == s.order.len(),
        turn(s).budget > 0 ==> mid_round(turn(s), q, next.0, next.1, most),
        within(turn(s).allocs, turn(s).order, q),
        forall|x: u128| #[trigger] turn(s).order.contains(x) <==> s.order.contains(x),
{
    let n = s.order.len();
    let t = turn(s);
    let id = s.order[0];
    let e = s.streams[id];
    let sent = bulk_grant(e, s.budget);
    assert(sent == min(s.budget, q));
    lemma_turn_same_streams(s);
    lemma_turn_total(s);
    assert forall|j: int| 0 <= j < n implies granted(t.allocs, #[trigger] t.order[j]) == granted(
        s.allocs,
        t.order[j],
    ) + if j == n - 1 {
        sent
    } else {
        0
    } by {
        lemma_granted_accumulate(s.allocs, id, sent, t.order[j]);
        if j < n - 1 {
            assert(t.order[j] == s.order[j + 1]);
            assert(s.order[j + 1] != s.order[0]);
        }
    }
    assert forall|j: int| 0 <= j < n implies base <= granted(t.allocs, #[trigger] t.order[j])
        <= base + q by {
        if j < n - 1 {
            assert(t.order[j] == s.order[j + 1]);
        } else {
            assert(t.order[j] == s.order[0]);
        }
    }
    let next: (nat, nat) = if k + 1 == n {
        (base + q, 0nat)
    } else {
        (base, k + 1)
    };
    if t.budget > 0 {
        assert forall|j: int| 0 <= j < n implies ({
            let f = t.streams[#[trigger] t.order[j]];
            &&& t.streams.contains_key(t.order[j])
            &&& f.quantum == q
            &&& f.deficit == 0
            &&& f.backlog >= most
            &&& granted(t.allocs, t.order[j]) == if j < n - next.1 {
                next.0
            } else {
                next.0 + q
            }
        }) by {
            if j < n - 1 {
                assert(t.order[j] == s.order[j + 1]);
                assert(s.order[j + 1] != s.order[0]);
            } else {
                assert(t.order[j] == s.order[0]);
            }
        }
    }
    next
}

proof fn lemma_fair_drain(s: Round, n: nat, q: nat, base: nat, k: nat, most: nat)
    requires
        n == s.order.len(),
        mid_round(s, q, base, k, most),
        within(s.allocs, s.order, q),
    ensures
        within(drain(s, 0, n).allocs, drain(s, 0, n).order, q),
    decreases s.budget,
{
    if s.budget > 0 {
        let next = lemma_fair_turn(s, q, base, k, most);
        if turn(s).budget > 0 {
            lemma_fair_drain(turn(s), n, q, next.0, next.1, most);
        } else {
            assert(drain(turn(s), 0, n) == turn(s));
        }
    }
}

proof fn lemma_fair_pass(s: Round, m: nat, n: nat, q: nat, base: nat, k: nat, most: nat)
    requires
        n == s.order.len(),
        mid_round(s, q, base, k, most),
        within(s.allocs, s.order, q),
    ensures
        ({
            let r = drain(sweep(s, m), 0, n);
            within(r.allocs, r.order, q)
        }),
    decreases m,
{
    if m == 0 || s.budget == 0 {
        lemma_fair_drain(s, n, q, base, k, most);
    } else {
        let next = lemma_fair_turn(s, q, base, k, most);
        if turn(s).budget > 0 {
            lemma_fair_pass(turn(s), (m - 1) as nat, n, q, next.0, next.1, most);
        }
    }
}

/// Bulk streams share fairly: when all have the same quantum, no credit left over
/// and more to send than there is budget, no two of them are granted amounts
/// further apart than one quantum.
pub proof fn law_fair_share(s: SchedulerState, budget: nat, q: nat)
    requires
        budget <= u64::MAX,
        q > 0,
        s.bulk.no_duplicates(),
        forall|i: int|
            0 <= i < s.bulk.len() ==> {
                let e = s.streams[#[trigger] s.bulk[i]];
                &&& s.streams.contains_key(s.bulk[i])
                &&& e.quantum == q
                &&& e.deficit == 0
                &&& e.backlog >= budget
            },
    ensures
        within(bulk_pass(s, budget).allocs, s.bulk, q),
{
    let n = s.bulk.len();
    if n > 0 {
        let start = bulk_start(s, budget);
        assert(mid_round(start, q, 0, 0, budget));
        lemma_fair_pass(start, n, n, q, 0, 0, budget);
        law_schedule_keeps_streams(s, budget);
        let r = bulk_pass(s, budget);
        assert forall|i: int, j: int| 0 <= i < n && 0 <= j < n implies granted(
            r.allocs,
            #[trigger] s.bulk[i],
        ) <= granted(r.allocs, #[trigger] s.bulk[j]) + q by {
            assert(start.order.contains(s.bulk[i]) && start.order.contains(s.bulk[j]));
            assert(r.order.contains(s.bulk[i]) && r.order.contains(s.bulk[j]));
            let a = choose|a: int| 0 <= a < r.order.len() && r.order[a] == s.bulk[i];
            let b = choose|b: int| 0 <= b < r.order.len() && r.order[b] == s.bulk[j];
            assert(granted(r.allocs, r.order[a]) <= granted(r.allocs, r.order[b]) + q);
        }
    }
}

// ---------------------------------------------------------------------------
// One call
// ---------------------------------------------------------------------------

/// Bytes granted by a list are the sum of its entries.
pub proof fn law_total_is_the_sum(a: Allocs, b: Allocs, id: u128, n: u64)
    ensures
        allocated(Seq::empty()) == 0,
        allocated(seq![(id, n)]) == n,
        allocated(a + b) == allocated(a) + allocated(b),
        granted(Seq::empty(), id) == 0,
        granted(seq![(id, n)], id) == n,
        granted(a + b, id) == granted(a, id) + granted(b, id),
{
    lemma_allocated_concat(a, b);
    lemma_granted_concat(a, b, id);
    let one = seq![(id, n)];
    assert(one.drop_last() =~= Seq::<(u128, u64)>::empty());
    assert(allocated(one.drop_last()) == 0);
    assert(granted(one.drop_last(), id) == 0);
}

proof fn lemma_granted_concat(a: Allocs, b: Allocs, id: u128)
    ensures
        granted(a + b, id) == granted(a, id) + granted(b, id),
    decreases b.len(),
{
    if b.len() == 0 {
        assert(a + b =~= a);
    } else {
        lemma_granted_concat(a, b.drop_last(), id);
        assert((a + b).drop_last() =~= a + b.drop_last());
    }
}

proof fn lemma_granted_to_none(v: Allocs, queue: Seq<u128>, id: u128)
    requires
        only_from(v, queue),
        !queue.contains(id),
    ensures
        granted(v, id) == 0,
    decreases v.len(),
{
    if v.len() > 0 {
        assert(queue.contains(v[v.len() - 1].0));
        let w = v.drop_last();
        assert forall|i: int| 0 <= i < w.len() implies queue.contains((#[trigger] w[i]).0) by {
            assert(w[i] == v[i]);
        }
        lemma_granted_to_none(w, queue, id);
    }
}

proof fn lemma_granted_within_total(v: Allocs, id: u128)
    ensures
        granted(v, id) <= allocated(v),
    decreases v.len(),
{
    if v.len() > 0 {
        lemma_granted_within_total(v.drop_last(), id);
    }
}

/// A list that has an entry of some bytes for a stream grants it at least these.
proof fn lemma_granted_at_least(v: Allocs, i: int)
    requires
        0 <= i < v.len(),
    ensures
        granted(v, v[i].0) >= v[i].1,
    decreases v.len(),
{
    if i < v.len() - 1 {
        lemma_granted_at_least(v.drop_last(), i);
        assert(v.drop_last()[i] == v[i]);
    }
}

/// The two tiers of a consistent scheduler have no stream in common.
proof fn lemma_tiers_are_apart(s: SchedulerState, x: u128)
    requires
        consistent(s),
        s.bulk.contains(x),
    ensures
        !s.strict.contains(x),
        s.streams.contains_key(x),
{
    let i = choose|i: int| 0 <= i < s.bulk.len() && s.bulk[i] == x;
    assert(!s.streams[s.bulk[i]].priority.strict());
    if s.strict.contains(x) {
        let j = choose|j: int| 0 <= j < s.strict.len() && s.strict[j] == x;
        assert(s.streams[s.strict[j]].priority.strict());
    }
}

/// What a strict stream gets is bounded by its backlog and its quantum.
proof fn lemma_strict_grant_bounded(
    streams: Map<u128, StreamEntry>,
    queue: Seq<u128>,
    budget: nat,
    x: u128,
)
    requires
        budget <= u64::MAX,
        queue.no_duplicates(),
        streams.contains_key(x),
    ensures
        granted(strict_pass(streams, queue, budget).allocs, x) <= min(
            streams[x].backlog as nat,
            streams[x].quantum as nat,
        ),
    decreases queue.len(),
{
    if queue.len() > 0 {
        let front = queue.drop_last();
        assert(front.no_duplicates());
        let p = strict_pass(streams, front, budget);
        lemma_strict_grant_bounded(streams, front, budget, x);
        law_strict_serves_queue_only(streams, front, budget);
        let r = strict_pass(streams, queue, budget);
        if r.allocs.len() > p.allocs.len() {
            assert(r.allocs.drop_last() =~= p.allocs);
            if queue.last() == x {
                assert(!front.contains(x)) by {
                    if front.contains(x) {
                        let j = choose|j: int| 0 <= j < front.len() && front[j] == x;
                        assert(queue[j] == queue[queue.len() - 1]);
                    }
                }
                lemma_granted_to_none(p.allocs, front, x);
            }
        }
    }
}

/// Scheduling a consistent scheduler succeeds and keeps it consistent: the same streams
/// with the same priorities, quanta and backlogs, the strict queue as it was. The budget
/// is a ceiling. Every strict stream gets no more than its backlog and its quantum; a
/// bulk stream gets something, or budget is left over, only when every strict stream has
/// got just that. Budget is left over only when no bulk stream has anything to send.
/// Nothing goes to a stream that is in neither queue.
pub proof fn law_schedule_shares_the_budget(s: SchedulerState, budget: nat)
    requires
        consistent(s),
        budget <= u64::MAX,
    ensures
        schedule_result(s, budget) is Ok,
        consistent(schedule_state(s, budget)),
        ({
            let v = schedule_result(s, budget)->Ok_0;
            let t = schedule_state(s, budget);
            &&& t.strict == s.strict
            &&& t.streams.dom() == s.streams.dom()
            &&& forall|x: u128| #[trigger]
                s.streams.contains_key(x) ==> t.streams[x].priority == s.streams[x].priority
                    && t.streams[x].quantum == s.streams[x].quantum && t.streams[x].backlog
                    == s.streams[x].backlog
            &&& allocated(v) <= budget
            &&& all_positive(v)
            &&& forall|x: u128|
                !s.strict.contains(x) && !s.bulk.contains(x) ==> #[trigger] granted(v, x) == 0
            &&& forall|i: int|
                0 <= i < s.strict.len() ==> granted(v, #[trigger] s.strict[i]) <= min(
                    s.streams[s.strict[i]].backlog as nat,
                    s.streams[s.strict[i]].quantum as nat,
                )
            &&& (allocated(v) < budget || exists|x: u128|
                s.bulk.contains(x) && #[trigger] granted(v, x) > 0) ==> forall|i: int|
                0 <= i < s.strict.len() ==> granted(v, #[trigger] s.strict[i]) == min(
                    s.streams[s.strict[i]].backlog as nat,
                    s.streams[s.strict[i]].quantum as nat,
                )
            &&& allocated(v) < budget ==> forall|i: int|
                0 <= i < s.bulk.len() ==> s.streams[#[trigger] s.bulk[i]].backlog == 0
                    || s.streams[s.bulk[i]].quantum == 0
        }),
{
    let strict = strict_pass(s.streams, s.strict, budget);
    let bulk = bulk_pass(s, strict.budget);
    let v = strict.allocs + bulk.allocs;
    let t = schedule_state(s, budget);
    law_schedule_keeps_consistency(s, budget);
    law_schedule_keeps_streams(s, strict.budget);
    law_budget_is_accounted_for(s, budget);
    law_strict_serves_queue_only(s.streams, s.strict, budget);
    law_bulk_serves_order_only(s, strict.budget);
    let start = bulk_start(s, strict.budget);
    assert forall|x: u128| #[trigger] s.streams.contains_key(x) implies t.streams[x].priority
        == s.streams[x].priority && t.streams[x].quantum == s.streams[x].quantum
        && t.streams[x].backlog == s.streams[x].backlog by {
        assert(start.streams[x].priority == bulk.streams[x].priority);
    }
    assert forall|i: int| 0 <= i < v.len() implies (#[trigger] v[i]).1 > 0 by {
        if i < strict.allocs.len() {
            assert(v[i] == strict.allocs[i]);
        } else {
            assert(v[i] == bulk.allocs[i - strict.allocs.len()]);
        }
    }
    assert forall|x: u128| !s.strict.contains(x) && !s.bulk.contains(x) implies #[trigger] granted(
        v,
        x,
    ) == 0 by {
        lemma_granted_concat(strict.allocs, bulk.allocs, x);
        lemma_granted_to_none(strict.allocs, s.strict, x);
        lemma_granted_to_none(bulk.allocs, s.bulk, x);
    }
    assert forall|i: int| 0 <= i < s.strict.len() implies granted(v, #[trigger] s.strict[i])
        == granted(strict.allocs, s.strict[i]) && granted(v, s.strict[i]) <= min(
        s.streams[s.strict[i]].backlog as nat,
        s.streams[s.strict[i]].quantum as nat,
    ) by {
        let x = s.strict[i];
        lemma_granted_concat(strict.allocs, bulk.allocs, x);
        assert(s.streams.contains_key(x));
        lemma_strict_grant_bounded(s.streams, s.strict, budget, x);
        if s.bulk.contains(x) {
            lemma_tiers_are_apart(s, x);
        }
        lemma_granted_to_none(bulk.allocs, s.bulk, x);
    }
    lemma_allocated_concat(strict.allocs, bulk.allocs);
    if allocated(v) < budget || exists|x: u128| s.bulk.contains(x) && #[trigger] granted(v, x) > 0 {
        assert(strict.budget > 0) by {
            if strict.budget == 0 {
                let x = choose|x: u128| s.bulk.contains(x) && #[trigger] granted(v, x) > 0;
                lemma_strict_pass_total(s.streams, s.strict, budget);
                lemma_tiers_are_apart(s, x);
                lemma_granted_to_none(strict.allocs, s.strict, x);
                lemma_granted_concat(strict.allocs, bulk.allocs, x);
                lemma_granted_within_total(bulk.allocs, x);
            }
        }
        assert forall|i: int| 0 <= i < s.strict.len() implies granted(v, #[trigger] s.strict[i])
            == min(
            s.streams[s.strict[i]].backlog as nat,
            s.streams[s.strict[i]].quantum as nat,
        ) by {
            let x = s.strict[i];
            law_strict_before_bulk(s.streams, s.strict, budget, i);
            let want = min(s.streams[x].backlog as nat, s.streams[x].quantum as nat);
            if want > 0 {
                let j = choose|j: int|
                    0 <= j < strict.allocs.len() && strict.allocs[j] == (x, want as u64);
                lemma_granted_at_least(strict.allocs, j);
            }
        }
    }
    if allocated(v) < budget {
        assert forall|i: int| 0 <= i < s.bulk.len() implies s.streams[#[trigger] s.bulk[i]].backlog
            == 0 || s.streams[s.bulk[i]].quantum == 0 by {
            law_work_conserving(s, strict.budget, i);
        }
    }
}

// ---------------------------------------------------------------------------
// The round over several calls
// ---------------------------------------------------------------------------

/// The order with its first `k` streams moved to the back.
pub open spec fn rotated(order: Seq<u128>, k: int) -> Seq<u128> {
    order.skip(k) + order.take(k)
}

/// A stream that can use a turn.
pub open spec fn busy(e: StreamEntry) -> bool {
    e.backlog > 0 && e.quantum > 0
}

/// The round `s` is `i` turns behind `start`: the first `i` streams of it have been
/// served, those of them that can use a turn with something, and no others.
spec fn turns_behind(start: Round, s: Round, i: int) -> bool {
    &&& 0 <= i <= start.order.len()
    &&& s.order == rotated(start.order, i)
    &&& s.missing is None
    &&& same_streams(start, s)
    &&& only_from(s.allocs, start.order.take(i))
    &&& forall|j: int|
        0 <= j < i && busy(start.streams[start.order[j]]) ==> granted(
            s.allocs,
            #[trigger] start.order[j],
        ) > 0
    &&& allocated(s.allocs) + s.budget <= u64::MAX
}

proof fn lemma_turn_grants_more(s: Round, x: u128)
    requires
        s.order.len() > 0,
        allocated(s.allocs) + s.budget <= u64::MAX,
    ensures
        granted(turn(s).allocs, x) >= granted(s.allocs, x),
{
    let id = s.order[0];
    if s.streams.contains_key(id) {
        let sent = bulk_grant(s.streams[id], s.budget);
        if sent > 0 {
            lemma_granted_accumulate(s.allocs, id, sent, x);
        }
    }
}

proof fn lemma_drain_grants_more(s: Round, idle: nat, n: nat, x: u128)
    requires
        s.order.len() == n,
        allocated(s.allocs) + s.budget <= u64::MAX,
    ensures
        granted(drain(s, idle, n).allocs, x) >= granted(s.allocs, x),
    decreases s.budget, n - idle,
{
    if !(s.budget == 0 || idle >= n || s.missing is Some) {
        let t = turn(s);
        lemma_turn_grants_more(s, x);
        lemma_turn_total(s);
        lemma_turn_same_streams(s);
        if t.missing is Some {
        } else if t.budget < s.budget {
            lemma_drain_grants_more(t, 0, n, x);
        } else {
            lemma_drain_grants_more(t, idle + 1, n, x);
        }
    }
}

proof fn lemma_next_turn_behind(start: Round, s: Round, i: int)
    requires
        start.order.no_duplicates(),
        turns_behind(start, s, i),
        i < start.order.len(),
        s.budget > 0,
        start.streams.contains_key(start.order[i]),
    ensures
        turns_behind(start, turn(s), i + 1),
{
    let t = turn(s);
    let id = start.order[i];
    assert(s.order[0] == id);
    assert(s.streams.contains_key(id));
    lemma_turn_same_streams(s);
    lemma_same_streams_trans(start, s, t);
    lemma_turn_total(s);
    assert(t.order =~= rotated(start.order, i + 1));
    let e = s.streams[id];
    assert(start.streams[id].backlog == e.backlog && start.streams[id].quantum == e.quantum);
    let sent = bulk_grant(e, s.budget);
    let front = start.order.take(i);
    let next = start.order.take(i + 1);
    assert(next[i] == id);
    assert forall|j: int| 0 <= j < t.allocs.len() implies next.contains((#[trigger] t.allocs[j]).0) by {
        if j < s.allocs.len() && t.allocs[j].0 == s.allocs[j].0 {
            assert(front.contains(s.allocs[j].0));
            let m = choose|m: int| 0 <= m < front.len() && front[m] == s.allocs[j].0;
            assert(next[m] == s.allocs[j].0);
        }
    }
    assert forall|j: int| 0 <= j < i + 1 && busy(start.streams[start.order[j]]) implies granted(
        t.allocs,
        #[trigger] start.order[j],
    ) > 0 by {
        if j < i {
            lemma_turn_grants_more(s, start.order[j]);
        } else if sent > 0 {
            lemma_granted_accumulate(s.allocs, id, sent, id);
        }
    }
}

/// A sweep serves the streams in front, as many as the budget lasts for.
proof fn lemma_sweep_turns(start: Round, s: Round, i: int, k: nat) -> (j: int)
    requires
        start.order.no_duplicates(),
        turns_behind(start, s, i),
        i + k == start.order.len(),
        forall|m: int|
            0 <= m < start.order.len() ==> start.streams.contains_key(#[trigger] start.order[m]),
    ensures
        turns_behind(start, sweep(s, k), j),
        j < start.order.len() ==> sweep(s, k).budget == 0,
    decreases k,
{
    if k == 0 || s.budget == 0 {
        i
    } else {
        lemma_next_turn_behind(start, s, i);
        lemma_sweep_turns(start, turn(s), i + 1, (k - 1) as nat)
    }
}

/// The round goes on from call to call: a bulk stream that was granted something stands
/// behind every bulk stream that has something to send and was granted nothing, so that
/// the next call serves the latter first.
pub proof fn law_served_streams_go_behind(s: SchedulerState, budget: nat, x: u128, y: u128)
    requires
        consistent(s),
        budget <= u64::MAX,
        s.bulk.contains(x),
        s.bulk.contains(y),
        granted(schedule_result(s, budget)->Ok_0, x) > 0,
        granted(schedule_result(s, budget)->Ok_0, y) == 0,
        busy(s.streams[y]),
    ensures
        in_order(schedule_state(s, budget).bulk, y, x),
{
    let strict = strict_pass(s.streams, s.strict, budget);
    let n = s.bulk.len();
    let start = bulk_start(s, strict.budget);
    law_schedule_keeps_consistency(s, budget);
    lemma_strict_pass_total(s.streams, s.strict, budget);
    law_strict_serves_queue_only(s.streams, s.strict, budget);
    assert(start.order.skip(0) + start.order.take(0) =~= start.order);
    assert forall|m: int| 0 <= m < n implies start.streams.contains_key(
        #[trigger] start.order[m],
    ) by {
        assert(s.streams.contains_key(s.bulk[m]));
    }
    let j = lemma_sweep_turns(start, start, 0, n);
    let swept = sweep(start, n);
    let bulk = bulk_pass(s, strict.budget);
    let yi = choose|i: int| 0 <= i < n && s.bulk[i] == y;
    let xi = choose|i: int| 0 <= i < n && s.bulk[i] == x;
    lemma_drain_grants_more(swept, 0, n, y);
    lemma_granted_concat(strict.allocs, bulk.allocs, y);
    assert(granted(swept.allocs, y) == 0);
    assert(yi >= j) by {
        if yi < j {
            assert(granted(swept.allocs, start.order[yi]) > 0);
        }
    }
    assert(bulk == swept);
    lemma_granted_concat(strict.allocs, bulk.allocs, x);
    lemma_tiers_are_apart(s, x);
    lemma_granted_to_none(strict.allocs, s.strict, x);
    assert(xi < j) by {
        if xi >= j {
            let front = start.order.take(j);
            assert(!front.contains(x)) by {
                if front.contains(x) {
                    let m = choose|m: int| 0 <= m < front.len() && front[m] == x;
                    assert(s.bulk[m] == s.bulk[xi]);
                }
            }
            lemma_granted_to_none(bulk.allocs, front, x);
        }
    }
    let t = schedule_state(s, budget).bulk;
    assert(t == rotated(s.bulk, j));
    assert(t[yi - j] == y);
    assert(t[n - j + xi] == x);
}

/// The scheduler after some calls.
pub open spec fn after_calls(s: SchedulerState, budgets: Seq<nat>) -> SchedulerState
    decreases budgets.len(),
{
    if budgets.len() == 0 {
        s
    } else {
        schedule_state(after_calls(s, budgets.drop_last()), budgets.last())
    }
}

/// Bytes that a stream is granted in some calls.
pub open spec fn granted_in_calls(s: SchedulerState, budgets: Seq<nat>, x: u128) -> nat
    decreases budgets.len(),
{
    if budgets.len() == 0 {
        0
    } else {
        granted_in_calls(s, budgets.drop_last(), x) + granted(
            schedule_result(after_calls(s, budgets.drop_last()), budgets.last())->Ok_0,
            x,
        )
    }
}

/// Every bulk stream has the same quantum `q` and more to send than a call distributes;
/// what it was granted before, by `g`, and its credit add up to `base`, and for the last
/// `k` streams, which have had one turn more, to `base + q`. No credit exceeds `d`.
spec fn level(
    streams: Map<u128, StreamEntry>,
    order: Seq<u128>,
    g: spec_fn(u128) -> nat,
    q: nat,
    base: nat,
    k: nat,
    most: nat,
    d: nat,
) -> bool {
    &&& k < order.len()
    &&& 0 < q
    &&& order.no_duplicates()
    &&& forall|j: int|
        0 <= j < order.len() ==> {
            let e = streams[#[trigger] order[j]];
            &&& streams.contains_key(order[j])
            &&& e.quantum == q
            &&& e.backlog >= most
            &&& e.deficit <= d
            &&& g(order[j]) + e.deficit == if j < order.len() - k {
                base
            } else {
                base + q
            }
        }
}

/// What streams were granted before a call and in it so far.
spec fn so_far(g: spec_fn(u128) -> nat, allocs: Allocs) -> spec_fn(u128) -> nat {
    |x: u128| g(x) + granted(allocs, x)
}

/// No stream has any credit left, and the budget is a number of whole turns.
spec fn whole_turns(s: Round, q: nat) -> bool {
    &&& s.budget % q == 0
    &&& forall|j: int|
        0 <= j < s.order.len() ==> s.streams[#[trigger] s.order[j]].deficit == 0
}

/// A call in which every turn is used, in the middle.
spec fn level_round(
    s: Round,
    g: spec_fn(u128) -> nat,
    q: nat,
    base: nat,
    k: nat,
    most: nat,
    d: nat,
    whole: bool,
) -> bool {
    &&& s.missing is None
    &&& s.budget <= most
    &&& allocated(s.allocs) + s.budget <= u64::MAX
    &&& d + q <= u32::MAX
    &&& level(
        s.streams,
        s.order,
        so_far(g, s.allocs),
        q,
        base,
        k,
        most,
        if s.budget > 0 {
            d
        } else {
            d + q
        },
    )
    &&& whole ==> whole_turns(s, q)
}

proof fn lemma_level_turn(
    s: Round,
    g: spec_fn(u128) -> nat,
    q: nat,
    base: nat,
    k: nat,
    most: nat,
    d: nat,
    whole: bool,
) -> (next: (nat, nat))
    requires
        level_round(s, g, q, base, k, most, d, whole),
        s.budget > 0,
    ensures
        level_round(turn(s), g, q, next.0, next.1, most, d, whole),
        turn(s).budget < s.budget,
        turn(s).order.len() == s.order.len(),
{
    let n = s.order.len();
    let t = turn(s);
    let id = s.order[0];
    let e = s.streams[id];
    let sent = bulk_grant(e, s.budget);
    assert(credit(e) == e.deficit + q);
    assert(sent == min(s.budget, credit(e)));
    lemma_turn_same_streams(s);
    lemma_turn_total(s);
    let next: (nat, nat) = if k + 1 == n {
        (base + q, 0nat)
    } else {
        (base, k + 1)
    };
    if whole {
        if s.budget < q {
            vstd::arithmetic::div_mod::lemma_small_mod(s.budget, q);
        }
        vstd::arithmetic::div_mod::lemma_mod_sub_multiples_vanish(s.budget as int, q as int);
        assert(sent == q);
    }
    assert forall|j: int| 0 <= j < n implies ({
        let f = t.streams[#[trigger] t.order[j]];
        &&& t.streams.contains_key(t.order[j])
        &&& f.quantum == q
        &&& f.backlog >= most
        &&& f.deficit <= if t.budget > 0 {
            d
        } else {
            d + q
        }
        &&& so_far(g, t.allocs)(t.order[j]) + f.deficit == if j < n - next.1 {
            next.0
        } else {
            next.0 + q
        }
        &&& whole ==> f.deficit == 0
    }) by {
        lemma_granted_accumulate(s.allocs, id, sent, t.order[j]);
        if j < n - 1 {
            assert(t.order[j] == s.order[j + 1]);
            assert(s.order[j + 1] != s.order[0]);
            assert(so_far(g, s.allocs)(s.order[j + 1]) == so_far(g, t.allocs)(t.order[j]));
        } else {
            assert(t.order[j] == s.order[0]);
            assert(so_far(g, s.allocs)(s.order[0]) + sent == so_far(g, t.allocs)(t.order[j]));
        }
    }
    next
}

proof fn lemma_level_drain(
    s: Round,
    n: nat,
    g: spec_fn(u128) -> nat,
    q: nat,
    base: nat,
    k: nat,
    most: nat,
    d: nat,
    whole: bool,
) -> (next: (nat, nat))
    requires
        n == s.order.len(),
        level_round(s, g, q, base, k, most, d, whole),
    ensures
        level_round(drain(s, 0, n), g, q, next.0, next.1, most, d, whole),
    decreases s.budget,
{
    if s.budget > 0 {
        let next = lemma_level_turn(s, g, q, base, k, most, d, whole);
        lemma_level_drain(turn(s), n, g, q, next.0, next.1, most, d, whole)
    } else {
        (base, k)
    }
}

proof fn lemma_level_pass(
    s: Round,
    m: nat,
    n: nat,
    g: spec_fn(u128) -> nat,
    q: nat,
    base: nat,
    k: nat,
    most: nat,
    d: nat,
    whole: bool,
) -> (next: (nat, nat))
    requires
        n == s.order.len(),
        level_round(s, g, q, base, k, most, d, whole),
    ensures
        level_round(drain(sweep(s, m), 0, n), g, q, next.0, next.1, most, d, whole),
    decreases m,
{
    if m == 0 || s.budget == 0 {
        lemma_level_drain(s, n, g, q, base, k, most, d, whole)
    } else {
        let next = lemma_level_turn(s, g, q, base, k, most, d, whole);
        lemma_level_pass(turn(s), (m - 1) as nat, n, g, q, next.0, next.1, most, d, whole)
    }
}

/// The bulk streams share one quantum `q`, start without credit, and have at least
/// `most` bytes to send.
pub open spec fn equal_streams(s: SchedulerState, q: nat, most: nat) -> bool {
    &&& consistent(s)
    &&& 0 < q
    &&& forall|i: int|
        0 <= i < s.bulk.len() ==> {
            let e = s.streams[#[trigger] s.bulk[i]];
            e.quantum == q && e.deficit == 0 && e.backlog >= most
        }
}

/// Each of the budgets is at most `most`.
pub open spec fn budgets_within(budgets: Seq<nat>, most: nat) -> bool {
    forall|i: int| 0 <= i < budgets.len() ==> #[trigger] budgets[i] <= most
}

/// Each of the budgets is a number of whole quanta.
pub open spec fn whole_budgets(budgets: Seq<nat>, q: nat) -> bool {
    forall|i: int| 0 <= i < budgets.len() ==> #[trigger] budgets[i] % q == 0
}

proof fn lemma_level_calls(
    s: SchedulerState,
    budgets: Seq<nat>,
    q: nat,
    most: nat,
    whole: bool,
) -> (next: (nat, nat))
    requires
        equal_streams(s, q, most),
        s.bulk.len() > 0,
        most <= u64::MAX,
        budgets_within(budgets, most),
        (budgets.len() + 1) * q <= u32::MAX,
        whole ==> s.strict.len() == 0 && whole_budgets(budgets, q),
    ensures
        ({
            let t = after_calls(s, budgets);
            let g = |x: u128| granted_in_calls(s, budgets, x);
            &&& consistent(t)
            &&& t.strict == s.strict
            &&& t.bulk.len() == s.bulk.len()
            &&& forall|x: u128| #[trigger] t.bulk.contains(x) <==> s.bulk.contains(x)
            &&& level(t.streams, t.bulk, g, q, next.0, next.1, most, budgets.len() * q)
            &&& whole ==> forall|j: int|
                0 <= j < t.bulk.len() ==> t.streams[#[trigger] t.bulk[j]].deficit == 0
        }),
    decreases budgets.len(),
{
    if budgets.len() == 0 {
        let g = |x: u128| granted_in_calls(s, budgets, x);
        assert forall|j: int| 0 <= j < s.bulk.len() implies ({
            let e = s.streams[#[trigger] s.bulk[j]];
            s.streams.contains_key(s.bulk[j]) && g(s.bulk[j]) + e.deficit == 0
        }) by {
            assert(g(s.bulk[j]) == 0);
        }
        (0, 0)
    } else {
        let before = budgets.drop_last();
        let budget = budgets.last();
        assert(budget == budgets[budgets.len() - 1]);
        assert forall|i: int| 0 <= i < before.len() implies #[trigger] before[i] <= most && (whole
            ==> before[i] % q == 0) by {
            assert(before[i] == budgets[i]);
        }
        assert((before.len() + 1) * q <= (budgets.len() + 1) * q) by (nonlinear_arith)
            requires
                before.len() < budgets.len(),
                0 < q,
        ;
        let (base, k) = lemma_level_calls(s, before, q, most, whole);
        let u = after_calls(s, before);
        let g = |x: u128| granted_in_calls(s, before, x);
        let strict = strict_pass(u.streams, u.strict, budget);
        lemma_strict_pass_total(u.streams, u.strict, budget);
        let d = before.len() * q;
        assert(d + q == budgets.len() * q) by (nonlinear_arith)
            requires
                d == before.len() * q,
                before.len() + 1 == budgets.len(),
        ;
        assert(budgets.len() * q <= (budgets.len() + 1) * q) by (nonlinear_arith)
            requires
                0 < q,
        ;
        let start = bulk_start(u, strict.budget);
        assert forall|j: int| 0 <= j < u.bulk.len() implies so_far(g, start.allocs)(
            #[trigger] u.bulk[j],
        ) == g(u.bulk[j]) by {
            assert(granted(start.allocs, u.bulk[j]) == 0);
        }
        if whole {
            assert(strict.budget == budget);
        }
        assert(level_round(start, g, q, base, k, most, d, whole));
        let n = u.bulk.len();
        let next = lemma_level_pass(start, n, n, g, q, base, k, most, d, whole);
        let bulk = bulk_pass(u, strict.budget);
        law_schedule_keeps_consistency(u, budget);
        law_schedule_keeps_streams(u, strict.budget);
        law_strict_serves_queue_only(u.streams, u.strict, budget);
        let t = after_calls(s, budgets);
        let h = |x: u128| granted_in_calls(s, budgets, x);
        assert forall|x: u128| #[trigger] t.bulk.contains(x) <==> s.bulk.contains(x) by {
            assert(start.order.contains(x) <==> bulk.order.contains(x));
            assert(u.bulk.contains(x) <==> s.bulk.contains(x));
        }
        assert forall|j: int| 0 <= j < n implies so_far(g, bulk.allocs)(#[trigger] t.bulk[j]) == h(
            t.bulk[j],
        ) by {
            let x = t.bulk[j];
            assert(t.bulk.contains(x));
            assert(start.order.contains(x));
            lemma_tiers_are_apart(u, x);
            lemma_granted_to_none(strict.allocs, u.strict, x);
            lemma_granted_concat(strict.allocs, bulk.allocs, x);
        }
        next
    }
}

/// Bulk streams share fairly over any number of calls, whatever their budgets: when all
/// have the same quantum, start without credit and always have more to send than a call
/// distributes, what a stream has been granted and the credit that it still has add up
/// to no more than one quantum beyond what that is for any other stream.
pub proof fn law_fair_over_many_calls(
    s: SchedulerState,
    budgets: Seq<nat>,
    q: nat,
    most: nat,
    i: int,
    j: int,
)
    requires
        equal_streams(s, q, most),
        most <= u64::MAX,
        budgets_within(budgets, most),
        (budgets.len() + 1) * q <= u32::MAX,
        0 <= i < s.bulk.len(),
        0 <= j < s.bulk.len(),
    ensures
        granted_in_calls(s, budgets, s.bulk[i]) + after_calls(
            s,
            budgets,
        ).streams[s.bulk[i]].deficit <= granted_in_calls(s, budgets, s.bulk[j]) + after_calls(
            s,
            budgets,
        ).streams[s.bulk[j]].deficit + q,
{
    let next = lemma_level_calls(s, budgets, q, most, false);
    let t = after_calls(s, budgets);
    let g = |x: u128| granted_in_calls(s, budgets, x);
    assert(s.bulk.contains(s.bulk[i]) && s.bulk.contains(s.bulk[j]));
    assert(t.bulk.contains(s.bulk[i]) && t.bulk.contains(s.bulk[j]));
    let a = choose|a: int| 0 <= a < t.bulk.len() && t.bulk[a] == s.bulk[i];
    let b = choose|b: int| 0 <= b < t.bulk.len() && t.bulk[b] == s.bulk[j];
    assert(g(t.bulk[a]) == granted_in_calls(s, budgets, s.bulk[i]));
    assert(g(t.bulk[b]) == granted_in_calls(s, budgets, s.bulk[j]));
}

/// When moreover every budget is a number of whole quanta and no strict stream takes
/// from it, no two bulk streams have been granted amounts further apart than one quantum
/// after any number of calls.
pub proof fn law_whole_turns_are_shared_evenly(
    s: SchedulerState,
    budgets: Seq<nat>,
    q: nat,
    most: nat,
    i: int,
    j: int,
)
    requires
        equal_streams(s, q, most),
        s.strict.len() == 0,
        most <= u64::MAX,
        budgets_within(budgets, most),
        whole_budgets(budgets, q),
        (budgets.len() + 1) * q <= u32::MAX,
        0 <= i < s.bulk.len(),
        0 <= j < s.bulk.len(),
    ensures
        granted_in_calls(s, budgets, s.bulk[i]) <= granted_in_calls(s, budgets, s.bulk[j]) + q,
{
    let next = lemma_level_calls(s, budgets, q, most, true);
    law_fair_over_many_calls(s, budgets, q, most, i, j);
    let t = after_calls(s, budgets);
    assert(s.bulk.contains(s.bulk[i]) && s.bulk.contains(s.bulk[j]));
    assert(t.bulk.contains(s.bulk[i]) && t.bulk.contains(s.bulk[j]));
    let a = choose|a: int| 0 <= a < t.bulk.len() && t.bulk[a] == s.bulk[i];
    let b = choose|b: int| 0 <= b < t.bulk.len() && t.bulk[b] == s.bulk[j];
    assert(t.streams[t.bulk[a]].deficit == 0 && t.streams[t.bulk[b]].deficit == 0);
}

// ---------------------------------------------------------------------------
// Turns of the strict tier, and what streams start with
// ---------------------------------------------------------------------------

/// What was granted on the way is still granted at the end.
proof fn lemma_strict_pass_grows(
    streams: Map<u128, StreamEntry>,
    queue: Seq<u128>,
    budget: nat,
    k: int,
)
    requires
        0 <= k <= queue.len(),
    ensures
        strict_pass(streams, queue.take(k), budget).allocs.is_prefix_of(
            strict_pass(streams, queue, budget).allocs,
        ),
        strict_pass(streams, queue, budget).missing is None ==> strict_pass(
            streams,
            queue.take(k),
            budget,
        ).missing is None,
        strict_pass(streams, queue.take(k), budget).budget == 0 ==> strict_pass(
            streams,
            queue,
            budget,
        ).allocs == strict_pass(streams, queue.take(k), budget).allocs,
    decreases queue.len(),
{
    if k == queue.len() {
        assert(queue.take(k) =~= queue);
    } else {
        let front = queue.drop_last();
        assert(front.take(k) =~= queue.take(k));
        lemma_strict_pass_grows(streams, front, budget, k);
        let p = strict_pass(streams, front, budget);
        let r = strict_pass(streams, queue, budget);
        if strict_pass(streams, queue.take(k), budget).budget == 0 {
            lemma_strict_budget_shrinks(streams, front, budget, k);
        }
    }
}

proof fn lemma_strict_budget_shrinks(
    streams: Map<u128, StreamEntry>,
    queue: Seq<u128>,
    budget: nat,
    k: int,
)
    requires
        0 <= k <= queue.len(),
    ensures
        strict_pass(streams, queue, budget).budget <= strict_pass(
            streams,
            queue.take(k),
            budget,
        ).budget,
    decreases queue.len(),
{
    if k == queue.len() {
        assert(queue.take(k) =~= queue);
    } else {
        assert(queue.drop_last().take(k) =~= queue.take(k));
        lemma_strict_budget_shrinks(streams, queue.drop_last(), budget, k);
    }
}

/// A strict stream is granted something only once every stream before it in the queue,
/// and so every one of a higher level, has got all that its backlog and its quantum
/// allow.
pub proof fn law_strict_streams_take_turns(s: SchedulerState, budget: nat, i: int, j: int)
    requires
        consistent(s),
        budget <= u64::MAX,
        0 <= i < j < s.strict.len(),
        granted(schedule_result(s, budget)->Ok_0, s.strict[j]) > 0,
    ensures
        granted(schedule_result(s, budget)->Ok_0, s.strict[i]) == min(
            s.streams[s.strict[i]].backlog as nat,
            s.streams[s.strict[i]].quantum as nat,
        ),
        s.streams[s.strict[i]].priority.0 >= s.streams[s.strict[j]].priority.0,
{
    law_schedule_shares_the_budget(s, budget);
    law_schedule_keeps_consistency(s, budget);
    let strict = strict_pass(s.streams, s.strict, budget);
    let bulk = bulk_pass(s, strict.budget);
    let v = strict.allocs + bulk.allocs;
    let front = s.strict.take(j);
    let p = strict_pass(s.streams, front, budget);
    let x = s.strict[i];
    let y = s.strict[j];
    lemma_strict_pass_total(s.streams, s.strict, budget);
    law_bulk_serves_order_only(s, strict.budget);
    lemma_strict_pass_grows(s.streams, s.strict, budget, j);
    assert(!s.bulk.contains(x)) by {
        if s.bulk.contains(x) {
            lemma_tiers_are_apart(s, x);
        }
    }
    assert(!s.bulk.contains(y)) by {
        if s.bulk.contains(y) {
            lemma_tiers_are_apart(s, y);
        }
    }
    lemma_granted_concat(strict.allocs, bulk.allocs, x);
    lemma_granted_concat(strict.allocs, bulk.allocs, y);
    lemma_granted_to_none(bulk.allocs, s.bulk, x);
    lemma_granted_to_none(bulk.allocs, s.bulk, y);
    law_strict_serves_queue_only(s.streams, front, budget);
    assert(p.budget > 0) by {
        if p.budget == 0 {
            assert(!front.contains(y)) by {
                if front.contains(y) {
                    let k = choose|k: int| 0 <= k < front.len() && front[k] == y;
                    assert(s.strict[k] == s.strict[j]);
                }
            }
            lemma_granted_to_none(p.allocs, front, y);
        }
    }
    law_strict_before_bulk(s.streams, front, budget, i);
    assert(front[i] == x);
    let want = min(s.streams[x].backlog as nat, s.streams[x].quantum as nat);
    if want > 0 {
        let k = choose|k: int| 0 <= k < p.allocs.len() && p.allocs[k] == (x, want as u64);
        assert(strict.allocs[k] == p.allocs[k]);
        lemma_granted_at_least(strict.allocs, k);
    }
    assert(granted(v, s.strict[i]) <= want);
}

/// A stream starts without credit and with nothing to send; a strict one with a quantum
/// of 64 KiB, behind all strict streams of its own or a higher level and before all of a
/// lower one; a bulk one last in the round, and all bulk streams with the same quantum.
/// What the other streams have waiting, and their credit, stay as they were.
pub proof fn law_streams_start_alike(
    s: SchedulerState,
    t: SchedulerState,
    id: u128,
    priority: Priority,
)
    requires
        consistent(s),
        !s.streams.contains_key(id),
        registers(s, t, id, priority),
    ensures
        t.streams.contains_key(id),
        t.streams[id].priority == priority,
        t.streams[id].deficit == 0,
        t.streams[id].backlog == 0,
        priority.0 >= 64 ==> t.streams[id].quantum == 65_536 && t.bulk == s.bulk,
        priority.0 < 64 ==> t.bulk == s.bulk.push(id) && t.strict == s.strict && forall|i: int|
            0 <= i < t.bulk.len() ==> t.streams[#[trigger] t.bulk[i]].quantum == 4_096,
        priority.0 >= 64 ==> t.strict.len() == s.strict.len() + 1 && forall|i: int|
            0 <= i < s.strict.len() ==> {
                let x = #[trigger] s.strict[i];
                if s.streams[x].priority.0 >= priority.0 {
                    in_order(t.strict, x, id)
                } else {
                    in_order(t.strict, id, x)
                }
            },
        forall|x: u128| #[trigger]
            s.streams.contains_key(x) ==> t.streams.contains_key(x) && t.streams[x].priority
                == s.streams[x].priority && t.streams[x].deficit == s.streams[x].deficit
                && t.streams[x].backlog == s.streams[x].backlog,
{
    let streams = s.streams.insert(id, new_entry(priority));
    if priority.strict() {
        let at = choose|i: int|
            #![trigger s.strict.insert(i, id)]
            is_strict_slot(streams, s.strict, priority.0, i) && t.strict == s.strict.insert(i, id);
        assert(t.strict[at] == id);
        assert forall|i: int| 0 <= i < s.strict.len() implies ({
            let x = #[trigger] s.strict[i];
            if s.streams[x].priority.0 >= priority.0 {
                in_order(t.strict, x, id)
            } else {
                in_order(t.strict, id, x)
            }
        }) by {
            let x = s.strict[i];
            assert(s.streams.contains_key(x));
            if i < at {
                assert(t.strict[i] == x);
                assert(level_of(streams, s.strict[i]) >= priority.0);
            } else {
                assert(t.strict[i + 1] == x);
                assert(level_of(streams, s.strict[at]) < priority.0);
                if at < i {
                    assert(s.streams[s.strict[at]].priority.0 >= s.streams[x].priority.0);
                }
            }
        }
    } else {
        assert forall|i: int| 0 <= i < t.bulk.len() implies t.streams[#[trigger] t.bulk[i]].quantum
            == 4_096 by {
            assert(t.bulk.contains(t.bulk[i]));
            if i < s.bulk.len() {
                assert(s.streams.contains_key(s.bulk[i]));
                assert(t.bulk[i] == s.bulk[i]);
            }
            assert(streams.contains_key(t.bulk[i]));
        }
    }
}

/// Taking a stream out leaves the others as they are: what they have waiting, their
/// credit, and their order.
pub proof fn law_deregister_keeps_the_others(s: SchedulerState, id: u128)
    requires
        consistent(s),
    ensures
        ({
            let t = deregistered(s, id);
            &&& forall|x: u128|
                x != id && #[trigger] s.streams.contains_key(x) ==> t.streams[x].priority
                    == s.streams[x].priority && t.streams[x].deficit == s.streams[x].deficit
                    && t.streams[x].backlog == s.streams[x].backlog
            &&& forall|i: int, j: int|
                0 <= i < j < t.bulk.len() ==> #[trigger] in_order(s.bulk, t.bulk[i], t.bulk[j])
            &&& forall|i: int, j: int|
                0 <= i < j < t.strict.len() ==> #[trigger] in_order(
                    s.strict,
                    t.strict[i],
                    t.strict[j],
                )
            &&& forall|x: u128| x != id ==> (#[trigger] t.bulk.contains(x) <==> s.bulk.contains(x))
            &&& forall|x: u128|
                x != id ==> (#[trigger] t.strict.contains(x) <==> s.strict.contains(x))
        }),
{
    let t = deregistered(s, id);
    lemma_without(s.bulk, id);
    lemma_without(s.strict, id);
    assert forall|i: int, j: int| 0 <= i < j < t.bulk.len() implies #[trigger] in_order(
        s.bulk,
        t.bulk[i],
        t.bulk[j],
    ) by {
        if t.bulk == s.bulk {
            assert(s.bulk[i] == t.bulk[i] && s.bulk[j] == t.bulk[j]);
        } else {
            assert(in_order(
                s.bulk,
                s.bulk.filter(other_than(id))[i],
                s.bulk.filter(other_than(id))[j],
            ));
        }
    }
    assert forall|i: int, j: int| 0 <= i < j < t.strict.len() implies #[trigger] in_order(
        s.strict,
        t.strict[i],
        t.strict[j],
    ) by {
        if t.strict == s.strict {
            assert(s.strict[i] == t.strict[i] && s.strict[j] == t.strict[j]);
        } else {
            assert(in_order(
                s.strict,
                s.strict.filter(other_than(id))[i],
                s.strict.filter(other_than(id))[j],
            ));
        }
    }
}

/// Setting what a stream has waiting changes that of this stream and nothing else.
pub proof fn law_backlog_is_set(s: SchedulerState, id: u128, backlog: u64)
    ensures
        ({
            let t = with_backlog(s, id, backlog);
            &&& t.bulk == s.bulk && t.strict == s.strict
            &&& t.streams.dom() == s.streams.dom()
            &&& s.streams.contains_key(id) ==> t.streams[id].backlog == backlog
                && t.streams[id].priority == s.streams[id].priority && t.streams[id].deficit
                == s.streams[id].deficit && t.streams[id].quantum == s.streams[id].quantum
            &&& forall|x: u128|
                x != id && #[trigger] s.streams.contains_key(x) ==> t.streams[x] == s.streams[x]
        }),
{
    assert(with_backlog(s, id, backlog).streams.dom() =~= s.streams.dom());
}

} // verus!
