//! Bandwidth: timer parameters and the aggregate limiter over all outbound streams.

use vstd::prelude::*;

use crate::error::QueLayError;
use crate::framing::CHUNK_SIZE;
use crate::priority::Priority;
use crate::scheduler::{
    allocated, deregistered, registers, schedule_result, schedule_state, with_backlog, Allocs,
    DrrScheduler, SchedulerState,
};
use crate::scheduler_laws::{consistent, law_budget_is_accounted_for, law_deregister_removes};
use crate::uplink::backlog_of;

verus! {

/// Chunks per tick that the timer aims at.
pub const CHUNKS_PER_TICK: usize = 8;

/// Shortest timer interval in milliseconds.
pub const MIN_INTERVAL_MS: u64 = 5;

/// Longest timer interval in milliseconds.
pub const MAX_INTERVAL_MS: u64 = 100;

/// The interval in which the aimed-at chunks take up the rate exactly.
pub open spec fn ideal_interval_ms(rate_bps: nat, chunk_size: nat) -> nat {
    (CHUNKS_PER_TICK * chunk_size * 1000) as nat / (rate_bps / 8)
}

/// That interval, held between the shortest and the longest one.
pub open spec fn interval_ms(rate_bps: nat, chunk_size: nat) -> nat {
    let ideal = ideal_interval_ms(rate_bps, chunk_size);
    if ideal < MIN_INTERVAL_MS {
        MIN_INTERVAL_MS as nat
    } else if ideal > MAX_INTERVAL_MS {
        MAX_INTERVAL_MS as nat
    } else {
        ideal
    }
}

/// Bytes that the rate allows per interval.
pub open spec fn budget_per_tick(rate_bps: nat, chunk_size: nat) -> nat {
    (rate_bps / 8) * interval_ms(rate_bps, chunk_size) / 1000
}

/// What a rate allows in its interval can be computed: the interval is the shortest one,
/// or no longer than the one that the aimed-at chunks take.
proof fn lemma_budget_fits(rate_bps: u64, chunk_size: usize)
    requires
        rate_bps >= 8,
        CHUNKS_PER_TICK * chunk_size * 1000 <= u64::MAX,
    ensures
        (rate_bps / 8) * interval_ms(rate_bps as nat, chunk_size as nat) <= u64::MAX,
{
    let per_sec = (rate_bps / 8) as nat;
    let interval = interval_ms(rate_bps as nat, chunk_size as nat);
    let ideal = ideal_interval_ms(rate_bps as nat, chunk_size as nat);
    if interval <= ideal {
        assert(per_sec * interval <= per_sec * ideal && per_sec * ideal <= CHUNKS_PER_TICK
            * chunk_size * 1000) by (nonlinear_arith)
            requires
                0 < per_sec,
                interval <= ideal,
                ideal == (CHUNKS_PER_TICK * chunk_size * 1000) as nat / per_sec,
        ;
    } else {
        assert(interval == MIN_INTERVAL_MS);
        assert(per_sec * interval == per_sec * 5) by (nonlinear_arith)
            requires
                interval == 5,
        ;
    }
}

/// Timer parameters for a rate.
#[derive(Debug, Clone, Copy, PartialEq, Eq, Structural)]
pub struct RateParams {
    /// Milliseconds between two ticks.
    pub interval_ms: u64,
    /// Bytes to distribute per tick.
    pub budget_bytes: u64,
}

impl RateParams {
    /// Parameters for a rate in bits per second. A rate below one byte per second
    /// has none.
    pub fn from_rate_bps(rate_bps: u64, chunk_size: usize) -> (r: Self)
        requires
            rate_bps >= 8,
            CHUNKS_PER_TICK * chunk_size <= usize::MAX,
            CHUNKS_PER_TICK * chunk_size * 1000 <= u64::MAX,
        ensures
            r.interval_ms == interval_ms(rate_bps as nat, chunk_size as nat),
            r.budget_bytes == budget_per_tick(rate_bps as nat, chunk_size as nat),
            MIN_INTERVAL_MS <= r.interval_ms <= MAX_INTERVAL_MS,
            2 * r.budget_bytes <= u64::MAX,
    {
        let rate_bytes_per_sec: u64 = rate_bps / 8;
        let ideal_bytes: u64 = (CHUNKS_PER_TICK * chunk_size) as u64;
        let ideal_ms: u64 = ideal_bytes * 1000 / rate_bytes_per_sec;
        let interval: u64 = if ideal_ms < MIN_INTERVAL_MS {
            MIN_INTERVAL_MS
        } else if ideal_ms > MAX_INTERVAL_MS {
            MAX_INTERVAL_MS
        } else {
            ideal_ms
        };
        proof {
            lemma_budget_fits(rate_bps, chunk_size);
        }
        let budget: u64 = rate_bytes_per_sec * interval / 1000;
        RateParams { interval_ms: interval, budget_bytes: budget }
    }
}

/// The bytes distributed per tick are those that the rate allows in the interval,
/// less than one byte short.
pub proof fn law_budget_meets_rate(rate_bps: nat, chunk_size: nat)
    ensures
        ({
            let budget = budget_per_tick(rate_bps, chunk_size);
            let allowed = (rate_bps / 8) * interval_ms(rate_bps, chunk_size);
            budget * 1000 <= allowed < (budget + 1) * 1000
        }),
{
}

/// Where an outbound stream stands: the end of its spool and its pump's position.
#[derive(Debug, Clone, Copy, PartialEq, Eq, Structural)]
pub struct StreamPosition {
    pub id: u128,
    pub head_offset: u64,
    pub q: u64,
}

/// How the grant for a stream was taken.
#[derive(Debug, Clone, Copy, PartialEq, Eq, Structural)]
pub enum TicketOutcome {
    /// The pump has it.
    Delivered,
    /// The pump still has one.
    Full,
    /// The pump is gone.
    Closed,
}

/// One grant that was offered to a pump.
#[derive(Debug, Clone, Copy, PartialEq, Eq, Structural)]
pub struct Ticket {
    pub id: u128,
    pub bytes: u64,
    pub outcome: TicketOutcome,
}

/// Distributes a common rate over all outbound streams.
#[derive(Debug)]
pub struct AggregateRateLimiter {
    scheduler: DrrScheduler,
    streams: Vec<StreamPosition>,
    params: Option<RateParams>,
    available: u64,
    wire_baseline: u64,
}

/// The limiter's state.
#[verifier::ext_equal]
pub struct LimiterState {
    pub sched: SchedulerState,
    pub streams: Seq<StreamPosition>,
    pub params: Option<RateParams>,
    /// Budget carried over, in bytes.
    pub available: nat,
    /// Bytes on the wire at the last tick.
    pub wire_baseline: nat,
}

/// The positions of all streams but `id`.
pub open spec fn not_stream(id: u128) -> spec_fn(StreamPosition) -> bool {
    |p: StreamPosition| p.id != id
}

/// The scheduler with the backlog of every stream set from its position.
pub open spec fn with_positions(s: SchedulerState, ps: Seq<StreamPosition>) -> SchedulerState
    decreases ps.len(),
{
    if ps.len() == 0 {
        s
    } else {
        let p = ps.last();
        with_backlog(
            with_positions(s, ps.drop_last()),
            p.id,
            backlog_of(p.head_offset as nat, p.q as nat) as u64,
        )
    }
}

/// The budget at a tick: what was carried over and the new share, but no more than
/// two shares.
pub open spec fn topped_up(available: nat, per_tick: nat) -> nat {
    if available + per_tick <= 2 * per_tick {
        available + per_tick
    } else {
        2 * per_tick
    }
}

/// Bytes of the grants that pumps have taken.
pub open spec fn delivered_bytes(ts: Seq<Ticket>) -> nat
    decreases ts.len(),
{
    if ts.len() == 0 {
        0
    } else {
        delivered_bytes(ts.drop_last()) + if ts.last().outcome == TicketOutcome::Delivered {
            ts.last().bytes as nat
        } else {
            0
        }
    }
}

/// `a - b`, or zero.
pub open spec fn less(a: nat, b: nat) -> nat {
    if b <= a {
        (a - b) as nat
    } else {
        0
    }
}

/// The limiter without the streams whose pumps are gone.
pub open spec fn without_closed(s: LimiterState, ts: Seq<Ticket>) -> LimiterState
    decreases ts.len(),
{
    if ts.len() == 0 {
        s
    } else {
        let t = without_closed(s, ts.drop_last());
        if ts.last().outcome == TicketOutcome::Closed {
            LimiterState {
                sched: deregistered(t.sched, ts.last().id),
                streams: t.streams.filter(not_stream(ts.last().id)),
                ..t
            }
        } else {
            t
        }
    }
}

/// The budget after a tick: grants that pumps have taken are paid for, and so is
/// what went over the wire beyond them.
pub open spec fn settled(available: nat, delivered: nat, wire_delta: nat) -> nat {
    less(less(available, delivered), less(wire_delta, delivered))
}

/// The limiter once its budget is topped up and distributed.
pub open spec fn ticked(s: LimiterState) -> LimiterState {
    let available = topped_up(s.available, s.params->0.budget_bytes as nat);
    LimiterState {
        sched: schedule_state(with_positions(s.sched, s.streams), available),
        available,
        ..s
    }
}

/// The grants of a tick, or the stream that is queued but not in the table.
pub open spec fn tick_grants(s: LimiterState) -> Result<Allocs, u128> {
    schedule_result(
        with_positions(s.sched, s.streams),
        topped_up(s.available, s.params->0.budget_bytes as nat),
    )
}

/// The limiter once the grants of a tick have been offered.
pub open spec fn settled_state(s: LimiterState, ts: Seq<Ticket>, wire_now: nat) -> LimiterState {
    LimiterState {
        available: settled(
            s.available,
            delivered_bytes(ts),
            less(wire_now, s.wire_baseline),
        ),
        wire_baseline: wire_now,
        ..without_closed(s, ts)
    }
}

impl View for AggregateRateLimiter {
    type V = LimiterState;

    closed spec fn view(&self) -> LimiterState {
        LimiterState {
            sched: self.scheduler@,
            streams: self.streams@,
            params: self.params,
            available: self.available as nat,
            wire_baseline: self.wire_baseline as nat,
        }
    }
}

/// The positions without that of stream `id`.
fn positions_without(ps: &Vec<StreamPosition>, id: u128) -> (r: Vec<StreamPosition>)
    ensures
        r@ == ps@.filter(not_stream(id)),
{
    let mut kept: Vec<StreamPosition> = Vec::new();
    let mut i: usize = 0;
    proof {
        reveal(Seq::filter);
        assert(ps@.take(0).filter(not_stream(id)) =~= Seq::<StreamPosition>::empty());
    }
    while i < ps.len()
        invariant
            i <= ps@.len(),
            kept@ == ps@.take(i as int).filter(not_stream(id)),
        decreases ps@.len() - i,
    {
        let p: StreamPosition = ps[i];
        proof {
            assert(ps@.take(i + 1) =~= ps@.take(i as int).push(p));
            ps@.take(i as int).lemma_filter_push(p, not_stream(id));
        }
        if p.id != id {
            kept.push(p);
        }
        i = i + 1;
    }
    assert(ps@.take(i as int) =~= ps@);
    kept
}

impl AggregateRateLimiter {
    /// Two shares of the budget can be carried over.
    pub closed spec fn wf(&self) -> bool {
        self.params matches Some(p) ==> 2 * p.budget_bytes <= u64::MAX
    }

    /// A limiter for a rate in bits per second, or one without a limit.
    pub fn new(rate_bps: Option<u64>) -> (r: Self)
        requires
            rate_bps matches Some(b) ==> b >= 8,
        ensures
            r.wf(),
            r@.sched == (SchedulerState {
                streams: Map::empty(),
                bulk: Seq::empty(),
                strict: Seq::empty(),
            }),
            r@.streams == Seq::<StreamPosition>::empty(),
            r@.available == 0,
            r@.wire_baseline == 0,
            match rate_bps {
                None => r@.params is None,
                Some(b) => r@.params matches Some(p) && p.interval_ms == interval_ms(
                    b as nat,
                    CHUNK_SIZE as nat,
                ) && p.budget_bytes == budget_per_tick(b as nat, CHUNK_SIZE as nat),
            },
    {
        let params: Option<RateParams> = match rate_bps {
            None => None,
            Some(b) => Some(RateParams::from_rate_bps(b, CHUNK_SIZE)),
        };
        AggregateRateLimiter {
            scheduler: DrrScheduler::new(),
            streams: Vec::new(),
            params,
            available: 0,
            wire_baseline: 0,
        }
    }

    /// Adds a stream; says whether its bandwidth is capped, so that a pump is
    /// needed.
    pub fn register(&mut self, id: u128, priority: Priority) -> (capped: bool)
        requires
            old(self).wf(),
        ensures
            final(self).wf(),
            capped == (old(self)@.params is Some),
            registers(old(self)@.sched, final(self)@.sched, id, priority),
            final(self)@ == (LimiterState {
                sched: final(self)@.sched,
                streams: if capped {
                    old(self)@.streams.filter(not_stream(id)).push(
                        StreamPosition { id, head_offset: 0, q: 0 },
                    )
                } else {
                    old(self)@.streams
                },
                ..old(self)@
            }),
    {
        self.scheduler.register(id, priority);
        if self.params.is_some() {
            let mut streams: Vec<StreamPosition> = positions_without(&self.streams, id);
            streams.push(StreamPosition { id, head_offset: 0, q: 0 });
            self.streams = streams;
            true
        } else {
            false
        }
    }

    /// Takes a stream out.
    pub fn deregister(&mut self, id: u128)
        requires
            old(self).wf(),
        ensures
            final(self).wf(),
            final(self)@ == (LimiterState {
                sched: deregistered(old(self)@.sched, id),
                streams: old(self)@.streams.filter(not_stream(id)),
                ..old(self)@
            }),
    {
        self.scheduler.deregister(id);
        self.streams = positions_without(&self.streams, id);
    }

    /// Notes where a stream stands.
    pub fn set_position(&mut self, id: u128, head_offset: u64, q: u64)
        requires
            old(self).wf(),
        ensures
            final(self).wf(),
            final(self)@ == (LimiterState {
                streams: Seq::new(
                    old(self)@.streams.len(),
                    |i: int|
                        if old(self)@.streams[i].id == id {
                            StreamPosition { id, head_offset, q }
                        } else {
                            old(self)@.streams[i]
                        },
                ),
                ..old(self)@
            }),
    {
        let ghost before = self.streams@;
        let mut i: usize = 0;
        while i < self.streams.len()
            invariant
                i <= before.len(),
                self.streams@.len() == before.len(),
                self.scheduler@ == old(self).scheduler@,
                self.params == old(self).params,
                self.available == old(self).available,
                self.wire_baseline == old(self).wire_baseline,
                forall|j: int|
                    0 <= j < i ==> #[trigger] self.streams@[j] == (if before[j].id == id {
                        StreamPosition { id, head_offset, q }
                    } else {
                        before[j]
                    }),
                forall|j: int| i <= j < before.len() ==> #[trigger] self.streams@[j] == before[j],
            decreases before.len() - i,
        {
            if self.streams[i].id == id {
                self.streams.set(i, StreamPosition { id, head_offset, q });
            }
            i = i + 1;
        }
        assert(self@.streams =~= Seq::new(
            before.len(),
            |i: int|
                if before[i].id == id {
                    StreamPosition { id, head_offset, q }
                } else {
                    before[i]
                },
        ));
    }

    /// One tick of a capped limiter: the budget is topped up and distributed over
    /// the streams by what they have waiting. Gives the grants to be offered.
    pub fn tick(&mut self) -> (r: Result<Vec<(u128, u64)>, QueLayError>)
        requires
            old(self).wf(),
            old(self)@.params is Some,
        ensures
            final(self).wf(),
            final(self)@ == ticked(old(self)@),
            final(self)@.available <= 2 * old(self)@.params->0.budget_bytes,
            match r {
                Ok(v) => tick_grants(old(self)@) == Ok::<Allocs, u128>(v@) && allocated(v@)
                    <= final(self)@.available,
                Err(e) => e matches QueLayError::StreamNotFound(id) && tick_grants(old(self)@)
                    == Err::<Allocs, u128>(id),
            },
    {
        let per_tick: u64 = match self.params {
            Some(p) => p.budget_bytes,
            None => 0,
        };
        let max_carry: u64 = per_tick * 2;
        let mut available: u64 = self.available.saturating_add(per_tick);
        if available > max_carry {
            available = max_carry;
        }
        self.available = available;
        let ghost ps = self.streams@;
        let ghost start = self.scheduler@;
        let mut i: usize = 0;
        assert(ps.take(0) =~= Seq::<StreamPosition>::empty());
        while i < self.streams.len()
            invariant
                i <= ps.len(),
                self.streams@ == ps,
                self.params == old(self).params,
                self.available == available,
                self.wire_baseline == old(self).wire_baseline,
                self.scheduler@ == with_positions(start, ps.take(i as int)),
            decreases ps.len() - i,
        {
            let p: StreamPosition = self.streams[i];
            self.scheduler.set_backlog(p.id, p.head_offset.saturating_sub(p.q));
            proof {
                assert(ps.take(i + 1).drop_last() =~= ps.take(i as int));
                assert(ps.take(i + 1).last() == p);
            }
            i = i + 1;
        }
        assert(ps.take(i as int) =~= ps);
        self.scheduler.schedule(available)
    }

    /// Settles a tick once its grants have been offered: those that pumps took are
    /// paid for out of the budget, and so is what the connection put on the wire
    /// beyond them, `wire_now` being its running total. A grant that was not taken
    /// stays in the budget; a stream whose pump is gone is taken out.
    pub fn settle(&mut self, tickets: &Vec<Ticket>, wire_now: u64)
        requires
            old(self).wf(),
        ensures
            final(self).wf(),
            final(self)@ == settled_state(old(self)@, tickets@, wire_now as nat),
    {
        let ghost before = self@;
        let mut delivered: u64 = 0;
        let mut i: usize = 0;
        assert(tickets@.take(0) =~= Seq::<Ticket>::empty());
        while i < tickets.len()
            invariant
                i <= tickets@.len(),
                self.wf(),
                before == old(self)@,
                self@ == without_closed(before, tickets@.take(i as int)),
                self@.available == before.available,
                self@.wire_baseline == before.wire_baseline,
                delivered == (if delivered_bytes(tickets@.take(i as int)) <= u64::MAX {
                    delivered_bytes(tickets@.take(i as int))
                } else {
                    u64::MAX as nat
                }),
            decreases tickets@.len() - i,
        {
            let t: Ticket = tickets[i];
            proof {
                assert(tickets@.take(i + 1).drop_last() =~= tickets@.take(i as int));
                assert(tickets@.take(i + 1).last() == t);
            }
            match t.outcome {
                TicketOutcome::Delivered => {
                    delivered = delivered.saturating_add(t.bytes);
                },
                TicketOutcome::Full => {},
                TicketOutcome::Closed => {
                    self.deregister(t.id);
                },
            }
            i = i + 1;
        }
        assert(tickets@.take(i as int) =~= tickets@);
        let wire_delta: u64 = wire_now.saturating_sub(self.wire_baseline);
        let cost: u64 = wire_delta.saturating_sub(delivered);
        self.available = self.available.saturating_sub(delivered).saturating_sub(cost);
        self.wire_baseline = wire_now;
    }

    /// A new connection counts its bytes on the wire from zero.
    pub fn reset_wire_baseline(&mut self)
        requires
            old(self).wf(),
        ensures
            final(self).wf(),
            final(self)@ == (LimiterState { wire_baseline: 0, ..old(self)@ }),
    {
        self.wire_baseline = 0;
    }

    /// Timer parameters; none when bandwidth is not capped.
    pub fn params(&self) -> (r: Option<RateParams>)
        ensures
            r == self@.params,
    {
        self.params
    }
}

// ---------------------------------------------------------------------------
// Laws
// ---------------------------------------------------------------------------

/// No more than two shares are ever carried over, so no tick grants more.
pub proof fn law_burst_is_bounded(available: nat, per_tick: nat, delivered: nat, wire_delta: nat)
    ensures
        topped_up(available, per_tick) <= 2 * per_tick,
        settled(topped_up(available, per_tick), delivered, wire_delta) <= 2 * per_tick,
{
}

/// What a tick used up: bytes that pumps were granted, and bytes that went over the
/// wire.
pub struct TickUse {
    pub delivered: nat,
    pub wire: nat,
}

/// Budget, granted bytes and bytes on the wire after some ticks.
pub open spec fn after_ticks(per_tick: nat, uses: Seq<TickUse>) -> (nat, nat, nat)
    decreases uses.len(),
{
    if uses.len() == 0 {
        (0, 0, 0)
    } else {
        let (available, granted, wire) = after_ticks(per_tick, uses.drop_last());
        let u = uses.last();
        (
            settled(topped_up(available, per_tick), u.delivered, u.wire),
            granted + u.delivered,
            wire + u.wire,
        )
    }
}

/// The budget that the tick after some ticks has.
pub open spec fn next_budget(per_tick: nat, uses: Seq<TickUse>) -> nat {
    topped_up(after_ticks(per_tick, uses).0, per_tick)
}

/// The grants of each tick stay within the budget that the tick has.
pub open spec fn grants_within_budget(per_tick: nat, uses: Seq<TickUse>) -> bool {
    forall|i: int|
        0 <= i < uses.len() ==> (#[trigger] uses[i]).delivered <= next_budget(
            per_tick,
            uses.take(i),
        )
}

/// So do the bytes on the wire.
pub open spec fn wire_within_budget(per_tick: nat, uses: Seq<TickUse>) -> bool {
    forall|i: int|
        0 <= i < uses.len() ==> (#[trigger] uses[i]).wire <= next_budget(per_tick, uses.take(i))
}

/// Over any number of ticks the pumps are granted no more than that many shares:
/// the rate is held in the long run.
pub proof fn law_long_run_rate(per_tick: nat, uses: Seq<TickUse>)
    requires
        grants_within_budget(per_tick, uses),
    ensures
        after_ticks(per_tick, uses).0 + after_ticks(per_tick, uses).1 <= per_tick * uses.len(),
    decreases uses.len(),
{
    if uses.len() > 0 {
        let before = uses.drop_last();
        assert forall|i: int| 0 <= i < before.len() implies (#[trigger] before[i]).delivered
            <= next_budget(per_tick, before.take(i)) by {
            assert(before[i] == uses[i]);
            assert(before.take(i) =~= uses.take(i));
        }
        law_long_run_rate(per_tick, before);
        assert(uses[uses.len() - 1] == uses.last());
        assert(uses.take(uses.len() - 1) =~= before);
        assert(per_tick * uses.len() == per_tick * (uses.len() - 1) + per_tick)
            by (nonlinear_arith)
            requires
                uses.len() > 0,
        ;
    }
}

/// The rate is held on the wire as well, repetitions and all, as long as no tick puts
/// more on the wire than its budget.
pub proof fn law_wire_rate_is_held(per_tick: nat, uses: Seq<TickUse>)
    requires
        wire_within_budget(per_tick, uses),
    ensures
        after_ticks(per_tick, uses).0 + after_ticks(per_tick, uses).2 <= per_tick * uses.len(),
    decreases uses.len(),
{
    if uses.len() > 0 {
        let before = uses.drop_last();
        assert forall|i: int| 0 <= i < before.len() implies (#[trigger] before[i]).wire
            <= next_budget(per_tick, before.take(i)) by {
            assert(before[i] == uses[i]);
            assert(before.take(i) =~= uses.take(i));
        }
        law_wire_rate_is_held(per_tick, before);
        assert(uses[uses.len() - 1] == uses.last());
        assert(uses.take(uses.len() - 1) =~= before);
        assert(per_tick * uses.len() == per_tick * (uses.len() - 1) + per_tick)
            by (nonlinear_arith)
            requires
                uses.len() > 0,
        ;
    }
}

/// A transport that does not count bytes on the wire costs nothing beyond the
/// grants; one that repeats packets is charged for the repetitions.
pub proof fn law_retransmissions_are_charged(available: nat, delivered: nat, wire_delta: nat)
    requires
        delivered <= available,
    ensures
        wire_delta <= delivered ==> settled(available, delivered, wire_delta) == available
            - delivered,
        delivered <= wire_delta <= available ==> settled(available, delivered, wire_delta)
            == available - wire_delta,
        available <= wire_delta ==> settled(available, delivered, wire_delta) == 0,
{
}

/// What is paid for is the sum over all grants: what two lists of grants cost they cost
/// together, a grant that a pump has taken costs its bytes, and any other costs nothing.
pub proof fn law_every_taken_grant_is_paid_for(a: Seq<Ticket>, b: Seq<Ticket>, t: Ticket)
    ensures
        delivered_bytes(a + b) == delivered_bytes(a) + delivered_bytes(b),
        delivered_bytes(seq![t]) == (if t.outcome == TicketOutcome::Delivered {
            t.bytes as nat
        } else {
            0
        }),
        delivered_bytes(Seq::empty()) == 0,
    decreases b.len(),
{
    assert(seq![t].drop_last() =~= Seq::<Ticket>::empty());
    assert(delivered_bytes(seq![t].drop_last()) == 0);
    if b.len() == 0 {
        assert(a + b =~= a);
    } else {
        law_every_taken_grant_is_paid_for(a, b.drop_last(), t);
        assert((a + b).drop_last() =~= a + b.drop_last());
    }
}

/// The tickets are the grants of a tick, each taken or not.
pub open spec fn offers(ts: Seq<Ticket>, v: Allocs) -> bool {
    &&& ts.len() == v.len()
    &&& forall|i: int|
        0 <= i < ts.len() ==> (#[trigger] ts[i]).id == v[i].0 && ts[i].bytes == v[i].1
}

/// No more is paid for than was granted, and all of it when every pump took its grant.
pub proof fn law_grants_cost_what_they_grant(ts: Seq<Ticket>, v: Allocs)
    requires
        offers(ts, v),
    ensures
        delivered_bytes(ts) <= allocated(v),
        (forall|i: int|
            0 <= i < ts.len() ==> (#[trigger] ts[i]).outcome == TicketOutcome::Delivered)
            ==> delivered_bytes(ts) == allocated(v),
    decreases ts.len(),
{
    if ts.len() > 0 {
        let t = ts.drop_last();
        let w = v.drop_last();
        assert forall|i: int| 0 <= i < t.len() implies (#[trigger] t[i]).id == w[i].0 && t[i].bytes
            == w[i].1 by {
            assert(t[i] == ts[i]);
        }
        assert(ts[ts.len() - 1] == ts.last());
        law_grants_cost_what_they_grant(t, w);
        if forall|i: int|
            0 <= i < ts.len() ==> (#[trigger] ts[i]).outcome == TicketOutcome::Delivered {
            assert forall|i: int| 0 <= i < t.len() implies (#[trigger] t[i]).outcome
                == TicketOutcome::Delivered by {
                assert(t[i] == ts[i]);
            }
        }
    }
}

/// Budget that is not used is carried over: up to one share of it is kept whole, and
/// every tick has at least its own share.
pub proof fn law_unused_budget_is_carried_over(available: nat, per_tick: nat)
    ensures
        available <= per_tick ==> topped_up(available, per_tick) == available + per_tick,
        topped_up(available, per_tick) >= per_tick,
        topped_up(available, per_tick) <= available + per_tick,
        available >= per_tick ==> topped_up(available, per_tick) == 2 * per_tick,
{
}

/// A tick grants no more than what was carried over and its share, and settling it with
/// every grant taken leaves at most the rest.
pub proof fn law_tick_is_paid_out_of_its_budget(s: LimiterState, ts: Seq<Ticket>, wire_now: nat)
    requires
        s.params is Some,
        2 * s.params->0.budget_bytes <= u64::MAX,
        tick_grants(s) matches Ok(v) && offers(ts, v),
    ensures
        ({
            let v = tick_grants(s)->Ok_0;
            let t = settled_state(ticked(s), ts, wire_now);
            &&& allocated(v) <= s.available + s.params->0.budget_bytes
            &&& allocated(v) <= 2 * s.params->0.budget_bytes
            &&& t.available + delivered_bytes(ts) <= s.available + s.params->0.budget_bytes
            &&& t.params == s.params
            &&& t.wire_baseline == wire_now
            &&& (forall|i: int|
                0 <= i < ts.len() ==> (#[trigger] ts[i]).outcome == TicketOutcome::Delivered)
                ==> t.available + allocated(v) <= s.available + s.params->0.budget_bytes
            &&& wire_now <= s.wire_baseline ==> t.available + delivered_bytes(ts) == ticked(
                s,
            ).available
        }),
{
    let v = tick_grants(s)->Ok_0;
    let sched = with_positions(s.sched, s.streams);
    law_budget_is_accounted_for(sched, ticked(s).available);
    law_grants_cost_what_they_grant(ts, v);
    lemma_without_closed_keeps(ticked(s), ts);
}

/// Taking streams out leaves the budget alone.
proof fn lemma_without_closed_keeps(s: LimiterState, ts: Seq<Ticket>)
    ensures
        without_closed(s, ts).params == s.params,
        without_closed(s, ts).available == s.available,
        without_closed(s, ts).wire_baseline == s.wire_baseline,
    decreases ts.len(),
{
    if ts.len() > 0 {
        lemma_without_closed_keeps(s, ts.drop_last());
    }
}

/// Bytes that pumps have taken in some ticks.
pub open spec fn taken(tickets: Seq<Seq<Ticket>>) -> nat
    decreases tickets.len(),
{
    if tickets.len() == 0 {
        0
    } else {
        taken(tickets.drop_last()) + delivered_bytes(tickets.last())
    }
}

/// The ticks of a limiter: before each, streams may have come, gone or moved; each is
/// settled with its own grants.
pub open spec fn is_run(
    states: Seq<LimiterState>,
    tickets: Seq<Seq<Ticket>>,
    wires: Seq<nat>,
    p: RateParams,
) -> bool {
    &&& states.len() == tickets.len() + 1
    &&& wires.len() == tickets.len()
    &&& states[0].available == 0
    &&& states[0].params == Some(p)
    &&& forall|i: int|
        0 <= i < tickets.len() ==> {
            let s = #[trigger] states[i];
            let t = settled_state(ticked(s), tickets[i], wires[i]);
            &&& tick_grants(s) matches Ok(v) && offers(tickets[i], v)
            &&& states[i + 1].available == t.available
            &&& states[i + 1].params == t.params
        }
}

/// The cap is held: however many streams there are and however they take their grants,
/// in any number of ticks no more bytes are taken than that many shares.
pub proof fn law_cap_is_held(
    states: Seq<LimiterState>,
    tickets: Seq<Seq<Ticket>>,
    wires: Seq<nat>,
    p: RateParams,
)
    requires
        is_run(states, tickets, wires, p),
        2 * p.budget_bytes <= u64::MAX,
    ensures
        states.last().available + taken(tickets) <= p.budget_bytes * tickets.len(),
        states.last().params == Some(p),
    decreases tickets.len(),
{
    if tickets.len() > 0 {
        let n = tickets.len() - 1;
        let before = states.drop_last();
        let ts = tickets.drop_last();
        let ws = wires.drop_last();
        assert forall|i: int| 0 <= i < ts.len() implies ({
            let s = #[trigger] before[i];
            let t = settled_state(ticked(s), ts[i], ws[i]);
            &&& tick_grants(s) matches Ok(v) && offers(ts[i], v)
            &&& before[i + 1].available == t.available
            &&& before[i + 1].params == t.params
        }) by {
            assert(before[i] == states[i] && before[i + 1] == states[i + 1]);
            assert(ts[i] == tickets[i] && ws[i] == wires[i]);
        }
        assert(before[0] == states[0]);
        law_cap_is_held(before, ts, ws, p);
        assert(before.last() == states[n as int]);
        law_tick_is_paid_out_of_its_budget(states[n as int], tickets[n as int], wires[n as int]);
        assert(tickets.last() == tickets[n as int]);
        assert(states.last() == states[n + 1]);
        assert(p.budget_bytes * tickets.len() == p.budget_bytes * ts.len() + p.budget_bytes)
            by (nonlinear_arith)
            requires
                tickets.len() == ts.len() + 1,
        ;
    } else {
        assert(states.last() == states[0]);
    }
}

/// The interval is between five and a hundred milliseconds; within these bounds it is the
/// longest one in which the rate allows no more than eight chunks.
pub proof fn law_interval_aims_at_eight_chunks(rate_bps: nat, chunk_size: nat)
    requires
        rate_bps >= 8,
    ensures
        ({
            let i = interval_ms(rate_bps, chunk_size);
            &&& 5 <= i <= 100
            &&& i == 5 || (rate_bps / 8) * i <= 8 * chunk_size * 1000
            &&& i == 100 || (rate_bps / 8) * (i + 1) > 8 * chunk_size * 1000
        }),
{
    let per_sec = rate_bps / 8;
    let all = (CHUNKS_PER_TICK * chunk_size * 1000) as nat;
    let ideal = all / per_sec;
    let i = interval_ms(rate_bps, chunk_size);
    assert(per_sec * ideal <= all < per_sec * (ideal + 1)) by (nonlinear_arith)
        requires
            per_sec > 0,
            ideal == all / per_sec,
    ;
    if i > ideal {
        assert(per_sec * (ideal + 1) <= per_sec * (i + 1)) by (nonlinear_arith)
            requires
                i > ideal,
        ;
    } else {
        assert(per_sec * i <= per_sec * ideal) by (nonlinear_arith)
            requires
                i <= ideal,
        ;
    }
}

/// Every stream is scheduled by what it has between its position and the end of its
/// spool; nothing else of the scheduler changes.
pub proof fn law_backlogs_follow_the_positions(
    s: SchedulerState,
    ps: Seq<StreamPosition>,
    x: u128,
)
    requires
        forall|i: int, j: int| 0 <= i < j < ps.len() ==> (#[trigger] ps[i]).id != (#[trigger] ps[j]).id,
    ensures
        ({
            let t = with_positions(s, ps);
            &&& t.bulk == s.bulk && t.strict == s.strict
            &&& t.streams.contains_key(x) <==> s.streams.contains_key(x)
            &&& s.streams.contains_key(x) ==> t.streams[x].priority == s.streams[x].priority
                && t.streams[x].deficit == s.streams[x].deficit && t.streams[x].quantum
                == s.streams[x].quantum
            &&& s.streams.contains_key(x) ==> forall|i: int|
                0 <= i < ps.len() && (#[trigger] ps[i]).id == x && ps[i].q <= ps[i].head_offset
                    ==> t.streams[x].backlog == ps[i].head_offset - ps[i].q
            &&& (forall|i: int| 0 <= i < ps.len() ==> (#[trigger] ps[i]).id != x)
                ==> t.streams.contains_key(x) ==> t.streams[x] == s.streams[x]
        }),
    decreases ps.len(),
{
    if ps.len() > 0 {
        let front = ps.drop_last();
        assert forall|i: int, j: int| 0 <= i < j < front.len() implies (#[trigger] front[i]).id != (
        #[trigger] front[j]).id by {
            assert(front[i] == ps[i] && front[j] == ps[j]);
        }
        law_backlogs_follow_the_positions(s, front, x);
        let last = ps[ps.len() - 1];
        assert(ps.last() == last);
        let u = with_positions(s, front);
        let t = with_positions(s, ps);
        assert forall|i: int|
            0 <= i < ps.len() && (#[trigger] ps[i]).id == x && ps[i].q <= ps[i].head_offset
                && s.streams.contains_key(x) implies t.streams[x].backlog == ps[i].head_offset
            - ps[i].q by {
            if i < front.len() {
                assert(front[i] == ps[i]);
                assert(ps[i].id != last.id);
            }
        }
        if forall|i: int| 0 <= i < ps.len() ==> (#[trigger] ps[i]).id != x {
            assert forall|i: int| 0 <= i < front.len() implies (#[trigger] front[i]).id != x by {
                assert(front[i] == ps[i]);
            }
        }
    }
}

/// What goes over the wire is paid for, grants and repetitions together, and the next
/// tick counts from there on.
pub proof fn law_wire_bytes_are_charged(s: LimiterState, ts: Seq<Ticket>, wire_now: nat)
    requires
        s.wire_baseline <= wire_now,
    ensures
        ({
            let t = settled_state(s, ts, wire_now);
            let wire = wire_now - s.wire_baseline;
            let cost = if wire >= delivered_bytes(ts) {
                wire
            } else {
                delivered_bytes(ts) as int
            };
            &&& t.wire_baseline == wire_now
            &&& t.available == (if cost <= s.available {
                s.available - cost
            } else {
                0
            })
        }),
{
}

/// Some grant found the stream's pump gone.
pub open spec fn found_gone(ts: Seq<Ticket>, id: u128) -> bool {
    exists|i: int|
        0 <= i < ts.len() && (#[trigger] ts[i]).id == id && ts[i].outcome == TicketOutcome::Closed
}

proof fn lemma_positions_left(ps: Seq<StreamPosition>, id: u128, p: StreamPosition)
    ensures
        ps.filter(not_stream(id)).contains(p) <==> ps.contains(p) && p.id != id,
    decreases ps.len(),
{
    let keep = not_stream(id);
    reveal(Seq::filter);
    if ps.len() > 0 {
        let d = ps.drop_last();
        let x = ps.last();
        lemma_positions_left(d, id, p);
        let f = ps.filter(keep);
        let g = d.filter(keep);
        assert(f == if keep(x) { g.push(x) } else { g });
        if f.contains(p) {
            let i = choose|i: int| 0 <= i < f.len() && f[i] == p;
            if i < g.len() {
                assert(g[i] == p);
                assert(d.contains(p));
                let j = choose|j: int| 0 <= j < d.len() && d[j] == p;
                assert(ps[j] == p);
            } else {
                assert(ps[ps.len() - 1] == p);
            }
        }
        if ps.contains(p) && p.id != id {
            let j = choose|j: int| 0 <= j < ps.len() && ps[j] == p;
            if j < d.len() {
                assert(d[j] == p);
                assert(d.contains(p));
                let i = choose|i: int| 0 <= i < g.len() && g[i] == p;
                assert(f[i] == p);
            } else {
                assert(f[f.len() - 1] == p);
            }
        }
    }
}

/// Settling takes out the streams whose pumps were found gone, and no others.
pub proof fn law_gone_streams_are_taken_out(s: LimiterState, ts: Seq<Ticket>, p: StreamPosition)
    requires
        consistent(s.sched),
    ensures
        ({
            let t = without_closed(s, ts);
            &&& consistent(t.sched)
            &&& t.streams.contains(p) <==> s.streams.contains(p) && !found_gone(ts, p.id)
            &&& t.sched.streams.contains_key(p.id) <==> s.sched.streams.contains_key(p.id)
                && !found_gone(ts, p.id)
        }),
    decreases ts.len(),
{
    if ts.len() > 0 {
        let front = ts.drop_last();
        let last = ts[ts.len() - 1];
        assert(ts.last() == last);
        law_gone_streams_are_taken_out(s, front, p);
        let u = without_closed(s, front);
        if found_gone(front, p.id) {
            let i = choose|i: int|
                0 <= i < front.len() && (#[trigger] front[i]).id == p.id && front[i].outcome
                    == TicketOutcome::Closed;
            assert(ts[i] == front[i]);
        }
        if found_gone(ts, p.id) && !found_gone(front, p.id) {
            let i = choose|i: int|
                0 <= i < ts.len() && (#[trigger] ts[i]).id == p.id && ts[i].outcome
                    == TicketOutcome::Closed;
            if i < front.len() {
                assert(front[i] == ts[i]);
            }
        }
        if last.outcome == TicketOutcome::Closed {
            lemma_positions_left(u.streams, last.id, p);
            law_deregister_removes(u.sched, last.id);
        }
    }
}

} // verus!
