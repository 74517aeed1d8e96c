use quelay::error::QueLayError;
use quelay::ids::new_id;
use quelay::priority::Priority;
use quelay::scheduler::{DrrScheduler, BULK_QUANTUM_BYTES};

fn total(allocs: &[(u128, u64)]) -> u64 {
    allocs.iter().map(|(_, n)| n).sum()
}

fn bytes_for(allocs: &[(u128, u64)], id: u128) -> u64 {
    allocs
        .iter()
        .filter(|(a, _)| *a == id)
        .map(|(_, n)| *n)
        .sum()
}

#[test]
fn c2i_drains_before_bulk() -> Result<(), QueLayError> {
    let mut sched = DrrScheduler::new();
    let c2i = new_id();
    let bulk = new_id();

    sched.register(c2i, Priority::c2i_priority_min());
    sched.register(bulk, Priority::bulk_priority_min());
    sched.set_backlog(c2i, 1_024);
    sched.set_backlog(bulk, 4_096);

    let allocs = sched.schedule(8_192)?;
    let c2i_pos = allocs.iter().position(|(id, _)| *id == c2i).unwrap();
    let bulk_pos = allocs.iter().position(|(id, _)| *id == bulk).unwrap();

    assert!(c2i_pos < bulk_pos, "C2I must appear before BulkTransfer");
    Ok(())
}

#[test]
fn bulk_streams_share_budget() -> Result<(), QueLayError> {
    let mut sched = DrrScheduler::new();
    let a = new_id();
    let b = new_id();

    sched.register(a, Priority::bulk_priority_min());
    sched.register(b, Priority::bulk_priority_min());
    sched.set_backlog(a, 16_384);
    sched.set_backlog(b, 16_384);

    let allocs = sched.schedule(16_384)?;

    assert_eq!(total(&allocs), 16_384, "full budget should be consumed");
    assert!(
        allocs.iter().any(|(id, _)| *id == a),
        "stream a must be scheduled"
    );
    assert!(
        allocs.iter().any(|(id, _)| *id == b),
        "stream b must be scheduled"
    );
    Ok(())
}

#[test]
fn idle_stream_does_not_accumulate_deficit() -> Result<(), QueLayError> {
    let mut sched = DrrScheduler::new();
    let a = new_id();

    sched.register(a, Priority::bulk_priority_min());
    sched.set_backlog(a, 0);

    sched.schedule(8_192)?;

    let entry = sched.entry(a).unwrap();
    assert_eq!(
        entry.deficit, 0,
        "idle stream deficit must be reset to zero"
    );
    Ok(())
}

#[test]
fn deregister_removes_stream() -> Result<(), QueLayError> {
    let mut sched = DrrScheduler::new();
    let a = new_id();

    sched.register(a, Priority::bulk_priority_min());
    sched.set_backlog(a, 4_096);
    sched.deregister(a);

    let allocs = sched.schedule(8_192)?;
    assert!(
        allocs.is_empty(),
        "deregistered stream must not be scheduled"
    );
    Ok(())
}

#[test]
fn schedule_never_exceeds_budget() -> Result<(), QueLayError> {
    let mut sched = DrrScheduler::new();
    let a = new_id();
    let b = new_id();

    sched.register(a, Priority::bulk_priority_min());
    sched.register(b, Priority::bulk_priority_min());
    sched.set_backlog(a, 1_000_000);
    sched.set_backlog(b, 1_000_000);

    let budget = 3_000;
    let allocs = sched.schedule(budget)?;
    let total = total(&allocs);

    assert!(
        total <= budget,
        "allocated {total} bytes but budget was only {budget}"
    );
    Ok(())
}

#[test]
fn c2i_does_not_starve_when_bulk_present() -> Result<(), QueLayError> {
    let mut sched = DrrScheduler::new();
    let c2i = new_id();
    let bulk = new_id();

    sched.register(c2i, Priority::c2i_priority_min());
    sched.register(bulk, Priority::bulk_priority_min());
    sched.set_backlog(c2i, 512);
    sched.set_backlog(bulk, 1_000_000);

    let allocs = sched.schedule(1_048_576)?;

    assert_eq!(bytes_for(&allocs, c2i), 512, "C2I must be fully drained");
    assert!(
        bytes_for(&allocs, bulk) > 0,
        "bulk must not be starved when budget allows"
    );
    Ok(())
}

#[test]
fn strict_streams_run_by_priority_then_arrival() -> Result<(), QueLayError> {
    let mut sched = DrrScheduler::new();
    sched.register(1, Priority::from_i8(64));
    sched.register(2, Priority::from_i8(100));
    sched.register(3, Priority::from_i8(64));
    sched.register(4, Priority::from_i8(127));
    for id in [1u128, 2, 3, 4] {
        sched.set_backlog(id, 10);
    }
    assert_eq!(
        sched.schedule(1_000)?,
        vec![(4, 10), (2, 10), (1, 10), (3, 10)]
    );
    Ok(())
}

#[test]
fn strict_stream_gets_at_most_its_quantum() -> Result<(), QueLayError> {
    let mut sched = DrrScheduler::new();
    sched.register(1, Priority::c2i_priority_min());
    sched.set_backlog(1, 200_000);
    assert_eq!(sched.schedule(1_000_000)?, vec![(1, 65_536)]);
    assert_eq!(sched.schedule(100)?, vec![(1, 100)]);
    Ok(())
}

#[test]
fn bulk_turn_takes_one_quantum_and_keeps_the_rest() -> Result<(), QueLayError> {
    let mut sched = DrrScheduler::new();
    sched.register(1, Priority::bulk_priority_min());
    sched.register(2, Priority::bulk_priority_min());
    sched.set_backlog(1, 100_000);
    sched.set_backlog(2, 100_000);
    assert_eq!(sched.entry(1).unwrap().quantum, BULK_QUANTUM_BYTES);
    // The first stream has its turn of 4096 bytes, the second one gets what is left.
    assert_eq!(sched.schedule(5_000)?, vec![(1, 4_096), (2, 904)]);
    assert_eq!(sched.entry(2).unwrap().deficit, 4_096 - 904);
    // The turns go on behind the stream that had the last one.
    assert_eq!(sched.schedule(1_000)?, vec![(1, 1_000)]);
    Ok(())
}

#[test]
fn work_is_conserved() -> Result<(), QueLayError> {
    let mut sched = DrrScheduler::new();
    sched.register(1, Priority::bulk_priority_min());
    sched.register(2, Priority::bulk_priority_min());
    sched.set_backlog(1, 0);
    sched.set_backlog(2, 1_000_000);
    let allocs = sched.schedule(50_000)?;
    assert_eq!(allocs, vec![(2, 50_000)]);
    Ok(())
}

#[test]
fn overridden_quantum_is_used() -> Result<(), QueLayError> {
    let mut sched = DrrScheduler::new();
    sched.register(1, Priority::bulk_priority_min());
    sched.register(2, Priority::bulk_priority_min());
    sched.set_quantum(1, 100);
    sched.set_backlog(1, 10_000);
    sched.set_backlog(2, 10_000);
    assert_eq!(sched.schedule(200)?, vec![(1, 100), (2, 100)]);
    sched.rebalance();
    assert_eq!(sched.entry(1).unwrap().quantum, BULK_QUANTUM_BYTES);
    Ok(())
}

#[test]
fn empty_schedule() -> Result<(), QueLayError> {
    let mut sched = DrrScheduler::new();
    assert!(sched.schedule(1_000)?.is_empty());
    sched.register(9, Priority::bulk_priority_min());
    sched.set_backlog(9, 10);
    assert!(sched.schedule(0)?.is_empty());
    assert!(sched.entry(10).is_none());
    Ok(())
}

#[test]
fn priority_levels() {
    assert!(Priority::c2i_priority_min().is_strict());
    assert!(!Priority::from_i8(63).is_strict());
    assert!(!Priority::bulk_priority_min().is_strict());
    assert_eq!(Priority::from_i8(64).initial_quantum(), 65_536);
    assert_eq!(Priority::from_i8(63).initial_quantum(), 8_192);
    assert_eq!(Priority::bulk_quantum(), 8_192);
    assert_eq!(Priority::from_i8(-5).as_i8(), -5);
    assert!(Priority::from_i8(3) < Priority::from_i8(4));
    for v in i8::MIN..=i8::MAX {
        let p = Priority::from_i8(v);
        assert_eq!(p.is_strict(), p >= Priority::c2i_priority_min());
        for w in [i8::MIN, -1, 0, 63, 64, i8::MAX] {
            let q = Priority::from_i8(w);
            assert_eq!(p.partial_cmp(&q), v.partial_cmp(&w));
            assert_eq!(p.cmp(&q), v.cmp(&w));
            assert_eq!(p == q, v == w);
        }
    }
}
