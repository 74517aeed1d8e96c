use quelay::framing::CHUNK_SIZE as WIRE_CHUNK_SIZE;
use quelay::priority::Priority;
use quelay::rate::{
    AggregateRateLimiter, RateParams, Ticket, TicketOutcome, MAX_INTERVAL_MS, MIN_INTERVAL_MS,
};

const CHUNK_SIZE: usize = 16 * 1024;

#[test]
fn rate_params_high_rate_clamps_to_min() {
    let p = RateParams::from_rate_bps(10_000_000_000, CHUNK_SIZE);
    assert_eq!(p.interval_ms, MIN_INTERVAL_MS);
}

#[test]
fn rate_params_low_rate_clamps_to_max() {
    let p = RateParams::from_rate_bps(100_000, CHUNK_SIZE);
    assert_eq!(p.interval_ms, MAX_INTERVAL_MS);
}

#[test]
fn rate_params_100mbit() {
    let p = RateParams::from_rate_bps(100_000_000, CHUNK_SIZE);
    let ms = p.interval_ms;
    assert!(
        (MIN_INTERVAL_MS..=MAX_INTERVAL_MS).contains(&ms),
        "interval {ms}ms out of [{MIN_INTERVAL_MS},{MAX_INTERVAL_MS}]"
    );
    let rate_bytes = 100_000_000u64 / 8;
    let expected_budget = rate_bytes * ms / 1000;
    let delta = (p.budget_bytes as i64 - expected_budget as i64).abs();
    assert!(delta < CHUNK_SIZE as i64, "budget delta {delta} too large");
}

#[test]
fn rate_params_10mbit() {
    let p = RateParams::from_rate_bps(10_000_000, CHUNK_SIZE);
    let ms = p.interval_ms;
    assert!(
        (MIN_INTERVAL_MS..=MAX_INTERVAL_MS).contains(&ms),
        "interval {ms}ms out of [{MIN_INTERVAL_MS},{MAX_INTERVAL_MS}]"
    );
}

#[test]
fn rate_params_exact_values() {
    assert_eq!(WIRE_CHUNK_SIZE, CHUNK_SIZE);
    // 131072 bytes take 10 ms at 12.5 MB/s.
    let p = RateParams::from_rate_bps(100_000_000, CHUNK_SIZE);
    assert_eq!((p.interval_ms, p.budget_bytes), (10, 125_000));
    let p = RateParams::from_rate_bps(10_000_000, CHUNK_SIZE);
    assert_eq!((p.interval_ms, p.budget_bytes), (100, 125_000));
    let p = RateParams::from_rate_bps(100_000, CHUNK_SIZE);
    assert_eq!((p.interval_ms, p.budget_bytes), (100, 1_250));
    let p = RateParams::from_rate_bps(10_000_000_000, CHUNK_SIZE);
    assert_eq!((p.interval_ms, p.budget_bytes), (5, 6_250_000));
}

fn delivered(allocs: &[(u128, u64)]) -> Vec<Ticket> {
    allocs
        .iter()
        .map(|(id, bytes)| Ticket {
            id: *id,
            bytes: *bytes,
            outcome: TicketOutcome::Delivered,
        })
        .collect()
}

#[test]
fn rates_far_beyond_any_link_have_parameters() {
    let rate = 8_000_000_000_000_000_000;
    let p = RateParams::from_rate_bps(rate, CHUNK_SIZE);
    assert_eq!(p.interval_ms, MIN_INTERVAL_MS);
    assert_eq!(p.budget_bytes, 5_000_000_000_000_000);
    assert_eq!(AggregateRateLimiter::new(Some(rate)).params(), Some(p));
    let p = RateParams::from_rate_bps(u64::MAX, CHUNK_SIZE);
    assert_eq!(p.budget_bytes, u64::MAX / 8 * 5 / 1000);
    let p = RateParams::from_rate_bps(8, CHUNK_SIZE);
    assert_eq!((p.interval_ms, p.budget_bytes), (MAX_INTERVAL_MS, 0));
}

#[test]
fn uncapped_streams_get_no_tickets() {
    let mut arl = AggregateRateLimiter::new(None);
    assert!(arl.params().is_none());
    assert!(!arl.register(1, Priority::bulk_priority_min()));
}

#[test]
fn streams_with_data_get_the_budget() {
    let mut arl = AggregateRateLimiter::new(Some(10_000_000));
    assert_eq!(arl.params().unwrap().budget_bytes, 125_000);
    assert!(arl.register(1, Priority::bulk_priority_min()));
    assert!(arl.register(2, Priority::bulk_priority_min()));
    arl.set_position(1, 50_000, 20_000);
    arl.set_position(2, 50_000, 50_000);
    let allocs = arl.tick().unwrap();
    assert_eq!(allocs, vec![(1, 125_000)]);
    arl.settle(&delivered(&allocs), 0);
}

#[test]
fn unused_budget_carries_over_up_to_two_ticks() {
    let mut arl = AggregateRateLimiter::new(Some(10_000_000));
    arl.register(1, Priority::bulk_priority_min());
    for _ in 0..5 {
        let allocs = arl.tick().unwrap();
        assert!(allocs.is_empty());
        arl.settle(&delivered(&allocs), 0);
    }
    arl.set_position(1, 10_000_000, 0);
    let allocs = arl.tick().unwrap();
    assert_eq!(allocs, vec![(1, 250_000)]);
    arl.settle(&delivered(&allocs), 0);
    let allocs = arl.tick().unwrap();
    assert_eq!(allocs, vec![(1, 125_000)]);
}

#[test]
fn undelivered_ticket_keeps_its_budget() {
    let mut arl = AggregateRateLimiter::new(Some(10_000_000));
    arl.register(1, Priority::bulk_priority_min());
    arl.set_position(1, 10_000_000, 0);
    let allocs = arl.tick().unwrap();
    assert_eq!(allocs, vec![(1, 125_000)]);
    let tickets = vec![Ticket {
        id: 1,
        bytes: 125_000,
        outcome: TicketOutcome::Full,
    }];
    arl.settle(&tickets, 0);
    assert_eq!(arl.tick().unwrap(), vec![(1, 250_000)]);
}

#[test]
fn stream_of_closed_pump_is_dropped() {
    let mut arl = AggregateRateLimiter::new(Some(10_000_000));
    arl.register(1, Priority::bulk_priority_min());
    arl.set_position(1, 10_000_000, 0);
    let allocs = arl.tick().unwrap();
    let tickets = vec![Ticket {
        id: 1,
        bytes: allocs[0].1,
        outcome: TicketOutcome::Closed,
    }];
    arl.settle(&tickets, 0);
    assert!(arl.tick().unwrap().is_empty());
}

#[test]
fn retransmissions_shrink_the_budget() {
    let mut arl = AggregateRateLimiter::new(Some(10_000_000));
    arl.register(1, Priority::bulk_priority_min());
    arl.register(2, Priority::bulk_priority_min());
    arl.set_position(1, 10_000_000, 0);
    arl.set_position(2, 10_000_000, 0);
    let allocs = arl.tick().unwrap();
    assert_eq!(allocs, vec![(1, 63_560), (2, 61_440)]);
    let tickets = vec![
        Ticket {
            id: 1,
            bytes: 63_560,
            outcome: TicketOutcome::Delivered,
        },
        Ticket {
            id: 2,
            bytes: 61_440,
            outcome: TicketOutcome::Full,
        },
    ];
    // 73560 bytes went over the wire for 63560 bytes of payload.
    arl.settle(&tickets, 73_560);
    let next: u64 = arl.tick().unwrap().iter().map(|(_, n)| n).sum();
    assert_eq!(next, 61_440 - 10_000 + 125_000);
}

#[test]
fn new_session_starts_the_wire_count_anew() {
    let mut arl = AggregateRateLimiter::new(Some(10_000_000));
    arl.register(1, Priority::bulk_priority_min());
    let allocs = arl.tick().unwrap();
    arl.settle(&delivered(&allocs), 50_000);
    arl.reset_wire_baseline();
    arl.set_position(1, 10_000_000, 0);
    assert_eq!(arl.tick().unwrap(), vec![(1, 75_000 + 125_000)]);
}

#[test]
fn deregistered_stream_gets_no_ticket() {
    let mut arl = AggregateRateLimiter::new(Some(10_000_000));
    arl.register(1, Priority::bulk_priority_min());
    arl.set_position(1, 1_000, 0);
    arl.deregister(1);
    assert!(arl.tick().unwrap().is_empty());
}
