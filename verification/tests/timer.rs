//! The GPU timer's ring of readback slots.

use byard_core::encoder::gpu_timer::{
    GpuSample, GpuTimer, MapTicket, READBACK_LAG, ResolvePlan, SLOTS,
};

fn name(s: &str) -> String {
    s.to_string()
}

fn timer() -> GpuTimer {
    GpuTimer::new(true, vec![name("gpu.test_pass")]).expect("the feature is enabled")
}

/// The bytes of one pass that began and ended at the given ticks.
fn ticks(begin: u64, end: u64) -> Vec<u8> {
    [begin.to_ne_bytes(), end.to_ne_bytes()].concat()
}

/// Records a timed pass and asks for its result.
fn record(timer: &mut GpuTimer) -> MapTicket {
    timer.resolve_and_copy();
    timer.request_map()
}

#[test]
fn new_returns_none_without_the_timestamp_query_feature() {
    assert!(GpuTimer::new(false, vec![name("gpu.test_pass")]).is_none());
}

#[test]
fn new_succeeds_and_tags_scopes_gpu_when_the_feature_is_available() {
    let timer = timer();
    assert_eq!(timer.timestamp_writes(&name("gpu.test_pass")), Some((0, 1)));
    assert!(timer.timestamp_writes(&name("gpu.nonexistent_pass")).is_none());
    assert_eq!(timer.query_count(), 2);
}

#[test]
fn each_scope_has_a_pair_of_queries_of_its_own() {
    let timer = GpuTimer::new(true, vec![name("a"), name("b")]).unwrap();
    assert_eq!(timer.timestamp_writes(&name("a")), Some((0, 1)));
    assert_eq!(timer.timestamp_writes(&name("b")), Some((2, 3)));
}

#[test]
fn a_timed_pass_eventually_yields_a_gpu_tagged_sample() {
    let mut timer = timer();
    let ticket = record(&mut timer);
    let mut mapped = vec![vec![], vec![], vec![]];
    assert_eq!(
        timer.drain_ready(&mapped),
        vec![],
        "nothing before the map completes"
    );
    timer.complete_map(ticket, true);
    assert!(timer.is_ready(ticket.slot));
    mapped[ticket.slot] = ticks(1_000, 1_750);
    let samples = timer.drain_ready(&mapped);
    assert_eq!(
        samples,
        vec![GpuSample {
            scope: 0,
            ticks: 750
        }],
        "the single timed pass yields one sample"
    );
    assert_eq!(timer.drain_ready(&mapped), vec![], "and yields it once");
}

#[test]
fn rapid_slot_reuse_never_corrupts_a_later_laps_state() {
    let laps = 20;
    let mut timer = timer();
    let tickets: Vec<MapTicket> = (0..laps).map(|_| record(&mut timer)).collect();
    // Every completion arrives after all passes were recorded: only those of
    // the last lap still speak of their slot.
    for t in &tickets {
        timer.complete_map(*t, true);
    }
    let mapped = vec![ticks(0, 1), ticks(0, 2), ticks(0, 3)];
    let samples = timer.drain_ready(&mapped);
    assert_eq!(samples.len(), SLOTS);
    assert!(samples.len() <= laps);
    assert!(samples.iter().all(|s| s.scope == 0));
}

#[test]
fn a_late_completion_of_a_reclaimed_slot_is_ignored() {
    let mut timer = timer();
    let stale = record(&mut timer);
    for _ in 0..SLOTS {
        record(&mut timer);
    }
    timer.complete_map(stale, true);
    assert!(!timer.is_ready(stale.slot));
}

#[test]
fn a_failed_map_yields_no_sample_and_frees_its_slot() {
    let mut timer = timer();
    let ticket = record(&mut timer);
    timer.complete_map(ticket, false);
    assert!(!timer.is_ready(ticket.slot));
    let none = vec![vec![], vec![], vec![]];
    assert_eq!(timer.drain_ready(&none), vec![]);
    for _ in 1..SLOTS {
        record(&mut timer);
    }
    assert!(
        !timer.resolve_and_copy().unmap,
        "a failed slot holds no mapping to give back"
    );
}

#[test]
fn the_ring_goes_round_and_unmaps_what_it_reclaims() {
    let mut timer = timer();
    for i in 0..SLOTS {
        assert_eq!(
            timer.resolve_and_copy(),
            ResolvePlan {
                slot: i,
                unmap: false,
                queries: 2,
                bytes: 16
            }
        );
        timer.request_map();
    }
    assert_eq!(
        timer.resolve_and_copy(),
        ResolvePlan {
            slot: 0,
            unmap: true,
            queries: 2,
            bytes: 16
        }
    );
    assert_eq!(SLOTS, READBACK_LAG + 1);
}

#[test]
fn a_counter_that_ran_backwards_counts_as_nothing() {
    let mut timer = timer();
    let ticket = record(&mut timer);
    timer.complete_map(ticket, true);
    let mut mapped = vec![vec![], vec![], vec![]];
    mapped[ticket.slot] = ticks(9, 4);
    assert_eq!(
        timer.drain_ready(&mapped),
        vec![GpuSample { scope: 0, ticks: 0 }]
    );
}
