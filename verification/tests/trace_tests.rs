use aster_dyndbg::dyndbg_trace::{
    event_count, lost_count, new_trace_rings, push_trace_event, reset, reset_event_count,
    snapshot_events, TraceEvent,
};
use aster_dyndbg::sched_trace;
use aster_dyndbg::static_key::{StaticKeyRegistry, StaticKeySite};
use aster_dyndbg::static_patch::PatchEnvironment;

fn env() -> PatchEnvironment {
    PatchEnvironment { num_cpus: 1, in_bootstrap: true, irqs_enabled: false, ipi_ready: false }
}

#[test]
fn snapshot_merges_cpus_in_time_order() {
    let mut rings = new_trace_rings(2);
    push_trace_event(&mut rings, 0, 7, 30);
    push_trace_event(&mut rings, 1, 8, 10);
    push_trace_event(&mut rings, 0, 9, 20);
    assert_eq!(event_count(&rings), 3);
    let (events, lost) = snapshot_events(&mut rings);
    assert_eq!(lost, 0);
    assert_eq!(
        events,
        vec![
            TraceEvent { descriptor_id: 8, tsc: 10, cpu: 1 },
            TraceEvent { descriptor_id: 9, tsc: 20, cpu: 0 },
            TraceEvent { descriptor_id: 7, tsc: 30, cpu: 0 },
        ]
    );
}

#[test]
fn each_event_is_handed_out_once() {
    let mut rings = new_trace_rings(1);
    push_trace_event(&mut rings, 0, 1, 5);
    let (first, _) = snapshot_events(&mut rings);
    assert_eq!(first.len(), 1);
    let (second, lost) = snapshot_events(&mut rings);
    assert!(second.is_empty());
    assert_eq!(lost, 0);
    push_trace_event(&mut rings, 0, 2, 6);
    let (third, _) = snapshot_events(&mut rings);
    assert_eq!(third, vec![TraceEvent { descriptor_id: 2, tsc: 6, cpu: 0 }]);
}

#[test]
fn equal_stamps_keep_cpu_order() {
    let mut rings = new_trace_rings(2);
    push_trace_event(&mut rings, 1, 2, 5);
    push_trace_event(&mut rings, 0, 1, 5);
    let (events, _) = snapshot_events(&mut rings);
    assert_eq!(events[0].cpu, 0);
    assert_eq!(events[1].cpu, 1);
}

#[test]
fn overflow_counts_lost_events() {
    let mut rings = new_trace_rings(1);
    for i in 0..1030u64 {
        push_trace_event(&mut rings, 0, i, i);
    }
    let (events, lost) = snapshot_events(&mut rings);
    assert_eq!(lost, 6);
    assert_eq!(lost_count(&rings), 6);
    assert_eq!(events.len(), 1024);
    assert_eq!(events[0].tsc, 6);
    assert_eq!(events[1023].tsc, 1029);
    for w in events.windows(2) {
        assert!(w[0].tsc <= w[1].tsc);
    }
}

#[test]
fn resets_clear_counters() {
    let mut rings = new_trace_rings(1);
    push_trace_event(&mut rings, 0, 1, 1);
    reset_event_count(&mut rings);
    assert_eq!(event_count(&rings), 0);
    let (events, _) = snapshot_events(&mut rings);
    assert_eq!(events.len(), 1);
    push_trace_event(&mut rings, 0, 1, 2);
    reset(&mut rings);
    assert_eq!(event_count(&rings), 0);
    assert_eq!(lost_count(&rings), 0);
    let (events, _) = snapshot_events(&mut rings);
    assert!(events.is_empty());
}

#[test]
fn sched_trace_follows_its_static_key() {
    let mut keys = StaticKeyRegistry::new(env());
    keys.register(StaticKeySite::new(0x1000, 0x1100, "dyndbg"));
    keys.register(StaticKeySite::new(0x2000, 0x2100, "SCHED_TRACE"));
    assert_eq!(sched_trace::site(&keys), Some(1));
    let mut rings = sched_trace::new_sched_rings(1);
    sched_trace::trace_pick_next(&mut rings, &keys, 0, 10, 0xdead);
    assert_eq!(sched_trace::event_count(&rings), 0);
    sched_trace::enable(&mut keys);
    assert!(keys.site(1).is_enabled());
    assert!(!keys.site(0).is_enabled());
    sched_trace::trace_pick_next(&mut rings, &keys, 0, 10, 0xdead);
    assert_eq!(sched_trace::event_count(&rings), 1);
    let (events, lost) = sched_trace::snapshot_events(&mut rings);
    assert_eq!(lost, 0);
    assert_eq!(events.len(), 1);
    assert_eq!(events[0].task_ptr, 0xdead);
    sched_trace::disable(&mut keys);
    assert!(!keys.site(1).is_enabled());
    sched_trace::trace_pick_next(&mut rings, &keys, 0, 11, 0xbeef);
    assert_eq!(sched_trace::event_count(&rings), 1);
    sched_trace::reset_event_count(&mut rings);
    assert_eq!(sched_trace::event_count(&rings), 0);
    assert_eq!(sched_trace::lost_count(&rings), 0);
}

#[test]
fn sched_trace_without_site_does_nothing() {
    let mut keys = StaticKeyRegistry::new(env());
    assert_eq!(sched_trace::site(&keys), None);
    sched_trace::enable(&mut keys);
    let mut rings = sched_trace::new_sched_rings(1);
    sched_trace::trace_pick_next(&mut rings, &keys, 0, 1, 1);
    assert_eq!(sched_trace::event_count(&rings), 0);
}

#[test]
fn event_count_after_reset_counts_pushes() {
    let mut rings = new_trace_rings(2);
    push_trace_event(&mut rings, 0, 9, 1);
    reset(&mut rings);
    assert_eq!(event_count(&rings), 0);
    assert_eq!(lost_count(&rings), 0);
    assert_eq!(snapshot_events(&mut rings), (vec![], 0));
    for i in 0..5u64 {
        push_trace_event(&mut rings, (i % 2) as u32, i, 100 - i);
    }
    assert_eq!(event_count(&rings), 5);
    let (events, lost) = snapshot_events(&mut rings);
    assert_eq!(lost, 0);
    assert_eq!(events.len(), 5);
    assert!(events.windows(2).all(|w| w[0].tsc <= w[1].tsc));
    assert!(events.contains(&TraceEvent { descriptor_id: 3, tsc: 97, cpu: 1 }));
    assert_eq!(snapshot_events(&mut rings), (vec![], 0));
}
