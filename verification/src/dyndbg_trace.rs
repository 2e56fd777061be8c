//! Per-CPU rings of structured trace events: a call site in trace mode
//! records, on every hit, which call site it was, when and on which CPU.
//! Snapshots hand out each event once, merged across CPUs in time order.
use vstd::prelude::*;
use crate::event_ring::{
    drained_upto, lost_upto, sort_by_stamp, PerCpuRings, RingView, Timestamped,
};

verus! {

/// Events buffered per CPU.
pub const RING_CAPACITY: usize = 1024;

/// One hit of a call site in trace mode.
#[derive(Debug, Clone, Copy, PartialEq, Eq, Structural)]
pub struct TraceEvent {
    /// Id of the call site.
    pub descriptor_id: u64,
    /// Time-stamp counter at capture time.
    pub tsc: u64,
    /// CPU where the event occurred.
    pub cpu: u32,
}

impl Timestamped for TraceEvent {
    open spec fn stamp(&self) -> u64 {
        self.tsc
    }

    fn tsc(&self) -> (r: u64) {
        self.tsc
    }
}

/// The trace rings of every CPU with their counters.
pub type TraceRings = PerCpuRings<TraceEvent>;

/// Empty rings of `RING_CAPACITY` events for `num_cpus` CPUs.
pub fn new_trace_rings(num_cpus: usize) -> (r: TraceRings)
    ensures
        r.wf(),
        r.views().len() == num_cpus,
        forall|i: int| 0 <= i < num_cpus ==> #[trigger] r.views()[i] == (RingView {
            log: Seq::<TraceEvent>::empty(),
            watermark: 0,
            cap: RING_CAPACITY as int,
        }),
        r.count() == 0,
        r.lost_total() == 0,
{
    PerCpuRings::new(num_cpus, RING_CAPACITY, TraceEvent { descriptor_id: 0, tsc: 0, cpu: 0 })
}

/// Record a hit of call site `descriptor_id` on `cpu` at time `tsc` in that
/// CPU's ring, and count it.
pub fn push_trace_event(rings: &mut TraceRings, cpu: u32, descriptor_id: u64, tsc: u64)
    requires
        old(rings).wf(),
        (cpu as int) < old(rings).views().len(),
    ensures
        final(rings).wf(),
        ({
            let e = TraceEvent { descriptor_id, tsc, cpu };
            let v = old(rings).views()[cpu as int];
            final(rings).views() == (if v.log.len() < usize::MAX {
                old(rings).views().update(cpu as int, RingView { log: v.log.push(e), ..v })
            } else {
                old(rings).views()
            })
        }),
        final(rings).count() == old(rings).count().wrapping_add(1),
        final(rings).lost_total() == old(rings).lost_total(),
{
    let event = TraceEvent { descriptor_id, tsc, cpu };
    rings.push(cpu as usize, event);
}

/// Every event produced since the previous snapshot on every CPU, sorted by
/// time stamp, with the number lost to overwriting in this interval (also
/// added to the lost count).  Each event is handed out once.
pub fn snapshot_events(rings: &mut TraceRings) -> (r: (Vec<TraceEvent>, u64))
    requires
        old(rings).wf(),
    ensures
        final(rings).wf(),
        r.0@ == sort_by_stamp(drained_upto(old(rings).views(), old(rings).views().len() as int)),
        r.1 as int == lost_upto(old(rings).views(), old(rings).views().len() as int) % 0x1_0000_0000_0000_0000,
        final(rings).views().len() == old(rings).views().len(),
        forall|i: int| 0 <= i < old(rings).views().len() ==> #[trigger] final(rings).views()[i] == (RingView {
            watermark: old(rings).views()[i].log.len() as int,
            ..old(rings).views()[i]
        }),
        final(rings).count() == old(rings).count(),
        final(rings).lost_total() as int == (old(rings).lost_total() + lost_upto(old(rings).views(), old(rings).views().len() as int)) % 0x1_0000_0000_0000_0000,
{
    rings.snapshot()
}

/// Number of events recorded since start (or the last reset).
pub fn event_count(rings: &TraceRings) -> (r: u64)
    ensures
        r == rings.count(),
{
    rings.event_count()
}

/// Number of events lost to overwriting since start (or the last reset).
pub fn lost_count(rings: &TraceRings) -> (r: u64)
    ensures
        r == rings.lost_total(),
{
    rings.lost_count()
}

/// Zero the event counter; the rings keep their events.
pub fn reset_event_count(rings: &mut TraceRings)
    ensures
        final(rings).count() == 0,
        final(rings).views() == old(rings).views(),
        final(rings).lost_total() == old(rings).lost_total(),
        old(rings).wf() ==> final(rings).wf(),
{
    rings.reset_event_count()
}

/// Empty every ring and zero both counters.
pub fn reset(rings: &mut TraceRings)
    requires
        old(rings).wf(),
    ensures
        final(rings).wf(),
        final(rings).views().len() == old(rings).views().len(),
        forall|i: int| 0 <= i < old(rings).views().len() ==> #[trigger] final(rings).views()[i] == (RingView {
            log: Seq::<TraceEvent>::empty(),
            watermark: 0,
            cap: old(rings).views()[i].cap,
        }),
        final(rings).count() == 0,
        final(rings).lost_total() == 0,
{
    rings.reset()
}

} // verus!
