//! Scheduler tracing: a static-key-gated hook on every context switch that
//! records which task was picked, on which CPU and when, into per-CPU rings.
use vstd::prelude::*;
use vstd::utf8::encode_utf8;
use crate::event_ring::{
    drained_upto, lost_upto, sort_by_stamp, PerCpuRings, RingView, Timestamped,
};
use crate::static_key::{
    disable_static_keys, enable_static_keys, find_sites_by_tag, lemma_tagged_ids_bound, queue_after,
    switch_sites, tagged_ids, RegistryView, StaticKeyRegistry,
};

verus! {

/// Events buffered per CPU.
pub const RING_CAPACITY: usize = 256;

/// One context switch.
#[derive(Debug, Clone, Copy, PartialEq, Eq, Structural)]
pub struct SchedTraceEvent {
    /// CPU where the event occurred.
    pub cpu: u32,
    /// Time-stamp counter at capture time.
    pub tsc: u64,
    /// Address of the task that was picked (a unique task id).
    pub task_ptr: usize,
}

impl Timestamped for SchedTraceEvent {
    open spec fn stamp(&self) -> u64 {
        self.tsc
    }

    fn tsc(&self) -> (r: u64) {
        self.tsc
    }
}

/// The scheduler trace rings of every CPU with their counters.
pub type SchedRings = PerCpuRings<SchedTraceEvent>;

/// UTF-8 bytes of the tag of the scheduler trace site.
pub open spec fn sched_tag() -> Seq<u8> {
    encode_utf8("SCHED_TRACE"@)
}

/// Ids of the scheduler trace sites in `k`, in registration order.
pub open spec fn sched_sites(k: RegistryView) -> Seq<usize> {
    tagged_ids(k.sites, sched_tag(), k.sites.len() as int)
}

/// Empty rings of `RING_CAPACITY` events for `num_cpus` CPUs.
pub fn new_sched_rings(num_cpus: usize) -> (r: SchedRings)
    ensures
        r.wf(),
        r.views().len() == num_cpus,
        forall|i: int| 0 <= i < num_cpus ==> #[trigger] r.views()[i] == (RingView {
            log: Seq::<SchedTraceEvent>::empty(),
            watermark: 0,
            cap: RING_CAPACITY as int,
        }),
        r.count() == 0,
        r.lost_total() == 0,
{
    PerCpuRings::new(num_cpus, RING_CAPACITY, SchedTraceEvent { cpu: 0, tsc: 0, task_ptr: 0 })
}

/// Number of events recorded since start (or the last reset).
pub fn event_count(rings: &SchedRings) -> (r: u64)
    ensures
        r == rings.count(),
{
    rings.event_count()
}

/// Number of events lost to overwriting since start (or the last reset).
pub fn lost_count(rings: &SchedRings) -> (r: u64)
    ensures
        r == rings.lost_total(),
{
    rings.lost_count()
}

/// Zero the event counter.
pub fn reset_event_count(rings: &mut SchedRings)
    ensures
        final(rings).count() == 0,
        final(rings).views() == old(rings).views(),
        final(rings).lost_total() == old(rings).lost_total(),
        old(rings).wf() ==> final(rings).wf(),
{
    rings.reset_event_count()
}

/// Every event produced since the previous drain on every CPU, sorted by
/// time stamp, with the number lost in this interval (also added to the
/// lost count).  Each event is handed out once.
pub fn snapshot_events(rings: &mut SchedRings) -> (r: (Vec<SchedTraceEvent>, u64))
    requires
        old(rings).wf(),
    ensures
        final(rings).wf(),
        r.0@ == sort_by_stamp(drained_upto(old(rings).views(), old(rings).views().len() as int)),
        r.1 as int == lost_upto(old(rings).views(), old(rings).views().len() as int) % 0x1_0000_0000_0000_0000,
        final(rings).views().len() == old(rings).views().len(),
        forall|i: int| 0 <= i < old(rings).views().len() ==> #[trigger] final(rings).views()[i] == (RingView {
            watermark: old(rings).views()[i].log.len() as int,
            ..old(rings).views()[i]
        }),
        final(rings).count() == old(rings).count(),
        final(rings).lost_total() as int == (old(rings).lost_total() + lost_upto(old(rings).views(), old(rings).views().len() as int)) % 0x1_0000_0000_0000_0000,
{
    rings.snapshot()
}

/// Turn scheduler tracing on: every scheduler trace site is enabled in one
/// transaction (nothing happens when there is none).
pub fn enable(keys: &mut StaticKeyRegistry)
    ensures
        sched_sites(old(keys)@).len() == 0 ==> final(keys)@ == old(keys)@,
        sched_sites(old(keys)@).len() > 0 ==> {
            &&& final(keys)@.sites == switch_sites(old(keys)@.sites, sched_sites(old(keys)@), true).0
            &&& final(keys)@.env == old(keys)@.env
            &&& final(keys)@.pending == queue_after(
                old(keys)@.pending,
                switch_sites(old(keys)@.sites, sched_sites(old(keys)@), true).1,
                old(keys)@.env,
            )
        },
{
    let sites = find_sites_by_tag(keys, "SCHED_TRACE");
    proof {
        lemma_tagged_ids_bound(keys@.sites, sched_tag(), keys@.sites.len() as int);
    }
    if sites.len() > 0 {
        enable_static_keys(keys, sites.as_slice());
    }
}

/// Turn scheduler tracing off: every scheduler trace site is disabled in
/// one transaction (nothing happens when there is none).
pub fn disable(keys: &mut StaticKeyRegistry)
    ensures
        sched_sites(old(keys)@).len() == 0 ==> final(keys)@ == old(keys)@,
        sched_sites(old(keys)@).len() > 0 ==> {
            &&& final(keys)@.sites == switch_sites(old(keys)@.sites, sched_sites(old(keys)@), false).0
            &&& final(keys)@.env == old(keys)@.env
            &&& final(keys)@.pending == queue_after(
                old(keys)@.pending,
                switch_sites(old(keys)@.sites, sched_sites(old(keys)@), false).1,
                old(keys)@.env,
            )
        },
{
    let sites = find_sites_by_tag(keys, "SCHED_TRACE");
    proof {
        lemma_tagged_ids_bound(keys@.sites, sched_tag(), keys@.sites.len() as int);
    }
    if sites.len() > 0 {
        disable_static_keys(keys, sites.as_slice());
    }
}

/// The first scheduler trace site, if one is registered.
pub fn site(keys: &StaticKeyRegistry) -> (r: Option<usize>)
    ensures
        r == (if sched_sites(keys@).len() > 0 {
            Some(sched_sites(keys@)[0])
        } else {
            None::<usize>
        }),
        r matches Some(id) ==> (id as int) < keys@.sites.len(),
{
    let sites = find_sites_by_tag(keys, "SCHED_TRACE");
    proof {
        lemma_tagged_ids_bound(keys@.sites, sched_tag(), keys@.sites.len() as int);
    }
    if sites.len() > 0 {
        Some(sites[0])
    } else {
        None
    }
}

/// The context-switch hook: when the scheduler trace site is enabled, record
/// that `task_ptr` was picked on `cpu` at time `tsc`, and count it.
pub fn trace_pick_next(rings: &mut SchedRings, keys: &StaticKeyRegistry, cpu: u32, tsc: u64, task_ptr: usize)
    requires
        old(rings).wf(),
        (cpu as int) < old(rings).views().len(),
    ensures
        final(rings).wf(),
        ({
            let on = sched_sites(keys@).len() > 0 && keys@.sites[sched_sites(keys@)[0] as int].enabled;
            let e = SchedTraceEvent { cpu, tsc, task_ptr };
            let v = old(rings).views()[cpu as int];
            &&& final(rings).views() == (if on && v.log.len() < usize::MAX {
                old(rings).views().update(cpu as int, RingView { log: v.log.push(e), ..v })
            } else {
                old(rings).views()
            })
            &&& final(rings).count() == (if on {
                old(rings).count().wrapping_add(1)
            } else {
                old(rings).count()
            })
        }),
        final(rings).lost_total() == old(rings).lost_total(),
{
    match site(keys) {
        Some(id) => {
            if keys.site(id).is_enabled() {
                rings.push(cpu as usize, SchedTraceEvent { cpu, tsc, task_ptr });
            }
        },
        None => {},
    }
}

} // verus!
