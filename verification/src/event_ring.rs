//! Fixed-size event rings, one per CPU, that keep the latest events and hand
//! out, on each snapshot, everything produced since the previous one merged
//! across CPUs in time-stamp order.
use vstd::prelude::*;
use vstd::arithmetic::div_mod::{
    lemma_fundamental_div_mod, lemma_mod_bound, lemma_mod_equivalence, lemma_mod_multiples_basic,
    lemma_small_mod,
};

verus! {

/// An event carrying a time stamp.
pub trait Timestamped: Copy {
    spec fn stamp(&self) -> u64;

    fn tsc(&self) -> (r: u64)
        ensures
            r == self.stamp(),
    ;
}

/// The position among the last `cap` of `head` events that shares the ring
/// slot of position `j`.
pub open spec fn slot_owner(head: int, cap: int, j: int) -> int {
    (head - cap) + ((j - (head - cap)) % cap)
}

/// The abstract state of one ring: every event pushed since the last reset,
/// how many of them earlier snapshots consumed, and the number of slots.
pub struct RingView<T> {
    pub log: Seq<T>,
    pub watermark: int,
    pub cap: int,
}

/// Events produced since the previous snapshot.
pub open spec fn produced<T>(v: RingView<T>) -> int {
    v.log.len() - v.watermark
}

/// Events of the interval still in the ring.
pub open spec fn available<T>(v: RingView<T>) -> int {
    if produced(v) <= v.cap {
        produced(v)
    } else {
        v.cap
    }
}

/// What a snapshot reads from the ring: one event per slot position from the
/// watermark on, each the latest event written to that slot.
pub open spec fn drained<T>(v: RingView<T>) -> Seq<T> {
    Seq::new(available(v) as nat, |i: int| v.log[slot_owner(v.log.len() as int, v.cap, v.watermark + i)])
}

/// Events lost to overwriting since the previous snapshot.
pub open spec fn lost<T>(v: RingView<T>) -> int {
    produced(v) - available(v)
}

/// The events the rings `vs[0..n]` hand out, CPU by CPU.
pub open spec fn drained_upto<T>(vs: Seq<RingView<T>>, n: int) -> Seq<T>
    decreases n,
{
    if n <= 0 {
        Seq::empty()
    } else {
        drained_upto(vs, n - 1) + drained(vs[n - 1])
    }
}

/// Events the rings `vs[0..n]` lost.
pub open spec fn lost_upto<T>(vs: Seq<RingView<T>>, n: int) -> int
    decreases n,
{
    if n <= 0 {
        0
    } else {
        lost_upto(vs, n - 1) + lost(vs[n - 1])
    }
}

/// First position at or after `i` whose stamp is later than `t`.
pub open spec fn first_later<T: Timestamped>(s: Seq<T>, t: u64, i: int) -> int
    decreases s.len() - i,
{
    if i >= s.len() {
        s.len() as int
    } else if s[i].stamp() > t {
        i
    } else {
        first_later(s, t, i + 1)
    }
}

/// `e` inserted into `s` after every event with a stamp not later than its.
pub open spec fn insert_by_stamp<T: Timestamped>(s: Seq<T>, e: T) -> Seq<T> {
    s.insert(first_later(s, e.stamp(), 0), e)
}

/// The stable sort of `s` by stamp.
pub open spec fn sort_by_stamp<T: Timestamped>(s: Seq<T>) -> Seq<T>
    decreases s.len(),
{
    if s.len() == 0 {
        s
    } else {
        insert_by_stamp(sort_by_stamp(s.drop_last()), s.last())
    }
}

/// `s` is ordered by stamp.
pub open spec fn stamp_sorted<T: Timestamped>(s: Seq<T>) -> bool {
    forall|i: int, j: int| 0 <= i <= j < s.len() ==> s[i].stamp() <= s[j].stamp()
}

proof fn lemma_first_later_bounds<T: Timestamped>(s: Seq<T>, t: u64, i: int)
    requires
        0 <= i <= s.len(),
    ensures
        i <= first_later(s, t, i) <= s.len(),
        forall|q: int| i <= q < first_later(s, t, i) ==> s[q].stamp() <= t,
        first_later(s, t, i) < s.len() ==> s[first_later(s, t, i)].stamp() > t,
    decreases s.len() - i,
{
    if i < s.len() && s[i].stamp() <= t {
        lemma_first_later_bounds(s, t, i + 1);
    }
}

/// Inserting by stamp keeps a sorted sequence sorted.
proof fn lemma_insert_sorted<T: Timestamped>(s: Seq<T>, e: T)
    requires
        stamp_sorted(s),
    ensures
        stamp_sorted(insert_by_stamp(s, e)),
        insert_by_stamp(s, e).len() == s.len() + 1,
{
    let k = first_later(s, e.stamp(), 0);
    lemma_first_later_bounds(s, e.stamp(), 0);
    let r = insert_by_stamp(s, e);
    assert forall|i: int, j: int| 0 <= i <= j < r.len() implies r[i].stamp() <= r[j].stamp() by {
        if i < k && j == k {
        } else if i < k && j > k {
            assert(r[j] == s[j - 1]);
        } else if i == k && j > k {
            assert(r[j] == s[j - 1]);
            if k < s.len() {
                assert(s[k].stamp() <= s[j - 1].stamp());
            }
        } else if i > k {
            assert(r[i] == s[i - 1]);
            assert(r[j] == s[j - 1]);
        }
    }
}

/// The stable sort by stamp is sorted by stamp.
pub proof fn lemma_sort_by_stamp_sorted<T: Timestamped>(s: Seq<T>)
    ensures
        stamp_sorted(sort_by_stamp(s)),
        sort_by_stamp(s).len() == s.len(),
    decreases s.len(),
{
    if s.len() > 0 {
        lemma_sort_by_stamp_sorted(s.drop_last());
        lemma_insert_sorted(sort_by_stamp(s.drop_last()), s.last());
    }
}

/// The stable sort by stamp holds the same events as its input.
pub proof fn lemma_sort_by_stamp_permutes<T: Timestamped>(s: Seq<T>)
    ensures
        sort_by_stamp(s).to_multiset() == s.to_multiset(),
    decreases s.len(),
{
    broadcast use vstd::seq_lib::to_multiset_build, vstd::seq_lib::to_multiset_insert;

    if s.len() > 0 {
        lemma_sort_by_stamp_permutes(s.drop_last());
        let p = sort_by_stamp(s.drop_last());
        lemma_sort_by_stamp_sorted(s.drop_last());
        lemma_first_later_bounds(p, s.last().stamp(), 0);
        assert(s.drop_last().push(s.last()) =~= s);
    }
}

/// A copy of `v` sorted by time stamp; events with equal stamps keep their
/// order.
pub fn sort_by_tsc<T: Timestamped>(v: Vec<T>) -> (r: Vec<T>)
    ensures
        r@ == sort_by_stamp(v@),
{
    let mut out: Vec<T> = Vec::new();
    let mut i: usize = 0;
    while i < v.len()
        invariant
            i <= v@.len(),
            out@ == sort_by_stamp(v@.take(i as int)),
        decreases v.len() - i,
    {
        let e = v[i];
        let t = e.tsc();
        proof {
            lemma_sort_by_stamp_sorted(v@.take(i as int));
        }
        let mut k: usize = 0;
        loop
            invariant
                k <= out@.len(),
                first_later(out@, t, 0) == first_later(out@, t, k as int),
            ensures
                k == first_later(out@, t, 0),
            decreases out@.len() - k,
        {
            if k >= out.len() {
                break;
            }
            if out[k].tsc() > t {
                break;
            }
            k += 1;
        }
        out.insert(k, e);
        proof {
            assert(v@.take(i + 1).drop_last() =~= v@.take(i as int));
            assert(v@.take(i + 1).last() == e);
        }
        i += 1;
    }
    assert(v@.take(v@.len() as int) =~= v@);
    out
}

/// One CPU's ring of `cap` slots.
pub struct EventRing<T> {
    events: Vec<T>,
    cap: usize,
    /// Number of events pushed since the last reset.
    head: usize,
    /// Number of them that earlier snapshots consumed.
    snapshot_head: usize,
    history: Ghost<Seq<T>>,
}

impl<T: Copy> EventRing<T> {
    pub closed spec fn view(&self) -> RingView<T> {
        RingView { log: self.history@, watermark: self.snapshot_head as int, cap: self.cap as int }
    }

    pub closed spec fn wf(&self) -> bool {
        &&& self.cap > 0
        &&& self.events@.len() == self.cap
        &&& self.head == self.history@.len()
        &&& self.snapshot_head <= self.head
        &&& forall|k: int|
            0 <= k && self.head - self.cap <= k < self.head ==> self.events@[k % (self.cap as int)]
                == #[trigger] self.history@[k]
    }

    /// An empty ring of `cap` slots, each holding `fill`.
    pub fn new(cap: usize, fill: T) -> (r: Self)
        requires
            cap > 0,
        ensures
            r.wf(),
            r.view() == (RingView { log: Seq::<T>::empty(), watermark: 0, cap: cap as int }),
    {
        let mut events: Vec<T> = Vec::new();
        let mut i: usize = 0;
        while i < cap
            invariant
                i <= cap,
                events@.len() == i,
            decreases cap - i,
        {
            events.push(fill);
            i += 1;
        }
        let r = EventRing { events, cap, head: 0, snapshot_head: 0, history: Ghost(Seq::empty()) };
        assert(r.view().log =~= Seq::<T>::empty());
        r
    }

    /// Number of events pushed since the last reset.
    pub fn written(&self) -> (r: usize)
        requires
            self.wf(),
        ensures
            r == self.view().log.len(),
    {
        self.head
    }

    /// Write `event` into the slot after the last one, overwriting the event
    /// `cap` places back.
    pub fn push(&mut self, event: T)
        requires
            old(self).wf(),
            old(self).view().log.len() < usize::MAX,
        ensures
            final(self).wf(),
            final(self).view() == (RingView { log: old(self).view().log.push(event), ..old(self).view() }),
    {
        let idx = self.head % self.cap;
        let ghost h = self.head as int;
        let ghost c = self.cap as int;
        self.events.set(idx, event);
        self.head = self.head + 1;
        self.history = Ghost(self.history@.push(event));
        proof {
            assert forall|k: int| 0 <= k && h + 1 - c <= k < h + 1 implies self.events@[k % c] == #[trigger] self.history@[k] by {
                if k < h {
                    lemma_small_mod((h - k) as nat, c as nat);
                    lemma_mod_equivalence(h, k, c);
                    assert(k % c != h % c);
                }
            }
        }
    }

    /// Append to `out` the events produced since the previous snapshot (at
    /// most `cap` of them, one per slot) and move the watermark to the end.
    /// Returns how many of those events were overwritten before this call.
    pub fn drain_since(&mut self, out: &mut Vec<T>) -> (lost_events: usize)
        requires
            old(self).wf(),
        ensures
            final(self).wf(),
            final(self).view() == (RingView { watermark: old(self).view().log.len() as int, ..old(self).view() }),
            lost_events == lost(old(self).view()),
            final(out)@ == old(out)@ + drained(old(self).view()),
            produced(old(self).view()) <= old(self).view().cap ==> drained(old(self).view())
                == old(self).view().log.subrange(old(self).view().watermark, old(self).view().log.len() as int),
    {
        let ghost v = self.view();
        let ghost o0 = out@;
        let head = self.head;
        let watermark = self.snapshot_head;
        let n_produced = head - watermark;
        let n_available = if n_produced < self.cap { n_produced } else { self.cap };
        let lost_events = n_produced - n_available;
        let mut i: usize = 0;
        while i < n_available
            invariant
                self.wf(),
                self.view() == v,
                head == self.head,
                watermark == self.snapshot_head,
                n_available as int == available(v),
                i <= n_available,
                out@ == o0 + drained(v).take(i as int),
            decreases n_available - i,
        {
            let idx = (watermark + i) % self.cap;
            proof {
                let c = self.cap as int;
                let h = head as int;
                let j = watermark + i;
                let owner = slot_owner(h, c, j);
                let x = j - (h - c);
                lemma_fundamental_div_mod(x, c);
                assert(owner - j == -(c * (x / c)));
                lemma_mod_multiples_basic(-(x / c), c);
                assert((-(x / c)) * c == owner - j) by (nonlinear_arith)
                    requires owner - j == -(c * (x / c));
                lemma_mod_equivalence(owner, j, c);
                lemma_mod_bound(x, c);
                if produced(v) <= c {
                    lemma_small_mod(x as nat, c as nat);
                    assert(owner == j);
                }
                assert(0 <= owner < h);
                assert(self.events@[owner % c] == self.history@[owner]);
                assert(drained(v)[i as int] == self.history@[owner]);
            }
            out.push(self.events[idx]);
            proof {
                assert(drained(v).take(i + 1) =~= drained(v).take(i as int).push(drained(v)[i as int]));
            }
            i += 1;
        }
        self.snapshot_head = head;
        proof {
            assert(drained(v).take(n_available as int) =~= drained(v));
            if produced(v) <= v.cap {
                assert forall|q: int| 0 <= q < n_available implies #[trigger] drained(v)[q] == v.log.subrange(v.watermark, v.log.len() as int)[q] by {
                    let c = v.cap;
                    let h = v.log.len() as int;
                    let j = v.watermark + q;
                    lemma_small_mod((j - (h - c)) as nat, c as nat);
                }
                assert(drained(v) =~= v.log.subrange(v.watermark, v.log.len() as int));
            }
        }
        lost_events
    }

    /// Forget every event: the ring starts over empty.
    pub fn reset(&mut self)
        requires
            old(self).wf(),
        ensures
            final(self).wf(),
            final(self).view() == (RingView { log: Seq::<T>::empty(), watermark: 0, cap: old(self).view().cap }),
    {
        self.head = 0;
        self.snapshot_head = 0;
        self.history = Ghost(Seq::empty());
    }
}

/// Adding to a sum kept modulo 2^64 is adding modulo 2^64.
proof fn lemma_count_bound_mod(a: int, b: int)
    ensures
        ((a % 0x1_0000_0000_0000_0000) + b) % 0x1_0000_0000_0000_0000 == (a + b) % 0x1_0000_0000_0000_0000,
{
    vstd::arithmetic::div_mod::lemma_add_mod_noop(a, b, 0x1_0000_0000_0000_0000);
    vstd::arithmetic::div_mod::lemma_mod_twice(b, 0x1_0000_0000_0000_0000);
    vstd::arithmetic::div_mod::lemma_add_mod_noop(a % 0x1_0000_0000_0000_0000, b, 0x1_0000_0000_0000_0000);
    vstd::arithmetic::div_mod::lemma_mod_twice(a, 0x1_0000_0000_0000_0000);
}

/// One ring per CPU, with the count of events pushed and the count of
/// events lost to overwriting.
pub struct PerCpuRings<T> {
    rings: Vec<EventRing<T>>,
    event_count: u64,
    lost_events: u64,
}

impl<T: Timestamped> PerCpuRings<T> {
    /// The rings' abstract states, by CPU.
    pub closed spec fn views(&self) -> Seq<RingView<T>> {
        self.rings@.map_values(|r: EventRing<T>| r.view())
    }

    /// Events pushed since start or the last reset of the count.
    pub closed spec fn count(&self) -> u64 {
        self.event_count
    }

    /// Events lost to overwriting since start or the last reset.
    pub closed spec fn lost_total(&self) -> u64 {
        self.lost_events
    }

    pub closed spec fn wf(&self) -> bool {
        forall|i: int| 0 <= i < self.rings@.len() ==> (#[trigger] self.rings@[i]).wf()
    }

    /// `num_cpus` empty rings of `cap` slots each.
    pub fn new(num_cpus: usize, cap: usize, fill: T) -> (r: Self)
        requires
            cap > 0,
        ensures
            r.wf(),
            r.views().len() == num_cpus,
            forall|i: int| 0 <= i < num_cpus ==> #[trigger] r.views()[i] == (RingView {
                log: Seq::<T>::empty(),
                watermark: 0,
                cap: cap as int,
            }),
            r.count() == 0,
            r.lost_total() == 0,
    {
        let mut rings: Vec<EventRing<T>> = Vec::new();
        let mut i: usize = 0;
        while i < num_cpus
            invariant
                cap > 0,
                i <= num_cpus,
                rings@.len() == i,
                forall|q: int| 0 <= q < i ==> (#[trigger] rings@[q]).wf() && rings@[q].view() == (RingView {
                    log: Seq::<T>::empty(),
                    watermark: 0,
                    cap: cap as int,
                }),
            decreases num_cpus - i,
        {
            let ring = EventRing::new(cap, fill);
            let ghost before = rings@;
            rings.push(ring);
            assert(forall|q: int| 0 <= q < i ==> #[trigger] rings@[q] == before[q]);
            assert(rings@[i as int] == ring);
            i += 1;
        }
        let r = PerCpuRings { rings, event_count: 0, lost_events: 0 };
        assert(r.views().len() == num_cpus);
        r
    }

    /// Number of CPUs.
    pub fn num_cpus(&self) -> (r: usize)
        ensures
            r == self.views().len(),
    {
        self.rings.len()
    }

    /// Record `event` in the ring of `cpu` and count it.  A ring whose write
    /// counter has reached `usize::MAX` records no more events.
    pub fn push(&mut self, cpu: usize, event: T)
        requires
            old(self).wf(),
            cpu < old(self).views().len(),
        ensures
            final(self).wf(),
            final(self).views() == (if old(self).views()[cpu as int].log.len() < usize::MAX {
                old(self).views().update(
                    cpu as int,
                    RingView { log: old(self).views()[cpu as int].log.push(event), ..old(self).views()[cpu as int] },
                )
            } else {
                old(self).views()
            }),
            final(self).count() == old(self).count().wrapping_add(1),
            final(self).lost_total() == old(self).lost_total(),
    {
        let ghost v0 = self.views();
        assert(self.rings@[cpu as int].view() == v0[cpu as int]);
        if self.rings[cpu].written() < usize::MAX {
            self.rings[cpu].push(event);
            proof {
                assert forall|i: int| 0 <= i < self.rings@.len() implies (#[trigger] self.rings@[i]).wf() by {}
            }
            assert(self.views() =~= v0.update(
                cpu as int,
                RingView { log: v0[cpu as int].log.push(event), ..v0[cpu as int] },
            ));
        }
        self.event_count = self.event_count.wrapping_add(1);
    }

    /// Take every event produced since the previous snapshot on every CPU,
    /// merged and sorted by time stamp (equal stamps in CPU order), with the
    /// number of events lost to overwriting in this interval, which is also
    /// added to the lost total.  Each event is handed out once.
    pub fn snapshot(&mut self) -> (r: (Vec<T>, u64))
        requires
            old(self).wf(),
        ensures
            final(self).wf(),
            r.0@ == sort_by_stamp(drained_upto(old(self).views(), old(self).views().len() as int)),
            r.1 as int == lost_upto(old(self).views(), old(self).views().len() as int) % 0x1_0000_0000_0000_0000,
            final(self).views().len() == old(self).views().len(),
            forall|i: int| 0 <= i < old(self).views().len() ==> #[trigger] final(self).views()[i] == (RingView {
                watermark: old(self).views()[i].log.len() as int,
                ..old(self).views()[i]
            }),
            final(self).count() == old(self).count(),
            final(self).lost_total() as int == (old(self).lost_total() + lost_upto(old(self).views(), old(self).views().len() as int)) % 0x1_0000_0000_0000_0000,
    {
        let ghost v0 = self.views();
        let mut events: Vec<T> = Vec::new();
        let mut lost_this_read: u64 = 0;
        let n = self.rings.len();
        let mut cpu: usize = 0;
        while cpu < n
            invariant
                n == v0.len(),
                self.rings@.len() == n,
                cpu <= n,
                self.wf(),
                forall|i: int| 0 <= i < cpu ==> #[trigger] self.views()[i] == (RingView {
                    watermark: v0[i].log.len() as int,
                    ..v0[i]
                }),
                forall|i: int| cpu <= i < n ==> #[trigger] self.views()[i] == v0[i],
                events@ == drained_upto(v0, cpu as int),
                lost_this_read as int == lost_upto(v0, cpu as int) % 0x1_0000_0000_0000_0000,
                self.lost_events as int == (old(self).lost_events + lost_upto(v0, cpu as int)) % 0x1_0000_0000_0000_0000,
                self.event_count == old(self).event_count,
            decreases n - cpu,
        {
            let ghost before = self.views();
            let ghost old_rings = self.rings@;
            assert(self.views()[cpu as int] == self.rings@[cpu as int].view());
            assert(self.rings@[cpu as int].view() == v0[cpu as int]);
            let lost_here = self.rings[cpu].drain_since(&mut events);
            if lost_here > 0 {
                lost_this_read = lost_this_read.wrapping_add(lost_here as u64);
                self.lost_events = self.lost_events.wrapping_add(lost_here as u64);
            }
            proof {
                assert(self.rings@.len() == n);
                assert(forall|i: int| 0 <= i < n && i != cpu ==> #[trigger] self.rings@[i] == old_rings[i]);
                assert forall|i: int| 0 <= i < self.rings@.len() implies (#[trigger] self.rings@[i]).wf() by {}
                assert forall|i: int| 0 <= i < n implies #[trigger] self.views()[i] == self.rings@[i].view() by {}
                assert forall|i: int| 0 <= i < n implies #[trigger] before[i] == old_rings[i].view() by {}
                assert forall|i: int| 0 <= i < cpu + 1 implies #[trigger] self.views()[i] == (RingView {
                    watermark: v0[i].log.len() as int,
                    ..v0[i]
                }) by {
                    if i < cpu {
                        assert(self.views()[i] == self.rings@[i].view());
                        assert(self.rings@[i] == old_rings[i]);
                        assert(before[i] == old_rings[i].view());
                    }
                }
                assert forall|i: int| cpu + 1 <= i < n implies #[trigger] self.views()[i] == v0[i] by {
                    assert(self.views()[i] == self.rings@[i].view());
                    assert(self.rings@[i] == old_rings[i]);
                    assert(before[i] == old_rings[i].view());
                }
                assert(drained_upto(v0, cpu + 1) == drained_upto(v0, cpu as int) + drained(v0[cpu as int]));
                assert(lost_upto(v0, cpu + 1) == lost_upto(v0, cpu as int) + lost(v0[cpu as int]));
                lemma_count_bound_mod(lost_upto(v0, cpu as int), lost(v0[cpu as int]));
                lemma_count_bound_mod(old(self).lost_events + lost_upto(v0, cpu as int), lost(v0[cpu as int]));
            }
            cpu += 1;
        }
        let sorted = sort_by_tsc(events);
        (sorted, lost_this_read)
    }

    /// Events pushed since start or the last reset of the count.
    pub fn event_count(&self) -> (r: u64)
        ensures
            r == self.count(),
    {
        self.event_count
    }

    /// Events lost to overwriting since start or the last reset.
    pub fn lost_count(&self) -> (r: u64)
        ensures
            r == self.lost_total(),
    {
        self.lost_events
    }

    /// Zero the event count; the rings keep their events.
    pub fn reset_event_count(&mut self)
        ensures
            final(self).count() == 0,
            final(self).views() == old(self).views(),
            final(self).lost_total() == old(self).lost_total(),
            old(self).wf() ==> final(self).wf(),
    {
        self.event_count = 0;
    }

    /// Empty every ring and zero both counts.
    pub fn reset(&mut self)
        requires
            old(self).wf(),
        ensures
            final(self).wf(),
            final(self).views().len() == old(self).views().len(),
            forall|i: int| 0 <= i < old(self).views().len() ==> #[trigger] final(self).views()[i] == (RingView {
                log: Seq::<T>::empty(),
                watermark: 0,
                cap: old(self).views()[i].cap,
            }),
            final(self).count() == 0,
            final(self).lost_total() == 0,
    {
        self.event_count = 0;
        self.lost_events = 0;
        let ghost v0 = self.views();
        let n = self.rings.len();
        let mut cpu: usize = 0;
        while cpu < n
            invariant
                n == v0.len(),
                self.rings@.len() == n,
                cpu <= n,
                self.wf(),
                forall|i: int| 0 <= i < cpu ==> #[trigger] self.views()[i] == (RingView {
                    log: Seq::<T>::empty(),
                    watermark: 0,
                    cap: v0[i].cap,
                }),
                forall|i: int| cpu <= i < n ==> #[trigger] self.views()[i] == v0[i],
                self.event_count == 0,
                self.lost_events == 0,
            decreases n - cpu,
        {
            let ghost before = self.views();
            let ghost old_rings = self.rings@;
            assert(self.views()[cpu as int] == self.rings@[cpu as int].view());
            assert(self.rings@[cpu as int].view() == v0[cpu as int]);
            self.rings[cpu].reset();
            proof {
                assert(self.rings@.len() == n);
                assert(forall|i: int| 0 <= i < n && i != cpu ==> #[trigger] self.rings@[i] == old_rings[i]);
                assert(self.rings@[cpu as int].view() == (RingView { log: Seq::<T>::empty(), watermark: 0, cap: v0[cpu as int].cap }));
                assert forall|i: int| 0 <= i < self.rings@.len() implies (#[trigger] self.rings@[i]).wf() by {}
                assert forall|i: int| 0 <= i < n implies #[trigger] self.views()[i] == self.rings@[i].view() by {}
                assert forall|i: int| 0 <= i < n implies #[trigger] before[i] == old_rings[i].view() by {}
                assert forall|i: int| 0 <= i < cpu + 1 implies #[trigger] self.views()[i] == (RingView {
                    log: Seq::<T>::empty(),
                    watermark: 0,
                    cap: v0[i].cap,
                }) by {
                    if i < cpu {
                        assert(self.views()[i] == self.rings@[i].view());
                        assert(self.rings@[i] == old_rings[i]);
                        assert(before[i] == old_rings[i].view());
                    }
                }
                assert forall|i: int| cpu + 1 <= i < n implies #[trigger] self.views()[i] == v0[i] by {
                    assert(self.views()[i] == self.rings@[i].view());
                    assert(self.rings@[i] == old_rings[i]);
                    assert(before[i] == old_rings[i].view());
                }
            }
            cpu += 1;
        }
    }
}

/// Right after a snapshot, another snapshot hands out nothing and counts
/// nothing lost.
pub proof fn law_snapshot_consumes<T>(vs: Seq<RingView<T>>)
    requires
        forall|i: int| 0 <= i < vs.len() ==> (#[trigger] vs[i]).watermark == vs[i].log.len() && vs[i].cap >= 0,
    ensures
        drained_upto(vs, vs.len() as int) == Seq::<T>::empty(),
        lost_upto(vs, vs.len() as int) == 0,
{
    lemma_all_consumed(vs, vs.len() as int);
}

proof fn lemma_all_consumed<T>(vs: Seq<RingView<T>>, n: int)
    requires
        0 <= n <= vs.len(),
        forall|i: int| 0 <= i < vs.len() ==> (#[trigger] vs[i]).watermark == vs[i].log.len() && vs[i].cap >= 0,
    ensures
        drained_upto(vs, n) == Seq::<T>::empty(),
        lost_upto(vs, n) == 0,
    decreases n,
{
    if n > 0 {
        lemma_all_consumed(vs, n - 1);
        assert(drained(vs[n - 1]) =~= Seq::<T>::empty());
        assert(drained_upto(vs, n) =~= Seq::<T>::empty());
    }
}

/// Two snapshots of a ring, with events pushed between them and none lost,
/// hand out together every event pushed since the first one's watermark,
/// each once and in order.
pub proof fn law_consecutive_snapshots<T>(v1: RingView<T>, v2: RingView<T>)
    requires
        0 <= v1.watermark <= v1.log.len(),
        v2.cap == v1.cap,
        v1.cap > 0,
        v2.watermark == v1.log.len(),
        v1.log.len() <= v2.log.len(),
        v2.log.subrange(0, v1.log.len() as int) == v1.log,
        produced(v1) <= v1.cap,
        produced(v2) <= v2.cap,
    ensures
        drained(v1) + drained(v2) == v2.log.subrange(v1.watermark, v2.log.len() as int),
{
    let h1 = v1.log.len() as int;
    let h2 = v2.log.len() as int;
    assert forall|q: int| 0 <= q < available(v1) implies #[trigger] drained(v1)[q] == v1.log[v1.watermark + q] by {
        vstd::arithmetic::div_mod::lemma_small_mod((v1.watermark + q - (h1 - v1.cap)) as nat, v1.cap as nat);
    }
    assert forall|q: int| 0 <= q < available(v2) implies #[trigger] drained(v2)[q] == v2.log[v2.watermark + q] by {
        vstd::arithmetic::div_mod::lemma_small_mod((v2.watermark + q - (h2 - v2.cap)) as nat, v2.cap as nat);
    }
    assert forall|q: int| 0 <= q < h1 implies v1.log[q] == v2.log[q] by {
        assert(v2.log.subrange(0, h1)[q] == v2.log[q]);
    }
    assert(drained(v1) + drained(v2) =~= v2.log.subrange(v1.watermark, h2));
}

/// Every ring of a well-formed set has at least one slot, and its
/// watermark lies within what was pushed.
pub proof fn law_ring_views_bounded<T: Timestamped>(r: &PerCpuRings<T>)
    requires
        r.wf(),
    ensures
        forall|i: int|
            0 <= i < r.views().len() ==> (#[trigger] r.views()[i]).cap > 0 && 0 <= r.views()[i].watermark
                <= r.views()[i].log.len(),
{
    assert forall|i: int| 0 <= i < r.views().len() implies (#[trigger] r.views()[i]).cap > 0 && 0 <= r.views()[i].watermark
        <= r.views()[i].log.len() by {
        assert(r.rings@[i].wf());
        assert(r.views()[i] == r.rings@[i].view());
    }
}

/// A snapshot of a ring hands out `min(produced, cap)` events and counts the
/// rest as lost; when no more than `cap` events were pushed since the last
/// snapshot, it hands out exactly those, in order, and loses none.
pub proof fn law_drain_of_ring<T>(v: RingView<T>)
    requires
        v.cap > 0,
        0 <= v.watermark <= v.log.len(),
    ensures
        drained(v).len() == (if produced(v) <= v.cap { produced(v) } else { v.cap }),
        lost(v) == (if produced(v) <= v.cap { 0 } else { produced(v) - v.cap }),
        produced(v) <= v.cap ==> drained(v) == v.log.subrange(v.watermark, v.log.len() as int),
{
    let h = v.log.len() as int;
    if produced(v) <= v.cap {
        assert forall|q: int| 0 <= q < available(v) implies #[trigger] drained(v)[q] == v.log[v.watermark + q] by {
            vstd::arithmetic::div_mod::lemma_small_mod((v.watermark + q - (h - v.cap)) as nat, v.cap as nat);
        }
        assert(drained(v) =~= v.log.subrange(v.watermark, h));
    }
}

/// An event pushed onto a ring with room left since the last snapshot is
/// handed out by the next snapshot, after the events pushed before it.
pub proof fn law_push_then_drain<T>(v: RingView<T>, e: T)
    requires
        v.cap > 0,
        0 <= v.watermark <= v.log.len(),
        produced(v) < v.cap,
    ensures
        drained(RingView { log: v.log.push(e), ..v }) == drained(v).push(e),
        lost(RingView { log: v.log.push(e), ..v }) == 0,
{
    let w = RingView { log: v.log.push(e), ..v };
    law_drain_of_ring(v);
    law_drain_of_ring(w);
    assert(w.log.subrange(w.watermark, w.log.len() as int) =~= v.log.subrange(v.watermark, v.log.len() as int).push(e));
}

} // verus!
