//! The kernel message ring behind `/dev/kmsg` and `syslog(2)`: a fixed-size
//! byte ring that keeps the latest bytes printed to the console.  Readers of
//! `/dev/kmsg` consume bytes (each byte goes to one reader, and a reader that
//! falls behind skips what was overwritten); `syslog` reads every retained
//! byte without consuming it.
use vstd::prelude::*;
use vstd::arithmetic::div_mod::{lemma_mod_equivalence, lemma_small_mod};

verus! {

/// Ring capacity in bytes.
pub const RING_CAPACITY: usize = 512 * 1024;

/// The ring's abstract state: every byte ever appended, the position of the
/// oldest retained byte and the position of the next byte to deliver.
pub struct KmsgView {
    pub log: Seq<u8>,
    pub kept_start: int,
    pub read_pos: int,
}

/// The retained bytes.
pub open spec fn retained(v: KmsgView) -> Seq<u8> {
    v.log.subrange(v.kept_start, v.log.len() as int)
}

/// The retained bytes not yet delivered to a reader.
pub open spec fn unread(v: KmsgView) -> Seq<u8> {
    v.log.subrange(v.read_pos, v.log.len() as int)
}

/// The larger of `a` and `b`.
pub open spec fn max_int(a: int, b: int) -> int {
    if a >= b {
        a
    } else {
        b
    }
}

/// The ring after appending `bytes`: the oldest bytes beyond the capacity
/// are dropped, and the read position skips dropped bytes.
pub open spec fn appended(v: KmsgView, bytes: Seq<u8>) -> KmsgView {
    let log = v.log + bytes;
    let kept = max_int(v.kept_start, log.len() - RING_CAPACITY);
    KmsgView { log, kept_start: kept, read_pos: max_int(v.read_pos, kept) }
}

pub struct KmsgRing {
    buf: Vec<u8>,
    /// Total number of bytes appended.
    written: usize,
    /// Position of the oldest retained byte.
    kept_start: usize,
    /// Position of the next byte to deliver to readers.
    read_pos: usize,
    history: Ghost<Seq<u8>>,
}

impl KmsgRing {
    pub closed spec fn view(&self) -> KmsgView {
        KmsgView {
            log: self.history@,
            kept_start: self.kept_start as int,
            read_pos: self.read_pos as int,
        }
    }

    pub closed spec fn wf(&self) -> bool {
        &&& self.buf@.len() == RING_CAPACITY
        &&& self.written == self.history@.len()
        &&& self.kept_start <= self.read_pos <= self.written
        &&& self.written - self.kept_start <= RING_CAPACITY
        &&& forall|k: int|
            self.kept_start <= k < self.written ==> self.buf@[k % (RING_CAPACITY as int)]
                == #[trigger] self.history@[k]
    }

    /// An empty ring.
    pub fn new() -> (r: Self)
        ensures
            r.wf(),
            r.view() == (KmsgView { log: Seq::<u8>::empty(), kept_start: 0, read_pos: 0 }),
    {
        let mut buf: Vec<u8> = Vec::new();
        let mut i: usize = 0;
        while i < RING_CAPACITY
            invariant
                i <= RING_CAPACITY,
                buf@.len() == i,
            decreases RING_CAPACITY - i,
        {
            buf.push(0);
            i += 1;
        }
        let r = KmsgRing { buf, written: 0, kept_start: 0, read_pos: 0, history: Ghost(Seq::empty()) };
        assert(r.view().log =~= Seq::<u8>::empty());
        r
    }

    /// Total number of bytes appended so far.
    pub fn written(&self) -> (r: usize)
        requires
            self.wf(),
        ensures
            r == self.view().log.len(),
    {
        self.written
    }
}

/// Mirror `bytes` into the ring, overwriting the oldest retained bytes when
/// it fills up; unread bytes that were overwritten are skipped by readers.
pub fn append(ring: &mut KmsgRing, bytes: &[u8])
    requires
        old(ring).wf(),
        old(ring).view().log.len() + bytes@.len() <= usize::MAX,
    ensures
        final(ring).wf(),
        final(ring).view() == appended(old(ring).view(), bytes@),
{
    let ghost v0 = ring.view();
    let mut j: usize = 0;
    while j < bytes.len()
        invariant
            ring.buf@.len() == RING_CAPACITY,
            ring.written == ring.history@.len(),
            ring.history@ == v0.log + bytes@.take(j as int),
            ring.kept_start as int == max_int(v0.kept_start, ring.written - RING_CAPACITY),
            ring.read_pos == v0.read_pos,
            v0.read_pos <= v0.log.len(),
            v0.kept_start <= v0.read_pos,
            ring.written - ring.kept_start <= RING_CAPACITY,
            ring.kept_start <= ring.written,
            j <= bytes@.len(),
            v0.log.len() + bytes@.len() <= usize::MAX,
            forall|k: int|
                ring.kept_start <= k < ring.written ==> ring.buf@[k % (RING_CAPACITY as int)]
                    == #[trigger] ring.history@[k],
        decreases bytes.len() - j,
    {
        let b = bytes[j];
        let idx = ring.written % RING_CAPACITY;
        let ghost h = ring.written as int;
        ring.buf.set(idx, b);
        ring.written = ring.written + 1;
        ring.history = Ghost(ring.history@.push(b));
        if ring.written - ring.kept_start > RING_CAPACITY {
            ring.kept_start = ring.kept_start + 1;
        }
        proof {
            assert(bytes@.take(j + 1) =~= bytes@.take(j as int).push(b));
            assert forall|k: int|
                ring.kept_start <= k < ring.written implies ring.buf@[k % (RING_CAPACITY as int)]
                    == #[trigger] ring.history@[k] by {
                if k < h {
                    lemma_small_mod((h - k) as nat, RING_CAPACITY as nat);
                    lemma_mod_equivalence(h, k, RING_CAPACITY as int);
                }
            }
        }
        j += 1;
    }
    assert(bytes@.take(bytes@.len() as int) =~= bytes@);
    if ring.read_pos < ring.kept_start {
        ring.read_pos = ring.kept_start;
    }
}

/// Deliver up to `out.len()` of the oldest unread bytes into the front of
/// `out` and return how many; `0` means everything has been read.
pub fn read_into(ring: &mut KmsgRing, out: &mut [u8]) -> (n: usize)
    requires
        old(ring).wf(),
    ensures
        final(ring).wf(),
        n == (if unread(old(ring).view()).len() < old(out)@.len() {
            unread(old(ring).view()).len()
        } else {
            old(out)@.len()
        }),
        final(out)@ == unread(old(ring).view()).take(n as int) + old(out)@.skip(n as int),
        final(ring).view() == (KmsgView { read_pos: old(ring).view().read_pos + n, ..old(ring).view() }),
{
    let ghost v0 = ring.view();
    let ghost o0 = out@;
    let avail = ring.written - ring.read_pos;
    let n = if avail < out.len() { avail } else { out.len() };
    let mut i: usize = 0;
    while i < n
        invariant
            ring.wf(),
            ring.view() == v0,
            n <= out@.len(),
            n as int <= ring.written - ring.read_pos,
            o0.len() == out@.len(),
            i <= n,
            forall|q: int| 0 <= q < i ==> #[trigger] out@[q] == v0.log[v0.read_pos + q],
            forall|q: int| i <= q < out@.len() ==> #[trigger] out@[q] == o0[q],
        decreases n - i,
    {
        let b = ring.buf[(ring.read_pos + i) % RING_CAPACITY];
        assert(b == v0.log[v0.read_pos + i]);
        out[i] = b;
        i += 1;
    }
    ring.read_pos = ring.read_pos + n;
    assert(out@ =~= unread(v0).take(n as int) + o0.skip(n as int));
    n
}

/// Drop every retained byte.
pub fn clear(ring: &mut KmsgRing)
    requires
        old(ring).wf(),
    ensures
        final(ring).wf(),
        final(ring).view() == (KmsgView {
            kept_start: old(ring).view().log.len() as int,
            read_pos: old(ring).view().log.len() as int,
            ..old(ring).view()
        }),
{
    ring.kept_start = ring.written;
    ring.read_pos = ring.written;
}

/// Number of retained bytes.
pub fn size_now(ring: &KmsgRing) -> (r: usize)
    requires
        ring.wf(),
    ensures
        r == retained(ring.view()).len(),
{
    ring.written - ring.kept_start
}

/// The oldest retained bytes, at most `avail` of them; nothing is consumed.
pub fn read_all(ring: &KmsgRing, avail: usize) -> (r: Vec<u8>)
    requires
        ring.wf(),
    ensures
        r@ == retained(ring.view()).take(if retained(ring.view()).len() < avail {
            retained(ring.view()).len() as int
        } else {
            avail as int
        }),
{
    let kept = ring.written - ring.kept_start;
    let n = if kept < avail { kept } else { avail };
    let mut r: Vec<u8> = Vec::new();
    let mut i: usize = 0;
    while i < n
        invariant
            ring.wf(),
            n as int <= ring.written - ring.kept_start,
            i <= n,
            r@.len() == i,
            forall|q: int| 0 <= q < i ==> #[trigger] r@[q] == ring.history@[ring.kept_start + q],
        decreases n - i,
    {
        r.push(ring.buf[(ring.kept_start + i) % RING_CAPACITY]);
        i += 1;
    }
    assert(r@ =~= retained(ring.view()).take(n as int));
    r
}

/// The oldest retained bytes (at most `avail`), then drop every retained byte.
pub fn read_all_clear(ring: &mut KmsgRing, avail: usize) -> (r: Vec<u8>)
    requires
        old(ring).wf(),
    ensures
        final(ring).wf(),
        r@ == retained(old(ring).view()).take(if retained(old(ring).view()).len() < avail {
            retained(old(ring).view()).len() as int
        } else {
            avail as int
        }),
        final(ring).view() == (KmsgView {
            kept_start: old(ring).view().log.len() as int,
            read_pos: old(ring).view().log.len() as int,
            ..old(ring).view()
        }),
{
    let r = read_all(ring, avail);
    clear(ring);
    r
}

/// A reader that has read everything gets, after an append that fits in
/// the ring, exactly the appended bytes.
pub proof fn law_reader_gets_appended(v: KmsgView, bytes: Seq<u8>)
    requires
        0 <= v.kept_start <= v.read_pos,
        v.read_pos == v.log.len(),
        bytes.len() <= RING_CAPACITY,
    ensures
        unread(appended(v, bytes)) == bytes,
{
    let w = appended(v, bytes);
    assert(w.read_pos == v.log.len());
    assert(unread(w) =~= bytes);
}

/// Reading `n` bytes consumes exactly them: what is left unread is the
/// rest.
pub proof fn law_read_consumes(v: KmsgView, n: int)
    requires
        0 <= v.read_pos <= v.log.len(),
        0 <= n <= unread(v).len(),
    ensures
        unread(KmsgView { read_pos: v.read_pos + n, ..v }) == unread(v).skip(n),
        unread(v).take(n) + unread(KmsgView { read_pos: v.read_pos + n, ..v }) == unread(v),
{
    assert(unread(KmsgView { read_pos: v.read_pos + n, ..v }) =~= unread(v).skip(n));
    assert(unread(v).take(n) + unread(v).skip(n) =~= unread(v));
}

/// The ring never keeps more than its capacity, and its positions are in
/// order: `0 <= kept_start <= read_pos <= log.len()`.
pub proof fn law_retained_bounded(r: &KmsgRing)
    requires
        r.wf(),
    ensures
        0 <= r.view().kept_start <= r.view().read_pos <= r.view().log.len(),
        retained(r.view()).len() <= RING_CAPACITY,
        unread(r.view()).len() <= retained(r.view()).len(),
{
}

} // verus!
