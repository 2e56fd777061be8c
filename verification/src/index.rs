//! Lookup tables from a key (a byte string or a line number) to the ids of
//! the call sites that carry it, and the candidate-list operations built on
//! them.
use vstd::prelude::*;
use crate::matching::{
    byte_views, bytes_eq, bytes_to_vec, has_wildcard, is_wildcard, match_wildcard, segments_match,
    split, split_bytes, value_match, wildcard_match,
};

verus! {

/// `id` occurs in the id list `v`.
pub open spec fn has_id(v: Seq<usize>, id: int) -> bool {
    exists|j: int| 0 <= j < v.len() && v[j] as int == id
}

/// `id` occurs among the first `n` entries of `v`.
pub open spec fn has_id_upto(v: Seq<usize>, n: int, id: int) -> bool {
    exists|j: int| 0 <= j < n && v[j] as int == id
}

/// Copy of an id list.
pub fn copy_ids(v: &Vec<usize>) -> (r: Vec<usize>)
    ensures
        r@ == v@,
{
    let mut r: Vec<usize> = Vec::new();
    let mut i: usize = 0;
    while i < v.len()
        invariant
            i <= v@.len(),
            r@ == v@.subrange(0, i as int),
        decreases v.len() - i,
    {
        r.push(v[i]);
        i += 1;
        assert(r@ =~= v@.subrange(0, i as int));
    }
    assert(v@.subrange(0, v@.len() as int) =~= v@);
    r
}

/// Whether `id` occurs in `v`.
pub fn ids_contain(v: &Vec<usize>, id: usize) -> (r: bool)
    ensures
        r == has_id(v@, id as int),
{
    let mut i: usize = 0;
    while i < v.len()
        invariant
            i <= v@.len(),
            forall|j: int| 0 <= j < i ==> v@[j] != id,
        decreases v.len() - i,
    {
        if v[i] == id {
            return true;
        }
        i += 1;
    }
    false
}

/// Narrow the candidate list by `matched`: an absent list becomes `matched`;
/// a present one keeps, in order, only the ids that `matched` also holds.
pub fn intersect_candidates(candidates: &mut Option<Vec<usize>>, matched: Vec<usize>)
    ensures
        (*final(candidates)) is Some,
        forall|id: int|
            has_id((*final(candidates))->Some_0@, id) == (match *old(candidates) {
                None => has_id(matched@, id),
                Some(existing) => has_id(existing@, id) && has_id(matched@, id),
            }),
{
    match candidates {
        None => {
            *candidates = Some(matched);
        },
        Some(existing) => {
            let ghost before = existing@;
            let mut kept: Vec<usize> = Vec::new();
            let mut i: usize = 0;
            while i < existing.len()
                invariant
                    existing@ == before,
                    i <= before.len(),
                    forall|id: int|
                        has_id(kept@, id) == (has_id_upto(before, i as int, id) && has_id(
                            matched@,
                            id,
                        )),
                decreases existing.len() - i,
            {
                let id = existing[i];
                let keep = ids_contain(&matched, id);
                let ghost old_kept = kept@;
                if keep {
                    kept.push(id);
                }
                assert forall|x: int|
                    has_id(kept@, x) == (has_id_upto(before, i + 1, x) && has_id(matched@, x)) by {
                    if has_id_upto(before, i + 1, x) && !has_id_upto(before, i as int, x) {
                        let j = choose|j: int| 0 <= j < i + 1 && before[j] as int == x;
                        assert(j == i);
                    }
                    if has_id_upto(before, i as int, x) {
                        let j = choose|j: int| 0 <= j < i && before[j] as int == x;
                        assert(0 <= j < i + 1 && before[j] as int == x);
                    }
                    if keep && x == id as int {
                        assert(kept@[kept@.len() - 1] as int == x);
                        assert(0 <= i < i + 1 && before[i as int] as int == x);
                    }
                    if has_id(kept@, x) {
                        let j = choose|j: int| 0 <= j < kept@.len() && kept@[j] as int == x;
                        if j < old_kept.len() {
                            assert(old_kept[j] as int == x);
                        } else {
                            assert(0 <= i < i + 1 && before[i as int] as int == x);
                        }
                    }
                    if has_id(old_kept, x) {
                        let j = choose|j: int| 0 <= j < old_kept.len() && old_kept[j] as int == x;
                        assert(kept@[j] as int == x);
                    }
                }
                i += 1;
            }
            assert forall|x: int| has_id_upto(before, before.len() as int, x) == has_id(before, x) by {
            }
            *existing = kept;
        },
    }
}

pub struct IndexEntry {
    pub key: Vec<u8>,
    pub ids: Vec<usize>,
}

/// Byte-string key to the ids that carry it.  Keys are distinct.
pub struct TextIndex {
    entries: Vec<IndexEntry>,
}

impl TextIndex {
    /// Keys are distinct.
    pub closed spec fn wf(&self) -> bool {
        forall|a: int, b: int|
            0 <= a < b < self.entries@.len() ==> self.entries@[a].key@ != self.entries@[b].key@
    }

    /// The index has an entry for `key`.
    pub closed spec fn has_key(&self, key: Seq<u8>) -> bool {
        exists|e: int| 0 <= e < self.entries@.len() && self.entries@[e].key@ == key
    }

    /// `id` is recorded under `key`.
    pub closed spec fn holds(&self, key: Seq<u8>, id: int) -> bool {
        exists|e: int|
            0 <= e < self.entries@.len() && self.entries@[e].key@ == key && has_id(
                self.entries@[e].ids@,
                id,
            )
    }

    /// An empty index.
    pub fn new() -> (r: Self)
        ensures
            r.wf(),
            forall|k: Seq<u8>| !r.has_key(k),
            forall|k: Seq<u8>, id: int| !r.holds(k, id),
    {
        TextIndex { entries: Vec::new() }
    }

    /// Record `id` under `key`.
    pub fn insert(&mut self, key: &[u8], id: usize)
        requires
            old(self).wf(),
        ensures
            final(self).wf(),
            forall|k: Seq<u8>| #[trigger] final(self).has_key(k) == (old(self).has_key(k) || k == key@),
            forall|k: Seq<u8>, x: int|
                #[trigger] final(self).holds(k, x) == (old(self).holds(k, x) || (k == key@ && x
                    == id as int)),
    {
        let mut e: usize = 0;
        while e < self.entries.len()
            invariant
                self == old(self),
                old(self).wf(),
                e <= self.entries@.len(),
                forall|q: int| 0 <= q < e ==> self.entries@[q].key@ != key@,
            decreases self.entries.len() - e,
        {
            if bytes_eq(self.entries[e].key.as_slice(), key) {
                let ghost before = self.entries@;
                let ghost old_ids = self.entries@[e as int].ids@;
                self.entries[e].ids.push(id);
                assert(self.entries@[e as int].ids@ == old_ids.push(id));
                assert(forall|q: int| 0 <= q < before.len() ==> #[trigger] self.entries@[q].key@ == before[q].key@);
                assert forall|k: Seq<u8>, x: int|
                    #[trigger] self.holds(k, x) == (old(self).holds(k, x) || (k == key@ && x
                        == id as int)) by {
                    if old(self).holds(k, x) {
                        let q = choose|q: int|
                            0 <= q < before.len() && before[q].key@ == k && has_id(
                                before[q].ids@,
                                x,
                            );
                        let j = choose|j: int|
                            0 <= j < before[q].ids@.len() && before[q].ids@[j] as int == x;
                        assert(self.entries@[q].ids@[j] as int == x);
                    }
                    if k == key@ && x == id as int {
                        assert(self.entries@[e as int].ids@[old_ids.len() as int] as int == x);
                    }
                    if self.holds(k, x) {
                        let q = choose|q: int|
                            0 <= q < self.entries@.len() && self.entries@[q].key@ == k && has_id(
                                self.entries@[q].ids@,
                                x,
                            );
                        let j = choose|j: int|
                            0 <= j < self.entries@[q].ids@.len() && self.entries@[q].ids@[j] as int
                                == x;
                        if q != e as int || j < old_ids.len() {
                            assert(before[q].ids@[j] as int == x);
                        }
                    }
                }
                assert forall|k: Seq<u8>| #[trigger] self.has_key(k) == (old(self).has_key(k) || k
                    == key@) by {
                    if k == key@ {
                        assert(self.entries@[e as int].key@ == k);
                    }
                    if old(self).has_key(k) {
                        let q = choose|q: int| 0 <= q < before.len() && before[q].key@ == k;
                        assert(self.entries@[q].key@ == k);
                    }
                }
                return;
            }
            e += 1;
        }
        let ghost before = self.entries@;
        let entry = IndexEntry { key: bytes_to_vec(key), ids: vec![id] };
        self.entries.push(entry);
        let ghost n: int = self.entries@.len() - 1;
        assert(self.entries@[n].ids@ =~= seq![id]);
        assert forall|k: Seq<u8>, x: int|
            #[trigger] self.holds(k, x) == (old(self).holds(k, x) || (k == key@ && x == id as int)) by {
            if old(self).holds(k, x) {
                let q = choose|q: int|
                    0 <= q < before.len() && before[q].key@ == k && has_id(before[q].ids@, x);
                assert(self.entries@[q] == before[q]);
            }
            if k == key@ && x == id as int {
                assert(self.entries@[n].ids@[0] as int == x);
            }
            if self.holds(k, x) {
                let q = choose|q: int|
                    0 <= q < self.entries@.len() && self.entries@[q].key@ == k && has_id(
                        self.entries@[q].ids@,
                        x,
                    );
                if q < n {
                    assert(before[q] == self.entries@[q]);
                }
            }
        }
        assert forall|k: Seq<u8>| #[trigger] self.has_key(k) == (old(self).has_key(k) || k == key@) by {
            if k == key@ {
                assert(self.entries@[n].key@ == k);
            }
            if old(self).has_key(k) {
                let q = choose|q: int| 0 <= q < before.len() && before[q].key@ == k;
                assert(self.entries@[q] == before[q]);
            }
            if self.has_key(k) {
                let q = choose|q: int| 0 <= q < self.entries@.len() && self.entries@[q].key@ == k;
                if q < n {
                    assert(before[q] == self.entries@[q]);
                }
            }
        }
    }

    /// The ids recorded under `key`, or `None` when the key is absent.
    pub fn get(&self, key: &[u8]) -> (r: Option<Vec<usize>>)
        requires
            self.wf(),
        ensures
            r is None <==> !self.has_key(key@),
            r matches Some(v) ==> forall|x: int| has_id(v@, x) == self.holds(key@, x),
    {
        let mut e: usize = 0;
        while e < self.entries.len()
            invariant
                self.wf(),
                e <= self.entries@.len(),
                forall|q: int| 0 <= q < e ==> self.entries@[q].key@ != key@,
            decreases self.entries.len() - e,
        {
            if bytes_eq(self.entries[e].key.as_slice(), key) {
                let v = copy_ids(&self.entries[e].ids);
                assert forall|x: int| has_id(v@, x) == self.holds(key@, x) by {
                    if self.holds(key@, x) {
                        let q = choose|q: int|
                            0 <= q < self.entries@.len() && self.entries@[q].key@ == key@ && has_id(
                                self.entries@[q].ids@,
                                x,
                            );
                        if q != e as int {
                            assert(self.entries@[q].key@ != self.entries@[e as int].key@);
                        }
                    }
                }
                return Some(v);
            }
            e += 1;
        }
        None
    }

    /// Every id recorded under a key that `pattern` wildcard-matches.
    pub fn collect_wildcard(&self, pattern: &[u8]) -> (r: Vec<usize>)
        ensures
            forall|x: int|
                has_id(r@, x) == exists|k: Seq<u8>| #[trigger]
                    self.holds(k, x) && wildcard_match(pattern@, k),
    {
        let mut r: Vec<usize> = Vec::new();
        let mut e: usize = 0;
        while e < self.entries.len()
            invariant
                e <= self.entries@.len(),
                forall|x: int|
                    has_id(r@, x) == exists|q: int|
                        0 <= q < e && wildcard_match(pattern@, self.entries@[q].key@) && has_id(
                            #[trigger] self.entries@[q].ids@,
                            x,
                        ),
            decreases self.entries.len() - e,
        {
            if match_wildcard(pattern, self.entries[e].key.as_slice()) {
                let ids = &self.entries[e].ids;
                let mut j: usize = 0;
                let ghost r0 = r@;
                while j < ids.len()
                    invariant
                        j <= ids@.len(),
                        ids@ == self.entries@[e as int].ids@,
                        r@.len() == r0.len() + j,
                        r@.subrange(0, r0.len() as int) == r0,
                        forall|t: int| 0 <= t < j ==> r@[r0.len() + t] == ids@[t],
                    decreases ids.len() - j,
                {
                    r.push(ids[j]);
                    j += 1;
                }
                assert forall|x: int|
                    has_id(r@, x) == exists|q: int|
                        0 <= q < e + 1 && wildcard_match(pattern@, self.entries@[q].key@)
                            && has_id(#[trigger] self.entries@[q].ids@, x) by {
                    if has_id(r@, x) {
                        let t = choose|t: int| 0 <= t < r@.len() && r@[t] as int == x;
                        if t < r0.len() {
                            assert(r0[t] as int == x);
                            assert(has_id(r0, x));
                        } else {
                            assert(ids@[t - r0.len()] as int == x);
                            assert(has_id(self.entries@[e as int].ids@, x));
                        }
                    }
                    if exists|q: int|
                        0 <= q < e + 1 && wildcard_match(pattern@, self.entries@[q].key@) && has_id(
                            #[trigger] self.entries@[q].ids@,
                            x,
                        ) {
                        let q = choose|q: int|
                            0 <= q < e + 1 && wildcard_match(pattern@, self.entries@[q].key@)
                                && has_id(#[trigger] self.entries@[q].ids@, x);
                        if q < e {
                            assert(has_id(r0, x));
                            let t = choose|t: int| 0 <= t < r0.len() && r0[t] as int == x;
                            assert(r@[t] == r0[t]);
                        } else {
                            let t = choose|t: int| 0 <= t < ids@.len() && ids@[t] as int == x;
                            assert(r@[r0.len() + t] == ids@[t]);
                        }
                    }
                }
            }
            e += 1;
        }
        assert forall|x: int|
            has_id(r@, x) == exists|k: Seq<u8>| #[trigger]
                self.holds(k, x) && wildcard_match(pattern@, k) by {
            if has_id(r@, x) {
                let q = choose|q: int|
                    0 <= q < self.entries@.len() && wildcard_match(pattern@, self.entries@[q].key@)
                        && has_id(#[trigger] self.entries@[q].ids@, x);
                assert(self.holds(self.entries@[q].key@, x));
            }
            if exists|k: Seq<u8>| #[trigger] self.holds(k, x) && wildcard_match(pattern@, k) {
                let k = choose|k: Seq<u8>| #[trigger] self.holds(k, x) && wildcard_match(pattern@, k);
                let q = choose|q: int|
                    0 <= q < self.entries@.len() && self.entries@[q].key@ == k && has_id(
                        self.entries@[q].ids@,
                        x,
                    );
                assert(has_id(self.entries@[q].ids@, x));
            }
        }
        r
    }
}

pub struct LineEntry {
    pub line: u32,
    pub ids: Vec<usize>,
}

/// Line number to the ids of the call sites on that line.
pub struct LineIndex {
    entries: Vec<LineEntry>,
}

impl LineIndex {
    /// `id` is recorded under `line`.
    pub closed spec fn holds(&self, line: u32, id: int) -> bool {
        exists|e: int|
            0 <= e < self.entries@.len() && self.entries@[e].line == line && has_id(
                self.entries@[e].ids@,
                id,
            )
    }

    pub closed spec fn wf(&self) -> bool {
        forall|a: int, b: int|
            0 <= a < b < self.entries@.len() ==> self.entries@[a].line != self.entries@[b].line
    }

    /// An empty index.
    pub fn new() -> (r: Self)
        ensures
            r.wf(),
            forall|l: u32, id: int| !r.holds(l, id),
    {
        LineIndex { entries: Vec::new() }
    }

    /// Record `id` under `line`.
    pub fn insert(&mut self, line: u32, id: usize)
        requires
            old(self).wf(),
        ensures
            final(self).wf(),
            forall|l: u32, x: int|
                #[trigger] final(self).holds(l, x) == (old(self).holds(l, x) || (l == line && x
                    == id as int)),
    {
        let mut e: usize = 0;
        while e < self.entries.len()
            invariant
                self == old(self),
                old(self).wf(),
                e <= self.entries@.len(),
                forall|q: int| 0 <= q < e ==> self.entries@[q].line != line,
            decreases self.entries.len() - e,
        {
            if self.entries[e].line == line {
                let ghost before = self.entries@;
                let ghost old_ids = self.entries@[e as int].ids@;
                self.entries[e].ids.push(id);
                assert(forall|q: int| 0 <= q < before.len() ==> #[trigger] self.entries@[q].line == before[q].line);
                assert forall|l: u32, x: int|
                    #[trigger] self.holds(l, x) == (old(self).holds(l, x) || (l == line && x
                        == id as int)) by {
                    if old(self).holds(l, x) {
                        let q = choose|q: int|
                            0 <= q < before.len() && before[q].line == l && has_id(
                                before[q].ids@,
                                x,
                            );
                        let j = choose|j: int|
                            0 <= j < before[q].ids@.len() && before[q].ids@[j] as int == x;
                        assert(self.entries@[q].ids@[j] as int == x);
                    }
                    if l == line && x == id as int {
                        assert(self.entries@[e as int].ids@[old_ids.len() as int] as int == x);
                    }
                    if self.holds(l, x) {
                        let q = choose|q: int|
                            0 <= q < self.entries@.len() && self.entries@[q].line == l && has_id(
                                self.entries@[q].ids@,
                                x,
                            );
                        let j = choose|j: int|
                            0 <= j < self.entries@[q].ids@.len() && self.entries@[q].ids@[j] as int
                                == x;
                        if q != e as int || j < old_ids.len() {
                            assert(before[q].ids@[j] as int == x);
                        }
                    }
                }
                return;
            }
            e += 1;
        }
        let ghost before = self.entries@;
        self.entries.push(LineEntry { line, ids: vec![id] });
        let ghost n: int = self.entries@.len() - 1;
        assert(self.entries@[n].ids@ =~= seq![id]);
        assert forall|l: u32, x: int|
            #[trigger] self.holds(l, x) == (old(self).holds(l, x) || (l == line && x == id as int)) by {
            if old(self).holds(l, x) {
                let q = choose|q: int|
                    0 <= q < before.len() && before[q].line == l && has_id(before[q].ids@, x);
                assert(self.entries@[q] == before[q]);
            }
            if l == line && x == id as int {
                assert(self.entries@[n].ids@[0] as int == x);
            }
            if self.holds(l, x) {
                let q = choose|q: int|
                    0 <= q < self.entries@.len() && self.entries@[q].line == l && has_id(
                        self.entries@[q].ids@,
                        x,
                    );
                if q < n {
                    assert(before[q] == self.entries@[q]);
                }
            }
        }
    }

    /// The ids recorded under `line` (empty when the line is absent).
    pub fn get(&self, line: u32) -> (r: Vec<usize>)
        requires
            self.wf(),
        ensures
            forall|x: int| has_id(r@, x) == self.holds(line, x),
    {
        let mut e: usize = 0;
        while e < self.entries.len()
            invariant
                self.wf(),
                e <= self.entries@.len(),
                forall|q: int| 0 <= q < e ==> self.entries@[q].line != line,
            decreases self.entries.len() - e,
        {
            if self.entries[e].line == line {
                let v = copy_ids(&self.entries[e].ids);
                assert forall|x: int| has_id(v@, x) == self.holds(line, x) by {
                    if self.holds(line, x) {
                        let q = choose|q: int|
                            0 <= q < self.entries@.len() && self.entries@[q].line == line && has_id(
                                self.entries@[q].ids@,
                                x,
                            );
                        if q != e as int {
                            assert(self.entries@[q].line != self.entries@[e as int].line);
                        }
                    }
                }
                return v;
            }
            e += 1;
        }
        let v: Vec<usize> = Vec::new();
        v
    }
}

/// The ids `0..n`, in order.
pub fn all_ids(n: usize) -> (r: Vec<usize>)
    ensures
        r@.len() == n,
        forall|i: int| 0 <= i < n ==> #[trigger] r@[i] == i,
        forall|x: int| has_id(r@, x) == (0 <= x < n),
{
    let mut r: Vec<usize> = Vec::new();
    let mut i: usize = 0;
    while i < n
        invariant
            i <= n,
            r@.len() == i,
            forall|q: int| 0 <= q < i ==> #[trigger] r@[q] == q,
        decreases n - i,
    {
        r.push(i);
        i += 1;
    }
    assert forall|x: int| has_id(r@, x) == (0 <= x < n) by {
        if 0 <= x < n {
            assert(r@[x] == x);
        }
    }
    r
}

/// Append the ids of `src` to `dst`.
pub fn extend_ids(dst: &mut Vec<usize>, src: &Vec<usize>)
    ensures
        forall|x: int| #[trigger] has_id(final(dst)@, x) == (has_id(old(dst)@, x) || has_id(src@, x)),
{
    let ghost d0 = dst@;
    let mut j: usize = 0;
    while j < src.len()
        invariant
            j <= src@.len(),
            dst@.len() == d0.len() + j,
            forall|t: int| 0 <= t < d0.len() ==> #[trigger] dst@[t] == d0[t],
            forall|t: int| 0 <= t < j ==> dst@[d0.len() + t] == src@[t],
        decreases src.len() - j,
    {
        dst.push(src[j]);
        j += 1;
    }
    assert forall|x: int| #[trigger] has_id(dst@, x) == (has_id(d0, x) || has_id(src@, x)) by {
        if has_id(dst@, x) {
            let t = choose|t: int| 0 <= t < dst@.len() && dst@[t] as int == x;
            if t < d0.len() {
                assert(d0[t] as int == x);
            } else {
                assert(src@[t - d0.len()] as int == x);
            }
        }
        if has_id(d0, x) {
            let t = choose|t: int| 0 <= t < d0.len() && d0[t] as int == x;
            assert(dst@[t] as int == x);
        }
        if has_id(src@, x) {
            let t = choose|t: int| 0 <= t < src@.len() && src@[t] as int == x;
            assert(dst@[d0.len() + t] as int == x);
        }
    }
}

/// `index` holds exactly the ids `x` under the value `vals[x]`.
pub open spec fn indexes_values(index: TextIndex, vals: Seq<Seq<u8>>) -> bool {
    &&& index.wf()
    &&& forall|k: Seq<u8>, x: int| #[trigger] index.holds(k, x) == (0 <= x < vals.len() && vals[x] == k)
    &&& forall|k: Seq<u8>| #[trigger] index.has_key(k) == exists|x: int| 0 <= x < vals.len() && #[trigger] vals[x] == k
}

/// `index` holds exactly the ids `x` under every `sep`-segment of `vals[x]`.
pub open spec fn indexes_segments(index: TextIndex, vals: Seq<Seq<u8>>, sep: Seq<u8>) -> bool {
    &&& index.wf()
    &&& forall|k: Seq<u8>, x: int|
        #[trigger] index.holds(k, x) == (0 <= x < vals.len() && split(vals[x], sep).contains(k))
    &&& forall|k: Seq<u8>|
        #[trigger] index.has_key(k) == exists|x: int|
            0 <= x < vals.len() && split(#[trigger] vals[x], sep).contains(k)
}

/// `index` holds exactly the ids `x` under the value of `vals[x]`, when it
/// has one.
pub open spec fn indexes_optional_values(index: TextIndex, vals: Seq<Option<Seq<u8>>>) -> bool {
    &&& index.wf()
    &&& forall|k: Seq<u8>, x: int|
        #[trigger] index.holds(k, x) == (0 <= x < vals.len() && vals[x] == Some(k))
    &&& forall|k: Seq<u8>|
        #[trigger] index.has_key(k) == exists|x: int| 0 <= x < vals.len() && #[trigger] vals[x] == Some(k)
}

/// The ids whose value `keyword` selects (a segmented value: a file path or
/// a module path).  Three channels: the whole value exactly, every segment
/// exactly (looked up in the segment index and intersected), or a wildcard
/// scan of the whole values.  The result holds exactly the ids `x` for which
/// `value_match(keyword, vals[x], sep)` holds.
pub fn collect_by_keyword_exact_first(
    index: &TextIndex,
    segment_index: &TextIndex,
    keyword: &[u8],
    sep: &[u8],
    n: usize,
    Ghost(vals): Ghost<Seq<Seq<u8>>>,
) -> (r: Vec<usize>)
    requires
        sep@.len() > 0,
        vals.len() == n,
        indexes_values(*index, vals),
        indexes_segments(*segment_index, vals, sep@),
    ensures
        forall|x: int| #[trigger] has_id(r@, x) == (0 <= x < n && value_match(keyword@, vals[x], Some(sep@))),
{
    if has_wildcard(keyword) {
        let r = index.collect_wildcard(keyword);
        assert forall|x: int| #[trigger] has_id(r@, x) == (0 <= x < n && value_match(keyword@, vals[x], Some(sep@))) by {
            if 0 <= x < n && wildcard_match(keyword@, vals[x]) {
                assert(index.holds(vals[x], x));
            }
        }
        return r;
    }
    let mut result: Vec<usize> = match index.get(keyword) {
        Some(v) => v,
        None => Vec::new(),
    };
    assert forall|x: int| #[trigger] has_id(result@, x) == (0 <= x < n && vals[x] == keyword@) by {
        if 0 <= x < n && vals[x] == keyword@ {
            assert(index.holds(keyword@, x));
            assert(index.has_key(keyword@));
        }
    }
    let parts = split_bytes(keyword, sep);
    let ghost ks = split(keyword@, sep@);
    let mut seg: Option<Vec<usize>> = None;
    let mut missing = false;
    let mut i: usize = 0;
    while i < parts.len()
        invariant
            byte_views(parts@) == ks,
            ks == split(keyword@, sep@),
            i <= ks.len(),
            vals.len() == n,
            indexes_segments(*segment_index, vals, sep@),
            !missing && seg is None ==> forall|q: int| 0 <= q < i ==> (#[trigger] ks[q]).len() == 0,
            !missing ==> (seg matches Some(v) ==> forall|x: int| #[trigger] has_id(v@, x) == (0 <= x < n
                && forall|q: int| 0 <= q < i && (#[trigger] ks[q]).len() > 0 ==> split(vals[x], sep@).contains(ks[q]))),
            missing ==> forall|x: int| 0 <= x < n ==> !segments_match(keyword@, #[trigger] vals[x], sep@),
        decreases parts.len() - i,
    {
        assert(parts@[i as int]@ == ks[i as int]);
        if !missing && parts[i].len() > 0 {
            match segment_index.get(parts[i].as_slice()) {
                None => {
                    missing = true;
                    assert forall|x: int| 0 <= x < n implies !segments_match(keyword@, #[trigger] vals[x], sep@) by {
                        if split(vals[x], sep@).contains(ks[i as int]) {
                            assert(segment_index.has_key(ks[i as int]));
                        }
                    }
                },
                Some(group) => {
                    let ghost before = seg;
                    intersect_candidates(&mut seg, group);
                    assert forall|x: int| #[trigger] has_id(seg->Some_0@, x) == (0 <= x < n
                        && forall|q: int| 0 <= q < i + 1 && (#[trigger] ks[q]).len() > 0 ==> split(vals[x], sep@).contains(ks[q])) by {
                        if has_id(seg->Some_0@, x) {
                            assert(segment_index.holds(ks[i as int], x));
                        }
                        if 0 <= x < n && forall|q: int| 0 <= q < i + 1 && (#[trigger] ks[q]).len() > 0 ==> split(vals[x], sep@).contains(ks[q]) {
                            assert(split(vals[x], sep@).contains(ks[i as int]));
                            assert(segment_index.holds(ks[i as int], x));
                        }
                    }
                },
            }
        }
        i += 1;
    }
    if !missing {
        let seg_ids = match seg {
            Some(v) => v,
            None => all_ids(n),
        };
        assert forall|x: int| #[trigger] has_id(seg_ids@, x) == (0 <= x < n && segments_match(keyword@, vals[x], sep@)) by {
        }
        extend_ids(&mut result, &seg_ids);
    }
    result
}

/// The ids whose (optional, unsegmented) value `keyword` selects: the value
/// exactly, or a wildcard scan.
pub fn collect_function_candidates(
    index: &TextIndex,
    keyword: &[u8],
    n: usize,
    Ghost(vals): Ghost<Seq<Option<Seq<u8>>>>,
) -> (r: Vec<usize>)
    requires
        vals.len() == n,
        indexes_optional_values(*index, vals),
    ensures
        forall|x: int| #[trigger] has_id(r@, x) == (0 <= x < n && match vals[x] {
            Some(v) => value_match(keyword@, v, None),
            None => false,
        }),
{
    if !has_wildcard(keyword) {
        let r = match index.get(keyword) {
            Some(v) => v,
            None => Vec::new(),
        };
        assert forall|x: int| #[trigger] has_id(r@, x) == (0 <= x < n && match vals[x] {
            Some(v) => value_match(keyword@, v, None),
            None => false,
        }) by {
            if 0 <= x < n && vals[x] == Some(keyword@) {
                assert(index.holds(keyword@, x));
                assert(index.has_key(keyword@));
            }
        }
        return r;
    }
    let r = index.collect_wildcard(keyword);
    assert forall|x: int| #[trigger] has_id(r@, x) == (0 <= x < n && match vals[x] {
        Some(v) => value_match(keyword@, v, None),
        None => false,
    }) by {
        if 0 <= x < n && vals[x] is Some && wildcard_match(keyword@, vals[x]->Some_0) {
            assert(index.holds(vals[x]->Some_0, x));
        }
    }
    r
}

/// A list whose entry `i` is `i` has no repeated entry.
pub proof fn lemma_ascending_distinct(v: Seq<usize>)
    requires
        forall|i: int| 0 <= i < v.len() ==> #[trigger] v[i] == i,
    ensures
        v.no_duplicates(),
{
}

} // verus!
