//! Selector matching: the predicate that decides whether a rule keyword
//! selects a descriptor value (exact value, path segments, or a `*`/`?`
//! wildcard pattern).  All text is handled as the UTF-8 bytes of the string.
use vstd::prelude::*;

verus! {

// ───────────────────────────── byte-string helpers ─────────────────────────────

/// `a` and `b` hold the same bytes.
pub fn bytes_eq(a: &[u8], b: &[u8]) -> (r: bool)
    ensures
        r == (a@ == b@),
{
    if a.len() != b.len() {
        return false;
    }
    let mut i: usize = 0;
    while i < a.len()
        invariant
            a@.len() == b@.len(),
            i <= a@.len(),
            forall|k: int| 0 <= k < i ==> a@[k] == b@[k],
        decreases a.len() - i,
    {
        if a[i] != b[i] {
            return false;
        }
        i += 1;
    }
    assert(a@ =~= b@);
    true
}

/// Copy a byte slice into a vector.
pub fn bytes_to_vec(s: &[u8]) -> (v: Vec<u8>)
    ensures
        v@ == s@,
{
    let mut v: Vec<u8> = Vec::new();
    let mut i: usize = 0;
    while i < s.len()
        invariant
            i <= s@.len(),
            v@ == s@.subrange(0, i as int),
        decreases s.len() - i,
    {
        v.push(s[i]);
        i += 1;
        assert(v@ =~= s@.subrange(0, i as int));
    }
    assert(s@.subrange(0, s@.len() as int) =~= s@);
    v
}

/// The byte `b` occurs in `s`.
pub open spec fn contains_byte(s: Seq<u8>, b: u8) -> bool {
    exists|i: int| 0 <= i < s.len() && s[i] == b
}

/// Whether `s` holds the byte `b`.
pub fn has_byte(s: &[u8], b: u8) -> (r: bool)
    ensures
        r == contains_byte(s@, b),
{
    let mut i: usize = 0;
    while i < s.len()
        invariant
            i <= s@.len(),
            forall|k: int| 0 <= k < i ==> s@[k] != b,
        decreases s.len() - i,
    {
        if s[i] == b {
            return true;
        }
        i += 1;
    }
    false
}

// ───────────────────────────── wildcard patterns ─────────────────────────────

/// The keyword is a wildcard pattern: it holds `*` or `?`.
pub open spec fn is_wildcard(s: Seq<u8>) -> bool {
    contains_byte(s, 42u8) || contains_byte(s, 63u8)
}

/// Whether `s` holds a `*` or a `?`.
pub fn has_wildcard(s: &[u8]) -> (r: bool)
    ensures
        r == is_wildcard(s@),
{
    has_byte(s, 42u8) || has_byte(s, 63u8)
}

/// Every byte of `p` from `i` on is a `*`.
pub open spec fn all_stars_from(p: Seq<u8>, i: int) -> bool {
    forall|q: int| i <= q < p.len() ==> p[q] == 42u8
}

/// The two-pointer wildcard scan from pattern position `pi` and text position
/// `ti`, where `sp` is the last `*` seen (`-1` for none) and `st` the text
/// position that star is currently anchored at.  A pattern byte equal to the
/// text byte, or a `?`, consumes one byte of each; a `*` is remembered and
/// first taken as empty; on a mismatch the remembered star absorbs one more
/// text byte and the scan resumes behind it.  Once the text is consumed only
/// trailing stars may remain in the pattern.
pub open spec fn wildcard_scan(p: Seq<u8>, t: Seq<u8>, pi: int, ti: int, sp: int, st: int) -> bool
    decreases t.len() - st, (t.len() - ti) + (p.len() - pi),
    when 0 <= st <= ti <= t.len() && 0 <= pi <= p.len() && sp < pi
{
    if ti >= t.len() {
        all_stars_from(p, pi)
    } else if pi < p.len() && (p[pi] == 63u8 || p[pi] == t[ti]) {
        wildcard_scan(p, t, pi + 1, ti + 1, sp, st)
    } else if pi < p.len() && p[pi] == 42u8 {
        wildcard_scan(p, t, pi + 1, ti, pi, ti)
    } else if sp >= 0 {
        wildcard_scan(p, t, sp + 1, st + 1, sp, st + 1)
    } else {
        false
    }
}

/// Whether `pattern` matches the whole of `text` by the two-pointer scan.
pub open spec fn wildcard_match(pattern: Seq<u8>, text: Seq<u8>) -> bool {
    wildcard_scan(pattern, text, 0, 0, -1, 0)
}

/// Classic glob semantics: `*` matches any (possibly empty) byte run, `?`
/// matches one byte, every other byte matches itself.
pub open spec fn glob_at(p: Seq<u8>, t: Seq<u8>, i: int, j: int) -> bool
    decreases (p.len() - i) + (t.len() - j),
    when 0 <= i <= p.len() && 0 <= j <= t.len()
{
    if i >= p.len() {
        j >= t.len()
    } else if p[i] == 42u8 {
        glob_at(p, t, i + 1, j) || (j < t.len() && glob_at(p, t, i, j + 1))
    } else {
        j < t.len() && (p[i] == 63u8 || p[i] == t[j]) && glob_at(p, t, i + 1, j + 1)
    }
}

/// `pattern` matches all of `text` under glob semantics.
pub open spec fn glob(pattern: Seq<u8>, text: Seq<u8>) -> bool {
    glob_at(pattern, text, 0, 0)
}

pub open spec fn opt_pos(o: Option<usize>) -> int {
    match o {
        Some(v) => v as int,
        None => -1,
    }
}

/// Glob-like match of `pattern` against the whole of `text`: `*` matches any
/// byte run (including the empty one), `?` exactly one byte.  Greedy two
/// pointers with a single backtrack point, linear in practice.
pub fn match_wildcard(pattern: &[u8], text: &[u8]) -> (r: bool)
    ensures
        r == wildcard_match(pattern@, text@),
        !contains_byte(text@, 42u8) ==> r == glob(pattern@, text@),
{
    proof {
        if !contains_byte(text@, 42u8) {
            lemma_wildcard_match_is_glob(pattern@, text@);
        }
    }
    let p = pattern;
    let t = text;
    let mut pi: usize = 0;
    let mut ti: usize = 0;
    let mut star_pi: Option<usize> = None;
    let mut star_ti: usize = 0;
    while ti < t.len()
        invariant
            p@ == pattern@,
            t@ == text@,
            !contains_byte(text@, 42u8) ==> wildcard_match(pattern@, text@) == glob(
                pattern@,
                text@,
            ),
            star_ti <= ti <= t@.len(),
            pi <= p@.len(),
            opt_pos(star_pi) < pi,
            wildcard_scan(p@, t@, pi as int, ti as int, opt_pos(star_pi), star_ti as int)
                == wildcard_match(p@, t@),
        decreases t.len() - star_ti, (t.len() - ti) + (p.len() - pi),
    {
        if pi < p.len() && (p[pi] == 63u8 || p[pi] == t[ti]) {
            pi += 1;
            ti += 1;
        } else if pi < p.len() && p[pi] == 42u8 {
            star_pi = Some(pi);
            star_ti = ti;
            pi += 1;
        } else if let Some(sp) = star_pi {
            pi = sp + 1;
            star_ti += 1;
            ti = star_ti;
        } else {
            assert(!wildcard_scan(p@, t@, pi as int, ti as int, -1, star_ti as int));
            return false;
        }
    }
    let ghost pi0 = pi as int;
    while pi < p.len() && p[pi] == 42u8
        invariant
            pi0 <= pi <= p@.len(),
            all_stars_from(p@, pi0) == all_stars_from(p@, pi as int),
        decreases p.len() - pi,
    {
        pi += 1;
    }
    pi == p.len()
}


// ───────────────────────────── path segments ─────────────────────────────

/// `sep` occurs in `s` at byte position `pos`.
pub open spec fn sep_at(s: Seq<u8>, sep: Seq<u8>, pos: int) -> bool {
    0 <= pos && pos + sep.len() <= s.len() && s.subrange(pos, pos + sep.len()) == sep
}

/// Split `s` at the leftmost non-overlapping occurrences of `sep`, scanning
/// from `pos` with the current piece starting at `start`.
pub open spec fn split_scan(s: Seq<u8>, sep: Seq<u8>, start: int, pos: int) -> Seq<Seq<u8>>
    decreases s.len() - pos,
    when 0 <= start <= pos && sep.len() > 0
{
    if pos + sep.len() > s.len() {
        seq![s.subrange(start, s.len() as int)]
    } else if s.subrange(pos, pos + sep.len()) == sep {
        seq![s.subrange(start, pos)] + split_scan(s, sep, pos + sep.len(), pos + sep.len())
    } else {
        split_scan(s, sep, start, pos + 1)
    }
}

/// The pieces of `s` between the occurrences of the separator `sep`
/// (`str::split` with a non-empty pattern).
pub open spec fn split(s: Seq<u8>, sep: Seq<u8>) -> Seq<Seq<u8>> {
    split_scan(s, sep, 0, 0)
}

/// Whether `sep` occurs in `s` at `pos`; `pos + sep.len()` must not pass the end.
fn sep_matches_at(s: &[u8], sep: &[u8], pos: usize) -> (r: bool)
    requires
        pos + sep@.len() <= s@.len(),
    ensures
        r == (s@.subrange(pos as int, pos + sep@.len()) == sep@),
{
    let mut k: usize = 0;
    while k < sep.len()
        invariant
            pos + sep@.len() <= s@.len(),
            s@.len() == s.len(),
            k <= sep@.len(),
            forall|q: int| 0 <= q < k ==> s@[pos + q] == sep@[q],
        decreases sep.len() - k,
    {
        if s[pos + k] != sep[k] {
            assert(s@.subrange(pos as int, pos + sep@.len())[k as int] != sep@[k as int]);
            return false;
        }
        k += 1;
    }
    assert(s@.subrange(pos as int, pos + sep@.len()) =~= sep@);
    true
}

/// Copy `s[a..b]` into a vector.
fn copy_range(s: &[u8], a: usize, b: usize) -> (v: Vec<u8>)
    requires
        a <= b <= s@.len(),
    ensures
        v@ == s@.subrange(a as int, b as int),
{
    let mut v: Vec<u8> = Vec::new();
    let mut i: usize = a;
    while i < b
        invariant
            a <= i <= b <= s@.len(),
            v@ == s@.subrange(a as int, i as int),
        decreases b - i,
    {
        v.push(s[i]);
        i += 1;
        assert(v@ =~= s@.subrange(a as int, i as int));
    }
    v
}

/// The byte contents of a list of byte vectors.
pub open spec fn byte_views(parts: Seq<Vec<u8>>) -> Seq<Seq<u8>> {
    parts.map_values(|v: Vec<u8>| v@)
}

/// Split `s` at every occurrence of the non-empty separator `sep`.
pub fn split_bytes(s: &[u8], sep: &[u8]) -> (parts: Vec<Vec<u8>>)
    requires
        sep@.len() > 0,
    ensures
        byte_views(parts@) == split(s@, sep@),
{
    let mut parts: Vec<Vec<u8>> = Vec::new();
    let mut start: usize = 0;
    let mut pos: usize = 0;
    while sep.len() <= s.len() - pos
        invariant
            sep@.len() > 0,
            start <= pos <= s@.len(),
            byte_views(parts@) + split_scan(s@, sep@, start as int, pos as int) == split(s@, sep@),
        decreases s.len() - pos,
    {
        if sep_matches_at(s, sep, pos) {
            let piece = copy_range(s, start, pos);
            let ghost old_parts = byte_views(parts@);
            parts.push(piece);
            assert(byte_views(parts@) =~= old_parts.push(s@.subrange(start as int, pos as int)));
            pos = pos + sep.len();
            start = pos;
        } else {
            pos = pos + 1;
        }
    }
    let piece = copy_range(s, start, s.len());
    let ghost old_parts = byte_views(parts@);
    parts.push(piece);
    assert(byte_views(parts@) =~= old_parts.push(s@.subrange(start as int, s@.len() as int)));
    assert(byte_views(parts@) =~= split(s@, sep@));
    parts
}

/// Every non-empty piece of `keyword` (split at `sep`) is also a piece of
/// `value`: e.g. module `ext2::dir` selects every module path holding both an
/// `ext2` and a `dir` segment.
pub open spec fn segments_match(keyword: Seq<u8>, value: Seq<u8>, sep: Seq<u8>) -> bool {
    forall|i: int|
        0 <= i < split(keyword, sep).len() && split(keyword, sep)[i].len() > 0 ==> split(
            value,
            sep,
        ).contains(#[trigger] split(keyword, sep)[i])
}

/// Whether every non-empty `sep`-separated segment of `keyword` is one of
/// the segments of `value`.
pub fn path_segments_match(keyword: &[u8], value: &[u8], sep: &[u8]) -> (r: bool)
    requires
        sep@.len() > 0,
    ensures
        r == segments_match(keyword@, value@, sep@),
{
    let kparts = split_bytes(keyword, sep);
    let vparts = split_bytes(value, sep);
    let ghost ks = split(keyword@, sep@);
    let ghost vs = split(value@, sep@);
    let mut i: usize = 0;
    while i < kparts.len()
        invariant
            byte_views(kparts@) == ks,
            byte_views(vparts@) == vs,
            ks == split(keyword@, sep@),
            vs == split(value@, sep@),
            i <= ks.len(),
            forall|q: int| 0 <= q < i && ks[q].len() > 0 ==> vs.contains(#[trigger] ks[q]),
        decreases kparts.len() - i,
    {
        assert(kparts@[i as int]@ == ks[i as int]);
        if kparts[i].len() > 0 {
            let mut found = false;
            let mut j: usize = 0;
            while j < vparts.len()
                invariant
                    byte_views(vparts@) == vs,
                    byte_views(kparts@) == ks,
                    i < ks.len(),
                    kparts@[i as int]@ == ks[i as int],
                    j <= vs.len(),
                    found ==> vs.contains(ks[i as int]),
                    !found ==> forall|q: int| 0 <= q < j ==> vs[q] != ks[i as int],
                decreases vparts.len() - j,
            {
                assert(vparts@[j as int]@ == vs[j as int]);
                if bytes_eq(vparts[j].as_slice(), kparts[i].as_slice()) {
                    found = true;
                    assert(vs[j as int] == ks[i as int]);
                }
                j += 1;
            }
            if !found {
                assert(!vs.contains(ks[i as int]));
                return false;
            }
        }
        i += 1;
    }
    true
}

// ───────────────────────────── selector predicate ─────────────────────────────

/// Whether `value` (a whole descriptor value) is selected by `keyword`:
/// a wildcard keyword must match the whole value; otherwise the value must
/// equal the keyword or, for segmented values (`sep` given), hold all of the
/// keyword's segments.  There is no substring matching.
pub open spec fn value_match(keyword: Seq<u8>, value: Seq<u8>, sep: Option<Seq<u8>>) -> bool {
    if is_wildcard(keyword) {
        wildcard_match(keyword, value)
    } else if value == keyword {
        true
    } else {
        match sep {
            Some(s) => segments_match(keyword, value, s),
            None => false,
        }
    }
}

pub open spec fn opt_slice_view(o: Option<&[u8]>) -> Option<Seq<u8>> {
    match o {
        Some(s) => Some(s@),
        None => None,
    }
}

/// Whether `keyword` selects `value`; `sep` splits segmented values.
pub fn value_matches(keyword: &[u8], value: &[u8], sep: Option<&[u8]>) -> (r: bool)
    requires
        sep matches Some(s) ==> s@.len() > 0,
    ensures
        r == value_match(keyword@, value@, opt_slice_view(sep)),
{
    if has_wildcard(keyword) {
        return match_wildcard(keyword, value);
    }
    if bytes_eq(value, keyword) {
        return true;
    }
    match sep {
        Some(s) => path_segments_match(keyword, value, s),
        None => false,
    }
}

/// An absent selector selects everything; a present one needs a value that
/// it matches.
pub open spec fn selector_match_spec(
    selector: Option<Seq<u8>>,
    value: Option<Seq<u8>>,
    sep: Option<Seq<u8>>,
) -> bool {
    match selector {
        None => true,
        Some(needle) => match value {
            Some(v) => value_match(needle, v, sep),
            None => false,
        },
    }
}

/// Whether the optional `selector` keyword selects the optional `value`.
pub fn selector_match(selector: Option<&[u8]>, value: Option<&[u8]>, sep: Option<&[u8]>) -> (r: bool)
    requires
        sep matches Some(s) ==> s@.len() > 0,
    ensures
        r == selector_match_spec(opt_slice_view(selector), opt_slice_view(value), opt_slice_view(sep)),
{
    match selector {
        None => true,
        Some(needle) => match value {
            Some(v) => value_matches(needle, v, sep),
            None => false,
        },
    }
}

// ───────────────────────────── glob lemmas ─────────────────────────────

/// No `*` among `p[a..b]`.
pub open spec fn no_star_in(p: Seq<u8>, a: int, b: int) -> bool {
    forall|q: int| a <= q < b ==> p[q] != 42u8
}

/// `p[a..a+len]` matches `t[c..c+len]` byte by byte (`?` matches any byte).
pub open spec fn bytes_match(p: Seq<u8>, a: int, t: Seq<u8>, c: int, len: int) -> bool {
    forall|q: int| a <= q < a + len ==> (#[trigger] p[q] == 63u8 || p[q] == t[c + (q - a)])
}

proof fn lemma_glob_literal(p: Seq<u8>, t: Seq<u8>, a: int, b: int, c: int)
    requires
        0 <= a <= b <= p.len(),
        0 <= c,
        c + (b - a) <= t.len(),
        no_star_in(p, a, b),
        bytes_match(p, a, t, c, b - a),
    ensures
        glob_at(p, t, a, c) == glob_at(p, t, b, c + (b - a)),
    decreases b - a,
{
    if a < b {
        assert(p[a] == 63u8 || p[a] == t[c]);
        lemma_glob_literal(p, t, a + 1, b, c + 1);
    }
}

proof fn lemma_glob_literal_forward(p: Seq<u8>, t: Seq<u8>, a: int, b: int, c: int)
    requires
        0 <= a <= b <= p.len(),
        0 <= c <= t.len(),
        no_star_in(p, a, b),
        glob_at(p, t, a, c),
    ensures
        c + (b - a) <= t.len(),
        glob_at(p, t, b, c + (b - a)),
    decreases b - a,
{
    if a < b {
        lemma_glob_literal_forward(p, t, a + 1, b, c + 1);
    }
}

proof fn lemma_glob_star_mono(p: Seq<u8>, t: Seq<u8>, i: int, y: int, y2: int)
    requires
        0 <= i < p.len(),
        p[i] == 42u8,
        0 <= y2 <= y <= t.len(),
        glob_at(p, t, i, y),
    ensures
        glob_at(p, t, i, y2),
    decreases y - y2,
{
    if y2 < y {
        lemma_glob_star_mono(p, t, i, y, y2 + 1);
    }
}

proof fn lemma_glob_star_exists(p: Seq<u8>, t: Seq<u8>, i: int, j: int) -> (k: int)
    requires
        0 <= i < p.len(),
        p[i] == 42u8,
        0 <= j <= t.len(),
        glob_at(p, t, i, j),
    ensures
        j <= k <= t.len(),
        glob_at(p, t, i + 1, k),
    decreases t.len() - j,
{
    if glob_at(p, t, i + 1, j) {
        j
    } else {
        lemma_glob_star_exists(p, t, i, j + 1)
    }
}

proof fn lemma_glob_end(p: Seq<u8>, t: Seq<u8>, i: int)
    requires
        0 <= i <= p.len(),
    ensures
        glob_at(p, t, i, t.len() as int) == all_stars_from(p, i),
    decreases p.len() - i,
{
    if i < p.len() {
        lemma_glob_end(p, t, i + 1);
    }
}

proof fn lemma_scan_glob(p: Seq<u8>, t: Seq<u8>, pi: int, ti: int, sp: int, st: int)
    requires
        0 <= st <= ti <= t.len(),
        0 <= pi <= p.len(),
        -1 <= sp < pi,
        !contains_byte(t, 42u8),
        sp >= 0 ==> {
            &&& p[sp] == 42u8
            &&& pi - (sp + 1) == ti - st
            &&& no_star_in(p, sp + 1, pi)
            &&& bytes_match(p, sp + 1, t, st, pi - (sp + 1))
        },
    ensures
        wildcard_scan(p, t, pi, ti, sp, st) == (if sp >= 0 {
            glob_at(p, t, sp, st)
        } else {
            glob_at(p, t, pi, ti)
        }),
    decreases t.len() - st, (t.len() - ti) + (p.len() - pi),
{
    if ti >= t.len() {
        lemma_glob_end(p, t, pi);
        if sp >= 0 {
            lemma_glob_literal(p, t, sp + 1, pi, st);
            if glob_at(p, t, sp, st) {
                let k = lemma_glob_star_exists(p, t, sp, st);
                if k > st {
                    lemma_glob_literal_forward(p, t, sp + 1, pi, k);
                }
            }
        }
    } else if pi < p.len() && (p[pi] == 63u8 || p[pi] == t[ti]) {
        assert(p[pi] != 42u8) by {
            if p[pi] == 42u8 {
                assert(t[ti] == 42u8);
            }
        }
        if sp >= 0 {
            assert(bytes_match(p, sp + 1, t, st, pi + 1 - (sp + 1)));
        }
        lemma_scan_glob(p, t, pi + 1, ti + 1, sp, st);
    } else if pi < p.len() && p[pi] == 42u8 {
        lemma_scan_glob(p, t, pi + 1, ti, pi, ti);
        if sp >= 0 {
            lemma_glob_literal(p, t, sp + 1, pi, st);
            if glob_at(p, t, sp, st) {
                let k = lemma_glob_star_exists(p, t, sp, st);
                lemma_glob_literal_forward(p, t, sp + 1, pi, k);
                lemma_glob_star_mono(p, t, pi, k + (pi - (sp + 1)), ti);
            }
        }
    } else if sp >= 0 {
        lemma_glob_literal(p, t, sp + 1, pi, st);
        lemma_scan_glob(p, t, sp + 1, st + 1, sp, st + 1);
    } else {
    }
}

/// On a text without `*` bytes the two-pointer scan decides exactly glob
/// matching.  (A `*` in the text can be consumed by a pattern `*` as a
/// literal byte, which then gives up that star's backtracking.)
pub proof fn lemma_wildcard_match_is_glob(pattern: Seq<u8>, text: Seq<u8>)
    requires
        !contains_byte(text, 42u8),
    ensures
        wildcard_match(pattern, text) == glob(pattern, text),
{
    lemma_scan_glob(pattern, text, 0, 0, -1, 0);
}

} // verus!
