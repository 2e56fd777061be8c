//! The dynamic-debug state: the rule chain, the registered call sites with
//! their lookup indexes, module ids, per-module enabled counters and the
//! static-key sites each module gates.
use vstd::prelude::*;
use vstd::string::*;
use vstd::utf8::encode_utf8;
use crate::descriptor::{
    DebugDescriptor, DescriptorView, DEFAULT_DEBUG_ENABLED, MAX_DYNDBG_MODULES, MAX_HOT_SITES,
    UNASSIGNED_HOT_INDEX, UNASSIGNED_MODULE_ID,
};
use crate::index::{
    all_ids, has_id_upto, collect_by_keyword_exact_first, collect_function_candidates, has_id,
    indexes_optional_values, indexes_segments, indexes_values, intersect_candidates, LineIndex,
    TextIndex,
};
use crate::matching::{bytes_eq, bytes_to_vec, split, split_bytes};
use crate::rules::{
    apply_entry, apply_flags, file_selected, function_selected, keyword_bytes, line_selected,
    module_selected, module_sep, file_sep, opt_bytes, replay, rule_has_selector, rule_matches,
    DyndbgRule,
    DyndbgRuleAction, DyndbgRuleEntry, Verdict, DyndbgRuleSnapshot, DyndbgRuleActionSnapshot,
    DyndbgRuleEntrySnapshot, DyndbgStatsSnapshot, entry_of_snapshot, snapshot_of_entry,
    snapshot_of_rule, initial_verdict,
};
use crate::static_key::{
    disable_static_keys, enable_static_keys, lists, switch_sites, RegistryView,
    StaticKeyRegistry,
};

verus! {

/// How a module's sites are patched: all in one transaction, or one
/// transaction per site.
#[derive(Debug, Clone, Copy, PartialEq, Eq, Structural)]
pub enum DyndbgPatchBackend {
    PerSite,
    Batch,
}

impl DyndbgPatchBackend {
    /// `0` is per-site; every other value is batch.
    pub fn from_u8(value: u8) -> (r: Self)
        ensures
            r == (if value == 0 {
                DyndbgPatchBackend::PerSite
            } else {
                DyndbgPatchBackend::Batch
            }),
    {
        match value {
            0 => DyndbgPatchBackend::PerSite,
            _ => DyndbgPatchBackend::Batch,
        }
    }

    /// Stored code of the backend.
    pub open spec fn to_u8_spec(self) -> u8 {
        match self {
            DyndbgPatchBackend::PerSite => 0u8,
            DyndbgPatchBackend::Batch => 1u8,
        }
    }

    /// Stored code of the backend.
    pub fn to_u8(self) -> (r: u8)
        ensures
            r == (match self {
                DyndbgPatchBackend::PerSite => 0u8,
                DyndbgPatchBackend::Batch => 1u8,
            }),
    {
        match self {
            DyndbgPatchBackend::PerSite => 0,
            DyndbgPatchBackend::Batch => 1,
        }
    }

    /// Name of the backend: `per_site` or `batch`.
    pub fn as_str(self) -> (r: &'static str)
        ensures
            r@ == (match self {
                DyndbgPatchBackend::PerSite => "per_site"@,
                DyndbgPatchBackend::Batch => "batch"@,
            }),
    {
        match self {
            DyndbgPatchBackend::PerSite => "per_site",
            DyndbgPatchBackend::Batch => "batch",
        }
    }
}

/// A module's gate: whether its sites are currently patched on, and the
/// static-key sites of its call sites.
pub struct ModuleKey {
    pub enabled: bool,
    pub static_key_sites: Vec<usize>,
}

impl ModuleKey {
    pub fn new() -> (k: Self)
        ensures
            !k.enabled,
            k.static_key_sites@.len() == 0,
    {
        ModuleKey { enabled: false, static_key_sites: Vec::new() }
    }
}

/// Links a call site (by id) to the static-key site (by id) gating it.
#[derive(Debug, Clone, Copy)]
pub struct DyndbgKeyMapping {
    pub descriptor: usize,
    pub static_key_site: usize,
}

/// Contribution of a call site to the enabled counter of module `m`.
pub open spec fn enabled_share(d: DescriptorView, m: int) -> nat {
    if d.module_id as int == m && d.effective() {
        1
    } else {
        0
    }
}

/// Number of call sites of module `m` that have log or trace on.
pub open spec fn count_enabled(ds: Seq<DescriptorView>, m: int) -> nat
    decreases ds.len(),
{
    if ds.len() == 0 {
        0
    } else {
        count_enabled(ds.drop_last(), m) + enabled_share(ds.last(), m)
    }
}

pub proof fn lemma_count_bound(ds: Seq<DescriptorView>, m: int)
    ensures
        count_enabled(ds, m) <= ds.len(),
    decreases ds.len(),
{
    if ds.len() > 0 {
        lemma_count_bound(ds.drop_last(), m);
    }
}

pub proof fn lemma_count_update(ds: Seq<DescriptorView>, i: int, d: DescriptorView, m: int)
    requires
        0 <= i < ds.len(),
    ensures
        count_enabled(ds.update(i, d), m) + enabled_share(ds[i], m) == count_enabled(ds, m) + enabled_share(
            d,
            m,
        ),
    decreases ds.len(),
{
    if i < ds.len() - 1 {
        lemma_count_update(ds.drop_last(), i, d, m);
        assert(ds.update(i, d).drop_last() =~= ds.drop_last().update(i, d));
    } else {
        assert(ds.update(i, d).drop_last() =~= ds.drop_last());
    }
}

/// The UTF-8 bytes of the file of call site `d`.
pub open spec fn file_bytes(d: DescriptorView) -> Seq<u8> {
    encode_utf8(d.file)
}

/// The UTF-8 bytes of the module path of call site `d`.
pub open spec fn module_bytes(d: DescriptorView) -> Seq<u8> {
    encode_utf8(d.mod_path)
}

/// The dynamic-debug state.
pub struct DyndbgState {
    rules: Vec<DyndbgRuleEntry>,
    module_paths: Vec<Vec<u8>>,
    module_counts: Vec<u32>,
    module_keys: Vec<Option<ModuleKey>>,
    file_index: TextIndex,
    module_index: TextIndex,
    function_index: TextIndex,
    line_index: LineIndex,
    module_segment_index: TextIndex,
    file_segment_index: TextIndex,
    hot_site_count: usize,
    descriptors: Vec<DebugDescriptor>,
    descriptors_recomputed: u64,
    modules_repatched: u64,
    sites_patched: u64,
    patch_transactions: u64,
    last_update_latency_us: u64,
    patch_backend: u8,
    index_enabled: bool,
    recompute_enabled: bool,
}

pub open spec fn desc_views(ds: Seq<DebugDescriptor>) -> Seq<DescriptorView> {
    ds.map_values(|d: DebugDescriptor| d@)
}

impl DyndbgState {
    // ─────────────── abstract state ───────────────

    /// The registered call sites, by id.
    pub closed spec fn descs(&self) -> Seq<DescriptorView> {
        desc_views(self.descriptors@)
    }

    /// The rule chain.
    pub closed spec fn rule_chain(&self) -> Seq<DyndbgRuleEntry> {
        self.rules@
    }

    /// Module id to module path bytes.
    pub closed spec fn paths(&self) -> Seq<Seq<u8>> {
        self.module_paths@.map_values(|p: Vec<u8>| p@)
    }

    /// The enabled counter of module `m`.
    pub closed spec fn module_count(&self, m: int) -> int {
        self.module_counts@[m] as int
    }

    /// Module `m` has a gate (a registered static-key site).
    pub closed spec fn has_module_key(&self, m: int) -> bool {
        self.module_keys@[m] is Some
    }

    /// Whether module `m`'s static-key sites are switched on.
    pub closed spec fn module_key_enabled(&self, m: int) -> bool {
        self.module_keys@[m]->Some_0.enabled
    }

    /// The static-key sites gated by module `m`.
    pub closed spec fn module_key_sites(&self, m: int) -> Seq<usize> {
        self.module_keys@[m]->Some_0.static_key_sites@
    }

    /// Next hotspot counter index.
    pub closed spec fn hot_sites(&self) -> int {
        self.hot_site_count as int
    }

    pub closed spec fn backend_code(&self) -> u8 {
        self.patch_backend
    }

    pub closed spec fn index_on(&self) -> bool {
        self.index_enabled
    }

    pub closed spec fn recompute_on(&self) -> bool {
        self.recompute_enabled
    }

    pub closed spec fn stat_recomputed(&self) -> u64 {
        self.descriptors_recomputed
    }

    pub closed spec fn stat_modules_repatched(&self) -> u64 {
        self.modules_repatched
    }

    pub closed spec fn stat_sites_patched(&self) -> u64 {
        self.sites_patched
    }

    pub closed spec fn stat_transactions(&self) -> u64 {
        self.patch_transactions
    }

    pub closed spec fn stat_latency(&self) -> u64 {
        self.last_update_latency_us
    }

    /// Every call site's state is the replay of the rule chain on it.
    pub open spec fn synced(&self) -> bool {
        forall|i: int|
            0 <= i < self.descs().len() ==> {
                let d = #[trigger] self.descs()[i];
                let v = replay(self.rule_chain(), d);
                d.log == v.log && d.trace == v.trace && d.flags == v.flags
            }
    }

    /// The lookup indexes record exactly the registered call sites.
    pub closed spec fn indexes_exact(&self) -> bool {
        self.indexes_exact_for(self.descs())
    }

    /// The lookup indexes record exactly the call sites `ds`.
    pub closed spec fn indexes_exact_for(&self, ds: Seq<DescriptorView>) -> bool {
        &&& self.file_index.wf()
        &&& self.module_index.wf()
        &&& self.function_index.wf()
        &&& self.line_index.wf()
        &&& self.module_segment_index.wf()
        &&& self.file_segment_index.wf()
        &&& forall|k: Seq<u8>, x: int|
            #[trigger] self.file_index.holds(k, x) == (0 <= x < ds.len() && file_bytes(ds[x]) == k)
        &&& forall|k: Seq<u8>|
            #[trigger] self.file_index.has_key(k) == exists|x: int|
                0 <= x < ds.len() && file_bytes(#[trigger] ds[x]) == k
        &&& forall|k: Seq<u8>, x: int|
            #[trigger] self.module_index.holds(k, x) == (0 <= x < ds.len() && module_bytes(ds[x])
                == k)
        &&& forall|k: Seq<u8>|
            #[trigger] self.module_index.has_key(k) == exists|x: int|
                0 <= x < ds.len() && module_bytes(#[trigger] ds[x]) == k
        &&& forall|k: Seq<u8>, x: int|
            #[trigger] self.function_index.holds(k, x) == (0 <= x < ds.len() && ds[x].function
                is Some && encode_utf8(ds[x].function->Some_0) == k)
        &&& forall|k: Seq<u8>|
            #[trigger] self.function_index.has_key(k) == exists|x: int|
                0 <= x < ds.len() && (#[trigger] ds[x]).function is Some && encode_utf8(
                    ds[x].function->Some_0,
                ) == k
        &&& forall|l: u32, x: int|
            #[trigger] self.line_index.holds(l, x) == (0 <= x < ds.len() && ds[x].line == l)
        &&& forall|k: Seq<u8>, x: int|
            #[trigger] self.module_segment_index.holds(k, x) == (0 <= x < ds.len() && split(
                module_bytes(ds[x]),
                module_sep(),
            ).contains(k))
        &&& forall|k: Seq<u8>|
            #[trigger] self.module_segment_index.has_key(k) == exists|x: int|
                0 <= x < ds.len() && split(module_bytes(#[trigger] ds[x]), module_sep()).contains(k)
        &&& forall|k: Seq<u8>, x: int|
            #[trigger] self.file_segment_index.holds(k, x) == (0 <= x < ds.len() && split(
                file_bytes(ds[x]),
                file_sep(),
            ).contains(k))
        &&& forall|k: Seq<u8>|
            #[trigger] self.file_segment_index.has_key(k) == exists|x: int|
                0 <= x < ds.len() && split(file_bytes(#[trigger] ds[x]), file_sep()).contains(k)
    }

    /// The state's internal invariant.
    pub closed spec fn wf(&self) -> bool {
        self.wf_counting(self.descs())
    }

    /// The invariant, except that the module counters count the effective
    /// call sites of `counted` rather than of the registered ones.
    pub closed spec fn wf_counting(&self, counted: Seq<DescriptorView>) -> bool {
        let ds = self.descs();
        &&& self.module_counts@.len() == MAX_DYNDBG_MODULES
        &&& self.module_keys@.len() == MAX_DYNDBG_MODULES
        &&& self.module_paths@.len() <= MAX_DYNDBG_MODULES
        &&& ds.len() < 0xffff_ffff
        &&& forall|a: int, b: int|
            0 <= a < b < self.module_paths@.len() ==> self.module_paths@[a]@
                != self.module_paths@[b]@
        &&& forall|i: int|
            0 <= i < ds.len() ==> {
                let m = (#[trigger] ds[i]).module_id;
                m == UNASSIGNED_MODULE_ID || ((m as int) < self.module_paths@.len()
                    && self.module_paths@[m as int]@ == module_bytes(ds[i]))
            }
        &&& forall|m: int|
            0 <= m < MAX_DYNDBG_MODULES ==> #[trigger] self.module_counts@[m] as int
                == count_enabled(counted, m)
        &&& forall|m: int|
            0 <= m < MAX_DYNDBG_MODULES && #[trigger] self.module_keys@[m] is Some ==> self.module_keys@[m]->Some_0.enabled
                == (self.module_counts@[m] != 0)
        &&& self.hot_site_count as int == (if ds.len() < MAX_HOT_SITES {
            ds.len() as int
        } else {
            MAX_HOT_SITES as int
        })
        &&& forall|i: int|
            0 <= i < ds.len() ==> (#[trigger] ds[i]).hot_index == (if i < MAX_HOT_SITES {
                i as u32
            } else {
                UNASSIGNED_HOT_INDEX
            })
        &&& self.indexes_exact()
    }

    /// Every static-key site a module gates is registered in `keys`.
    pub closed spec fn keys_cover(&self, keys: RegistryView) -> bool {
        forall|m: int, j: int|
            0 <= m < MAX_DYNDBG_MODULES && #[trigger] self.module_keys@[m] is Some && 0 <= j
                < self.module_keys@[m]->Some_0.static_key_sites@.len() ==> (#[trigger] self.module_keys@[m]->Some_0.static_key_sites@[j]
                as int) < keys.sites.len()
    }
}


// ─────────────── registry effects of patching ───────────────

/// Switch the sites `ids` in one transaction.
pub open spec fn switch_effect(k: RegistryView, ids: Seq<usize>, on: bool) -> RegistryView {
    RegistryView {
        sites: switch_sites(k.sites, ids, on).0,
        env: k.env,
        pending: crate::static_key::queue_after(k.pending, switch_sites(k.sites, ids, on).1, k.env),
    }
}

/// Switch the sites `ids` one transaction per site, in order.
pub open spec fn per_site_effect(k: RegistryView, ids: Seq<usize>, on: bool) -> RegistryView
    decreases ids.len(),
{
    if ids.len() == 0 {
        k
    } else {
        switch_effect(per_site_effect(k, ids.drop_last(), on), seq![ids.last()], on)
    }
}

/// Patching the sites `ids` of a module with the backend coded `backend`
/// (`0` per site, otherwise batch); no sites, no transaction.
pub open spec fn patch_effect(k: RegistryView, ids: Seq<usize>, on: bool, backend: u8) -> RegistryView {
    if ids.len() == 0 {
        k
    } else if backend == 0 {
        per_site_effect(k, ids, on)
    } else {
        switch_effect(k, ids, on)
    }
}

/// `k1` differs from `k0` at most in the enabled flags of the sites listed
/// in `ids`, which are all `on`, and in transactions queued behind the old ones.
pub open spec fn switched_to(k0: RegistryView, k1: RegistryView, ids: Seq<usize>, on: bool) -> bool {
    &&& k1.sites.len() == k0.sites.len()
    &&& k1.env == k0.env
    &&& k0.pending.len() <= k1.pending.len()
    &&& k1.pending.subrange(0, k0.pending.len() as int) == k0.pending
    &&& forall|s: int|
        0 <= s < k0.sites.len() ==> #[trigger] k1.sites[s] == (if lists(ids, s) {
            crate::static_key::SiteView { enabled: on, ..k0.sites[s] }
        } else {
            k0.sites[s]
        })
}

proof fn lemma_switch_effect(k: RegistryView, ids: Seq<usize>, on: bool)
    requires
        forall|i: int| 0 <= i < ids.len() ==> (ids[i] as int) < k.sites.len(),
    ensures
        switched_to(k, switch_effect(k, ids, on), ids, on),
{
    let k1 = switch_effect(k, ids, on);
    assert forall|s: int| 0 <= s < k.sites.len() implies #[trigger] k1.sites[s] == (if lists(ids, s) {
        crate::static_key::SiteView { enabled: on, ..k.sites[s] }
    } else {
        k.sites[s]
    }) by {
        crate::static_key::lemma_switch_sites(k.sites, ids, on, s);
    }
    lemma_switch_len(k.sites, ids, on);
    assert(k1.pending.subrange(0, k.pending.len() as int) =~= k.pending);
}

proof fn lemma_switch_len(sites: Seq<crate::static_key::SiteView>, ids: Seq<usize>, on: bool)
    requires
        forall|i: int| 0 <= i < ids.len() ==> (ids[i] as int) < sites.len(),
    ensures
        switch_sites(sites, ids, on).0.len() == sites.len(),
    decreases ids.len(),
{
    if ids.len() > 0 {
        lemma_switch_len(sites, ids.drop_last(), on);
    }
}

proof fn lemma_per_site_effect(k: RegistryView, ids: Seq<usize>, on: bool)
    requires
        forall|i: int| 0 <= i < ids.len() ==> (ids[i] as int) < k.sites.len(),
    ensures
        switched_to(k, per_site_effect(k, ids, on), ids, on),
    decreases ids.len(),
{
    if ids.len() == 0 {
        assert(k.pending.subrange(0, k.pending.len() as int) =~= k.pending);
    } else {
        let dl = ids.drop_last();
        lemma_per_site_effect(k, dl, on);
        let k0 = per_site_effect(k, dl, on);
        let one = seq![ids.last()];
        lemma_switch_effect(k0, one, on);
        let k1 = switch_effect(k0, one, on);
        assert(k1.pending.subrange(0, k.pending.len() as int) =~= k.pending) by {
            assert(k0.pending.subrange(0, k.pending.len() as int) == k.pending);
            assert(k1.pending.subrange(0, k0.pending.len() as int) == k0.pending);
        }
        assert forall|s: int| 0 <= s < k.sites.len() implies #[trigger] k1.sites[s] == (if lists(
            ids,
            s,
        ) {
            crate::static_key::SiteView { enabled: on, ..k.sites[s] }
        } else {
            k.sites[s]
        }) by {
            assert(k0.sites[s] == (if lists(dl, s) {
                crate::static_key::SiteView { enabled: on, ..k.sites[s] }
            } else {
                k.sites[s]
            }));
            assert(lists(ids, s) == (lists(dl, s) || lists(one, s))) by {
                if lists(ids, s) {
                    let j = choose|j: int| 0 <= j < ids.len() && ids[j] as int == s;
                    if j < ids.len() - 1 {
                        assert(dl[j] as int == s);
                    } else {
                        assert(one[0] as int == s);
                    }
                }
                if lists(dl, s) {
                    let j = choose|j: int| 0 <= j < dl.len() && dl[j] as int == s;
                    assert(ids[j] as int == s);
                }
                if lists(one, s) {
                    assert(ids[ids.len() - 1] as int == s);
                }
            }
        }
    }
}

proof fn lemma_patch_effect(k: RegistryView, ids: Seq<usize>, on: bool, backend: u8)
    requires
        forall|i: int| 0 <= i < ids.len() ==> (ids[i] as int) < k.sites.len(),
    ensures
        switched_to(k, patch_effect(k, ids, on, backend), ids, on),
{
    if ids.len() == 0 {
        assert(k.pending.subrange(0, k.pending.len() as int) =~= k.pending);
        assert forall|s: int| 0 <= s < k.sites.len() implies !lists(ids, s) by {}
    } else if backend == 0 {
        lemma_per_site_effect(k, ids, on);
    } else {
        lemma_switch_effect(k, ids, on);
    }
}

/// Module `m` has a gate in both states and it was switched between them.
pub open spec fn gate_flipped(s0: DyndbgState, s1: DyndbgState, m: int) -> bool {
    s0.has_module_key(m) && s1.has_module_key(m) && s0.module_key_enabled(m) != s1.module_key_enabled(m)
}

/// The registry `k` after patching, module by module in id order, the sites
/// of every module below `upto` whose gate flipped from `s0` to `s1` to the
/// gate's new value, with the patch backend of `s0`.
pub open spec fn gate_patches(k: RegistryView, s0: DyndbgState, s1: DyndbgState, upto: int) -> RegistryView
    decreases upto,
{
    if upto <= 0 {
        k
    } else {
        let k1 = gate_patches(k, s0, s1, upto - 1);
        if gate_flipped(s0, s1, upto - 1) {
            patch_effect(k1, s0.module_key_sites(upto - 1), s1.module_key_enabled(upto - 1), s0.backend_code())
        } else {
            k1
        }
    }
}

/// The gates of `s1` are those of `s0` (same modules, same sites), each on
/// exactly when its module has an effective call site in `s1`.
pub open spec fn gates_follow(s0: DyndbgState, s1: DyndbgState) -> bool {
    forall|m: int|
        0 <= m < MAX_DYNDBG_MODULES ==> {
            &&& #[trigger] s1.has_module_key(m) == s0.has_module_key(m)
            &&& s1.has_module_key(m) ==> s1.module_key_sites(m) == s0.module_key_sites(m)
                && s1.module_key_enabled(m) == (count_enabled(s1.descs(), m) != 0)
        }
}

proof fn lemma_mod_step(a: int, c: int, n: int)
    ensures
        ((a + c) % 0x1_0000_0000_0000_0000 + n) % 0x1_0000_0000_0000_0000 == (a + c + n) % 0x1_0000_0000_0000_0000,
{
    vstd::arithmetic::div_mod::lemma_add_mod_noop_right(n, a + c, 0x1_0000_0000_0000_0000);
}

/// What patching the gates that flipped from `s0` to `s1` below `upto` adds
/// to the statistics: modules repatched, sites patched and patch
/// transactions (one per site with the per-site backend of `s0`, one per
/// module otherwise); a gate without sites counts for nothing.
pub open spec fn gate_patch_counts(s0: DyndbgState, s1: DyndbgState, upto: int) -> (int, int, int)
    decreases upto,
{
    if upto <= 0 {
        (0, 0, 0)
    } else {
        let c = gate_patch_counts(s0, s1, upto - 1);
        let n = s0.module_key_sites(upto - 1).len() as int;
        if gate_flipped(s0, s1, upto - 1) && n > 0 {
            (c.0 + 1, c.1 + n, c.2 + (if s0.backend_code() == 0 {
                n
            } else {
                1
            }))
        } else {
            c
        }
    }
}

/// The patch statistics of `s1` are those of `s0` plus what patching the
/// gates that flipped below `upto` counts, each modulo 2^64.
pub open spec fn patch_stats_upto(s0: DyndbgState, s1: DyndbgState, upto: int) -> bool {
    let c = gate_patch_counts(s0, s1, upto);
    &&& s1.stat_modules_repatched() as int == (s0.stat_modules_repatched() + c.0) % 0x1_0000_0000_0000_0000
    &&& s1.stat_sites_patched() as int == (s0.stat_sites_patched() + c.1) % 0x1_0000_0000_0000_0000
    &&& s1.stat_transactions() as int == (s0.stat_transactions() + c.2) % 0x1_0000_0000_0000_0000
}

/// `patch_stats_upto` over every module.
pub open spec fn patch_stats_follow(s0: DyndbgState, s1: DyndbgState) -> bool {
    patch_stats_upto(s0, s1, MAX_DYNDBG_MODULES as int)
}

/// `gate_patches` reads only the gates below `upto` and the backend.
proof fn lemma_gate_patches_congruent(
    k: RegistryView,
    s0: DyndbgState,
    s0b: DyndbgState,
    s1: DyndbgState,
    s1b: DyndbgState,
    upto: int,
)
    requires
        s0.patch_backend == s0b.patch_backend,
        forall|i: int| 0 <= i < upto ==> s0.module_keys@[i] == s0b.module_keys@[i] && s1.module_keys@[i] == s1b.module_keys@[i],
    ensures
        gate_patches(k, s0, s1, upto) == gate_patches(k, s0b, s1b, upto),
        gate_patch_counts(s0, s1, upto) == gate_patch_counts(s0b, s1b, upto),
    decreases upto,
{
    if upto > 0 {
        lemma_gate_patches_congruent(k, s0, s0b, s1, s1b, upto - 1);
        assert(s0.module_keys@[upto - 1] == s0b.module_keys@[upto - 1]);
        assert(s1.module_keys@[upto - 1] == s1b.module_keys@[upto - 1]);
    }
}

/// With no gate flipped below `upto`, nothing is patched.
proof fn lemma_gate_patches_none(k: RegistryView, s0: DyndbgState, s1: DyndbgState, upto: int)
    requires
        forall|i: int| 0 <= i < upto ==> !#[trigger] gate_flipped(s0, s1, i),
    ensures
        gate_patches(k, s0, s1, upto) == k,
        gate_patch_counts(s0, s1, upto) == (0int, 0int, 0int),
    decreases upto,
{
    if upto > 0 {
        lemma_gate_patches_none(k, s0, s1, upto - 1);
        assert(!gate_flipped(s0, s1, upto - 1));
    }
}

/// With only module `m` possibly flipped below `upto`, only its sites are
/// patched.
proof fn lemma_gate_patches_single(k: RegistryView, s0: DyndbgState, s1: DyndbgState, m: int, upto: int)
    requires
        0 <= m,
        forall|i: int| 0 <= i < upto && i != m ==> !#[trigger] gate_flipped(s0, s1, i),
    ensures
        gate_patches(k, s0, s1, upto) == (if m < upto && gate_flipped(s0, s1, m) {
            patch_effect(k, s0.module_key_sites(m), s1.module_key_enabled(m), s0.backend_code())
        } else {
            k
        }),
        gate_patch_counts(s0, s1, upto) == (if m < upto && gate_flipped(s0, s1, m) && s0.module_key_sites(m).len() > 0 {
            (1int, s0.module_key_sites(m).len() as int, if s0.backend_code() == 0 {
                s0.module_key_sites(m).len() as int
            } else {
                1int
            })
        } else {
            (0int, 0int, 0int)
        }),
    decreases upto,
{
    if upto > 0 {
        if upto - 1 == m {
            lemma_gate_patches_none(k, s0, s1, upto - 1);
        } else {
            lemma_gate_patches_single(k, s0, s1, m, upto - 1);
            assert(!gate_flipped(s0, s1, upto - 1));
        }
    }
}

/// Index of module id `m` in the counter array, if it names one.
pub fn module_state(module_id: u32) -> (r: Option<usize>)
    ensures
        r == (if module_id == UNASSIGNED_MODULE_ID || module_id as int >= MAX_DYNDBG_MODULES {
            None::<usize>
        } else {
            Some(module_id as usize)
        }),
{
    if module_id == UNASSIGNED_MODULE_ID {
        return None;
    }
    if (module_id as usize) < MAX_DYNDBG_MODULES {
        Some(module_id as usize)
    } else {
        None
    }
}

/// Decrement a counter, staying at zero.
pub fn saturating_fetch_sub_u32(counter: &mut u32)
    ensures
        *final(counter) == (if *old(counter) == 0 {
            0
        } else {
            (*old(counter) - 1) as u32
        }),
{
    if *counter == 0 {
        return;
    }
    *counter = *counter - 1;
}

/// Subtract `amount` from a counter, stopping at zero.
pub fn saturating_fetch_sub_n_u32(counter: &mut u32, amount: u32)
    ensures
        *final(counter) == (if *old(counter) <= amount {
            0
        } else {
            (*old(counter) - amount) as u32
        }),
{
    if amount == 0 {
        return;
    }
    if *counter == 0 {
        return;
    }
    *counter = (*counter).saturating_sub(amount);
}

impl DyndbgState {
    /// All fields but the module counters, module gates and patch
    /// statistics are those of `s0`.
    pub closed spec fn same_except_modules(&self, s0: &Self) -> bool {
        &&& self.rules == s0.rules
        &&& self.module_paths == s0.module_paths
        &&& self.module_counts@.len() == s0.module_counts@.len()
        &&& self.module_keys@.len() == s0.module_keys@.len()
        &&& self.file_index == s0.file_index
        &&& self.module_index == s0.module_index
        &&& self.function_index == s0.function_index
        &&& self.line_index == s0.line_index
        &&& self.module_segment_index == s0.module_segment_index
        &&& self.file_segment_index == s0.file_segment_index
        &&& self.hot_site_count == s0.hot_site_count
        &&& self.descriptors == s0.descriptors
        &&& self.descriptors_recomputed == s0.descriptors_recomputed
        &&& self.last_update_latency_us == s0.last_update_latency_us
        &&& self.patch_backend == s0.patch_backend
        &&& self.index_enabled == s0.index_enabled
        &&& self.recompute_enabled == s0.recompute_enabled
    }

    /// Statistics after patching `n` sites of one module (none when `n` is 0).
    pub closed spec fn patch_stats_after(&self, s0: &Self, n: int) -> bool {
        if n == 0 {
            &&& self.modules_repatched == s0.modules_repatched
            &&& self.sites_patched == s0.sites_patched
            &&& self.patch_transactions == s0.patch_transactions
        } else {
            &&& self.modules_repatched as int == (s0.modules_repatched + 1) % 0x1_0000_0000_0000_0000
            &&& self.sites_patched as int == (s0.sites_patched + n) % 0x1_0000_0000_0000_0000
            &&& self.patch_transactions as int == (s0.patch_transactions + (if s0.patch_backend
                == 0 {
                n
            } else {
                1
            })) % 0x1_0000_0000_0000_0000
        }
    }

    /// `self` differs from `s0` only in that module `m`'s key is switched to
    /// `enabled`, its sites kept; every other module key is as before.
    pub closed spec fn gate_set(&self, s0: &Self, m: int, enabled: bool) -> bool {
        &&& self.module_keys@.len() == s0.module_keys@.len()
        &&& forall|mm: int| 0 <= mm < self.module_keys@.len() && mm != m ==> #[trigger] self.module_keys@[mm] == s0.module_keys@[mm]
        &&& self.module_keys@[m] is Some
        &&& self.module_keys@[m]->Some_0.enabled == enabled
        &&& self.module_keys@[m]->Some_0.static_key_sites@ == s0.module_keys@[m]->Some_0.static_key_sites@
    }

    /// Module `m` (with a gate) moved to counter value `c`: its gate follows
    /// `c != 0`, and a gate that changes patches the module's sites.
    pub closed spec fn module_moved(
        &self,
        s0: &Self,
        k0: RegistryView,
        k1: RegistryView,
        m: int,
        c: u32,
    ) -> bool {
        &&& self.same_except_modules(s0)
        &&& self.module_counts@ == s0.module_counts@.update(m, c)
        &&& if s0.module_keys@[m] is Some && s0.module_keys@[m]->Some_0.enabled != (c != 0) {
            &&& self.gate_set(s0, m, c != 0)
            &&& k1 == patch_effect(
                k0,
                s0.module_keys@[m]->Some_0.static_key_sites@,
                c != 0,
                s0.patch_backend,
            )
            &&& self.patch_stats_after(
                s0,
                s0.module_keys@[m]->Some_0.static_key_sites@.len() as int,
            )
        } else {
            &&& self.module_keys@ == s0.module_keys@
            &&& k1 == k0
            &&& self.patch_stats_after(s0, 0)
        }
    }

    /// Patch every site of module `m` to `enabled`.
    fn patch_module_sites(&mut self, keys: &mut StaticKeyRegistry, m: usize, enabled: bool)
        requires
            (m as int) < old(self).module_keys@.len(),
            old(self).module_keys@[m as int] is Some,
            old(self).keys_cover(old(keys)@),
            m < MAX_DYNDBG_MODULES,
        ensures
            final(self).keys_cover(final(keys)@),
            final(keys)@.sites.len() == old(keys)@.sites.len(),
            final(self).same_except_modules(old(self)),
            final(self).module_counts == old(self).module_counts,
            final(self).module_keys == old(self).module_keys,
            final(keys)@ == patch_effect(
                old(keys)@,
                old(self).module_keys@[m as int]->Some_0.static_key_sites@,
                enabled,
                old(self).patch_backend,
            ),
            final(self).patch_stats_after(
                old(self),
                old(self).module_keys@[m as int]->Some_0.static_key_sites@.len() as int,
            ),
    {
        let sites: Vec<usize> = match &self.module_keys[m] {
            Some(k) => crate::index::copy_ids(&k.static_key_sites),
            None => Vec::new(),
        };
        if sites.len() == 0 {
            return;
        }
        let n_sites = sites.len();
        assert forall|i: int| 0 <= i < sites@.len() implies (sites@[i] as int) < keys@.sites.len() by {
            assert(sites@[i] == self.module_keys@[m as int]->Some_0.static_key_sites@[i]);
        }
        if self.patch_backend == 0 {
            let mut i: usize = 0;
            while i < n_sites
                invariant
                    n_sites == sites@.len(),
                    i <= n_sites,
                    forall|q: int| 0 <= q < sites@.len() ==> (sites@[q] as int) < old(keys)@.sites.len(),
                    keys@ == per_site_effect(old(keys)@, sites@.subrange(0, i as int), enabled),
                decreases n_sites - i,
            {
                proof {
                    lemma_per_site_effect(old(keys)@, sites@.subrange(0, i as int), enabled);
                    assert(sites@.subrange(0, i + 1).drop_last() =~= sites@.subrange(0, i as int));
                }
                let one = vec![sites[i]];
                assert(one@ =~= seq![sites@.subrange(0, i + 1).last()]);
                if enabled {
                    enable_static_keys(keys, one.as_slice());
                } else {
                    disable_static_keys(keys, one.as_slice());
                }
                i += 1;
            }
            assert(sites@.subrange(0, n_sites as int) =~= sites@);
            self.patch_transactions = self.patch_transactions.wrapping_add(n_sites as u64);
        } else {
            if enabled {
                enable_static_keys(keys, sites.as_slice());
            } else {
                disable_static_keys(keys, sites.as_slice());
            }
            self.patch_transactions = self.patch_transactions.wrapping_add(1);
        }
        self.modules_repatched = self.modules_repatched.wrapping_add(1);
        self.sites_patched = self.sites_patched.wrapping_add(n_sites as u64);
        proof {
            lemma_patch_effect(
                old(keys)@,
                old(self).module_keys@[m as int]->Some_0.static_key_sites@,
                enabled,
                old(self).patch_backend,
            );
        }
    }
}


/// Counter value after adding `delta` (clamped to the `u32` range),
/// stopping at zero when subtracting.
pub open spec fn count_after_delta(c: u32, delta: int) -> int {
    let amount = if delta > 0 {
        if delta > 0xffff_ffff {
            0xffff_ffff
        } else {
            delta
        }
    } else {
        if -delta > 0xffff_ffff {
            0xffff_ffff
        } else {
            -delta
        }
    };
    if delta > 0 {
        c + amount
    } else if c <= amount {
        0
    } else {
        c - amount
    }
}

impl DyndbgState {
    /// Module `m`'s key is on exactly when its counter is not zero.
    pub closed spec fn gate_agrees(&self, m: int) -> bool {
        self.module_keys@[m] is Some ==> self.module_keys@[m]->Some_0.enabled == (
        self.module_counts@[m] != 0)
    }

    /// Switch module `module_id`'s key to `enabled`; when its state changes,
    /// its sites are switched with it.  A module without a key is left alone.
    fn on_module_state_transition(&mut self, keys: &mut StaticKeyRegistry, module_id: u32, enabled: bool)
        requires
            old(self).module_keys@.len() == MAX_DYNDBG_MODULES,
            old(self).keys_cover(old(keys)@),
        ensures
            final(self).keys_cover(final(keys)@),
            final(self).same_except_modules(old(self)),
            final(self).module_counts == old(self).module_counts,
            if (module_id as int) < MAX_DYNDBG_MODULES && old(self).module_keys@[module_id as int] is Some
                && old(self).module_keys@[module_id as int]->Some_0.enabled != enabled {
                &&& final(self).gate_set(old(self), module_id as int, enabled)
                &&& final(keys)@ == patch_effect(
                    old(keys)@,
                    old(self).module_keys@[module_id as int]->Some_0.static_key_sites@,
                    enabled,
                    old(self).patch_backend,
                )
                &&& final(self).patch_stats_after(
                    old(self),
                    old(self).module_keys@[module_id as int]->Some_0.static_key_sites@.len() as int,
                )
            } else {
                &&& final(self).module_keys == old(self).module_keys
                &&& final(keys)@ == old(keys)@
                &&& final(self).patch_stats_after(old(self), 0)
            },
    {
        if module_id as usize >= MAX_DYNDBG_MODULES {
            return;
        }
        let slot = module_id as usize;
        let sites = match &self.module_keys[slot] {
            None => return,
            Some(key) => {
                if key.enabled == enabled {
                    return;
                }
                crate::index::copy_ids(&key.static_key_sites)
            },
        };
        let ghost old_keys = self.module_keys@;
        self.module_keys.set(slot, Some(ModuleKey { enabled, static_key_sites: sites }));
        assert forall|mm: int, j: int|
            0 <= mm < MAX_DYNDBG_MODULES && #[trigger] self.module_keys@[mm] is Some && 0 <= j
                < self.module_keys@[mm]->Some_0.static_key_sites@.len() implies (
            #[trigger] self.module_keys@[mm]->Some_0.static_key_sites@[j] as int) < keys@.sites.len() by {
            if mm != slot as int {
                assert(self.module_keys@[mm] == old_keys[mm]);
            }
        }
        self.patch_module_sites(keys, slot, enabled);
    }

    /// A call site of module `module_id` went from effective `old_enabled` to
    /// `new_enabled`: move the module's counter by one and follow with its gate.
    fn apply_enabled_transition(
        &mut self,
        keys: &mut StaticKeyRegistry,
        module_id: u32,
        old_enabled: bool,
        new_enabled: bool,
    )
        requires
            old(self).module_keys@.len() == MAX_DYNDBG_MODULES,
            old(self).module_counts@.len() == MAX_DYNDBG_MODULES,
            old(self).keys_cover(old(keys)@),
            (module_id as int) < MAX_DYNDBG_MODULES ==> old(self).gate_agrees(module_id as int),
            (module_id as int) < MAX_DYNDBG_MODULES && new_enabled ==> old(self).module_counts@[module_id as int]
                < 0xffff_ffff,
        ensures
            final(self).keys_cover(final(keys)@),
            if old_enabled == new_enabled || module_id == UNASSIGNED_MODULE_ID || module_id as int
                >= MAX_DYNDBG_MODULES {
                &&& *final(self) == *old(self)
                &&& final(keys)@ == old(keys)@
            } else {
                final(self).module_moved(
                    old(self),
                    old(keys)@,
                    final(keys)@,
                    module_id as int,
                    (if new_enabled {
                        old(self).module_counts@[module_id as int] + 1
                    } else if old(self).module_counts@[module_id as int] == 0 {
                        0
                    } else {
                        old(self).module_counts@[module_id as int] - 1
                    }) as u32,
                )
            },
    {
        if old_enabled == new_enabled {
            return;
        }
        let slot = match module_state(module_id) {
            None => return,
            Some(s) => s,
        };
        let was_enabled = self.module_counts[slot] != 0;
        let mut count = self.module_counts[slot];
        if new_enabled {
            count = count + 1;
        } else {
            saturating_fetch_sub_u32(&mut count);
        }
        self.module_counts.set(slot, count);
        let is_enabled = count != 0;
        if was_enabled != is_enabled {
            self.on_module_state_transition(keys, module_id, is_enabled);
        }
    }

    /// Apply the net change `delta` of effective call sites to module
    /// `module_id`'s counter and follow with its gate.
    fn apply_module_delta(&mut self, keys: &mut StaticKeyRegistry, module_id: u32, delta: i64)
        requires
            old(self).module_keys@.len() == MAX_DYNDBG_MODULES,
            old(self).module_counts@.len() == MAX_DYNDBG_MODULES,
            old(self).keys_cover(old(keys)@),
            (module_id as int) < MAX_DYNDBG_MODULES ==> old(self).gate_agrees(module_id as int),
            (module_id as int) < MAX_DYNDBG_MODULES ==> count_after_delta(
                old(self).module_counts@[module_id as int],
                delta as int,
            ) <= 0xffff_ffff,
        ensures
            final(self).keys_cover(final(keys)@),
            if delta == 0 || module_id == UNASSIGNED_MODULE_ID || module_id as int
                >= MAX_DYNDBG_MODULES {
                &&& *final(self) == *old(self)
                &&& final(keys)@ == old(keys)@
            } else {
                final(self).module_moved(
                    old(self),
                    old(keys)@,
                    final(keys)@,
                    module_id as int,
                    count_after_delta(
                        old(self).module_counts@[module_id as int],
                        delta as int,
                    ) as u32,
                )
            },
    {
        if delta == 0 {
            return;
        }
        let slot = match module_state(module_id) {
            None => return,
            Some(s) => s,
        };
        let was_enabled = self.module_counts[slot] != 0;
        let mut count = self.module_counts[slot];
        if delta > 0 {
            let delta_u64 = delta as u64;
            let amount = if delta_u64 > 0xffff_ffffu64 {
                0xffff_ffffu32
            } else {
                delta_u64 as u32
            };
            count = count + amount;
        } else {
            let amount_u64: u64 = if delta == i64::MIN {
                0x8000_0000_0000_0000u64
            } else {
                (-delta) as u64
            };
            let amount = if amount_u64 > 0xffff_ffffu64 {
                0xffff_ffffu32
            } else {
                amount_u64 as u32
            };
            saturating_fetch_sub_n_u32(&mut count, amount);
        }
        self.module_counts.set(slot, count);
        let is_enabled = count != 0;
        if was_enabled != is_enabled {
            self.on_module_state_transition(keys, module_id, is_enabled);
        }
    }
}


/// Module id given to a call site whose module path is `p`: the id of the
/// path when known, else the next id, else `UNASSIGNED_MODULE_ID` when all
/// ids are taken.
pub open spec fn assigned_module_id(paths: Seq<Seq<u8>>, p: Seq<u8>) -> u32 {
    if exists|i: int| 0 <= i < paths.len() && paths[i] == p {
        (choose|i: int| 0 <= i < paths.len() && paths[i] == p) as u32
    } else if paths.len() >= MAX_DYNDBG_MODULES {
        UNASSIGNED_MODULE_ID
    } else {
        paths.len() as u32
    }
}

/// An assigned id names the path it was assigned for.
pub proof fn lemma_assigned_module_id(paths: Seq<Seq<u8>>, p: Seq<u8>)
    requires
        paths.len() <= MAX_DYNDBG_MODULES,
    ensures
        assigned_module_id(paths, p) == UNASSIGNED_MODULE_ID || {
            let r = assigned_module_id(paths, p) as int;
            &&& r < paths_after(paths, p).len()
            &&& paths_after(paths, p)[r] == p
        },
{
    if exists|i: int| 0 <= i < paths.len() && paths[i] == p {
        let i = choose|i: int| 0 <= i < paths.len() && paths[i] == p;
        assert((i as u32) as int == i);
    }
}

/// Module paths after assigning an id to `p`.
pub open spec fn paths_after(paths: Seq<Seq<u8>>, p: Seq<u8>) -> Seq<Seq<u8>> {
    if exists|i: int| 0 <= i < paths.len() && paths[i] == p {
        paths
    } else if paths.len() >= MAX_DYNDBG_MODULES {
        paths
    } else {
        paths.push(p)
    }
}

/// `k1` differs from `k0` at most in the enabled flags of the sites listed
/// in `ids`, and in transactions queued behind the old ones.
pub open spec fn touched_only(k0: RegistryView, k1: RegistryView, ids: Seq<usize>) -> bool {
    &&& k1.sites.len() == k0.sites.len()
    &&& k1.env == k0.env
    &&& k0.pending.len() <= k1.pending.len()
    &&& k1.pending.subrange(0, k0.pending.len() as int) == k0.pending
    &&& forall|s: int|
        0 <= s < k0.sites.len() ==> #[trigger] k1.sites[s] == (if lists(ids, s) {
            crate::static_key::SiteView { enabled: k1.sites[s].enabled, ..k0.sites[s] }
        } else {
            k0.sites[s]
        })
}

pub proof fn lemma_replay_fields(rules: Seq<DyndbgRuleEntry>, d1: DescriptorView, d2: DescriptorView)
    requires
        d1.file == d2.file,
        d1.mod_path == d2.mod_path,
        d1.function == d2.function,
        d1.line == d2.line,
    ensures
        replay(rules, d1) == replay(rules, d2),
    decreases rules.len(),
{
    if rules.len() > 0 {
        lemma_replay_fields(rules.drop_last(), d1, d2);
    }
}

impl DyndbgState {
    /// An empty state: no rules, no call sites, no module ids; the batch
    /// backend, the index and incremental recomputation are on.
    pub fn new() -> (s: Self)
        ensures
            s.wf(),
            s.synced(),
            s.descs().len() == 0,
            s.rule_chain().len() == 0,
            s.paths().len() == 0,
            forall|m: int| 0 <= m < MAX_DYNDBG_MODULES ==> !s.has_module_key(m) && s.module_count(m) == 0,
            s.backend_code() == 1,
            s.index_on(),
            s.recompute_on(),
            s.stat_recomputed() == 0,
            s.stat_modules_repatched() == 0,
            s.stat_sites_patched() == 0,
            s.stat_transactions() == 0,
            s.stat_latency() == 0,
            forall|k: RegistryView| s.keys_cover(k),
            module_sites_disjoint(s),
            forall|k: RegistryView| sites_agree(k, s),
    {
        let mut module_counts: Vec<u32> = Vec::new();
        let mut module_keys: Vec<Option<ModuleKey>> = Vec::new();
        let mut i: usize = 0;
        while i < MAX_DYNDBG_MODULES
            invariant
                i <= MAX_DYNDBG_MODULES,
                module_counts@.len() == i,
                module_keys@.len() == i,
                forall|m: int| 0 <= m < i ==> #[trigger] module_counts@[m] == 0 && module_keys@[m] is None,
            decreases MAX_DYNDBG_MODULES - i,
        {
            module_counts.push(0);
            module_keys.push(None);
            i += 1;
        }
        let s = DyndbgState {
            rules: Vec::new(),
            module_paths: Vec::new(),
            module_counts,
            module_keys,
            file_index: TextIndex::new(),
            module_index: TextIndex::new(),
            function_index: TextIndex::new(),
            line_index: LineIndex::new(),
            module_segment_index: TextIndex::new(),
            file_segment_index: TextIndex::new(),
            hot_site_count: 0,
            descriptors: Vec::new(),
            descriptors_recomputed: 0,
            modules_repatched: 0,
            sites_patched: 0,
            patch_transactions: 0,
            last_update_latency_us: 0,
            patch_backend: 1,
            index_enabled: true,
            recompute_enabled: true,
        };
        assert(s.descs() =~= Seq::<DescriptorView>::empty());
        assert(s.paths() =~= Seq::<Seq<u8>>::empty());
        assert forall|m: int| 0 <= m < MAX_DYNDBG_MODULES implies #[trigger] s.module_keys@[m] is None by {
            assert(s.module_counts@[m] == 0);
        }
        s
    }

    /// Id of the module path `path`: its existing id, a fresh one,
    /// or `UNASSIGNED_MODULE_ID` once every id is taken.
    fn allocate_module_id(&mut self, path: &[u8]) -> (r: u32)
        requires
            old(self).module_paths@.len() <= MAX_DYNDBG_MODULES,
            forall|a: int, b: int|
                0 <= a < b < old(self).module_paths@.len() ==> old(self).module_paths@[a]@
                    != old(self).module_paths@[b]@,
        ensures
            forall|a: int, b: int|
                0 <= a < b < final(self).module_paths@.len() ==> final(self).module_paths@[a]@
                    != final(self).module_paths@[b]@,
            r == assigned_module_id(old(self).paths(), path@),
            final(self).paths() == paths_after(old(self).paths(), path@),
            final(self).module_paths@.len() <= MAX_DYNDBG_MODULES,
            *final(self) == (DyndbgState { module_paths: final(self).module_paths, ..*old(self) }),
            forall|i: int| 0 <= i < old(self).module_paths@.len() ==> #[trigger] final(self).module_paths@[i] == old(self).module_paths@[i],
    {
        let n = self.module_paths.len();
        let mut i: usize = 0;
        while i < n
            invariant
                n == self.module_paths@.len(),
                n <= MAX_DYNDBG_MODULES,
                self == old(self),
                forall|a: int, b: int|
                    0 <= a < b < self.module_paths@.len() ==> self.module_paths@[a]@
                        != self.module_paths@[b]@,
                i <= n,
                forall|q: int| 0 <= q < i ==> self.paths()[q] != path@,
                self.paths().len() == n,
            decreases n - i,
        {
            assert(self.paths()[i as int] == self.module_paths@[i as int]@);
            if bytes_eq(self.module_paths[i].as_slice(), path) {
                assert(forall|q: int| 0 <= q < n && self.paths()[q] == path@ ==> q == i as int) by {
                    assert forall|q: int| 0 <= q < n && self.paths()[q] == path@ implies q == i as int by {
                        if q != i as int {
                            if q < i {
                            } else {
                                assert(self.module_paths@[i as int]@ != self.module_paths@[q]@);
                            }
                        }
                    }
                }
                return i as u32;
            }
            i += 1;
        }
        if n >= MAX_DYNDBG_MODULES {
            return UNASSIGNED_MODULE_ID;
        }
        let ghost before = self.module_paths@;
        assert forall|q: int| 0 <= q < n implies before[q]@ != path@ by {
            assert(self.paths()[q] == before[q]@);
        }
        self.module_paths.push(bytes_to_vec(path));
        assert forall|a: int, b: int| 0 <= a < b < self.module_paths@.len() implies self.module_paths@[a]@
            != self.module_paths@[b]@ by {
            if b == n as int {
                assert(self.module_paths@[a] == before[a]);
            } else {
                assert(self.module_paths@[a] == before[a] && self.module_paths@[b] == before[b]);
            }
        }
        assert(self.paths() =~= old(self).paths().push(path@));
        n as u32
    }

    /// Module `module_id` has an enabled call site.
    pub fn module_enabled(&self, module_id: u32) -> (r: bool)
        requires
            self.wf(),
        ensures
            r == (module_id != UNASSIGNED_MODULE_ID && (module_id as int) < MAX_DYNDBG_MODULES
                && self.module_count(module_id as int) != 0),
    {
        match module_state(module_id) {
            Some(slot) => self.module_counts[slot] != 0,
            None => false,
        }
    }

    /// The state the rule chain gives `descriptor`: log and trace each from
    /// their last matching rule (off when none), flags replayed in chain
    /// order from zero.
    pub fn matches_descriptor(&self, descriptor: &DebugDescriptor) -> (r: (bool, bool, u8))
        ensures
            r == (replay(self.rule_chain(), descriptor@).log, replay(
                self.rule_chain(),
                descriptor@,
            ).trace, replay(self.rule_chain(), descriptor@).flags),
    {
        let mut log_enabled = DEFAULT_DEBUG_ENABLED;
        let mut trace_enabled = false;
        let mut flags: u8 = 0;
        let mut i: usize = 0;
        while i < self.rules.len()
            invariant
                i <= self.rules@.len(),
                (Verdict { log: log_enabled, trace: trace_enabled, flags }) == replay(
                    self.rules@.subrange(0, i as int),
                    descriptor@,
                ),
            decreases self.rules.len() - i,
        {
            let entry = &self.rules[i];
            assert(self.rules@.subrange(0, i + 1).drop_last() =~= self.rules@.subrange(0, i as int));
            assert(self.rules@.subrange(0, i + 1).last() == *entry);
            if entry.rule.matches_descriptor(descriptor) {
                match entry.action {
                    DyndbgRuleAction::EnableLog => log_enabled = true,
                    DyndbgRuleAction::DisableLog => log_enabled = false,
                    DyndbgRuleAction::EnableTrace => trace_enabled = true,
                    DyndbgRuleAction::DisableTrace => trace_enabled = false,
                    DyndbgRuleAction::KeepState => {},
                }
                flags = flags | entry.rule.flags_set;
                flags = flags & !entry.rule.flags_clear;
                if let Some(v) = entry.rule.flags_override {
                    flags = v;
                }
            }
            i += 1;
        }
        assert(self.rules@.subrange(0, self.rules@.len() as int) =~= self.rules@);
        (log_enabled, trace_enabled, flags)
    }
}


/// Record `id` under every `sep`-separated segment of `value`.
/// Some part among the first `n` of `ps` equals `k`.
spec fn part_upto(ps: Seq<Seq<u8>>, n: int, k: Seq<u8>) -> bool {
    exists|q: int| 0 <= q < n && #[trigger] ps[q] == k
}

fn insert_segments(index: &mut TextIndex, value: &[u8], sep: &[u8], id: usize)
    requires
        old(index).wf(),
        sep@.len() > 0,
    ensures
        final(index).wf(),
        forall|k: Seq<u8>| #[trigger] final(index).has_key(k) == (old(index).has_key(k) || split(value@, sep@).contains(k)),
        forall|k: Seq<u8>, x: int|
            #[trigger] final(index).holds(k, x) == (old(index).holds(k, x) || (x == id as int && split(
                value@,
                sep@,
            ).contains(k))),
{
    let parts = split_bytes(value, sep);
    let ghost ps = split(value@, sep@);
    let mut j: usize = 0;
    while j < parts.len()
        invariant
            crate::matching::byte_views(parts@) == ps,
            ps == split(value@, sep@),
            j <= parts@.len(),
            index.wf(),
            forall|k: Seq<u8>| #[trigger] index.has_key(k) == (old(index).has_key(k) || part_upto(ps, j as int, k)),
            forall|k: Seq<u8>, x: int|
                #[trigger] index.holds(k, x) == (old(index).holds(k, x) || (x == id as int && part_upto(ps, j as int, k))),
        decreases parts.len() - j,
    {
        assert(parts@[j as int]@ == ps[j as int]);
        index.insert(parts[j].as_slice(), id);
        assert forall|k: Seq<u8>| part_upto(ps, j + 1, k) == (part_upto(ps, j as int, k) || k == ps[j as int]) by {
            if part_upto(ps, j + 1, k) {
                let q = choose|q: int| 0 <= q < j + 1 && #[trigger] ps[q] == k;
                if q < j {
                    assert(part_upto(ps, j as int, k));
                }
            }
            if k == ps[j as int] {
                assert(part_upto(ps, j + 1, k));
            }
        }
        j += 1;
    }
    assert forall|k: Seq<u8>| part_upto(ps, ps.len() as int, k) == ps.contains(k) by {
        if ps.contains(k) {
            let q = choose|q: int| 0 <= q < ps.len() && ps[q] == k;
            assert(part_upto(ps, ps.len() as int, k));
        }
    }
}

impl DyndbgState {
    /// Record the last call site of `ds` (number `id`) in every lookup index.
    fn index_descriptor(
        &mut self,
        id: usize,
        file_b: &[u8],
        mod_b: &[u8],
        fn_b: &Option<Vec<u8>>,
        line: u32,
        Ghost(ds): Ghost<Seq<DescriptorView>>,
    )
        requires
            old(self).indexes_exact_for(ds.drop_last()),
            ds.len() == id + 1,
            file_bytes(ds.last()) == file_b@,
            module_bytes(ds.last()) == mod_b@,
            match fn_b {
                Some(f) => ds.last().function is Some && encode_utf8(ds.last().function->Some_0) == f@,
                None => ds.last().function is None,
            },
            ds.last().line == line,
        ensures
            final(self).indexes_exact_for(ds),
            *final(self) == (DyndbgState {
                file_index: final(self).file_index,
                module_index: final(self).module_index,
                function_index: final(self).function_index,
                line_index: final(self).line_index,
                module_segment_index: final(self).module_segment_index,
                file_segment_index: final(self).file_segment_index,
                ..*old(self)
            }),
    {
        let ghost ds0 = ds.drop_last();
        self.file_index.insert(file_b, id);
        self.module_index.insert(mod_b, id);
        match fn_b {
            Some(f) => self.function_index.insert(f.as_slice(), id),
            None => {},
        }
        self.line_index.insert(line, id);
        let module_sep_bytes = vec![58u8, 58u8];
        let file_sep_bytes = vec![47u8];
        assert(module_sep_bytes@ =~= module_sep());
        assert(file_sep_bytes@ =~= file_sep());
        insert_segments(&mut self.module_segment_index, mod_b, module_sep_bytes.as_slice(), id);
        insert_segments(&mut self.file_segment_index, file_b, file_sep_bytes.as_slice(), id);
        proof {
            assert forall|x: int| 0 <= x < id as int implies #[trigger] ds[x] == ds0[x] by {}
            assert forall|k: Seq<u8>, x: int| #[trigger] self.file_index.holds(k, x) == (0 <= x < ds.len() && file_bytes(ds[x]) == k) by {
                if 0 <= x < id as int { assert(ds[x] == ds0[x]); }
            }
            assert forall|k: Seq<u8>| #[trigger] self.file_index.has_key(k) == exists|x: int| 0 <= x < ds.len() && file_bytes(#[trigger] ds[x]) == k by {
                if exists|x: int| 0 <= x < ds.len() && file_bytes(#[trigger] ds[x]) == k {
                    let x = choose|x: int| 0 <= x < ds.len() && file_bytes(#[trigger] ds[x]) == k;
                    if x < id as int { assert(ds[x] == ds0[x]); }
                }
                if old(self).file_index.has_key(k) {
                    let x = choose|x: int| 0 <= x < ds0.len() && file_bytes(#[trigger] ds0[x]) == k;
                    assert(ds[x] == ds0[x]);
                }
                assert(file_bytes(ds[id as int]) == file_b@);
            }
            assert forall|k: Seq<u8>, x: int| #[trigger] self.module_index.holds(k, x) == (0 <= x < ds.len() && module_bytes(ds[x]) == k) by {
                if 0 <= x < id as int { assert(ds[x] == ds0[x]); }
            }
            assert forall|k: Seq<u8>| #[trigger] self.module_index.has_key(k) == exists|x: int| 0 <= x < ds.len() && module_bytes(#[trigger] ds[x]) == k by {
                if exists|x: int| 0 <= x < ds.len() && module_bytes(#[trigger] ds[x]) == k {
                    let x = choose|x: int| 0 <= x < ds.len() && module_bytes(#[trigger] ds[x]) == k;
                    if x < id as int { assert(ds[x] == ds0[x]); }
                }
                if old(self).module_index.has_key(k) {
                    let x = choose|x: int| 0 <= x < ds0.len() && module_bytes(#[trigger] ds0[x]) == k;
                    assert(ds[x] == ds0[x]);
                }
                assert(module_bytes(ds[id as int]) == mod_b@);
            }
            assert forall|k: Seq<u8>, x: int| #[trigger] self.function_index.holds(k, x) == (0 <= x < ds.len() && ds[x].function is Some && encode_utf8(ds[x].function->Some_0) == k) by {
                if 0 <= x < id as int { assert(ds[x] == ds0[x]); }
            }
            assert forall|k: Seq<u8>| #[trigger] self.function_index.has_key(k) == exists|x: int| 0 <= x < ds.len() && (#[trigger] ds[x]).function is Some && encode_utf8(ds[x].function->Some_0) == k by {
                if exists|x: int| 0 <= x < ds.len() && (#[trigger] ds[x]).function is Some && encode_utf8(ds[x].function->Some_0) == k {
                    let x = choose|x: int| 0 <= x < ds.len() && (#[trigger] ds[x]).function is Some && encode_utf8(ds[x].function->Some_0) == k;
                    if x < id as int { assert(ds[x] == ds0[x]); }
                }
                if old(self).function_index.has_key(k) {
                    let x = choose|x: int| 0 <= x < ds0.len() && (#[trigger] ds0[x]).function is Some && encode_utf8(ds0[x].function->Some_0) == k;
                    assert(ds[x] == ds0[x]);
                }
                assert(ds[id as int] == ds.last());
            }
            assert forall|l: u32, x: int| #[trigger] self.line_index.holds(l, x) == (0 <= x < ds.len() && ds[x].line == l) by {
                if 0 <= x < id as int { assert(ds[x] == ds0[x]); }
            }
            assert forall|k: Seq<u8>, x: int| #[trigger] self.module_segment_index.holds(k, x) == (0 <= x < ds.len() && split(module_bytes(ds[x]), module_sep()).contains(k)) by {
                if 0 <= x < id as int { assert(ds[x] == ds0[x]); }
            }
            assert forall|k: Seq<u8>| #[trigger] self.module_segment_index.has_key(k) == exists|x: int| 0 <= x < ds.len() && split(module_bytes(#[trigger] ds[x]), module_sep()).contains(k) by {
                if exists|x: int| 0 <= x < ds.len() && split(module_bytes(#[trigger] ds[x]), module_sep()).contains(k) {
                    let x = choose|x: int| 0 <= x < ds.len() && split(module_bytes(#[trigger] ds[x]), module_sep()).contains(k);
                    if x < id as int { assert(ds[x] == ds0[x]); }
                }
                if old(self).module_segment_index.has_key(k) {
                    let x = choose|x: int| 0 <= x < ds0.len() && split(module_bytes(#[trigger] ds0[x]), module_sep()).contains(k);
                    assert(ds[x] == ds0[x]);
                }
                assert(module_bytes(ds[id as int]) == mod_b@);
            }
            assert forall|k: Seq<u8>, x: int| #[trigger] self.file_segment_index.holds(k, x) == (0 <= x < ds.len() && split(file_bytes(ds[x]), file_sep()).contains(k)) by {
                if 0 <= x < id as int { assert(ds[x] == ds0[x]); }
            }
            assert forall|k: Seq<u8>| #[trigger] self.file_segment_index.has_key(k) == exists|x: int| 0 <= x < ds.len() && split(file_bytes(#[trigger] ds[x]), file_sep()).contains(k) by {
                if exists|x: int| 0 <= x < ds.len() && split(file_bytes(#[trigger] ds[x]), file_sep()).contains(k) {
                    let x = choose|x: int| 0 <= x < ds.len() && split(file_bytes(#[trigger] ds[x]), file_sep()).contains(k);
                    if x < id as int { assert(ds[x] == ds0[x]); }
                }
                if old(self).file_segment_index.has_key(k) {
                    let x = choose|x: int| 0 <= x < ds0.len() && split(file_bytes(#[trigger] ds0[x]), file_sep()).contains(k);
                    assert(ds[x] == ds0[x]);
                }
                assert(file_bytes(ds[id as int]) == file_b@);
            }
        }
    }

    /// Register a call site: record it under its file, module, function,
    /// line and path segments, give it a module id and (while they last) a
    /// hotspot index in registration order, and set its state from the rule
    /// chain.  An enabled call site counts towards its module's gate.
    #[verifier::rlimit(40)]
    pub fn register_descriptor(&mut self, keys: &mut StaticKeyRegistry, descriptor: DebugDescriptor) -> (id: usize)
        requires
            old(self).wf(),
            old(self).keys_cover(old(keys)@),
            old(self).descs().len() + 1 < 0xffff_ffff,
        ensures
            final(self).wf(),
            final(self).keys_cover(final(keys)@),
            id == old(self).descs().len(),
            final(self).descs().len() == id + 1,
            forall|i: int| 0 <= i < id ==> #[trigger] final(self).descs()[i] == old(self).descs()[i],
            final(self).rule_chain() == old(self).rule_chain(),
            final(self).paths() == paths_after(old(self).paths(), module_bytes(descriptor@)),
            final(self).descs()[id as int].file == descriptor@.file,
            final(self).descs()[id as int].mod_path == descriptor@.mod_path,
            final(self).descs()[id as int].function == descriptor@.function,
            final(self).descs()[id as int].line == descriptor@.line,
            final(self).descs()[id as int].module_id == assigned_module_id(
                old(self).paths(),
                module_bytes(descriptor@),
            ),
            final(self).descs()[id as int].hot_index == (if id < MAX_HOT_SITES {
                id as u32
            } else {
                UNASSIGNED_HOT_INDEX
            }),
            if old(self).rule_chain().len() == 0 {
                &&& !final(self).descs()[id as int].log
                &&& !final(self).descs()[id as int].trace
                &&& final(self).descs()[id as int].flags == descriptor@.flags
            } else {
                let v = replay(old(self).rule_chain(), final(self).descs()[id as int]);
                &&& final(self).descs()[id as int].log == v.log
                &&& final(self).descs()[id as int].trace == v.trace
                &&& final(self).descs()[id as int].flags == v.flags
            },
            old(self).synced() && (old(self).rule_chain().len() > 0 || descriptor@.flags == 0)
                ==> final(self).synced(),
            final(self).backend_code() == old(self).backend_code(),
            final(self).index_on() == old(self).index_on(),
            final(self).recompute_on() == old(self).recompute_on(),
            final(self).stat_recomputed() == old(self).stat_recomputed(),
            final(self).stat_latency() == old(self).stat_latency(),
            gates_follow(*old(self), *final(self)),
            final(keys)@ == gate_patches(old(keys)@, *old(self), *final(self), MAX_DYNDBG_MODULES as int),
            patch_stats_follow(*old(self), *final(self)),
    {
        let mut descriptor = descriptor;
        let id = self.descriptors.len();
        let ghost ds0 = self.descs();
        let file_b = bytes_to_vec(descriptor.file().as_bytes());
        let mod_b = bytes_to_vec(descriptor.mod_path().as_bytes());
        let fn_b: Option<Vec<u8>> = match descriptor.function_name() {
            Some(f) => Some(bytes_to_vec(f.as_bytes())),
            None => None,
        };
        let line = descriptor.line();
        let module_id = self.allocate_module_id(mod_b.as_slice());
        descriptor.init_module_id(module_id);
        if self.hot_site_count < MAX_HOT_SITES {
            descriptor.init_hot_index(self.hot_site_count as u32);
            self.hot_site_count = self.hot_site_count + 1;
        } else {
            descriptor.init_hot_index(UNASSIGNED_HOT_INDEX);
        }
        let ghost dcall = descriptor@;
        let rules_empty = self.rules.len() == 0;
        let mut effective = false;
        if rules_empty {
            descriptor.init_enabled(DEFAULT_DEBUG_ENABLED, false);
        } else {
            let (log_enabled, trace_enabled, flags) = self.matches_descriptor(&descriptor);
            descriptor.init_enabled(log_enabled, trace_enabled);
            descriptor.set_format_flags(flags);
            effective = log_enabled || trace_enabled;
        }
        let ghost d = descriptor@;
        proof {
            lemma_count_bound(ds0, module_id as int);
        }
        let ghost s1 = *self;
        if effective {
            self.apply_enabled_transition(keys, module_id, false, true);
        }
        let ghost s2 = *self;
        self.descriptors.push(descriptor);
        assert(self.descs() =~= ds0.push(d));
        proof {
            assert(self.descs().drop_last() =~= ds0);
        }
        self.index_descriptor(id, file_b.as_slice(), mod_b.as_slice(), &fn_b, line, Ghost(self.descs()));
        proof {
            let ds = self.descs();
            assert(ds =~= ds0.push(d));
            assert(ds.drop_last() =~= ds0);
            assert(ds.last() == d);
            assert(self.module_counts@ == s2.module_counts@);
            assert(s1.module_counts@ == old(self).module_counts@);
            assert forall|m: int| 0 <= m < MAX_DYNDBG_MODULES implies #[trigger] self.module_counts@[m] as int
                == count_enabled(ds, m) by {
                assert(count_enabled(ds, m) == count_enabled(ds0, m) + enabled_share(d, m));
                assert(old(self).module_counts@[m] as int == count_enabled(ds0, m));
            }
            assert(self.paths().len() == self.module_paths@.len());
            assert(old(self).paths().len() == old(self).module_paths@.len());
            assert forall|i: int| 0 <= i < ds.len() implies ({
                let m = (#[trigger] ds[i]).module_id;
                m == UNASSIGNED_MODULE_ID || ((m as int) < self.module_paths@.len()
                    && self.module_paths@[m as int]@ == module_bytes(ds[i]))
            }) by {
                if i < id as int {
                    assert(ds[i] == ds0[i]);
                    let m = ds0[i].module_id;
                    if m != UNASSIGNED_MODULE_ID {
                        assert(self.module_paths@[m as int] == old(self).module_paths@[m as int]);
                    }
                } else if module_id != UNASSIGNED_MODULE_ID {
                    lemma_assigned_module_id(old(self).paths(), mod_b@);
                    assert(self.paths()[module_id as int] == self.module_paths@[module_id as int]@);
                    assert(module_bytes(ds[i]) == mod_b@);
                }
            }
            assert forall|i: int| 0 <= i < ds.len() implies (#[trigger] ds[i]).hot_index == (if i < MAX_HOT_SITES {
                i as u32
            } else {
                UNASSIGNED_HOT_INDEX
            }) by {
                if i < id as int {
                    assert(ds[i] == ds0[i]);
                } else if id < MAX_HOT_SITES {
                    assert(old(self).hot_site_count == id);
                    assert(d.hot_index == id as u32);
                }
            }
            if old(self).rule_chain().len() > 0 {
                lemma_replay_fields(self.rule_chain(), d, dcall);
            }
            if old(self).synced() && (old(self).rule_chain().len() > 0 || descriptor@.flags == 0) {
                assert forall|i: int| 0 <= i < ds.len() implies {
                    let dd = #[trigger] ds[i];
                    let v = replay(self.rule_chain(), dd);
                    dd.log == v.log && dd.trace == v.trace && dd.flags == v.flags
                } by {
                    if i < id as int {
                        assert(ds[i] == ds0[i]);
                    }
                }
            }
            assert(s1.module_keys == old(self).module_keys);
            assert(self.module_keys == s2.module_keys);
            assert forall|i: int| 0 <= i < MAX_DYNDBG_MODULES && i != module_id as int implies !#[trigger] gate_flipped(
                *old(self),
                *self,
                i,
            ) by {
                assert(self.module_keys@[i] == old(self).module_keys@[i]);
            }
            lemma_gate_patches_single(old(keys)@, *old(self), *self, module_id as int, MAX_DYNDBG_MODULES as int);
            assert forall|mm: int| 0 <= mm < MAX_DYNDBG_MODULES implies {
                &&& #[trigger] self.has_module_key(mm) == old(self).has_module_key(mm)
                &&& self.has_module_key(mm) ==> self.module_key_sites(mm) == old(self).module_key_sites(mm)
                    && self.module_key_enabled(mm) == (count_enabled(self.descs(), mm) != 0)
            } by {
                if mm != module_id as int {
                    assert(self.module_keys@[mm] == old(self).module_keys@[mm]);
                }
                assert(self.module_counts@[mm] as int == count_enabled(ds, mm));
            }
        }
        id
    }
}

/// The static-key sites that the first `n` of `mappings` add to module `m`,
/// in order (the module of a mapping is that of its call site in `ds`).
pub open spec fn mapped_sites(ds: Seq<DescriptorView>, mappings: Seq<DyndbgKeyMapping>, m: int, n: int) -> Seq<
    usize,
>
    decreases n,
{
    if n <= 0 {
        Seq::empty()
    } else {
        let prev = mapped_sites(ds, mappings, m, n - 1);
        if ds[mappings[n - 1].descriptor as int].module_id as int == m {
            prev.push(mappings[n - 1].static_key_site)
        } else {
            prev
        }
    }
}

/// The sites module `m` of `s` gates, none when it has no gate.
pub open spec fn gated_sites(s: DyndbgState, m: int) -> Seq<usize> {
    if s.has_module_key(m) {
        s.module_key_sites(m)
    } else {
        Seq::empty()
    }
}

/// Only module `m` (if any) of `s` gates `site`.
pub open spec fn site_gated_only_by(s: DyndbgState, site: usize, m: int) -> bool {
    forall|m2: int, j: int|
        0 <= m2 < MAX_DYNDBG_MODULES && m2 != m && s.has_module_key(m2) && 0 <= j < s.module_key_sites(m2).len()
            ==> #[trigger] s.module_key_sites(m2)[j] != site
}

/// The sites a module gates after `site` joins them.
pub open spec fn sites_after_join(s: &DyndbgState, m: int, site: usize) -> Seq<usize> {
    if s.has_module_key(m) {
        s.module_key_sites(m).push(site)
    } else {
        seq![site]
    }
}

impl DyndbgState {
    /// Group the static-key site of `mapping` under the module of its call
    /// site.  The module's gate takes the module's current enabled state,
    /// and when the module is enabled its sites (the new one included) are
    /// patched on.  A call site without a module id is left out.
    pub fn register_dyndbg_key(&mut self, keys: &mut StaticKeyRegistry, mapping: DyndbgKeyMapping)
        requires
            old(self).wf(),
            old(self).keys_cover(old(keys)@),
            mapping.descriptor < old(self).descs().len(),
            mapping.static_key_site < old(keys)@.sites.len(),
        ensures
            final(self).wf(),
            final(self).keys_cover(final(keys)@),
            final(keys)@.sites.len() == old(keys)@.sites.len(),
            final(self).descs() == old(self).descs(),
            final(self).rule_chain() == old(self).rule_chain(),
            final(self).paths() == old(self).paths(),
            forall|mm: int| 0 <= mm < MAX_DYNDBG_MODULES ==> #[trigger] final(self).module_count(mm) == old(self).module_count(mm),
            ({
                let m = old(self).descs()[mapping.descriptor as int].module_id;
                if m == UNASSIGNED_MODULE_ID {
                    &&& *final(self) == *old(self)
                    &&& final(keys)@ == old(keys)@
                } else {
                    let en = old(self).module_count(m as int) != 0;
                    let sites = sites_after_join(old(self), m as int, mapping.static_key_site);
                    &&& final(self).has_module_key(m as int)
                    &&& final(self).module_key_enabled(m as int) == en
                    &&& final(self).module_key_sites(m as int) == sites
                    &&& forall|mm: int| 0 <= mm < MAX_DYNDBG_MODULES && mm != m ==> {
                        &&& #[trigger] final(self).has_module_key(mm) == old(self).has_module_key(mm)
                        &&& final(self).module_key_enabled(mm) == old(self).module_key_enabled(mm)
                        &&& final(self).module_key_sites(mm) == old(self).module_key_sites(mm)
                    }
                    &&& final(keys)@ == (if en {
                        patch_effect(old(keys)@, sites, true, old(self).backend_code())
                    } else {
                        old(keys)@
                    })
                }
            }),
            old(self).synced() ==> final(self).synced(),
            final(self).backend_code() == old(self).backend_code(),
            final(self).index_on() == old(self).index_on(),
            final(self).recompute_on() == old(self).recompute_on(),
            final(self).stat_recomputed() == old(self).stat_recomputed(),
            final(self).stat_latency() == old(self).stat_latency(),
            module_sites_disjoint(*old(self)) && site_gated_only_by(
                *old(self),
                mapping.static_key_site,
                old(self).descs()[mapping.descriptor as int].module_id as int,
            ) ==> module_sites_disjoint(*final(self)),
    {
        let module_id = self.descriptors[mapping.descriptor].module_id();
        assert(self.descs()[mapping.descriptor as int] == self.descriptors@[mapping.descriptor as int]@);
        if module_id == UNASSIGNED_MODULE_ID {
            return;
        }
        let slot = module_id as usize;
        let current_enabled = self.module_enabled(module_id);
        let mut sites: Vec<usize> = match &self.module_keys[slot] {
            Some(k) => crate::index::copy_ids(&k.static_key_sites),
            None => Vec::new(),
        };
        sites.push(mapping.static_key_site);
        let ghost before = self.module_keys@;
        let ghost s0 = *self;
        self.module_keys.set(slot, Some(ModuleKey { enabled: current_enabled, static_key_sites: sites }));
        proof {
            assert(sites@ == sites_after_join(old(self), slot as int, mapping.static_key_site));
            assert forall|mm: int, j: int|
                0 <= mm < MAX_DYNDBG_MODULES && #[trigger] self.module_keys@[mm] is Some && 0 <= j
                    < self.module_keys@[mm]->Some_0.static_key_sites@.len() implies (
                #[trigger] self.module_keys@[mm]->Some_0.static_key_sites@[j] as int) < keys@.sites.len() by {
                if mm != slot as int {
                    assert(self.module_keys@[mm] == before[mm]);
                } else if j < sites@.len() - 1 {
                    assert(sites@[j] == before[mm]->Some_0.static_key_sites@[j]);
                }
            }
            assert forall|mm: int| 0 <= mm < MAX_DYNDBG_MODULES && #[trigger] self.module_keys@[mm] is Some implies self.module_keys@[mm]->Some_0.enabled
                == (self.module_counts@[mm] != 0) by {
                if mm != slot as int {
                    assert(self.module_keys@[mm] == before[mm]);
                }
            }
        }
        let ghost s1 = *self;
        if current_enabled {
            self.patch_module_sites(keys, slot, true);
        }
        proof {
            assert(self.descs() == old(self).descs());
            assert(self.module_counts == old(self).module_counts);
            assert forall|mm: int| 0 <= mm < MAX_DYNDBG_MODULES && mm != slot as int implies #[trigger] self.module_keys@[mm] == old(self).module_keys@[mm] by {
                assert(s1.module_keys@[mm] == before[mm]);
            }
            assert forall|mm: int| 0 <= mm < MAX_DYNDBG_MODULES && #[trigger] self.module_keys@[mm] is Some implies self.module_keys@[mm]->Some_0.enabled
                == (self.module_counts@[mm] != 0) by {
                if mm != slot as int {
                    assert(self.module_keys@[mm] == before[mm]);
                }
            }
            assert(self.indexes_exact());
            if module_sites_disjoint(*old(self)) && site_gated_only_by(*old(self), mapping.static_key_site, slot as int) {
                let site = mapping.static_key_site;
                let m = slot as int;
                assert forall|m1: int, m2: int, i: int, j: int|
                    0 <= m1 < MAX_DYNDBG_MODULES && 0 <= m2 < MAX_DYNDBG_MODULES && m1 != m2 && self.has_module_key(m1)
                        && self.has_module_key(m2) && 0 <= i < self.module_key_sites(m1).len() && 0 <= j
                        < self.module_key_sites(m2).len() implies #[trigger] self.module_key_sites(m1)[i]
                    != #[trigger] self.module_key_sites(m2)[j] by {
                    let joined = sites_after_join(old(self), m, site);
                    assert(self.module_key_sites(m) == joined);
                    if m1 == m {
                        assert(self.module_keys@[m2] == old(self).module_keys@[m2]);
                        assert(self.module_key_sites(m2) == old(self).module_key_sites(m2));
                        if old(self).has_module_key(m) && i < old(self).module_key_sites(m).len() {
                            assert(joined[i] == old(self).module_key_sites(m)[i]);
                            assert(old(self).module_key_sites(m)[i] != old(self).module_key_sites(m2)[j]);
                        } else {
                            assert(joined[i] == site);
                            assert(old(self).module_key_sites(m2)[j] != site);
                        }
                    } else if m2 == m {
                        assert(self.module_keys@[m1] == old(self).module_keys@[m1]);
                        assert(self.module_key_sites(m1) == old(self).module_key_sites(m1));
                        if old(self).has_module_key(m) && j < old(self).module_key_sites(m).len() {
                            assert(joined[j] == old(self).module_key_sites(m)[j]);
                            assert(old(self).module_key_sites(m1)[i] != old(self).module_key_sites(m)[j]);
                        } else {
                            assert(joined[j] == site);
                            assert(old(self).module_key_sites(m1)[i] != site);
                        }
                    } else {
                        assert(self.module_keys@[m1] == old(self).module_keys@[m1]);
                        assert(self.module_keys@[m2] == old(self).module_keys@[m2]);
                        assert(old(self).module_key_sites(m1)[i] != old(self).module_key_sites(m2)[j]);
                    }
                }
            }
        }
    }
}

/// The file bytes of every call site, by id.
pub open spec fn file_vals(ds: Seq<DescriptorView>) -> Seq<Seq<u8>> {
    ds.map_values(|d: DescriptorView| file_bytes(d))
}

/// The module-path bytes of every call site, by id.
pub open spec fn module_vals(ds: Seq<DescriptorView>) -> Seq<Seq<u8>> {
    ds.map_values(|d: DescriptorView| module_bytes(d))
}

/// The function-name bytes of every call site, by id.
pub open spec fn function_vals(ds: Seq<DescriptorView>) -> Seq<Option<Seq<u8>>> {
    ds.map_values(|d: DescriptorView| opt_bytes(d.function))
}

/// Some entry of `entries` has no selector.
pub open spec fn has_selectorless(entries: Seq<DyndbgRuleEntry>) -> bool {
    exists|j: int| 0 <= j < entries.len() && !rule_has_selector(#[trigger] entries[j].rule)
}

/// Some entry of `entries` selects `d`.
pub open spec fn some_entry_matches(entries: Seq<DyndbgRuleEntry>, d: DescriptorView) -> bool {
    exists|j: int| 0 <= j < entries.len() && rule_matches(#[trigger] entries[j].rule, d)
}

impl DyndbgState {
    proof fn lemma_index_views(&self)
        requires
            self.indexes_exact(),
        ensures
            indexes_values(self.file_index, file_vals(self.descs())),
            indexes_values(self.module_index, module_vals(self.descs())),
            indexes_segments(self.file_segment_index, file_vals(self.descs()), file_sep()),
            indexes_segments(self.module_segment_index, module_vals(self.descs()), module_sep()),
            indexes_optional_values(self.function_index, function_vals(self.descs())),
            forall|l: u32, x: int| #[trigger] self.line_index.holds(l, x) == (0 <= x < self.descs().len() && self.descs()[x].line == l),
            self.line_index.wf(),
    {
        let ds = self.descs();
        let fv = file_vals(ds);
        let mv = module_vals(ds);
        let nv = function_vals(ds);
        assert forall|k: Seq<u8>| #[trigger] self.file_index.has_key(k) == exists|x: int| 0 <= x < fv.len() && #[trigger] fv[x] == k by {
            if exists|x: int| 0 <= x < fv.len() && #[trigger] fv[x] == k {
                let x = choose|x: int| 0 <= x < fv.len() && #[trigger] fv[x] == k;
                assert(file_bytes(ds[x]) == k);
            }
            if self.file_index.has_key(k) {
                let x = choose|x: int| 0 <= x < ds.len() && file_bytes(#[trigger] ds[x]) == k;
                assert(fv[x] == k);
            }
        }
        assert forall|k: Seq<u8>| #[trigger] self.module_index.has_key(k) == exists|x: int| 0 <= x < mv.len() && #[trigger] mv[x] == k by {
            if exists|x: int| 0 <= x < mv.len() && #[trigger] mv[x] == k {
                let x = choose|x: int| 0 <= x < mv.len() && #[trigger] mv[x] == k;
                assert(module_bytes(ds[x]) == k);
            }
            if self.module_index.has_key(k) {
                let x = choose|x: int| 0 <= x < ds.len() && module_bytes(#[trigger] ds[x]) == k;
                assert(mv[x] == k);
            }
        }
        assert forall|k: Seq<u8>| #[trigger] self.file_segment_index.has_key(k) == exists|x: int| 0 <= x < fv.len() && split(#[trigger] fv[x], file_sep()).contains(k) by {
            if exists|x: int| 0 <= x < fv.len() && split(#[trigger] fv[x], file_sep()).contains(k) {
                let x = choose|x: int| 0 <= x < fv.len() && split(#[trigger] fv[x], file_sep()).contains(k);
                assert(split(file_bytes(ds[x]), file_sep()).contains(k));
            }
            if self.file_segment_index.has_key(k) {
                let x = choose|x: int| 0 <= x < ds.len() && split(file_bytes(#[trigger] ds[x]), file_sep()).contains(k);
                assert(fv[x] == file_bytes(ds[x]));
            }
        }
        assert forall|k: Seq<u8>| #[trigger] self.module_segment_index.has_key(k) == exists|x: int| 0 <= x < mv.len() && split(#[trigger] mv[x], module_sep()).contains(k) by {
            if exists|x: int| 0 <= x < mv.len() && split(#[trigger] mv[x], module_sep()).contains(k) {
                let x = choose|x: int| 0 <= x < mv.len() && split(#[trigger] mv[x], module_sep()).contains(k);
                assert(split(module_bytes(ds[x]), module_sep()).contains(k));
            }
            if self.module_segment_index.has_key(k) {
                let x = choose|x: int| 0 <= x < ds.len() && split(module_bytes(#[trigger] ds[x]), module_sep()).contains(k);
                assert(mv[x] == module_bytes(ds[x]));
            }
        }
        assert forall|k: Seq<u8>, x: int| #[trigger] self.function_index.holds(k, x) == (0 <= x < nv.len() && nv[x] == Some(k)) by {
            if 0 <= x < nv.len() {
                assert(nv[x] == opt_bytes(ds[x].function));
            }
        }
        assert forall|k: Seq<u8>| #[trigger] self.function_index.has_key(k) == exists|x: int| 0 <= x < nv.len() && #[trigger] nv[x] == Some(k) by {
            if exists|x: int| 0 <= x < nv.len() && #[trigger] nv[x] == Some(k) {
                let x = choose|x: int| 0 <= x < nv.len() && #[trigger] nv[x] == Some(k);
                assert(nv[x] == opt_bytes(ds[x].function));
            }
            if self.function_index.has_key(k) {
                let x = choose|x: int| 0 <= x < ds.len() && (#[trigger] ds[x]).function is Some && encode_utf8(ds[x].function->Some_0) == k;
                assert(nv[x] == opt_bytes(ds[x].function));
            }
        }
    }

    /// The ids of all registered call sites.
    pub fn all_descriptors(&self) -> (r: Vec<usize>)
        ensures
            r@.len() == self.descs().len(),
            forall|i: int| 0 <= i < self.descs().len() ==> #[trigger] r@[i] == i,
            forall|x: int| has_id(r@, x) == (0 <= x < self.descs().len()),
    {
        assert(self.descs().len() == self.descriptors@.len());
        all_ids(self.descriptors.len())
    }

    /// The ids of the call sites that `rule` selects.  With the index on,
    /// each present selector is looked up in its index and the results are
    /// intersected (all call sites when the rule has no selector); with it
    /// off, every call site is tested.  Either way the result holds exactly
    /// the call sites the rule matches.
    pub fn collect_candidates_for_rule(&self, rule: &DyndbgRule) -> (r: Vec<usize>)
        requires
            self.wf(),
        ensures
            forall|x: int| #[trigger] has_id(r@, x) == (0 <= x < self.descs().len() && rule_matches(*rule, self.descs()[x])),
    {
        let ghost ds = self.descs();
        let n = self.descriptors.len();
        assert(ds.len() == n);
        if !self.index_enabled {
            let mut r: Vec<usize> = Vec::new();
            let mut i: usize = 0;
            while i < n
                invariant
                    n == self.descriptors@.len(),
                    ds == self.descs(),
                    i <= n,
                    forall|x: int| #[trigger] has_id(r@, x) == (0 <= x < i && rule_matches(*rule, ds[x])),
                decreases n - i,
            {
                assert(ds[i as int] == self.descriptors@[i as int]@);
                let ghost r0 = r@;
                if rule.matches_descriptor(&self.descriptors[i]) {
                    r.push(i);
                }
                proof {
                    assert forall|x: int| #[trigger] has_id(r@, x) == (0 <= x < i + 1 && rule_matches(*rule, ds[x])) by {
                        if has_id(r@, x) {
                            let t = choose|t: int| 0 <= t < r@.len() && r@[t] as int == x;
                            if t < r0.len() {
                                assert(r0[t] == r@[t]);
                                assert(has_id(r0, x));
                            }
                        }
                        if 0 <= x < i && rule_matches(*rule, ds[x]) {
                            assert(has_id(r0, x));
                            let t = choose|t: int| 0 <= t < r0.len() && r0[t] as int == x;
                            assert(r0[t] == r@[t]);
                        }
                        if x == i && rule_matches(*rule, ds[x]) {
                            assert(r@[r0.len() as int] as int == x);
                        }
                    }
                }
                i += 1;
            }
            return r;
        }
        proof {
            self.lemma_index_views();
        }
        let mut candidates: Option<Vec<usize>> = None;
        let file_sep_bytes = vec![47u8];
        let module_sep_bytes = vec![58u8, 58u8];
        assert(file_sep_bytes@ =~= file_sep());
        assert(module_sep_bytes@ =~= module_sep());
        match &rule.file_keyword {
            Some(k) => {
                let matched = collect_by_keyword_exact_first(
                    &self.file_index,
                    &self.file_segment_index,
                    k.as_str().as_bytes(),
                    file_sep_bytes.as_slice(),
                    n,
                    Ghost(file_vals(ds)),
                );
                intersect_candidates(&mut candidates, matched);
            },
            None => {},
        }
        assert(candidates matches Some(v) ==> forall|x: int| #[trigger] has_id(v@, x) == (0 <= x < n && file_selected(*rule, ds[x])));
        match &rule.module_keyword {
            Some(k) => {
                let matched = collect_by_keyword_exact_first(
                    &self.module_index,
                    &self.module_segment_index,
                    k.as_str().as_bytes(),
                    module_sep_bytes.as_slice(),
                    n,
                    Ghost(module_vals(ds)),
                );
                intersect_candidates(&mut candidates, matched);
            },
            None => {},
        }
        assert(candidates matches Some(v) ==> forall|x: int| #[trigger] has_id(v@, x) == (0 <= x < n && file_selected(*rule, ds[x]) && module_selected(*rule, ds[x])));
        match &rule.function_keyword {
            Some(k) => {
                let matched = collect_function_candidates(
                    &self.function_index,
                    k.as_str().as_bytes(),
                    n,
                    Ghost(function_vals(ds)),
                );
                intersect_candidates(&mut candidates, matched);
            },
            None => {},
        }
        assert(candidates matches Some(v) ==> forall|x: int| #[trigger] has_id(v@, x) == (0 <= x < n && file_selected(*rule, ds[x]) && module_selected(*rule, ds[x]) && function_selected(*rule, ds[x])));
        match rule.line {
            Some(line) => {
                let matched = self.line_index.get(line);
                intersect_candidates(&mut candidates, matched);
            },
            None => {},
        }
        assert(candidates is None ==> !rule_has_selector(*rule));
        match candidates {
            Some(v) => v,
            None => self.all_descriptors(),
        }
    }

    /// The call sites a change of the rules `entries` can affect: every call
    /// site when one of them has no selector or when narrowing is off, else
    /// the union of their matches.  The ids are distinct.
    pub fn collect_candidates_for_rule_entries(&self, entries: &[DyndbgRuleEntry]) -> (r: Vec<usize>)
        requires
            self.wf(),
        ensures
            r@.no_duplicates(),
            forall|i: int| 0 <= i < r@.len() ==> (#[trigger] r@[i] as int) < self.descs().len(),
            forall|x: int| #[trigger] has_id(r@, x) == (0 <= x < self.descs().len() && (has_selectorless(entries@)
                || !self.recompute_on() || some_entry_matches(entries@, self.descs()[x]))),
    {
        let ghost ds = self.descs();
        let n = self.descriptors.len();
        let mut k: usize = 0;
        while k < entries.len()
            invariant
                k <= entries@.len(),
                forall|j: int| 0 <= j < k ==> rule_has_selector(#[trigger] entries@[j].rule),
            decreases entries.len() - k,
        {
            if !entries[k].rule.has_any_selector() {
                let r = self.all_descriptors();
                assert(has_selectorless(entries@)) by {
                    assert(!rule_has_selector(entries@[k as int].rule));
                }
                proof { crate::index::lemma_ascending_distinct(r@); }
                return r;
            }
            k += 1;
        }
        assert(!has_selectorless(entries@));
        if !self.recompute_enabled {
            let r = self.all_descriptors();
            proof { crate::index::lemma_ascending_distinct(r@); }
            return r;
        }
        let mut union: Vec<usize> = Vec::new();
        let mut seen: Vec<bool> = Vec::new();
        let mut i: usize = 0;
        while i < n
            invariant
                i <= n,
                seen@.len() == i,
                forall|q: int| 0 <= q < i ==> !(#[trigger] seen@[q]),
            decreases n - i,
        {
            seen.push(false);
            i += 1;
        }
        let mut j: usize = 0;
        while j < entries.len()
            invariant
                self.wf(),
                ds == self.descs(),
                n == ds.len(),
                seen@.len() == n,
                j <= entries@.len(),
                union@.no_duplicates(),
                forall|t: int| 0 <= t < union@.len() ==> (#[trigger] union@[t] as int) < n,
                forall|x: int| 0 <= x < n ==> (#[trigger] seen@[x] == has_id(union@, x)),
                forall|x: int| #[trigger] has_id(union@, x) == (0 <= x < n && exists|q: int| 0 <= q < j && rule_matches(#[trigger] entries@[q].rule, ds[x])),
            decreases entries.len() - j,
        {
            let matched = self.collect_candidates_for_rule(&entries[j].rule);
            let mut t: usize = 0;
            let ghost u0 = union@;
            while t < matched.len()
                invariant
                    seen@.len() == n,
                    n == ds.len(),
                    t <= matched@.len(),
                    union@.no_duplicates(),
                    forall|q: int| 0 <= q < union@.len() ==> (#[trigger] union@[q] as int) < n,
                    forall|x: int| 0 <= x < n ==> (#[trigger] seen@[x] == has_id(union@, x)),
                    forall|x: int| #[trigger] has_id(matched@, x) == (0 <= x < n && rule_matches(entries@[j as int].rule, ds[x])),
                    forall|x: int| #[trigger] has_id(union@, x) == (has_id(u0, x) || exists|q: int| 0 <= q < t && #[trigger] matched@[q] as int == x),
                decreases matched.len() - t,
            {
                let id = matched[t];
                assert(has_id(matched@, id as int));
                let ghost before = union@;
                if !seen[id] {
                    seen.set(id, true);
                    union.push(id);
                    assert forall|a: int, b: int| 0 <= a < b < union@.len() implies union@[a] != union@[b] by {
                        if b == union@.len() - 1 {
                            if union@[a] == union@[b] {
                                assert(has_id(before, id as int));
                            }
                        }
                    }
                }
                assert forall|x: int| #[trigger] has_id(union@, x) == (has_id(u0, x) || exists|q: int| 0 <= q < t + 1 && #[trigger] matched@[q] as int == x) by {
                    if has_id(union@, x) && !has_id(before, x) {
                        assert(x == id as int);
                    }
                    if has_id(before, x) {
                        let w = choose|w: int| 0 <= w < before.len() && before[w] as int == x;
                        assert(union@[w] as int == x);
                    }
                    if x == id as int && !has_id(before, x) {
                        assert(union@[union@.len() - 1] as int == x);
                    }
                }
                assert forall|x: int| 0 <= x < n implies (#[trigger] seen@[x] == has_id(union@, x)) by {
                    if has_id(before, x) {
                        let w = choose|w: int| 0 <= w < before.len() && before[w] as int == x;
                        assert(union@[w] as int == x);
                    }
                }
                t += 1;
            }
            assert forall|x: int| #[trigger] has_id(union@, x) == (0 <= x < n && exists|q: int| 0 <= q < j + 1 && rule_matches(#[trigger] entries@[q].rule, ds[x])) by {
                if exists|q: int| 0 <= q < matched@.len() && #[trigger] matched@[q] as int == x {
                    assert(has_id(matched@, x));
                }
                if has_id(matched@, x) {
                    let q = choose|q: int| 0 <= q < matched@.len() && matched@[q] as int == x;
                    assert(matched@[q] as int == x);
                }
                if 0 <= x < n && exists|q: int| 0 <= q < j + 1 && rule_matches(#[trigger] entries@[q].rule, ds[x]) {
                    let q = choose|q: int| 0 <= q < j + 1 && rule_matches(#[trigger] entries@[q].rule, ds[x]);
                    if q == j {
                        assert(has_id(matched@, x));
                        let w = choose|w: int| 0 <= w < matched@.len() && matched@[w] as int == x;
                        assert(matched@[w] as int == x);
                    }
                }
            }
            j += 1;
        }
        union
    }
}

/// Two call-site lists describe the same sites: same length, and per id the
/// same file, module path, function, line, module id and hotspot index.
pub open spec fn same_sites(a: Seq<DescriptorView>, b: Seq<DescriptorView>) -> bool {
    &&& a.len() == b.len()
    &&& forall|x: int|
        0 <= x < a.len() ==> {
            &&& (#[trigger] b[x]).file == a[x].file
            &&& b[x].mod_path == a[x].mod_path
            &&& b[x].function == a[x].function
            &&& b[x].line == a[x].line
            &&& b[x].module_id == a[x].module_id
            &&& b[x].hot_index == a[x].hot_index
        }
}

/// `deltas[m]` is the net change of module `m`'s effective call sites from
/// `ds0` to `ds1`.
pub open spec fn deltas_track(deltas: Seq<i64>, ds0: Seq<DescriptorView>, ds1: Seq<DescriptorView>) -> bool {
    &&& deltas.len() == MAX_DYNDBG_MODULES
    &&& forall|m: int|
        0 <= m < MAX_DYNDBG_MODULES ==> #[trigger] deltas[m] as int == count_enabled(ds1, m)
            - count_enabled(ds0, m)
}

/// Number of distinct ids among the first `n` of `v`.
pub open spec fn distinct_upto(v: Seq<usize>, n: int) -> nat
    decreases n,
{
    if n <= 0 {
        0
    } else {
        distinct_upto(v, n - 1) + (if has_id_upto(v, n - 1, v[n - 1] as int) {
            0nat
        } else {
            1nat
        })
    }
}

/// Number of distinct ids in `v`.
pub open spec fn distinct_count(v: Seq<usize>) -> nat {
    distinct_upto(v, v.len() as int)
}

/// The call sites (by id) that a change of the rules `entries` can affect
/// among the call sites `ds`: all of them when a rule has no selector or
/// narrowing is off, else those some rule selects.
pub open spec fn affected_ids(entries: Seq<DyndbgRuleEntry>, ds: Seq<DescriptorView>, narrowed: bool) -> Set<usize> {
    Set::new(
        |x: usize|
            (x as int) < ds.len() && (has_selectorless(entries) || !narrowed || some_entry_matches(
                entries,
                ds[x as int],
            )),
    )
}

proof fn lemma_distinct_no_dup(v: Seq<usize>, k: int)
    requires
        v.no_duplicates(),
        0 <= k <= v.len(),
    ensures
        distinct_upto(v, k) == k,
    decreases k,
{
    if k > 0 {
        lemma_distinct_no_dup(v, k - 1);
        if has_id_upto(v, k - 1, v[k - 1] as int) {
            let j = choose|j: int| 0 <= j < k - 1 && #[trigger] v[j] as int == v[k - 1] as int;
            assert(v[j] == v[k - 1]);
        }
    }
}

/// A duplicate-free candidate list holds exactly `affected_ids`, so the
/// number of call sites it recomputes is that set's size.
proof fn lemma_candidates_count(
    v: Seq<usize>,
    entries: Seq<DyndbgRuleEntry>,
    ds: Seq<DescriptorView>,
    narrowed: bool,
)
    requires
        v.no_duplicates(),
        forall|x: int| #[trigger] has_id(v, x) == (0 <= x < ds.len() && (has_selectorless(entries) || !narrowed
            || some_entry_matches(entries, ds[x]))),
    ensures
        distinct_count(v) == affected_ids(entries, ds, narrowed).len(),
        affected_ids(entries, ds, narrowed).finite(),
{
    lemma_distinct_no_dup(v, v.len() as int);
    v.unique_seq_to_set();
    assert forall|u: usize| #[trigger] v.to_set().contains(u) == affected_ids(entries, ds, narrowed).contains(u) by {
        if v.to_set().contains(u) {
            let j = choose|j: int| 0 <= j < v.len() && v[j] == u;
            assert(has_id(v, u as int));
        }
        if affected_ids(entries, ds, narrowed).contains(u) {
            assert(has_id(v, u as int));
            let j = choose|j: int| 0 <= j < v.len() && v[j] as int == u as int;
            assert(v.contains(u));
        }
    }
    assert(v.to_set() =~= affected_ids(entries, ds, narrowed));
}

/// Call site `d` with the state the rule chain `rules` gives it.
pub open spec fn replayed(rules: Seq<DyndbgRuleEntry>, d: DescriptorView) -> DescriptorView {
    let v = replay(rules, d);
    DescriptorView { log: v.log, trace: v.trace, flags: v.flags, ..d }
}

/// Call site `d` after one more matching rule with `action` and the flag
/// operation `flags_set`/`flags_clear`/`flags_override`.
pub open spec fn stepped(
    d: DescriptorView,
    action: DyndbgRuleAction,
    flags_set: u8,
    flags_clear: u8,
    flags_override: Option<u8>,
) -> DescriptorView {
    DescriptorView {
        log: match action {
            DyndbgRuleAction::EnableLog => true,
            DyndbgRuleAction::DisableLog => false,
            _ => d.log,
        },
        trace: match action {
            DyndbgRuleAction::EnableTrace => true,
            DyndbgRuleAction::DisableTrace => false,
            _ => d.trace,
        },
        flags: match flags_override {
            Some(v) => v,
            None => (d.flags | flags_set) & !flags_clear,
        },
        ..d
    }
}

/// A vector of `n` copies of `false`.
fn falses(n: usize) -> (v: Vec<bool>)
    ensures
        v@.len() == n,
        forall|i: int| 0 <= i < n ==> !(#[trigger] v@[i]),
{
    let mut v: Vec<bool> = Vec::new();
    let mut i: usize = 0;
    while i < n
        invariant
            i <= n,
            v@.len() == i,
            forall|q: int| 0 <= q < i ==> !(#[trigger] v@[q]),
        decreases n - i,
    {
        v.push(false);
        i += 1;
    }
    v
}

/// One zero delta per module.
fn zero_deltas() -> (v: Vec<i64>)
    ensures
        v@.len() == MAX_DYNDBG_MODULES,
        forall|i: int| 0 <= i < MAX_DYNDBG_MODULES ==> #[trigger] v@[i] == 0,
{
    let mut v: Vec<i64> = Vec::new();
    let mut i: usize = 0;
    while i < MAX_DYNDBG_MODULES
        invariant
            i <= MAX_DYNDBG_MODULES,
            v@.len() == i,
            forall|q: int| 0 <= q < i ==> #[trigger] v@[q] == 0,
        decreases MAX_DYNDBG_MODULES - i,
    {
        v.push(0);
        i += 1;
    }
    v
}

impl DyndbgState {
    /// The invariant survives a change of the call sites' log, trace and
    /// flag state.
    proof fn lemma_wf_same_sites(s0: &Self, s1: &Self, counted: Seq<DescriptorView>)
        requires
            s0.wf_counting(counted),
            same_sites(s0.descs(), s1.descs()),
            *s1 == (DyndbgState {
                descriptors: s1.descriptors,
                descriptors_recomputed: s1.descriptors_recomputed,
                ..*s0
            }),
        ensures
            s1.wf_counting(counted),
    {
        let a = s0.descs();
        let b = s1.descs();
        assert forall|i: int| 0 <= i < b.len() implies ({
            let m = (#[trigger] b[i]).module_id;
            m == UNASSIGNED_MODULE_ID || ((m as int) < s1.module_paths@.len()
                && s1.module_paths@[m as int]@ == module_bytes(b[i]))
        }) by {
            assert(b[i].module_id == a[i].module_id);
            assert(module_bytes(b[i]) == module_bytes(a[i]));
        }
        assert forall|i: int| 0 <= i < b.len() implies (#[trigger] b[i]).hot_index == (if i < MAX_HOT_SITES {
            i as u32
        } else {
            UNASSIGNED_HOT_INDEX
        }) by {
            assert(b[i].hot_index == a[i].hot_index);
        }
        assert forall|k: Seq<u8>, x: int| #[trigger] s1.file_index.holds(k, x) == (0 <= x < b.len() && file_bytes(b[x]) == k) by {
            if 0 <= x < b.len() { assert(b[x].file == a[x].file); }
        }
        assert forall|k: Seq<u8>| #[trigger] s1.file_index.has_key(k) == exists|x: int| 0 <= x < b.len() && file_bytes(#[trigger] b[x]) == k by {
            if exists|x: int| 0 <= x < b.len() && file_bytes(#[trigger] b[x]) == k {
                let x = choose|x: int| 0 <= x < b.len() && file_bytes(#[trigger] b[x]) == k;
                assert(b[x].file == a[x].file);
            }
            if s0.file_index.has_key(k) {
                let x = choose|x: int| 0 <= x < a.len() && file_bytes(#[trigger] a[x]) == k;
                assert(b[x].file == a[x].file);
            }
        }
        assert forall|k: Seq<u8>, x: int| #[trigger] s1.module_index.holds(k, x) == (0 <= x < b.len() && module_bytes(b[x]) == k) by {
            if 0 <= x < b.len() { assert(b[x].mod_path == a[x].mod_path); }
        }
        assert forall|k: Seq<u8>| #[trigger] s1.module_index.has_key(k) == exists|x: int| 0 <= x < b.len() && module_bytes(#[trigger] b[x]) == k by {
            if exists|x: int| 0 <= x < b.len() && module_bytes(#[trigger] b[x]) == k {
                let x = choose|x: int| 0 <= x < b.len() && module_bytes(#[trigger] b[x]) == k;
                assert(b[x].mod_path == a[x].mod_path);
            }
            if s0.module_index.has_key(k) {
                let x = choose|x: int| 0 <= x < a.len() && module_bytes(#[trigger] a[x]) == k;
                assert(b[x].mod_path == a[x].mod_path);
            }
        }
        assert forall|k: Seq<u8>, x: int| #[trigger] s1.function_index.holds(k, x) == (0 <= x < b.len() && b[x].function is Some && encode_utf8(b[x].function->Some_0) == k) by {
            if 0 <= x < b.len() { assert(b[x].function == a[x].function); }
        }
        assert forall|k: Seq<u8>| #[trigger] s1.function_index.has_key(k) == exists|x: int| 0 <= x < b.len() && (#[trigger] b[x]).function is Some && encode_utf8(b[x].function->Some_0) == k by {
            if exists|x: int| 0 <= x < b.len() && (#[trigger] b[x]).function is Some && encode_utf8(b[x].function->Some_0) == k {
                let x = choose|x: int| 0 <= x < b.len() && (#[trigger] b[x]).function is Some && encode_utf8(b[x].function->Some_0) == k;
                assert(b[x].function == a[x].function);
            }
            if s0.function_index.has_key(k) {
                let x = choose|x: int| 0 <= x < a.len() && (#[trigger] a[x]).function is Some && encode_utf8(a[x].function->Some_0) == k;
                assert(b[x].function == a[x].function);
            }
        }
        assert forall|l: u32, x: int| #[trigger] s1.line_index.holds(l, x) == (0 <= x < b.len() && b[x].line == l) by {
            if 0 <= x < b.len() { assert(b[x].line == a[x].line); }
        }
        assert forall|k: Seq<u8>, x: int| #[trigger] s1.module_segment_index.holds(k, x) == (0 <= x < b.len() && split(module_bytes(b[x]), module_sep()).contains(k)) by {
            if 0 <= x < b.len() { assert(b[x].mod_path == a[x].mod_path); }
        }
        assert forall|k: Seq<u8>| #[trigger] s1.module_segment_index.has_key(k) == exists|x: int| 0 <= x < b.len() && split(module_bytes(#[trigger] b[x]), module_sep()).contains(k) by {
            if exists|x: int| 0 <= x < b.len() && split(module_bytes(#[trigger] b[x]), module_sep()).contains(k) {
                let x = choose|x: int| 0 <= x < b.len() && split(module_bytes(#[trigger] b[x]), module_sep()).contains(k);
                assert(b[x].mod_path == a[x].mod_path);
            }
            if s0.module_segment_index.has_key(k) {
                let x = choose|x: int| 0 <= x < a.len() && split(module_bytes(#[trigger] a[x]), module_sep()).contains(k);
                assert(b[x].mod_path == a[x].mod_path);
            }
        }
        assert forall|k: Seq<u8>, x: int| #[trigger] s1.file_segment_index.holds(k, x) == (0 <= x < b.len() && split(file_bytes(b[x]), file_sep()).contains(k)) by {
            if 0 <= x < b.len() { assert(b[x].file == a[x].file); }
        }
        assert forall|k: Seq<u8>| #[trigger] s1.file_segment_index.has_key(k) == exists|x: int| 0 <= x < b.len() && split(file_bytes(#[trigger] b[x]), file_sep()).contains(k) by {
            if exists|x: int| 0 <= x < b.len() && split(file_bytes(#[trigger] b[x]), file_sep()).contains(k) {
                let x = choose|x: int| 0 <= x < b.len() && split(file_bytes(#[trigger] b[x]), file_sep()).contains(k);
                assert(b[x].file == a[x].file);
            }
            if s0.file_segment_index.has_key(k) {
                let x = choose|x: int| 0 <= x < a.len() && split(file_bytes(#[trigger] a[x]), file_sep()).contains(k);
                assert(b[x].file == a[x].file);
            }
        }
    }

    /// Set call site `id` to `log`, `trace` and `flags`, recording in
    /// `deltas` the change of its module's effective count.
    fn update_descriptor(
        &mut self,
        deltas: &mut Vec<i64>,
        id: usize,
        log: bool,
        trace: bool,
        flags: u8,
        Ghost(ds0): Ghost<Seq<DescriptorView>>,
    )
        requires
            id < old(self).descs().len(),
            deltas_track(old(deltas)@, ds0, old(self).descs()),
            ds0.len() == old(self).descs().len(),
            ds0.len() < 0xffff_ffff,
        ensures
            final(self).descs() == old(self).descs().update(
                id as int,
                DescriptorView { log, trace, flags, ..old(self).descs()[id as int] },
            ),
            *final(self) == (DyndbgState { descriptors: final(self).descriptors, ..*old(self) }),
            deltas_track(final(deltas)@, ds0, final(self).descs()),
    {
        let ghost ds = self.descs();
        let ghost d1 = DescriptorView { log, trace, flags, ..ds[id as int] };
        assert(ds[id as int] == self.descriptors@[id as int]@);
        self.descriptors[id].set_format_flags(flags);
        let (old_eff, new_eff) = self.descriptors[id].update_enabled(log, trace);
        let module_id = self.descriptors[id].module_id();
        assert(self.descs() =~= ds.update(id as int, d1));
        proof {
            assert forall|m: int| 0 <= m < MAX_DYNDBG_MODULES implies count_enabled(ds.update(id as int, d1), m)
                == count_enabled(ds, m) - enabled_share(ds[id as int], m) + enabled_share(d1, m) by {
                lemma_count_update(ds, id as int, d1, m);
            }
        }
        if old_eff != new_eff {
            match module_state(module_id) {
                Some(slot) => {
                    proof {
                        lemma_count_bound(ds.update(id as int, d1), slot as int);
                        lemma_count_bound(ds0, slot as int);
                    }
                    let cur = deltas[slot];
                    let next = if new_eff { cur + 1 } else { cur - 1 };
                    deltas.set(slot, next);
                },
                None => {},
            }
        }
    }

    /// Apply every module's net change in `deltas` to its counter, module by
    /// module in id order, moving the gates that change.
    fn apply_module_deltas(
        &mut self,
        keys: &mut StaticKeyRegistry,
        deltas: &Vec<i64>,
        Ghost(ds0): Ghost<Seq<DescriptorView>>,
    )
        requires
            old(self).wf_counting(ds0),
            deltas_track(deltas@, ds0, old(self).descs()),
            old(self).keys_cover(old(keys)@),
            ds0.len() == old(self).descs().len(),
        ensures
            final(self).wf(),
            final(self).keys_cover(final(keys)@),
            final(self).same_except_modules(old(self)),
            gates_follow(*old(self), *final(self)),
            final(keys)@ == gate_patches(old(keys)@, *old(self), *final(self), MAX_DYNDBG_MODULES as int),
            patch_stats_follow(*old(self), *final(self)),
    {
        let ghost ds1 = self.descs();
        let mut m: usize = 0;
        while m < MAX_DYNDBG_MODULES
            invariant
                m <= MAX_DYNDBG_MODULES,
                keys@ == gate_patches(old(keys)@, *old(self), *self, m as int),
                patch_stats_upto(*old(self), *self, m as int),
                forall|mm: int| m <= mm < MAX_DYNDBG_MODULES ==> #[trigger] self.module_keys@[mm] == old(self).module_keys@[mm],
                forall|mm: int|
                    0 <= mm < m ==> (#[trigger] self.module_keys@[mm] is Some) == (old(self).module_keys@[mm] is Some)
                        && (self.module_keys@[mm] is Some ==> self.module_keys@[mm]->Some_0.static_key_sites@
                        == old(self).module_keys@[mm]->Some_0.static_key_sites@),
                deltas_track(deltas@, ds0, ds1),
                ds1 == old(self).descs(),
                ds0.len() == ds1.len(),
                ds1.len() < 0xffff_ffff,
                self.same_except_modules(old(self)),
                self.module_counts@.len() == MAX_DYNDBG_MODULES,
                self.module_keys@.len() == MAX_DYNDBG_MODULES,
                forall|mm: int| 0 <= mm < m ==> #[trigger] self.module_counts@[mm] as int == count_enabled(ds1, mm),
                forall|mm: int| m <= mm < MAX_DYNDBG_MODULES ==> #[trigger] self.module_counts@[mm] as int == count_enabled(ds0, mm),
                forall|mm: int|
                    0 <= mm < MAX_DYNDBG_MODULES && #[trigger] self.module_keys@[mm] is Some ==> self.module_keys@[mm]->Some_0.enabled
                        == (self.module_counts@[mm] != 0),
                self.keys_cover(keys@),
            decreases MAX_DYNDBG_MODULES - m,
        {
            proof {
                lemma_count_bound(ds0, m as int);
                lemma_count_bound(ds1, m as int);
            }
            let ghost s0 = *self;
            let ghost k0 = keys@;
            self.apply_module_delta(keys, m as u32, deltas[m]);
            proof {
                assert forall|mm: int| 0 <= mm < MAX_DYNDBG_MODULES && mm != m implies #[trigger] self.module_keys@[mm] == s0.module_keys@[mm] by {
                    if s0.module_keys@[m as int] is Some && s0.module_keys@[m as int]->Some_0.enabled != (self.module_counts@[m as int] != 0) {
                    }
                }
                lemma_gate_patches_congruent(old(keys)@, *old(self), *old(self), s0, *self, m as int);
                assert(s0.module_keys@[m as int] == old(self).module_keys@[m as int]);
                let c = gate_patch_counts(*old(self), s0, m as int);
                lemma_mod_step(old(self).modules_repatched as int, c.0, 1);
                lemma_mod_step(old(self).sites_patched as int, c.1, old(self).module_key_sites(m as int).len() as int);
                lemma_mod_step(old(self).patch_transactions as int, c.2, old(self).module_key_sites(m as int).len() as int);
                lemma_mod_step(old(self).patch_transactions as int, c.2, 1);
                if gate_flipped(*old(self), *self, m as int) {
                    assert(self.module_keys@[m as int] != s0.module_keys@[m as int]);
                } else {
                    if s0.module_keys@[m as int] is Some && s0.module_keys@[m as int]->Some_0.enabled != (self.module_counts@[m as int] != 0) {
                        assert(false);
                    }
                }
                assert forall|mm: int| 0 <= mm < MAX_DYNDBG_MODULES && mm != m implies #[trigger] self.module_counts@[mm] == s0.module_counts@[mm] by {}
                assert forall|mm: int|
                    0 <= mm < MAX_DYNDBG_MODULES && #[trigger] self.module_keys@[mm] is Some implies self.module_keys@[mm]->Some_0.enabled
                        == (self.module_counts@[mm] != 0) by {
                    if mm != m as int && s0.module_keys@[m as int] is Some && s0.module_keys@[m as int]->Some_0.enabled != (self.module_counts@[m as int] != 0) {
                        assert(self.module_keys@[mm] == s0.module_keys@[mm]);
                    }
                }
            }
            m += 1;
        }
        assert(self.descs() == ds1);
        assert forall|mm: int| 0 <= mm < MAX_DYNDBG_MODULES implies {
            &&& #[trigger] self.has_module_key(mm) == old(self).has_module_key(mm)
            &&& self.has_module_key(mm) ==> self.module_key_sites(mm) == old(self).module_key_sites(mm)
                && self.module_key_enabled(mm) == (count_enabled(self.descs(), mm) != 0)
        } by {
            assert(self.module_counts@[mm] as int == count_enabled(ds1, mm));
        }
    }

    /// Replay the rule chain on the call sites `affected` (each distinct id
    /// once), then apply each module's net change to its counter and gate.
    /// Each distinct id counts as one recomputed call site.
    pub fn refresh_registered_descriptors(&mut self, keys: &mut StaticKeyRegistry, affected: Vec<usize>)
        requires
            old(self).wf(),
            old(self).keys_cover(old(keys)@),
            forall|i: int| 0 <= i < affected@.len() ==> (#[trigger] affected@[i] as int) < old(self).descs().len(),
        ensures
            final(self).wf(),
            final(self).keys_cover(final(keys)@),
            final(self).descs().len() == old(self).descs().len(),
            forall|x: int| 0 <= x < old(self).descs().len() ==> #[trigger] final(self).descs()[x] == (if has_id(affected@, x) {
                replayed(old(self).rule_chain(), old(self).descs()[x])
            } else {
                old(self).descs()[x]
            }),
            final(self).rule_chain() == old(self).rule_chain(),
            final(self).paths() == old(self).paths(),
            final(self).backend_code() == old(self).backend_code(),
            final(self).index_on() == old(self).index_on(),
            final(self).recompute_on() == old(self).recompute_on(),
            final(self).stat_latency() == old(self).stat_latency(),
            final(self).stat_recomputed() as int == (old(self).stat_recomputed() + distinct_count(affected@)) % 0x1_0000_0000_0000_0000,
            gates_follow(*old(self), *final(self)),
            final(keys)@ == gate_patches(old(keys)@, *old(self), *final(self), MAX_DYNDBG_MODULES as int),
            patch_stats_follow(*old(self), *final(self)),
    {
        let ghost ds0 = self.descs();
        let n = self.descriptors.len();
        let mut seen = falses(n);
        let mut deltas = zero_deltas();
        let mut i: usize = 0;
        while i < affected.len()
            invariant
                n == ds0.len(),
                ds0 == old(self).descs(),
                ds0.len() < 0xffff_ffff,
                old(self).wf(),
                i <= affected@.len(),
                forall|q: int| 0 <= q < affected@.len() ==> (#[trigger] affected@[q] as int) < n,
                *self == (DyndbgState {
                    descriptors: self.descriptors,
                    descriptors_recomputed: self.descriptors_recomputed,
                    ..*old(self)
                }),
                self.descs().len() == n,
                forall|x: int| 0 <= x < n ==> #[trigger] self.descs()[x] == (if has_id_upto(affected@, i as int, x) {
                    replayed(old(self).rule_chain(), ds0[x])
                } else {
                    ds0[x]
                }),
                seen@.len() == n,
                forall|x: int| 0 <= x < n ==> #[trigger] seen@[x] == has_id_upto(affected@, i as int, x),
                deltas_track(deltas@, ds0, self.descs()),
                self.descriptors_recomputed as int == (old(self).descriptors_recomputed + distinct_upto(affected@, i as int)) % 0x1_0000_0000_0000_0000,
            decreases affected.len() - i,
        {
            let id = affected[i];
            let ghost ds = self.descs();
            if !seen[id] {
                seen.set(id, true);
                self.descriptors_recomputed = self.descriptors_recomputed.wrapping_add(1);
                assert(ds[id as int] == ds0[id as int]);
                assert(ds[id as int] == self.descriptors@[id as int]@);
                let (log, trace, flags) = self.matches_descriptor(&self.descriptors[id]);
                self.update_descriptor(&mut deltas, id, log, trace, flags, Ghost(ds0));
            }
            proof {
                assert forall|x: int| has_id_upto(affected@, i + 1, x) == (has_id_upto(affected@, i as int, x) || x == id as int) by {
                    if has_id_upto(affected@, i + 1, x) {
                        let j = choose|j: int| 0 <= j < i + 1 && affected@[j] as int == x;
                        if j < i {
                            assert(has_id_upto(affected@, i as int, x));
                        }
                    }
                    if has_id_upto(affected@, i as int, x) {
                        let j = choose|j: int| 0 <= j < i && affected@[j] as int == x;
                        assert(0 <= j < i + 1 && affected@[j] as int == x);
                    }
                    if x == id as int {
                        assert(0 <= i < i + 1 && affected@[i as int] as int == x);
                    }
                }
                assert forall|x: int| 0 <= x < n implies #[trigger] self.descs()[x] == (if has_id_upto(affected@, i + 1, x) {
                    replayed(old(self).rule_chain(), ds0[x])
                } else {
                    ds0[x]
                }) by {
                    if x != id as int {
                        assert(self.descs()[x] == ds[x]);
                    }
                }
                assert(distinct_upto(affected@, i + 1) == distinct_upto(affected@, i as int) + (if has_id_upto(affected@, i as int, affected@[i as int] as int) { 0nat } else { 1nat }));
            }
            i += 1;
        }
        proof {
            assert forall|x: int| has_id_upto(affected@, affected@.len() as int, x) == has_id(affected@, x) by {}
            assert(same_sites(ds0, self.descs()));
            Self::lemma_wf_same_sites(old(self), self, ds0);
        }
        let ghost mid = *self;
        self.apply_module_deltas(keys, &deltas, Ghost(ds0));
        proof {
            lemma_gate_patches_congruent(old(keys)@, mid, *old(self), *self, *self, MAX_DYNDBG_MODULES as int);
            assert(mid.stat_modules_repatched() == old(self).stat_modules_repatched()
                && mid.stat_sites_patched() == old(self).stat_sites_patched()
                && mid.stat_transactions() == old(self).stat_transactions());
            assert forall|mm: int| 0 <= mm < MAX_DYNDBG_MODULES implies #[trigger] mid.has_module_key(mm)
                == old(self).has_module_key(mm) && mid.module_key_sites(mm) == old(self).module_key_sites(mm) by {}
        }
    }
}

/// A rule that selects nothing of `d` leaves the replay on `d` alone when
/// it is taken out of the chain.
pub proof fn lemma_replay_remove(chain: Seq<DyndbgRuleEntry>, i: int, d: DescriptorView)
    requires
        0 <= i < chain.len(),
        !rule_matches(chain[i].rule, d),
    ensures
        replay(chain.remove(i), d) == replay(chain, d),
    decreases chain.len(),
{
    if i == chain.len() - 1 {
        assert(chain.remove(i) =~= chain.drop_last());
    } else {
        lemma_replay_remove(chain.drop_last(), i, d);
        assert(chain.remove(i).drop_last() =~= chain.drop_last().remove(i));
        assert(chain.remove(i).last() == chain.last());
    }
}

/// A chain none of whose rules selects `d` gives `d` the initial state.
pub proof fn lemma_replay_unmatched(chain: Seq<DyndbgRuleEntry>, d: DescriptorView)
    requires
        forall|j: int| 0 <= j < chain.len() ==> !rule_matches(#[trigger] chain[j].rule, d),
    ensures
        replay(chain, d) == initial_verdict(),
    decreases chain.len(),
{
    if chain.len() > 0 {
        lemma_replay_unmatched(chain.drop_last(), d);
    }
}

/// Copy of a rule chain.
fn clone_entries(v: &Vec<DyndbgRuleEntry>) -> (r: Vec<DyndbgRuleEntry>)
    ensures
        r@ == v@,
{
    let mut r: Vec<DyndbgRuleEntry> = Vec::new();
    let mut i: usize = 0;
    while i < v.len()
        invariant
            i <= v@.len(),
            r@ == v@.subrange(0, i as int),
        decreases v.len() - i,
    {
        r.push(v[i].clone());
        i += 1;
    }
    assert(v@.subrange(0, v@.len() as int) =~= v@);
    r
}

impl DyndbgState {
    /// Apply one appended rule to the call sites `affected` (each distinct
    /// id once): its action sets its own switch and keeps the other, and its
    /// flag operation is applied to the current flags.  With narrowing off
    /// the candidates are every call site, so they are first tested against
    /// `rule`.  Each distinct id counts as one recomputed call site, tested
    /// or not.
    pub fn refresh_registered_descriptors_incremental(
        &mut self,
        keys: &mut StaticKeyRegistry,
        affected: Vec<usize>,
        rule: &DyndbgRule,
        action: DyndbgRuleAction,
        flags_set: u8,
        flags_clear: u8,
        flags_override: Option<u8>,
    )
        requires
            old(self).wf(),
            old(self).keys_cover(old(keys)@),
            forall|i: int| 0 <= i < affected@.len() ==> (#[trigger] affected@[i] as int) < old(self).descs().len(),
        ensures
            final(self).wf(),
            final(self).keys_cover(final(keys)@),
            final(self).descs().len() == old(self).descs().len(),
            forall|x: int| 0 <= x < old(self).descs().len() ==> #[trigger] final(self).descs()[x] == (if has_id(affected@, x)
                && (old(self).recompute_on() || rule_matches(*rule, old(self).descs()[x])) {
                stepped(old(self).descs()[x], action, flags_set, flags_clear, flags_override)
            } else {
                old(self).descs()[x]
            }),
            final(self).rule_chain() == old(self).rule_chain(),
            final(self).paths() == old(self).paths(),
            final(self).backend_code() == old(self).backend_code(),
            final(self).index_on() == old(self).index_on(),
            final(self).recompute_on() == old(self).recompute_on(),
            final(self).stat_latency() == old(self).stat_latency(),
            final(self).stat_recomputed() as int == (old(self).stat_recomputed() + distinct_count(affected@)) % 0x1_0000_0000_0000_0000,
            gates_follow(*old(self), *final(self)),
            final(keys)@ == gate_patches(old(keys)@, *old(self), *final(self), MAX_DYNDBG_MODULES as int),
            patch_stats_follow(*old(self), *final(self)),
    {
        let ghost ds0 = self.descs();
        let need_filter = !self.recompute_enabled;
        let n = self.descriptors.len();
        let mut seen = falses(n);
        let mut deltas = zero_deltas();
        let mut i: usize = 0;
        while i < affected.len()
            invariant
                n == ds0.len(),
                ds0 == old(self).descs(),
                ds0.len() < 0xffff_ffff,
                old(self).wf(),
                need_filter == !old(self).recompute_enabled,
                i <= affected@.len(),
                forall|q: int| 0 <= q < affected@.len() ==> (#[trigger] affected@[q] as int) < n,
                *self == (DyndbgState {
                    descriptors: self.descriptors,
                    descriptors_recomputed: self.descriptors_recomputed,
                    ..*old(self)
                }),
                self.descs().len() == n,
                forall|x: int| 0 <= x < n ==> #[trigger] self.descs()[x] == (if has_id_upto(affected@, i as int, x)
                    && (!need_filter || rule_matches(*rule, ds0[x])) {
                    stepped(ds0[x], action, flags_set, flags_clear, flags_override)
                } else {
                    ds0[x]
                }),
                seen@.len() == n,
                forall|x: int| 0 <= x < n ==> #[trigger] seen@[x] == has_id_upto(affected@, i as int, x),
                deltas_track(deltas@, ds0, self.descs()),
                self.descriptors_recomputed as int == (old(self).descriptors_recomputed + distinct_upto(affected@, i as int)) % 0x1_0000_0000_0000_0000,
            decreases affected.len() - i,
        {
            let id = affected[i];
            let ghost ds = self.descs();
            if !seen[id] {
                seen.set(id, true);
                self.descriptors_recomputed = self.descriptors_recomputed.wrapping_add(1);
                assert(ds[id as int] == ds0[id as int]);
                assert(ds[id as int] == self.descriptors@[id as int]@);
                if !need_filter || rule.matches_descriptor(&self.descriptors[id]) {
                    let cur_log = self.descriptors[id].should_log_fast();
                    let cur_trace = self.descriptors[id].should_trace_fast();
                    let (log_enabled, trace_enabled) = match action {
                        DyndbgRuleAction::EnableLog => (true, cur_trace),
                        DyndbgRuleAction::DisableLog => (false, cur_trace),
                        DyndbgRuleAction::EnableTrace => (cur_log, true),
                        DyndbgRuleAction::DisableTrace => (cur_log, false),
                        DyndbgRuleAction::KeepState => (cur_log, cur_trace),
                    };
                    let new_flags = match flags_override {
                        Some(v) => v,
                        None => (self.descriptors[id].format_flags() | flags_set) & !flags_clear,
                    };
                    self.update_descriptor(&mut deltas, id, log_enabled, trace_enabled, new_flags, Ghost(ds0));
                }
            }
            proof {
                assert forall|x: int| has_id_upto(affected@, i + 1, x) == (has_id_upto(affected@, i as int, x) || x == id as int) by {
                    if has_id_upto(affected@, i + 1, x) {
                        let j = choose|j: int| 0 <= j < i + 1 && affected@[j] as int == x;
                        if j < i {
                            assert(has_id_upto(affected@, i as int, x));
                        }
                    }
                    if has_id_upto(affected@, i as int, x) {
                        let j = choose|j: int| 0 <= j < i && affected@[j] as int == x;
                        assert(0 <= j < i + 1 && affected@[j] as int == x);
                    }
                    if x == id as int {
                        assert(0 <= i < i + 1 && affected@[i as int] as int == x);
                    }
                }
                assert forall|x: int| 0 <= x < n implies #[trigger] self.descs()[x] == (if has_id_upto(affected@, i + 1, x)
                    && (!need_filter || rule_matches(*rule, ds0[x])) {
                    stepped(ds0[x], action, flags_set, flags_clear, flags_override)
                } else {
                    ds0[x]
                }) by {
                    if x != id as int {
                        assert(self.descs()[x] == ds[x]);
                    }
                }
                assert(distinct_upto(affected@, i + 1) == distinct_upto(affected@, i as int) + (if has_id_upto(affected@, i as int, affected@[i as int] as int) { 0nat } else { 1nat }));
            }
            i += 1;
        }
        proof {
            assert forall|x: int| has_id_upto(affected@, affected@.len() as int, x) == has_id(affected@, x) by {}
            assert(same_sites(ds0, self.descs()));
            Self::lemma_wf_same_sites(old(self), self, ds0);
        }
        let ghost mid = *self;
        self.apply_module_deltas(keys, &deltas, Ghost(ds0));
        proof {
            lemma_gate_patches_congruent(old(keys)@, mid, *old(self), *self, *self, MAX_DYNDBG_MODULES as int);
            assert(mid.stat_modules_repatched() == old(self).stat_modules_repatched()
                && mid.stat_sites_patched() == old(self).stat_sites_patched()
                && mid.stat_transactions() == old(self).stat_transactions());
            assert forall|mm: int| 0 <= mm < MAX_DYNDBG_MODULES implies #[trigger] mid.has_module_key(mm)
                == old(self).has_module_key(mm) && mid.module_key_sites(mm) == old(self).module_key_sites(mm) by {}
        }
    }

    /// Append a rule to the chain and bring the call sites it selects up to
    /// date: its action sets its own switch, its flag operation applies to
    /// the current flags, and every other call site is left alone.  This is
    /// the state a replay of the longer chain gives.
    pub fn append_dyndbg_rule(
        &mut self,
        keys: &mut StaticKeyRegistry,
        snapshot: DyndbgRuleSnapshot,
        action: DyndbgRuleActionSnapshot,
    )
        requires
            old(self).wf(),
            old(self).keys_cover(old(keys)@),
        ensures
            final(self).wf(),
            final(self).keys_cover(final(keys)@),
            final(self).rule_chain() == old(self).rule_chain().push(
                entry_of_snapshot(DyndbgRuleEntrySnapshot { rule: snapshot, action }),
            ),
            final(self).descs().len() == old(self).descs().len(),
            forall|x: int| 0 <= x < old(self).descs().len() ==> #[trigger] final(self).descs()[x] == ({
                let e = entry_of_snapshot(DyndbgRuleEntrySnapshot { rule: snapshot, action });
                if rule_matches(e.rule, old(self).descs()[x]) {
                    stepped(old(self).descs()[x], e.action, e.rule.flags_set, e.rule.flags_clear, e.rule.flags_override)
                } else {
                    old(self).descs()[x]
                }
            }),
            same_sites(old(self).descs(), final(self).descs()),
            old(self).synced() ==> final(self).synced(),
            final(self).paths() == old(self).paths(),
            final(self).backend_code() == old(self).backend_code(),
            final(self).index_on() == old(self).index_on(),
            final(self).recompute_on() == old(self).recompute_on(),
            final(self).stat_latency() == old(self).stat_latency(),
            final(self).stat_recomputed() as int == (old(self).stat_recomputed() + affected_ids(
                seq![entry_of_snapshot(DyndbgRuleEntrySnapshot { rule: snapshot, action })],
                old(self).descs(),
                old(self).recompute_on(),
            ).len()) % 0x1_0000_0000_0000_0000,
            gates_follow(*old(self), *final(self)),
            final(keys)@ == gate_patches(old(keys)@, *old(self), *final(self), MAX_DYNDBG_MODULES as int),
            patch_stats_follow(*old(self), *final(self)),
    {
        let ghost ds0 = self.descs();
        let ghost chain0 = self.rules@;
        let new_entry = DyndbgRuleEntry::from(DyndbgRuleEntrySnapshot { rule: snapshot, action });
        let ghost e = new_entry;
        let one = vec![new_entry.clone()];
        let affected = self.collect_candidates_for_rule_entries(one.as_slice());
        proof {
            assert(one@ =~= seq![e]);
            lemma_candidates_count(affected@, one@, ds0, self.recompute_on());
        }
        let new_action = new_entry.action;
        let flags_set = new_entry.rule.flags_set;
        let flags_clear = new_entry.rule.flags_clear;
        let flags_override = new_entry.rule.flags_override;
        let new_rule = new_entry.rule.clone();
        self.rules.push(new_entry);
        proof {
            assert(one@ =~= seq![e]);
            assert forall|x: int| 0 <= x < ds0.len() implies (has_id(affected@, x) && (self.recompute_on()
                || rule_matches(e.rule, ds0[x]))) == rule_matches(e.rule, ds0[x]) by {
                if has_selectorless(one@) {
                    let j = choose|j: int| 0 <= j < one@.len() && !rule_has_selector(#[trigger] one@[j].rule);
                    assert(j == 0);
                }
                if some_entry_matches(one@, ds0[x]) {
                    let j = choose|j: int| 0 <= j < one@.len() && rule_matches(#[trigger] one@[j].rule, ds0[x]);
                    assert(j == 0);
                }
                if rule_matches(e.rule, ds0[x]) {
                    assert(rule_matches(one@[0].rule, ds0[x]));
                }
            }
            assert(self.wf());
        }
        let ghost mid2 = *self;
        self.refresh_registered_descriptors_incremental(
            keys,
            affected,
            &new_rule,
            new_action,
            flags_set,
            flags_clear,
            flags_override,
        );
        proof {
            lemma_gate_patches_congruent(old(keys)@, mid2, *old(self), *self, *self, MAX_DYNDBG_MODULES as int);
            assert(mid2.stat_modules_repatched() == old(self).stat_modules_repatched()
                && mid2.stat_sites_patched() == old(self).stat_sites_patched()
                && mid2.stat_transactions() == old(self).stat_transactions());
            assert forall|mm: int| 0 <= mm < MAX_DYNDBG_MODULES implies #[trigger] mid2.has_module_key(mm)
                == old(self).has_module_key(mm) && mid2.module_key_sites(mm) == old(self).module_key_sites(mm) by {}
        }
        proof {
            let ds = self.descs();
            let chain = self.rule_chain();
            assert(chain.drop_last() =~= chain0);
            assert(chain.last() == e);
            if old(self).synced() {
                assert forall|x: int| 0 <= x < ds.len() implies {
                    let dd = #[trigger] ds[x];
                    let v = replay(chain, dd);
                    dd.log == v.log && dd.trace == v.trace && dd.flags == v.flags
                } by {
                    lemma_replay_fields(chain, ds[x], ds0[x]);
                    assert(ds0[x] == old(self).descs()[x]);
                }
            }
        }
    }

    /// Take rule `rule_id` out of the chain (`false`, nothing changed, when
    /// there is no such rule) and replay the chain on the call sites the
    /// removed rule could affect.
    pub fn remove_dyndbg_rule_by_id(&mut self, keys: &mut StaticKeyRegistry, rule_id: usize) -> (r: bool)
        requires
            old(self).wf(),
            old(self).keys_cover(old(keys)@),
        ensures
            r == (rule_id < old(self).rule_chain().len()),
            final(self).wf(),
            final(self).keys_cover(final(keys)@),
            !r ==> *final(self) == *old(self) && final(keys)@ == old(keys)@,
            r ==> final(self).rule_chain() == old(self).rule_chain().remove(rule_id as int),
            final(self).descs().len() == old(self).descs().len(),
            r ==> forall|x: int| 0 <= x < old(self).descs().len() ==> #[trigger] final(self).descs()[x] == (if !rule_has_selector(old(self).rule_chain()[rule_id as int].rule)
                || !old(self).recompute_on() || rule_matches(old(self).rule_chain()[rule_id as int].rule, old(self).descs()[x]) {
                replayed(final(self).rule_chain(), old(self).descs()[x])
            } else {
                old(self).descs()[x]
            }),
            same_sites(old(self).descs(), final(self).descs()),
            old(self).synced() ==> final(self).synced(),
            final(self).paths() == old(self).paths(),
            final(self).backend_code() == old(self).backend_code(),
            final(self).index_on() == old(self).index_on(),
            final(self).recompute_on() == old(self).recompute_on(),
            final(self).stat_latency() == old(self).stat_latency(),
            r ==> final(self).stat_recomputed() as int == (old(self).stat_recomputed() + affected_ids(
                seq![old(self).rule_chain()[rule_id as int]],
                old(self).descs(),
                old(self).recompute_on(),
            ).len()) % 0x1_0000_0000_0000_0000,
            r ==> gates_follow(*old(self), *final(self)),
            r ==> final(keys)@ == gate_patches(old(keys)@, *old(self), *final(self), MAX_DYNDBG_MODULES as int),
            r ==> patch_stats_follow(*old(self), *final(self)),
    {
        if rule_id >= self.rules.len() {
            return false;
        }
        let ghost ds0 = self.descs();
        let ghost chain0 = self.rules@;
        let removed = self.rules.remove(rule_id);
        let ghost e = removed;
        let one = vec![removed];
        assert(one@ =~= seq![e]);
        let affected = self.collect_candidates_for_rule_entries(one.as_slice());
        proof {
            lemma_candidates_count(affected@, one@, ds0, self.recompute_on());
            assert forall|x: int| 0 <= x < ds0.len() implies has_id(affected@, x) == (!rule_has_selector(e.rule)
                || !self.recompute_on() || rule_matches(e.rule, ds0[x])) by {
                if has_selectorless(one@) {
                    let j = choose|j: int| 0 <= j < one@.len() && !rule_has_selector(#[trigger] one@[j].rule);
                    assert(j == 0);
                }
                if !rule_has_selector(e.rule) {
                    assert(!rule_has_selector(one@[0].rule));
                }
                if some_entry_matches(one@, ds0[x]) {
                    let j = choose|j: int| 0 <= j < one@.len() && rule_matches(#[trigger] one@[j].rule, ds0[x]);
                    assert(j == 0);
                }
                if rule_matches(e.rule, ds0[x]) {
                    assert(rule_matches(one@[0].rule, ds0[x]));
                }
            }
        }
        let ghost mid2 = *self;
        self.refresh_registered_descriptors(keys, affected);
        proof {
            lemma_gate_patches_congruent(old(keys)@, mid2, *old(self), *self, *self, MAX_DYNDBG_MODULES as int);
            assert(mid2.stat_modules_repatched() == old(self).stat_modules_repatched()
                && mid2.stat_sites_patched() == old(self).stat_sites_patched()
                && mid2.stat_transactions() == old(self).stat_transactions());
            assert forall|mm: int| 0 <= mm < MAX_DYNDBG_MODULES implies #[trigger] mid2.has_module_key(mm)
                == old(self).has_module_key(mm) && mid2.module_key_sites(mm) == old(self).module_key_sites(mm) by {}
        }
        proof {
            let ds = self.descs();
            let chain = self.rule_chain();
            if old(self).synced() {
                assert forall|x: int| 0 <= x < ds.len() implies {
                    let dd = #[trigger] ds[x];
                    let v = replay(chain, dd);
                    dd.log == v.log && dd.trace == v.trace && dd.flags == v.flags
                } by {
                    assert(ds0[x] == old(self).descs()[x]);
                    lemma_replay_fields(chain, ds[x], ds0[x]);
                    if !(!rule_has_selector(e.rule) || !self.recompute_on() || rule_matches(e.rule, ds0[x])) {
                        lemma_replay_remove(chain0, rule_id as int, ds0[x]);
                    }
                }
            }
        }
        true
    }

    /// Empty the rule chain and replay it (now empty) on every call site the
    /// old rules could affect, which turns them off.
    pub fn clear_dyndbg_rules(&mut self, keys: &mut StaticKeyRegistry)
        requires
            old(self).wf(),
            old(self).keys_cover(old(keys)@),
        ensures
            final(self).wf(),
            final(self).keys_cover(final(keys)@),
            final(self).rule_chain().len() == 0,
            final(self).descs().len() == old(self).descs().len(),
            forall|x: int| 0 <= x < old(self).descs().len() ==> #[trigger] final(self).descs()[x] == (if has_selectorless(old(self).rule_chain())
                || !old(self).recompute_on() || some_entry_matches(old(self).rule_chain(), old(self).descs()[x]) {
                replayed(final(self).rule_chain(), old(self).descs()[x])
            } else {
                old(self).descs()[x]
            }),
            same_sites(old(self).descs(), final(self).descs()),
            old(self).synced() ==> final(self).synced(),
            final(self).paths() == old(self).paths(),
            final(self).backend_code() == old(self).backend_code(),
            final(self).index_on() == old(self).index_on(),
            final(self).recompute_on() == old(self).recompute_on(),
            final(self).stat_latency() == old(self).stat_latency(),
            final(self).stat_recomputed() as int == (old(self).stat_recomputed() + affected_ids(
                old(self).rule_chain(),
                old(self).descs(),
                old(self).recompute_on(),
            ).len()) % 0x1_0000_0000_0000_0000,
            gates_follow(*old(self), *final(self)),
            final(keys)@ == gate_patches(old(keys)@, *old(self), *final(self), MAX_DYNDBG_MODULES as int),
            patch_stats_follow(*old(self), *final(self)),
    {
        let ghost ds0 = self.descs();
        let old_rules = clone_entries(&self.rules);
        self.rules = Vec::new();
        let affected = self.collect_candidates_for_rule_entries(old_rules.as_slice());
        proof {
            lemma_candidates_count(affected@, old_rules@, ds0, self.recompute_on());
        }
        let ghost mid2 = *self;
        self.refresh_registered_descriptors(keys, affected);
        proof {
            lemma_gate_patches_congruent(old(keys)@, mid2, *old(self), *self, *self, MAX_DYNDBG_MODULES as int);
            assert(mid2.stat_modules_repatched() == old(self).stat_modules_repatched()
                && mid2.stat_sites_patched() == old(self).stat_sites_patched()
                && mid2.stat_transactions() == old(self).stat_transactions());
            assert forall|mm: int| 0 <= mm < MAX_DYNDBG_MODULES implies #[trigger] mid2.has_module_key(mm)
                == old(self).has_module_key(mm) && mid2.module_key_sites(mm) == old(self).module_key_sites(mm) by {}
        }
        proof {
            let ds = self.descs();
            let chain = self.rule_chain();
            assert(chain =~= Seq::<DyndbgRuleEntry>::empty());
            if old(self).synced() {
                assert forall|x: int| 0 <= x < ds.len() implies {
                    let dd = #[trigger] ds[x];
                    let v = replay(chain, dd);
                    dd.log == v.log && dd.trace == v.trace && dd.flags == v.flags
                } by {
                    assert(ds0[x] == old(self).descs()[x]);
                    if !(has_selectorless(old_rules@) || !self.recompute_on() || some_entry_matches(old_rules@, ds0[x])) {
                        assert forall|j: int| 0 <= j < old_rules@.len() implies !rule_matches(#[trigger] old_rules@[j].rule, ds0[x]) by {}
                        lemma_replay_unmatched(old_rules@, ds0[x]);
                    }
                }
            }
        }
    }

    /// Same as `clear_dyndbg_rules`.
    pub fn clear_dyndbg_rule(&mut self, keys: &mut StaticKeyRegistry)
        requires
            old(self).wf(),
            old(self).keys_cover(old(keys)@),
        ensures
            final(self).wf(),
            final(self).keys_cover(final(keys)@),
            final(self).rule_chain().len() == 0,
            final(self).descs().len() == old(self).descs().len(),
            forall|x: int| 0 <= x < old(self).descs().len() ==> #[trigger] final(self).descs()[x] == (if has_selectorless(old(self).rule_chain())
                || !old(self).recompute_on() || some_entry_matches(old(self).rule_chain(), old(self).descs()[x]) {
                replayed(final(self).rule_chain(), old(self).descs()[x])
            } else {
                old(self).descs()[x]
            }),
            same_sites(old(self).descs(), final(self).descs()),
            old(self).synced() ==> final(self).synced(),
            final(self).paths() == old(self).paths(),
            final(self).backend_code() == old(self).backend_code(),
            final(self).index_on() == old(self).index_on(),
            final(self).recompute_on() == old(self).recompute_on(),
            final(self).stat_latency() == old(self).stat_latency(),
            final(self).stat_recomputed() as int == (old(self).stat_recomputed() + affected_ids(
                old(self).rule_chain(),
                old(self).descs(),
                old(self).recompute_on(),
            ).len()) % 0x1_0000_0000_0000_0000,
            gates_follow(*old(self), *final(self)),
            final(keys)@ == gate_patches(old(keys)@, *old(self), *final(self), MAX_DYNDBG_MODULES as int),
            patch_stats_follow(*old(self), *final(self)),
    {
        self.clear_dyndbg_rules(keys);
    }
}

impl DyndbgState {
    /// Number of registered call sites.
    pub fn descriptor_count(&self) -> (r: usize)
        ensures
            r == self.descs().len(),
    {
        self.descriptors.len()
    }

    /// Registered call site `id`.
    pub fn descriptor(&self, id: usize) -> (r: &DebugDescriptor)
        requires
            id < self.descs().len(),
        ensures
            r@ == self.descs()[id as int],
    {
        &self.descriptors[id]
    }

    /// Register every call site of `descriptors`, in order.
    pub fn pre_register_dyndbg_descriptors(&mut self, keys: &mut StaticKeyRegistry, descriptors: Vec<DebugDescriptor>)
        requires
            old(self).wf(),
            old(self).keys_cover(old(keys)@),
            old(self).descs().len() + descriptors@.len() + 1 < 0xffff_ffff,
        ensures
            final(self).wf(),
            final(self).keys_cover(final(keys)@),
            final(self).descs().len() == old(self).descs().len() + descriptors@.len(),
            forall|i: int| 0 <= i < old(self).descs().len() ==> #[trigger] final(self).descs()[i] == old(self).descs()[i],
            forall|j: int| 0 <= j < descriptors@.len() ==> {
                let d = #[trigger] final(self).descs()[old(self).descs().len() + j];
                &&& d.file == descriptors@[j]@.file
                &&& d.mod_path == descriptors@[j]@.mod_path
                &&& d.function == descriptors@[j]@.function
                &&& d.line == descriptors@[j]@.line
            },
            final(self).rule_chain() == old(self).rule_chain(),
            old(self).synced() && (old(self).rule_chain().len() > 0 || forall|j: int| 0 <= j < descriptors@.len() ==> (#[trigger] descriptors@[j])@.flags == 0)
                ==> final(self).synced(),
            final(self).backend_code() == old(self).backend_code(),
            final(self).index_on() == old(self).index_on(),
            final(self).recompute_on() == old(self).recompute_on(),
            gates_follow(*old(self), *final(self)),
            module_sites_disjoint(*old(self)) && sites_agree(old(keys)@, *old(self)) ==> sites_agree(
                final(keys)@,
                *final(self),
            ),
    {
        let n0 = self.descriptors.len();
        let ghost ds_start = self.descs();
        let ghost all = descriptors@;
        let mut rest = descriptors;
        let mut j: usize = 0;
        let total = rest.len();
        while j < total
            invariant
                total == all.len(),
                j <= total,
                rest@ == all.subrange(j as int, total as int),
                self.wf(),
                self.keys_cover(keys@),
                self.descs().len() == n0 + j,
                n0 == ds_start.len(),
                n0 + total + 1 < 0xffff_ffff,
                forall|i: int| 0 <= i < n0 ==> #[trigger] self.descs()[i] == ds_start[i],
                forall|q: int| 0 <= q < j ==> {
                    let d = #[trigger] self.descs()[n0 + q];
                    &&& d.file == all[q]@.file
                    &&& d.mod_path == all[q]@.mod_path
                    &&& d.function == all[q]@.function
                    &&& d.line == all[q]@.line
                },
                self.rule_chain() == old(self).rule_chain(),
                old(self).synced() && (old(self).rule_chain().len() > 0 || forall|q: int| 0 <= q < all.len() ==> (#[trigger] all[q])@.flags == 0)
                    ==> self.synced(),
                self.backend_code() == old(self).backend_code(),
                self.index_on() == old(self).index_on(),
                self.recompute_on() == old(self).recompute_on(),
                gates_follow(*old(self), *self),
                module_sites_disjoint(*old(self)) && sites_agree(old(keys)@, *old(self)) ==> sites_agree(keys@, *self),
            decreases total - j,
        {
            let d = rest.remove(0);
            assert(d == all[j as int]);
            assert(rest@ =~= all.subrange(j + 1, total as int));
            let ghost before = self.descs();
            let ghost prev = *self;
            let ghost kprev = keys@;
            self.register_descriptor(keys, d);
            proof {
                if module_sites_disjoint(*old(self)) && sites_agree(old(keys)@, *old(self)) {
                    lemma_disjoint_follows(*old(self), prev);
                    law_sites_follow_gates(kprev, prev, *self);
                }
                assert forall|m: int| 0 <= m < MAX_DYNDBG_MODULES implies {
                    &&& #[trigger] self.has_module_key(m) == old(self).has_module_key(m)
                    &&& self.has_module_key(m) ==> self.module_key_sites(m) == old(self).module_key_sites(m)
                        && self.module_key_enabled(m) == (count_enabled(self.descs(), m) != 0)
                } by {
                    assert(prev.has_module_key(m) == old(self).has_module_key(m));
                    assert(self.has_module_key(m) == prev.has_module_key(m));
                }
                assert forall|q: int| 0 <= q < j + 1 implies {
                    let dd = #[trigger] self.descs()[n0 + q];
                    &&& dd.file == all[q]@.file
                    &&& dd.mod_path == all[q]@.mod_path
                    &&& dd.function == all[q]@.function
                    &&& dd.line == all[q]@.line
                } by {
                    if q < j {
                        assert(self.descs()[n0 + q] == before[n0 + q]);
                    }
                }
                assert forall|i: int| 0 <= i < n0 implies #[trigger] self.descs()[i] == ds_start[i] by {
                    assert(self.descs()[i] == before[i]);
                }
            }
            j += 1;
        }
    }

    /// Register every static-key mapping of `mappings`, in order.
    pub fn pre_register_dyndbg_keys(&mut self, keys: &mut StaticKeyRegistry, mappings: &[DyndbgKeyMapping])
        requires
            old(self).wf(),
            old(self).keys_cover(old(keys)@),
            forall|j: int| 0 <= j < mappings@.len() ==> (#[trigger] mappings@[j]).descriptor < old(self).descs().len()
                && mappings@[j].static_key_site < old(keys)@.sites.len(),
        ensures
            final(self).wf(),
            final(self).keys_cover(final(keys)@),
            final(self).descs() == old(self).descs(),
            final(self).rule_chain() == old(self).rule_chain(),
            final(self).paths() == old(self).paths(),
            forall|mm: int| 0 <= mm < MAX_DYNDBG_MODULES ==> #[trigger] final(self).module_count(mm) == old(self).module_count(mm),
            old(self).synced() ==> final(self).synced(),
            final(self).backend_code() == old(self).backend_code(),
            final(self).index_on() == old(self).index_on(),
            final(self).recompute_on() == old(self).recompute_on(),
            forall|m: int|
                0 <= m < MAX_DYNDBG_MODULES ==> {
                    &&& #[trigger] final(self).has_module_key(m) == (old(self).has_module_key(m) || mapped_sites(
                        old(self).descs(),
                        mappings@,
                        m,
                        mappings@.len() as int,
                    ).len() > 0)
                    &&& gated_sites(*final(self), m) == gated_sites(*old(self), m) + mapped_sites(
                        old(self).descs(),
                        mappings@,
                        m,
                        mappings@.len() as int,
                    )
                },
    {
        let mut j: usize = 0;
        while j < mappings.len()
            invariant
                j <= mappings@.len(),
                self.wf(),
                self.keys_cover(keys@),
                keys@.sites.len() == old(keys)@.sites.len(),
                forall|q: int| 0 <= q < mappings@.len() ==> (#[trigger] mappings@[q]).descriptor < old(self).descs().len()
                    && mappings@[q].static_key_site < old(keys)@.sites.len(),
                self.descs() == old(self).descs(),
                self.rule_chain() == old(self).rule_chain(),
                self.paths() == old(self).paths(),
                forall|mm: int| 0 <= mm < MAX_DYNDBG_MODULES ==> #[trigger] self.module_count(mm) == old(self).module_count(mm),
                old(self).synced() ==> self.synced(),
                self.backend_code() == old(self).backend_code(),
                self.index_on() == old(self).index_on(),
                self.recompute_on() == old(self).recompute_on(),
                forall|mm: int|
                    0 <= mm < MAX_DYNDBG_MODULES ==> {
                        &&& #[trigger] self.has_module_key(mm) == (old(self).has_module_key(mm) || mapped_sites(
                            old(self).descs(),
                            mappings@,
                            mm,
                            j as int,
                        ).len() > 0)
                        &&& gated_sites(*self, mm) == gated_sites(*old(self), mm) + mapped_sites(
                            old(self).descs(),
                            mappings@,
                            mm,
                            j as int,
                        )
                    },
            decreases mappings.len() - j,
        {
            let m = mappings[j];
            let ghost prev = *self;
            self.register_dyndbg_key(keys, m);
            proof {
                let ds = old(self).descs();
                let mj = ds[m.descriptor as int].module_id;
                assert forall|mm: int| 0 <= mm < MAX_DYNDBG_MODULES implies {
                    &&& #[trigger] self.has_module_key(mm) == (old(self).has_module_key(mm) || mapped_sites(
                        ds,
                        mappings@,
                        mm,
                        j + 1,
                    ).len() > 0)
                    &&& gated_sites(*self, mm) == gated_sites(*old(self), mm) + mapped_sites(ds, mappings@, mm, j + 1)
                } by {
                    assert(mappings@[j as int] == m);
                    let before = mapped_sites(ds, mappings@, mm, j as int);
                    if mj as int == mm {
                        assert(mapped_sites(ds, mappings@, mm, j + 1) == before.push(m.static_key_site));
                        assert(gated_sites(*self, mm) =~= gated_sites(*old(self), mm) + before.push(m.static_key_site));
                    } else {
                        assert(mapped_sites(ds, mappings@, mm, j + 1) == before);
                    }
                }
            }
            j += 1;
        }
    }

    /// A call site logs when its module is enabled and its log switch is on.
    pub fn dyndbg_should_log(&self, id: usize) -> (r: bool)
        requires
            self.wf(),
            id < self.descs().len(),
        ensures
            r == (self.module_on(self.descs()[id as int].module_id) && self.descs()[id as int].log),
    {
        if !self.module_enabled(self.descriptors[id].module_id()) {
            return false;
        }
        self.descriptors[id].should_log_fast()
    }

    /// A call site traces when its module is enabled and its trace switch is on.
    pub fn dyndbg_should_trace(&self, id: usize) -> (r: bool)
        requires
            self.wf(),
            id < self.descs().len(),
        ensures
            r == (self.module_on(self.descs()[id as int].module_id) && self.descs()[id as int].trace),
    {
        if !self.module_enabled(self.descriptors[id].module_id()) {
            return false;
        }
        self.descriptors[id].should_trace_fast()
    }

    /// Whether the module of call site `id` is enabled.
    pub fn dyndbg_module_enabled(&self, id: usize) -> (r: bool)
        requires
            self.wf(),
            id < self.descs().len(),
        ensures
            r == self.module_on(self.descs()[id as int].module_id),
    {
        self.module_enabled(self.descriptors[id].module_id())
    }

    /// Module `m` has an id and at least one effective call site.
    pub open spec fn module_on(&self, m: u32) -> bool {
        m != UNASSIGNED_MODULE_ID && (m as int) < MAX_DYNDBG_MODULES && self.module_count(m as int) != 0
    }

    /// The call sites, rules, module tables and indexes are those of `s0`;
    /// the settings and statistics may differ.
    pub closed spec fn same_core(&self, s0: &Self) -> bool {
        *self == (DyndbgState {
            patch_backend: self.patch_backend,
            index_enabled: self.index_enabled,
            recompute_enabled: self.recompute_enabled,
            descriptors_recomputed: self.descriptors_recomputed,
            modules_repatched: self.modules_repatched,
            sites_patched: self.sites_patched,
            patch_transactions: self.patch_transactions,
            last_update_latency_us: self.last_update_latency_us,
            ..*s0
        })
    }

    /// Having the same core is reflexive and transitive.
    pub proof fn lemma_same_core_trans(&self, s1: &Self, s0: &Self)
        ensures
            self.same_core(self),
            self.same_core(s1) && s1.same_core(s0) ==> self.same_core(s0),
    {
    }

    /// States with the same core agree on everything the invariant and the
    /// abstract views speak of.
    pub proof fn lemma_same_core(&self, s0: &Self, k: RegistryView)
        requires
            self.same_core(s0),
        ensures
            self.wf() == s0.wf(),
            self.synced() == s0.synced(),
            self.keys_cover(k) == s0.keys_cover(k),
            self.descs() == s0.descs(),
            self.rule_chain() == s0.rule_chain(),
            self.paths() == s0.paths(),
            forall|m: int| #[trigger] self.module_count(m) == s0.module_count(m),
            forall|m: int| #[trigger] self.has_module_key(m) == s0.has_module_key(m),
            forall|m: int| #[trigger] self.module_key_enabled(m) == s0.module_key_enabled(m),
            forall|m: int| #[trigger] self.module_key_sites(m) == s0.module_key_sites(m),
    {
    }

    /// Choose how module sites are patched.
    pub fn set_dyndbg_patch_backend(&mut self, backend: DyndbgPatchBackend)
        ensures
            final(self).backend_code() == backend.to_u8_spec(),
            final(self).same_core(old(self)),
            final(self).index_on() == old(self).index_on(),
            final(self).recompute_on() == old(self).recompute_on(),
            final(self).stat_recomputed() == old(self).stat_recomputed(),
            final(self).stat_modules_repatched() == old(self).stat_modules_repatched(),
            final(self).stat_sites_patched() == old(self).stat_sites_patched(),
            final(self).stat_transactions() == old(self).stat_transactions(),
            final(self).stat_latency() == old(self).stat_latency(),
    {
        self.patch_backend = backend.to_u8();
    }

    /// The current patch backend.
    pub fn get_dyndbg_patch_backend(&self) -> (r: DyndbgPatchBackend)
        ensures
            r == (if self.backend_code() == 0 {
                DyndbgPatchBackend::PerSite
            } else {
                DyndbgPatchBackend::Batch
            }),
    {
        DyndbgPatchBackend::from_u8(self.patch_backend)
    }

    /// Turn index lookups of candidates on or off.
    pub fn set_dyndbg_index_enabled(&mut self, enabled: bool)
        ensures
            final(self).index_on() == enabled,
            final(self).same_core(old(self)),
            final(self).backend_code() == old(self).backend_code(),
            final(self).recompute_on() == old(self).recompute_on(),
            final(self).stat_recomputed() == old(self).stat_recomputed(),
            final(self).stat_modules_repatched() == old(self).stat_modules_repatched(),
            final(self).stat_sites_patched() == old(self).stat_sites_patched(),
            final(self).stat_transactions() == old(self).stat_transactions(),
            final(self).stat_latency() == old(self).stat_latency(),
    {
        self.index_enabled = enabled;
    }

    /// Whether index lookups of candidates are on.
    pub fn get_dyndbg_index_enabled(&self) -> (r: bool)
        ensures
            r == self.index_on(),
    {
        self.index_enabled
    }

    /// Turn candidate narrowing (incremental recomputation) on or off.
    pub fn set_dyndbg_recompute_enabled(&mut self, enabled: bool)
        ensures
            final(self).recompute_on() == enabled,
            final(self).same_core(old(self)),
            final(self).backend_code() == old(self).backend_code(),
            final(self).index_on() == old(self).index_on(),
            final(self).stat_recomputed() == old(self).stat_recomputed(),
            final(self).stat_modules_repatched() == old(self).stat_modules_repatched(),
            final(self).stat_sites_patched() == old(self).stat_sites_patched(),
            final(self).stat_transactions() == old(self).stat_transactions(),
            final(self).stat_latency() == old(self).stat_latency(),
    {
        self.recompute_enabled = enabled;
    }

    /// Whether candidate narrowing is on.
    pub fn get_dyndbg_recompute_enabled(&self) -> (r: bool)
        ensures
            r == self.recompute_on(),
    {
        self.recompute_enabled
    }

    /// Snapshot of the last rule of the chain; the empty rule when there is
    /// none.
    pub fn get_dyndbg_rule_snapshot(&self) -> (r: DyndbgRuleSnapshot)
        ensures
            r == (if self.rule_chain().len() == 0 {
                DyndbgRuleSnapshot {
                    file_keyword: None,
                    module_keyword: None,
                    function_keyword: None,
                    line: None,
                    flags_set: 0,
                    flags_clear: 0,
                    flags_override: None,
                }
            } else {
                snapshot_of_rule(self.rule_chain().last().rule)
            }),
    {
        let n = self.rules.len();
        if n == 0 {
            DyndbgRuleSnapshot {
                file_keyword: None,
                module_keyword: None,
                function_keyword: None,
                line: None,
                flags_set: 0,
                flags_clear: 0,
                flags_override: None,
            }
        } else {
            DyndbgRuleSnapshot::from_rule(&self.rules[n - 1].rule)
        }
    }

    /// Snapshot of the whole rule chain, in order.
    pub fn get_dyndbg_rule_chain_snapshot(&self) -> (r: Vec<DyndbgRuleEntrySnapshot>)
        ensures
            r@.len() == self.rule_chain().len(),
            forall|i: int| 0 <= i < r@.len() ==> #[trigger] r@[i] == snapshot_of_entry(self.rule_chain()[i]),
    {
        let mut r: Vec<DyndbgRuleEntrySnapshot> = Vec::new();
        let mut i: usize = 0;
        while i < self.rules.len()
            invariant
                i <= self.rules@.len(),
                r@.len() == i,
                forall|q: int| 0 <= q < i ==> #[trigger] r@[q] == snapshot_of_entry(self.rules@[q]),
            decreases self.rules.len() - i,
        {
            r.push(DyndbgRuleEntrySnapshot::from_entry(&self.rules[i]));
            i += 1;
        }
        r
    }

    /// The rule-update counters.
    pub fn get_dyndbg_stats_snapshot(&self) -> (r: DyndbgStatsSnapshot)
        ensures
            r.descriptors_recomputed == self.stat_recomputed(),
            r.modules_repatched == self.stat_modules_repatched(),
            r.sites_patched == self.stat_sites_patched(),
            r.patch_transactions == self.stat_transactions(),
            r.last_update_latency_us == self.stat_latency(),
    {
        DyndbgStatsSnapshot {
            descriptors_recomputed: self.descriptors_recomputed,
            modules_repatched: self.modules_repatched,
            sites_patched: self.sites_patched,
            patch_transactions: self.patch_transactions,
            last_update_latency_us: self.last_update_latency_us,
        }
    }

    /// Zero the rule-update counters.
    pub fn reset_dyndbg_stats(&mut self)
        ensures
            final(self).same_core(old(self)),
            final(self).backend_code() == old(self).backend_code(),
            final(self).index_on() == old(self).index_on(),
            final(self).recompute_on() == old(self).recompute_on(),
            final(self).stat_recomputed() == 0,
            final(self).stat_modules_repatched() == 0,
            final(self).stat_sites_patched() == 0,
            final(self).stat_transactions() == 0,
            final(self).stat_latency() == 0,
    {
        self.descriptors_recomputed = 0;
        self.modules_repatched = 0;
        self.sites_patched = 0;
        self.patch_transactions = 0;
        self.last_update_latency_us = 0;
    }

    /// Record the latency of a rule update measured by the time-stamp
    /// counter: `(end - start) * 1_000_000 / freq` microseconds, recorded
    /// only when the frequency is known and time went forward.
    pub fn record_update_latency(&mut self, tsc_start: u64, tsc_end: u64, tsc_freq: u64)
        requires
            tsc_freq > 0 && tsc_end > tsc_start ==> (tsc_end - tsc_start) * 1_000_000 <= u64::MAX,
        ensures
            final(self).stat_latency() == (if tsc_freq > 0 && tsc_end > tsc_start {
                ((tsc_end - tsc_start) * 1_000_000 / (tsc_freq as int)) as u64
            } else {
                old(self).stat_latency()
            }),
            final(self).same_core(old(self)),
            final(self).backend_code() == old(self).backend_code(),
            final(self).index_on() == old(self).index_on(),
            final(self).recompute_on() == old(self).recompute_on(),
            final(self).stat_recomputed() == old(self).stat_recomputed(),
            final(self).stat_modules_repatched() == old(self).stat_modules_repatched(),
            final(self).stat_sites_patched() == old(self).stat_sites_patched(),
            final(self).stat_transactions() == old(self).stat_transactions(),
    {
        if tsc_freq > 0 && tsc_end > tsc_start {
            let elapsed_us = ((tsc_end - tsc_start) * 1_000_000) / tsc_freq;
            self.last_update_latency_us = elapsed_us;
        }
    }
}

// ───────────────────────────── laws ─────────────────────────────

/// A call site's hotspot index is its position in the registry when that
/// is below `MAX_HOT_SITES`, and unassigned otherwise.
pub proof fn law_hot_index_is_registry_position(s: &DyndbgState, i: int)
    requires
        s.wf(),
        0 <= i < s.descs().len(),
    ensures
        i < MAX_HOT_SITES ==> s.descs()[i].hot_index == i,
        i >= MAX_HOT_SITES ==> s.descs()[i].hot_index == UNASSIGNED_HOT_INDEX,
{
}

/// Every call site's module id is unassigned or names one of the
/// `MAX_DYNDBG_MODULES` module slots.
pub proof fn law_module_id_range(s: &DyndbgState, i: int)
    requires
        s.wf(),
        0 <= i < s.descs().len(),
    ensures
        s.descs()[i].module_id == UNASSIGNED_MODULE_ID || (s.descs()[i].module_id as int) < MAX_DYNDBG_MODULES,
{
    assert(s.descs()[i] == s.descs()[i]);
}

/// Two call sites with module ids have the same id exactly when they have
/// the same module path.
pub proof fn law_module_ids_follow_paths(s: &DyndbgState, i: int, j: int)
    requires
        s.wf(),
        0 <= i < s.descs().len(),
        0 <= j < s.descs().len(),
        s.descs()[i].module_id != UNASSIGNED_MODULE_ID,
        s.descs()[j].module_id != UNASSIGNED_MODULE_ID,
    ensures
        (s.descs()[i].module_id == s.descs()[j].module_id) == (module_bytes(s.descs()[i]) == module_bytes(
            s.descs()[j],
        )),
{
    let ds = s.descs();
    let a = ds[i].module_id as int;
    let b = ds[j].module_id as int;
    if a != b && module_bytes(ds[i]) == module_bytes(ds[j]) {
        if a < b {
            assert(s.module_paths@[a]@ != s.module_paths@[b]@);
        } else {
            assert(s.module_paths@[b]@ != s.module_paths@[a]@);
        }
    }
}

/// A module's enabled counter is the number of its call sites with log or
/// trace on, and its gate, once it has one, is open exactly when that
/// number is not zero.
pub proof fn law_module_counter(s: &DyndbgState, m: int)
    requires
        s.wf(),
        0 <= m < MAX_DYNDBG_MODULES,
    ensures
        s.module_count(m) == count_enabled(s.descs(), m),
        s.has_module_key(m) ==> s.module_key_enabled(m) == (s.module_count(m) != 0),
{
}

/// Two states whose call sites are the same sites and that both follow the
/// same rule chain give every call site the same state.
pub proof fn law_state_follows_chain(s1: &DyndbgState, s2: &DyndbgState)
    requires
        s1.synced(),
        s2.synced(),
        same_sites(s1.descs(), s2.descs()),
        s1.rule_chain() == s2.rule_chain(),
    ensures
        s1.descs() == s2.descs(),
{
    let a = s1.descs();
    let b = s2.descs();
    assert forall|x: int| 0 <= x < a.len() implies a[x] == b[x] by {
        lemma_replay_fields(s1.rule_chain(), a[x], b[x]);
        assert(a[x] == b[x]);
    }
    assert(a =~= b);
}

/// Appending a rule and then removing it again gives every call site back
/// the state it had.
pub proof fn law_remove_undoes_append(s0: &DyndbgState, s1: &DyndbgState, s2: &DyndbgState)
    requires
        s0.synced(),
        s1.synced(),
        s2.synced(),
        s1.rule_chain().len() == s0.rule_chain().len() + 1,
        s1.rule_chain().drop_last() == s0.rule_chain(),
        s2.rule_chain() == s1.rule_chain().remove(s0.rule_chain().len() as int),
        same_sites(s0.descs(), s1.descs()),
        same_sites(s1.descs(), s2.descs()),
    ensures
        s2.descs() == s0.descs(),
        s2.rule_chain() == s0.rule_chain(),
{
    assert(s1.rule_chain().remove(s0.rule_chain().len() as int) =~= s1.rule_chain().drop_last());
    law_state_follows_chain(s0, s2);
}

/// No static-key site is gated by two modules.
pub open spec fn module_sites_disjoint(s: DyndbgState) -> bool {
    forall|m1: int, m2: int, i: int, j: int|
        0 <= m1 < MAX_DYNDBG_MODULES && 0 <= m2 < MAX_DYNDBG_MODULES && m1 != m2 && s.has_module_key(m1)
            && s.has_module_key(m2) && 0 <= i < s.module_key_sites(m1).len() && 0 <= j < s.module_key_sites(
            m2,
        ).len() ==> #[trigger] s.module_key_sites(m1)[i] != #[trigger] s.module_key_sites(m2)[j]
}

/// Every site of every module gate is registered in `k` and patched as
/// its gate says.
pub open spec fn sites_agree(k: RegistryView, s: DyndbgState) -> bool {
    forall|m: int, i: int|
        0 <= m < MAX_DYNDBG_MODULES && s.has_module_key(m) && 0 <= i < s.module_key_sites(m).len() ==> {
            let site = #[trigger] s.module_key_sites(m)[i] as int;
            &&& site < k.sites.len()
            &&& k.sites[site].enabled == s.module_key_enabled(m)
        }
}

/// Patching the flipped gates below `upto` leaves those gates' sites as the
/// gates of `s1` say and the other gates' sites as those of `s0` say.
proof fn lemma_sites_follow_upto(k0: RegistryView, s0: DyndbgState, s1: DyndbgState, upto: int)
    requires
        0 <= upto <= MAX_DYNDBG_MODULES,
        gates_follow(s0, s1),
        module_sites_disjoint(s0),
        sites_agree(k0, s0),
    ensures
        gate_patches(k0, s0, s1, upto).sites.len() == k0.sites.len(),
        forall|m: int, i: int|
            0 <= m < MAX_DYNDBG_MODULES && s0.has_module_key(m) && 0 <= i < s0.module_key_sites(m).len() ==> {
                let site = #[trigger] s0.module_key_sites(m)[i] as int;
                gate_patches(k0, s0, s1, upto).sites[site].enabled == (if m < upto {
                    s1.module_key_enabled(m)
                } else {
                    s0.module_key_enabled(m)
                })
            },
    decreases upto,
{
    if upto > 0 {
        let u = upto - 1;
        lemma_sites_follow_upto(k0, s0, s1, u);
        let k = gate_patches(k0, s0, s1, u);
        assert(s1.has_module_key(u) == s0.has_module_key(u));
        if gate_flipped(s0, s1, u) {
            let ids = s0.module_key_sites(u);
            assert forall|q: int| 0 <= q < ids.len() implies (ids[q] as int) < k.sites.len() by {
                assert(ids[q] == s0.module_key_sites(u)[q]);
            }
            lemma_patch_effect(k, ids, s1.module_key_enabled(u), s0.backend_code());
            let k2 = patch_effect(k, ids, s1.module_key_enabled(u), s0.backend_code());
            assert forall|m: int, i: int|
                0 <= m < MAX_DYNDBG_MODULES && s0.has_module_key(m) && 0 <= i < s0.module_key_sites(m).len() implies {
                let site = #[trigger] s0.module_key_sites(m)[i] as int;
                k2.sites[site].enabled == (if m < upto {
                    s1.module_key_enabled(m)
                } else {
                    s0.module_key_enabled(m)
                })
            } by {
                let site = s0.module_key_sites(m)[i] as int;
                if m == u {
                    assert(lists(ids, site));
                } else {
                    if lists(ids, site) {
                        let j = choose|j: int| 0 <= j < ids.len() && ids[j] as int == site;
                        assert(s0.module_key_sites(m)[i] != s0.module_key_sites(u)[j]);
                    }
                }
            }
        } else {
            assert forall|m: int, i: int|
                0 <= m < MAX_DYNDBG_MODULES && s0.has_module_key(m) && 0 <= i < s0.module_key_sites(m).len() implies {
                let site = #[trigger] s0.module_key_sites(m)[i] as int;
                k.sites[site].enabled == (if m < upto {
                    s1.module_key_enabled(m)
                } else {
                    s0.module_key_enabled(m)
                })
            } by {
                if m == u {
                    assert(s1.has_module_key(u));
                }
            }
        }
    }
}

/// When no static-key site is gated by two modules and every gated site was
/// patched as its gate said, a change of the gates from `s0` to `s1` (same
/// modules, same sites) patched as `gate_patches` does leaves every gated
/// site patched as its new gate says.  Rule updates (`append_dyndbg_rule`,
/// `remove_dyndbg_rule_by_id`, `clear_dyndbg_rules`) and call-site
/// registration change the gates and the registry in exactly this way.  No
/// site becomes shared by two modules either.
pub proof fn law_sites_follow_gates(k0: RegistryView, s0: DyndbgState, s1: DyndbgState)
    requires
        gates_follow(s0, s1),
        module_sites_disjoint(s0),
        sites_agree(k0, s0),
    ensures
        sites_agree(gate_patches(k0, s0, s1, MAX_DYNDBG_MODULES as int), s1),
        module_sites_disjoint(s1),
{
    lemma_disjoint_follows(s0, s1);
    lemma_sites_follow_upto(k0, s0, s1, MAX_DYNDBG_MODULES as int);
    let k = gate_patches(k0, s0, s1, MAX_DYNDBG_MODULES as int);
    assert forall|m: int, i: int|
        0 <= m < MAX_DYNDBG_MODULES && s1.has_module_key(m) && 0 <= i < s1.module_key_sites(m).len() implies {
        let site = #[trigger] s1.module_key_sites(m)[i] as int;
        &&& site < k.sites.len()
        &&& k.sites[site].enabled == s1.module_key_enabled(m)
    } by {
        assert(s1.module_key_sites(m) == s0.module_key_sites(m));
        assert(s0.module_key_sites(m)[i] == s1.module_key_sites(m)[i]);
    }
}

/// Gates that keep their modules and sites keep them disjoint.
proof fn lemma_disjoint_follows(s0: DyndbgState, s1: DyndbgState)
    requires
        gates_follow(s0, s1),
        module_sites_disjoint(s0),
    ensures
        module_sites_disjoint(s1),
{
    assert forall|m1: int, m2: int, i: int, j: int|
        0 <= m1 < MAX_DYNDBG_MODULES && 0 <= m2 < MAX_DYNDBG_MODULES && m1 != m2 && s1.has_module_key(m1)
            && s1.has_module_key(m2) && 0 <= i < s1.module_key_sites(m1).len() && 0 <= j < s1.module_key_sites(
            m2,
        ).len() implies #[trigger] s1.module_key_sites(m1)[i] != #[trigger] s1.module_key_sites(m2)[j] by {
        assert(s1.has_module_key(m1) == s0.has_module_key(m1));
        assert(s1.has_module_key(m2) == s0.has_module_key(m2));
        assert(s0.module_key_sites(m1)[i] != s0.module_key_sites(m2)[j]);
    }
}

proof fn lemma_ids_below(n: int)
    requires
        0 <= n <= usize::MAX,
    ensures
        Set::new(|x: usize| (x as int) < n).finite(),
        Set::new(|x: usize| (x as int) < n).len() == n,
    decreases n,
{
    if n == 0 {
        assert(Set::new(|x: usize| (x as int) < n) =~= Set::<usize>::empty());
    } else {
        lemma_ids_below(n - 1);
        let prev = Set::new(|x: usize| (x as int) < n - 1);
        assert(Set::new(|x: usize| (x as int) < n) =~= prev.insert((n - 1) as usize));
        assert(!prev.contains((n - 1) as usize));
    }
}

/// A change of rules one of which has no selector, or any change with
/// narrowing off, recomputes every registered call site.
pub proof fn law_selectorless_recomputes_all(
    entries: Seq<DyndbgRuleEntry>,
    ds: Seq<DescriptorView>,
    narrowed: bool,
)
    requires
        has_selectorless(entries) || !narrowed,
        ds.len() <= usize::MAX,
    ensures
        affected_ids(entries, ds, narrowed) == Set::new(|x: usize| (x as int) < ds.len()),
        affected_ids(entries, ds, narrowed).len() == ds.len(),
{
    assert(affected_ids(entries, ds, narrowed) =~= Set::new(|x: usize| (x as int) < ds.len()));
    lemma_ids_below(ds.len() as int);
}

/// A module's count of effective call sites is non-zero exactly when one of
/// its call sites has log or trace on.
proof fn lemma_count_nonzero(ds: Seq<DescriptorView>, m: int)
    ensures
        (count_enabled(ds, m) != 0) == (exists|j: int|
            0 <= j < ds.len() && (#[trigger] ds[j]).module_id as int == m && ds[j].effective()),
    decreases ds.len(),
{
    if ds.len() > 0 {
        let dl = ds.drop_last();
        lemma_count_nonzero(dl, m);
        if exists|j: int| 0 <= j < dl.len() && (#[trigger] dl[j]).module_id as int == m && dl[j].effective() {
            let j = choose|j: int| 0 <= j < dl.len() && (#[trigger] dl[j]).module_id as int == m && dl[j].effective();
            assert(ds[j] == dl[j]);
        }
        if exists|j: int| 0 <= j < ds.len() && (#[trigger] ds[j]).module_id as int == m && ds[j].effective() {
            let j = choose|j: int| 0 <= j < ds.len() && (#[trigger] ds[j]).module_id as int == m && ds[j].effective();
            if j < dl.len() {
                assert(dl[j] == ds[j]);
            }
        }
    }
}

/// A module is enabled exactly when it has an id and one of its call sites
/// has log or trace on; so a call site logs (traces) exactly when it has a
/// module id and its log (trace) switch is on, and a call site left without
/// a module id never logs or traces.
pub proof fn law_switches_decide(s: &DyndbgState, i: int)
    requires
        s.wf(),
        0 <= i < s.descs().len(),
    ensures
        s.module_on(s.descs()[i].module_id) == (s.descs()[i].module_id != UNASSIGNED_MODULE_ID && exists|j: int|
            0 <= j < s.descs().len() && (#[trigger] s.descs()[j]).module_id == s.descs()[i].module_id
                && s.descs()[j].effective()),
        (s.module_on(s.descs()[i].module_id) && s.descs()[i].log) == (s.descs()[i].module_id
            != UNASSIGNED_MODULE_ID && s.descs()[i].log),
        (s.module_on(s.descs()[i].module_id) && s.descs()[i].trace) == (s.descs()[i].module_id
            != UNASSIGNED_MODULE_ID && s.descs()[i].trace),
{
    let ds = s.descs();
    let m = ds[i].module_id;
    law_module_id_range(s, i);
    if m != UNASSIGNED_MODULE_ID {
        lemma_count_nonzero(ds, m as int);
        law_module_counter(s, m as int);
        if exists|j: int| 0 <= j < ds.len() && (#[trigger] ds[j]).module_id as int == m as int && ds[j].effective() {
            let j = choose|j: int| 0 <= j < ds.len() && (#[trigger] ds[j]).module_id as int == m as int && ds[j].effective();
            assert(ds[j].module_id == m);
        }
        if exists|j: int| 0 <= j < ds.len() && (#[trigger] ds[j]).module_id == m && ds[j].effective() {
            let j = choose|j: int| 0 <= j < ds.len() && (#[trigger] ds[j]).module_id == m && ds[j].effective();
            assert(ds[j].module_id as int == m as int);
        }
        if ds[i].effective() {
            assert(ds[i].module_id as int == m as int);
        }
    }
}

} // verus!
