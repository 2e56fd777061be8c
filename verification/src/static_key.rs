//! Static keys: registered 5-byte branch slots that are switched between a
//! NOP (disabled) and a `JMP rel32` into the guarded block (enabled).
//! Switching a batch of keys flips their flags and queues one patch
//! transaction for the kernel to carry out.
use vstd::prelude::*;
use vstd::string::*;
use vstd::utf8::encode_utf8;
use crate::matching::bytes_eq;
use crate::static_patch::{
    batch_outcome, patch_5byte_slots, result_plan_view, PatchEnvironment, PatchError,
    PatchInstruction, PatchPlan, PatchRequest, PlanView,
};

verus! {

/// A registered static branch site.
#[derive(Debug)]
pub struct StaticKeySite {
    /// Address of the 5-byte patch slot.
    instruction_site: usize,
    /// Address to jump to when enabled.
    jump_target: usize,
    /// Whether the key is currently enabled.
    enabled: bool,
    /// Tag for grouping / finding sites (e.g. "dyndbg", "SCHED_TRACE").
    tag: String,
}

pub struct SiteView {
    pub instruction_site: usize,
    pub jump_target: usize,
    pub enabled: bool,
    pub tag: Seq<char>,
}

impl View for StaticKeySite {
    type V = SiteView;

    closed spec fn view(&self) -> SiteView {
        SiteView {
            instruction_site: self.instruction_site,
            jump_target: self.jump_target,
            enabled: self.enabled,
            tag: self.tag@,
        }
    }
}

impl StaticKeySite {
    /// A disabled site whose slot is at `instruction_site` and whose guarded
    /// block starts at `jump_target`.
    pub fn new(instruction_site: usize, jump_target: usize, tag: &str) -> (s: Self)
        ensures
            s@ == (SiteView { instruction_site, jump_target, enabled: false, tag: tag@ }),
    {
        StaticKeySite { instruction_site, jump_target, enabled: false, tag: String::from_str(tag) }
    }

    /// The current enabled state.
    pub fn is_enabled(&self) -> (r: bool)
        ensures
            r == self@.enabled,
    {
        self.enabled
    }

    /// The grouping tag.
    pub fn tag(&self) -> (r: &str)
        ensures
            r@ == self@.tag,
    {
        self.tag.as_str()
    }
}

/// Every registered site, with the machine state that patch transactions
/// are planned against and the transactions queued for the kernel.
pub struct StaticKeyRegistry {
    sites: Vec<StaticKeySite>,
    env: PatchEnvironment,
    pending: Vec<Result<PatchPlan, PatchError>>,
}

pub struct RegistryView {
    pub sites: Seq<SiteView>,
    pub env: PatchEnvironment,
    pub pending: Seq<Result<PlanView, PatchError>>,
}

pub open spec fn site_views(sites: Seq<StaticKeySite>) -> Seq<SiteView> {
    sites.map_values(|s: StaticKeySite| s@)
}

impl View for StaticKeyRegistry {
    type V = RegistryView;

    closed spec fn view(&self) -> RegistryView {
        RegistryView {
            sites: site_views(self.sites@),
            env: self.env,
            pending: self.pending@.map_values(|r: Result<PatchPlan, PatchError>| result_plan_view(r)),
        }
    }
}

/// The request that switches `site` on (jump into its block) or off (NOP).
pub open spec fn switch_request(site: SiteView, on: bool) -> PatchRequest {
    PatchRequest {
        instruction_address: site.instruction_site,
        instruction: if on {
            PatchInstruction::JmpRel32 { target: site.jump_target }
        } else {
            PatchInstruction::Nop5
        },
    }
}

/// Switching the sites `ids` in order: each site not yet in state `on` is
/// set to it and contributes one request; sites already there are skipped.
pub open spec fn switch_sites(sites: Seq<SiteView>, ids: Seq<usize>, on: bool) -> (
    Seq<SiteView>,
    Seq<PatchRequest>,
)
    decreases ids.len(),
{
    if ids.len() == 0 {
        (sites, Seq::empty())
    } else {
        let (s, r) = switch_sites(sites, ids.drop_last(), on);
        let id = ids.last() as int;
        if s[id].enabled != on {
            (s.update(id, SiteView { enabled: on, ..s[id] }), r.push(switch_request(s[id], on)))
        } else {
            (s, r)
        }
    }
}

/// The queue after a switch that produced `requests`: an empty batch queues
/// nothing, else the batch's outcome is queued.
pub open spec fn queue_after(
    pending: Seq<Result<PlanView, PatchError>>,
    requests: Seq<PatchRequest>,
    env: PatchEnvironment,
) -> Seq<Result<PlanView, PatchError>> {
    if requests.len() == 0 {
        pending
    } else {
        pending.push(batch_outcome(requests, env))
    }
}

/// The id list `ids` names site `k`.
pub open spec fn lists(ids: Seq<usize>, k: int) -> bool {
    exists|j: int| 0 <= j < ids.len() && ids[j] as int == k
}

/// After switching, a listed site is in state `on` and every other site
/// keeps its state; addresses and tags never change.
pub proof fn lemma_switch_sites(sites: Seq<SiteView>, ids: Seq<usize>, on: bool, k: int)
    requires
        forall|i: int| 0 <= i < ids.len() ==> (ids[i] as int) < sites.len(),
        0 <= k < sites.len(),
    ensures
        switch_sites(sites, ids, on).0.len() == sites.len(),
        switch_sites(sites, ids, on).0[k].enabled == (if lists(ids, k) {
            on
        } else {
            sites[k].enabled
        }),
        switch_sites(sites, ids, on).0[k].instruction_site == sites[k].instruction_site,
        switch_sites(sites, ids, on).0[k].jump_target == sites[k].jump_target,
        switch_sites(sites, ids, on).0[k].tag == sites[k].tag,
    decreases ids.len(),
{
    if ids.len() > 0 {
        let dl = ids.drop_last();
        lemma_switch_sites(sites, dl, on, k);
        let last = ids.last() as int;
        assert(lists(ids, k) == (lists(dl, k) || last == k)) by {
            if lists(ids, k) {
                let j = choose|j: int| 0 <= j < ids.len() && ids[j] as int == k;
                if j < ids.len() - 1 {
                    assert(dl[j] as int == k);
                }
            }
            if lists(dl, k) {
                let j = choose|j: int| 0 <= j < dl.len() && dl[j] as int == k;
                assert(ids[j] as int == k);
            }
            if last == k {
                assert(ids[ids.len() - 1] as int == k);
            }
        }
    }
}

impl StaticKeyRegistry {
    /// An empty registry planning against `env`.
    pub fn new(env: PatchEnvironment) -> (r: Self)
        ensures
            r@.sites.len() == 0,
            r@.env == env,
            r@.pending.len() == 0,
    {
        let r = StaticKeyRegistry { sites: Vec::new(), env, pending: Vec::new() };
        assert(r@.sites =~= Seq::<SiteView>::empty());
        assert(r@.pending =~= Seq::<Result<PlanView, PatchError>>::empty());
        r
    }

    /// Record a site; its id is its registration position.
    pub fn register(&mut self, site: StaticKeySite) -> (id: usize)
        requires
            old(self)@.sites.len() < usize::MAX,
        ensures
            id == old(self)@.sites.len(),
            final(self)@.sites == old(self)@.sites.push(site@),
            final(self)@.env == old(self)@.env,
            final(self)@.pending == old(self)@.pending,
    {
        let id = self.sites.len();
        self.sites.push(site);
        assert(site_views(self.sites@) =~= site_views(old(self).sites@).push(site@));
        id
    }

    /// Number of registered sites.
    pub fn len(&self) -> (n: usize)
        ensures
            n == self@.sites.len(),
    {
        self.sites.len()
    }

    /// The site with id `id`.
    pub fn site(&self, id: usize) -> (s: &StaticKeySite)
        requires
            id < self@.sites.len(),
        ensures
            s@ == self@.sites[id as int],
    {
        &self.sites[id]
    }

    /// Update the machine state that later transactions are planned against.
    pub fn set_environment(&mut self, env: PatchEnvironment)
        ensures
            final(self)@ == (RegistryView { env, ..old(self)@ }),
    {
        self.env = env;
    }

    /// Hand the queued transactions to the kernel, oldest first.
    pub fn take_pending(&mut self) -> (r: Vec<Result<PatchPlan, PatchError>>)
        ensures
            r@.map_values(|p: Result<PatchPlan, PatchError>| result_plan_view(p))
                == old(self)@.pending,
            final(self)@.sites == old(self)@.sites,
            final(self)@.env == old(self)@.env,
            final(self)@.pending.len() == 0,
    {
        let mut taken: Vec<Result<PatchPlan, PatchError>> = Vec::new();
        std::mem::swap(&mut taken, &mut self.pending);
        assert(self@.pending =~= Seq::<Result<PlanView, PatchError>>::empty());
        taken
    }

    fn switch_static_keys(&mut self, sites: &[usize], on: bool)
        requires
            forall|i: int| 0 <= i < sites@.len() ==> (sites@[i] as int) < old(self)@.sites.len(),
        ensures
            final(self)@.sites == switch_sites(old(self)@.sites, sites@, on).0,
            final(self)@.env == old(self)@.env,
            final(self)@.pending == queue_after(
                old(self)@.pending,
                switch_sites(old(self)@.sites, sites@, on).1,
                old(self)@.env,
            ),
    {
        let mut requests: Vec<PatchRequest> = Vec::new();
        let mut i: usize = 0;
        while i < sites.len()
            invariant
                i <= sites@.len(),
                forall|k: int| 0 <= k < sites@.len() ==> (sites@[k] as int) < old(self)@.sites.len(),
                self.env == old(self).env,
                self.pending == old(self).pending,
                (site_views(self.sites@), requests@) == switch_sites(
                    site_views(old(self).sites@),
                    sites@.subrange(0, i as int),
                    on,
                ),
                self.sites@.len() == old(self).sites@.len(),
            decreases sites.len() - i,
        {
            let id = sites[i];
            assert(sites@.subrange(0, i + 1).drop_last() =~= sites@.subrange(0, i as int));
            let was = self.sites[id].enabled;
            if was != on {
                let ghost before = site_views(self.sites@);
                let s = &self.sites[id];
                let request = PatchRequest {
                    instruction_address: s.instruction_site,
                    instruction: if on {
                        PatchInstruction::JmpRel32 { target: s.jump_target }
                    } else {
                        PatchInstruction::Nop5
                    },
                };
                requests.push(request);
                self.sites[id].enabled = on;
                assert(site_views(self.sites@) =~= before.update(
                    id as int,
                    SiteView { enabled: on, ..before[id as int] },
                ));
            }
            i += 1;
        }
        assert(sites@.subrange(0, sites@.len() as int) =~= sites@);
        if requests.len() > 0 {
            let outcome = patch_5byte_slots(requests.as_slice(), self.env);
            let ghost before = self@.pending;
            self.pending.push(outcome);
            assert(self@.pending =~= before.push(result_plan_view(outcome)));
        }
    }
}

/// Enable a batch of static keys in one transaction: every listed site that
/// is still disabled becomes enabled and its slot is planned as a jump into
/// its block; sites already enabled are skipped.  A refused batch is queued
/// as its error and the flags stay set.
pub fn enable_static_keys(registry: &mut StaticKeyRegistry, sites: &[usize])
    requires
        forall|i: int| 0 <= i < sites@.len() ==> (sites@[i] as int) < old(registry)@.sites.len(),
    ensures
        final(registry)@.sites == switch_sites(old(registry)@.sites, sites@, true).0,
        final(registry)@.env == old(registry)@.env,
        final(registry)@.pending == queue_after(
            old(registry)@.pending,
            switch_sites(old(registry)@.sites, sites@, true).1,
            old(registry)@.env,
        ),
{
    registry.switch_static_keys(sites, true);
}

/// Disable a batch of static keys in one transaction: every listed site that
/// is enabled becomes disabled and its slot is planned back to a NOP.
pub fn disable_static_keys(registry: &mut StaticKeyRegistry, sites: &[usize])
    requires
        forall|i: int| 0 <= i < sites@.len() ==> (sites@[i] as int) < old(registry)@.sites.len(),
    ensures
        final(registry)@.sites == switch_sites(old(registry)@.sites, sites@, false).0,
        final(registry)@.env == old(registry)@.env,
        final(registry)@.pending == queue_after(
            old(registry)@.pending,
            switch_sites(old(registry)@.sites, sites@, false).1,
            old(registry)@.env,
        ),
{
    registry.switch_static_keys(sites, false);
}

/// Ids of the sites among the first `upto` whose tag is `tag` (UTF-8 bytes),
/// in registration order.
pub open spec fn tagged_ids(sites: Seq<SiteView>, tag: Seq<u8>, upto: int) -> Seq<usize>
    decreases upto,
{
    if upto <= 0 {
        Seq::empty()
    } else if encode_utf8(sites[upto - 1].tag) == tag {
        tagged_ids(sites, tag, upto - 1).push((upto - 1) as usize)
    } else {
        tagged_ids(sites, tag, upto - 1)
    }
}

/// Every id `tagged_ids` lists is below `upto`.
pub proof fn lemma_tagged_ids_bound(sites: Seq<SiteView>, tag: Seq<u8>, upto: int)
    ensures
        forall|i: int| 0 <= i < tagged_ids(sites, tag, upto).len() ==> (#[trigger] tagged_ids(sites, tag, upto)[i] as int) < upto,
    decreases upto,
{
    if upto > 0 {
        lemma_tagged_ids_bound(sites, tag, upto - 1);
        let prev = tagged_ids(sites, tag, upto - 1);
        assert forall|i: int| 0 <= i < tagged_ids(sites, tag, upto).len() implies (#[trigger] tagged_ids(sites, tag, upto)[i] as int) < upto by {
            if i < prev.len() {
                assert(tagged_ids(sites, tag, upto)[i] == prev[i]);
            }
        }
    }
}

/// Ids of all registered sites with the given tag, in registration order.
pub fn find_sites_by_tag(registry: &StaticKeyRegistry, tag: &str) -> (r: Vec<usize>)
    ensures
        r@ == tagged_ids(registry@.sites, encode_utf8(tag@), registry@.sites.len() as int),
{
    let mut r: Vec<usize> = Vec::new();
    let n = registry.len();
    let mut i: usize = 0;
    while i < n
        invariant
            n == registry@.sites.len(),
            i <= n,
            r@ == tagged_ids(registry@.sites, encode_utf8(tag@), i as int),
        decreases n - i,
    {
        let site = registry.site(i);
        if bytes_eq(site.tag().as_bytes(), tag.as_bytes()) {
            r.push(i);
        }
        i += 1;
    }
    r
}

/// Number of registered sites (reported once at boot).
pub fn init_static_keys(registry: &StaticKeyRegistry) -> (n: usize)
    ensures
        n == registry@.sites.len(),
{
    registry.len()
}

} // verus!
