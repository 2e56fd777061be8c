//! Static keys on an architecture without instruction patching: every site
//! degrades to a flag that the guarded code tests.
use vstd::prelude::*;

verus! {

/// A registered static branch site (software flag only).
#[derive(Debug)]
pub struct StaticKeySite {
    enabled: bool,
}

impl StaticKeySite {
    /// A disabled site.
    pub fn new_fallback() -> (s: Self)
        ensures
            !s.spec_enabled(),
    {
        StaticKeySite { enabled: false }
    }

    pub closed spec fn spec_enabled(&self) -> bool {
        self.enabled
    }

    /// The current enabled state.
    pub fn is_enabled(&self) -> (r: bool)
        ensures
            r == self.spec_enabled(),
    {
        self.enabled
    }
}

/// Every registered fallback site.
pub struct StaticKeyRegistry {
    sites: Vec<StaticKeySite>,
}

impl StaticKeyRegistry {
    /// The enabled flag of every site, by id.
    pub closed spec fn flags(&self) -> Seq<bool> {
        self.sites@.map_values(|s: StaticKeySite| s.enabled)
    }

    /// An empty registry.
    pub fn new() -> (r: Self)
        ensures
            r.flags().len() == 0,
    {
        let r = StaticKeyRegistry { sites: Vec::new() };
        assert(r.flags() =~= Seq::<bool>::empty());
        r
    }

    /// Record a site; its id is its registration position.
    pub fn register(&mut self, site: StaticKeySite) -> (id: usize)
        ensures
            id == old(self).flags().len(),
            final(self).flags() == old(self).flags().push(site.spec_enabled()),
    {
        let id = self.sites.len();
        self.sites.push(site);
        assert(self.flags() =~= old(self).flags().push(site.spec_enabled()));
        id
    }

    /// Whether site `id` is enabled.
    pub fn is_enabled(&self, id: usize) -> (r: bool)
        requires
            id < self.flags().len(),
        ensures
            r == self.flags()[id as int],
    {
        self.sites[id].is_enabled()
    }

    fn set_flags(&mut self, sites: &[usize], on: bool)
        requires
            forall|i: int| 0 <= i < sites@.len() ==> (sites@[i] as int) < old(self).flags().len(),
        ensures
            final(self).flags().len() == old(self).flags().len(),
            forall|k: int|
                0 <= k < old(self).flags().len() ==> #[trigger] final(self).flags()[k] == (if exists|
                    j: int,
                | 0 <= j < sites@.len() && sites@[j] as int == k {
                    on
                } else {
                    old(self).flags()[k]
                }),
    {
        let mut i: usize = 0;
        while i < sites.len()
            invariant
                i <= sites@.len(),
                forall|q: int| 0 <= q < sites@.len() ==> (sites@[q] as int) < old(self).flags().len(),
                self.flags().len() == old(self).flags().len(),
                forall|k: int|
                    0 <= k < old(self).flags().len() ==> #[trigger] self.flags()[k] == (if exists|
                        j: int,
                    | 0 <= j < i && sites@[j] as int == k {
                        on
                    } else {
                        old(self).flags()[k]
                    }),
            decreases sites.len() - i,
        {
            let id = sites[i];
            let ghost before = self.flags();
            self.sites[id].enabled = on;
            assert(self.flags() =~= before.update(id as int, on));
            assert forall|k: int| 0 <= k < old(self).flags().len() implies #[trigger] self.flags()[k]
                == (if exists|j: int| 0 <= j < i + 1 && sites@[j] as int == k {
                on
            } else {
                old(self).flags()[k]
            }) by {
                if k == id as int {
                    assert(sites@[i as int] as int == k);
                } else if exists|j: int| 0 <= j < i + 1 && sites@[j] as int == k {
                    let j = choose|j: int| 0 <= j < i + 1 && sites@[j] as int == k;
                    assert(j < i);
                }
            }
            i += 1;
        }
    }
}

/// Enable a batch of static keys: sets each listed site's flag.
pub fn enable_static_keys(registry: &mut StaticKeyRegistry, sites: &[usize])
    requires
        forall|i: int| 0 <= i < sites@.len() ==> (sites@[i] as int) < old(registry).flags().len(),
    ensures
        final(registry).flags().len() == old(registry).flags().len(),
        forall|k: int|
            0 <= k < old(registry).flags().len() ==> #[trigger] final(registry).flags()[k] == (if exists|
                j: int,
            | 0 <= j < sites@.len() && sites@[j] as int == k {
                true
            } else {
                old(registry).flags()[k]
            }),
{
    registry.set_flags(sites, true);
}

/// Disable a batch of static keys: clears each listed site's flag.
pub fn disable_static_keys(registry: &mut StaticKeyRegistry, sites: &[usize])
    requires
        forall|i: int| 0 <= i < sites@.len() ==> (sites@[i] as int) < old(registry).flags().len(),
    ensures
        final(registry).flags().len() == old(registry).flags().len(),
        forall|k: int|
            0 <= k < old(registry).flags().len() ==> #[trigger] final(registry).flags()[k] == (if exists|
                j: int,
            | 0 <= j < sites@.len() && sites@[j] as int == k {
                false
            } else {
                old(registry).flags()[k]
            }),
{
    registry.set_flags(sites, false);
}

/// Number of registered sites (reported once at boot).
pub fn init_static_keys(registry: &StaticKeyRegistry) -> (n: usize)
    ensures
        n == registry.flags().len(),
{
    registry.sites.len()
}

} // verus!
