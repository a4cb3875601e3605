//! Data carried between the coordinator and the local agents.

use vstd::prelude::*;
use crate::assoc::{has_key, lookup, unique_keys, find_key, lemma_push_fresh, lemma_update_value};
use crate::convert::{AppId, BandwidthMbps, MemoryMb, VmId};

verus! {

/// Target ceilings per tenant: `AppId -> (MemoryMb, BandwidthMbps)`.
///
/// The vector is read as a map; well-formed values carry each key once.
#[derive(Clone, Debug)]
pub struct UpdateConfig {
    pub allocation_map: Vec<(AppId, (MemoryMb, BandwidthMbps))>,
}

impl UpdateConfig {
    /// Keys are unique, so the vector reads as a map.
    pub open spec fn wf(self) -> bool {
        unique_keys(self.allocation_map@)
    }

    /// The ceilings recorded for tenant `app`.
    pub open spec fn alloc_of(self, app: AppId) -> (MemoryMb, BandwidthMbps) {
        lookup(self.allocation_map@, app)
    }

    /// Whether tenant `app` has recorded ceilings.
    pub open spec fn has_app(self, app: AppId) -> bool {
        has_key(self.allocation_map@, app)
    }

    pub fn new() -> (r: Self)
        ensures
            r.wf(),
            r.allocation_map@.len() == 0,
    {
        UpdateConfig { allocation_map: Vec::new() }
    }

    /// Record ceilings for `app`, replacing any earlier entry.
    pub fn set_allocation(&mut self, app: AppId, mem: MemoryMb, bw: BandwidthMbps)
        requires
            old(self).wf(),
        ensures
            final(self).wf(),
            final(self).has_app(app),
            final(self).alloc_of(app) == (mem, bw),
            forall|a: u64| a != app ==> old(self).has_app(a) == final(self).has_app(a),
            forall|a: u64|
                a != app && old(self).has_app(a) ==> old(self).alloc_of(a)
                    == final(self).alloc_of(a),
    {
        match find_key(&self.allocation_map, app) {
            Some(i) => {
                proof {
                    lemma_update_value(self.allocation_map@, i as int, (mem, bw));
                }
                self.allocation_map.set(i, (app, (mem, bw)));
            },
            None => {
                proof {
                    lemma_push_fresh(self.allocation_map@, app, (mem, bw));
                }
                self.allocation_map.push((app, (mem, bw)));
            },
        }
    }

    /// The ceilings for `app`, if any are recorded.
    pub fn get_allocation(&self, app: AppId) -> (r: Option<(MemoryMb, BandwidthMbps)>)
        requires
            self.wf(),
        ensures
            match r {
                Some(v) => self.has_app(app) && v == self.alloc_of(app),
                None => !self.has_app(app),
            },
    {
        match find_key(&self.allocation_map, app) {
            Some(i) => {
                proof {
                    crate::assoc::lemma_lookup_at(self.allocation_map@, i as int);
                }
                Some(self.allocation_map[i].1)
            },
            None => None,
        }
    }
}

/// One tenant's observed usage in one report.
///
/// Ratios are carried in parts per million: `hit_rate_ppm` is major faults
/// per last-level-cache miss, and each MRC entry pairs a cache size in MB
/// with a predicted miss ratio in parts per million.
#[derive(Clone, Debug)]
pub struct AppUsage {
    pub vm_id: VmId,
    pub app_id: AppId,
    pub mem_mb: MemoryMb,
    pub bw_mbps: BandwidthMbps,
    pub cache_mbps: BandwidthMbps,
    pub access_mem_ops_sec: u64,
    pub access_rate_ops_sec: u64,
    pub hit_rate_ppm: u64,
    pub local_lat: u32,
    pub remote_lat: u32,
    pub mrc: Option<Vec<(u64, u64)>>,
}

/// Usage reports merged by VM: `VmId -> (AppId -> AppUsage)`.
#[derive(Clone, Debug)]
pub struct UsageMap {
    pub map: Vec<(VmId, Vec<(AppId, AppUsage)>)>,
}

impl UsageMap {
    /// Keys are unique on both levels.
    pub open spec fn wf(self) -> bool {
        &&& unique_keys(self.map@)
        &&& forall|i: int|
            0 <= i < self.map@.len() ==> unique_keys((#[trigger] self.map@[i]).1@)
    }

    pub open spec fn has_vm(self, vm: VmId) -> bool {
        has_key(self.map@, vm)
    }

    pub open spec fn vm_usage(self, vm: VmId) -> Seq<(AppId, AppUsage)> {
        lookup(self.map@, vm)@
    }

    pub fn new() -> (r: Self)
        ensures
            r.wf(),
            r.map@.len() == 0,
    {
        UsageMap { map: Vec::new() }
    }

    /// Record the per-tenant usage reported by one VM, replacing any
    /// earlier report from the same VM.
    pub fn set_vm_usage(&mut self, vm: VmId, usage: Vec<(AppId, AppUsage)>)
        requires
            old(self).wf(),
            unique_keys(usage@),
        ensures
            final(self).wf(),
            final(self).has_vm(vm),
            final(self).vm_usage(vm) == usage@,
            forall|v: u64| v != vm ==> old(self).has_vm(v) == final(self).has_vm(v),
            forall|v: u64|
                v != vm && old(self).has_vm(v) ==> old(self).vm_usage(v)
                    == final(self).vm_usage(v),
    {
        match find_key(&self.map, vm) {
            Some(i) => {
                proof {
                    lemma_update_value(self.map@, i as int, usage);
                }
                self.map.set(i, (vm, usage));
            },
            None => {
                proof {
                    lemma_push_fresh(self.map@, vm, usage);
                }
                self.map.push((vm, usage));
            },
        }
    }

    /// Fold another usage map into this one: every VM reported there
    /// replaces its entry here, other VMs keep theirs.
    pub fn merge(&mut self, other: UsageMap)
        requires
            old(self).wf(),
            other.wf(),
        ensures
            final(self).wf(),
            forall|v: u64|
                final(self).has_vm(v) == (old(self).has_vm(v) || has_key(other.map@, v)),
            forall|v: u64|
                has_key(other.map@, v) ==> final(self).vm_usage(v) == lookup(other.map@, v)@,
            forall|v: u64|
                !has_key(other.map@, v) && old(self).has_vm(v) ==> final(self).vm_usage(v) == old(
                    self,
                ).vm_usage(v),
    {
        let mut other = other;
        let ghost all = other.map@;
        loop
            invariant
                self.wf(),
                unique_keys(all),
                forall|i: int| 0 <= i < all.len() ==> unique_keys((#[trigger] all[i]).1@),
                other.map@ == all.take(other.map@.len() as int),
                other.map@.len() <= all.len(),
                forall|v: u64|
                    self.has_vm(v) == (old(self).has_vm(v) || has_key(
                        all.skip(other.map@.len() as int),
                        v,
                    )),
                forall|v: u64|
                    has_key(all.skip(other.map@.len() as int), v) ==> self.vm_usage(v) == lookup(
                        all.skip(other.map@.len() as int),
                        v,
                    )@,
                forall|v: u64|
                    !has_key(all.skip(other.map@.len() as int), v) && old(self).has_vm(v)
                        ==> self.vm_usage(v) == old(self).vm_usage(v),
            ensures
                forall|v: u64| self.has_vm(v) == (old(self).has_vm(v) || has_key(all, v)),
                forall|v: u64| has_key(all, v) ==> self.vm_usage(v) == lookup(all, v)@,
                forall|v: u64|
                    !has_key(all, v) && old(self).has_vm(v) ==> self.vm_usage(v) == old(
                        self,
                    ).vm_usage(v),
            decreases other.map@.len(),
        {
            let ghost k = other.map@.len() as int;
            match other.map.pop() {
                None => {
                    proof {
                        assert(all.skip(0) =~= all);
                    }
                    break ;
                },
                Some(entry) => {
                    proof {
                        assert(all.take(k)[k - 1] == all[k - 1]);
                        assert(entry == all[k - 1]);
                        assert(other.map@ =~= all.take(k - 1));
                        assert(all.skip(k - 1)[0] == all[k - 1]);
                        assert(all.skip(k - 1).drop_first() =~= all.skip(k));
                        assert(unique_keys(all.skip(k - 1))) by {
                            assert(forall|p: int|
                                0 <= p < all.skip(k - 1).len() ==> #[trigger] all.skip(k - 1)[p]
                                    == all[p + k - 1]);
                        }
                        assert(lookup(all.skip(k - 1), entry.0) == entry.1);
                        assert forall|v: u64| v != entry.0 implies has_key(all.skip(k - 1), v)
                            == has_key(all.skip(k), v) && (has_key(all.skip(k), v) ==> lookup(
                            all.skip(k - 1),
                            v,
                        ) == lookup(all.skip(k), v)) by {
                            if has_key(all.skip(k - 1), v) {
                                let q = choose|q: int|
                                    0 <= q < all.skip(k - 1).len() && (#[trigger] all.skip(
                                        k - 1,
                                    )[q]).0 == v;
                                assert(all.skip(k)[q - 1].0 == v);
                            }
                            if has_key(all.skip(k), v) {
                                let q = choose|q: int|
                                    0 <= q < all.skip(k).len() && (#[trigger] all.skip(k)[q]).0
                                        == v;
                                assert(all.skip(k - 1)[q + 1].0 == v);
                            }
                        }
                        assert(unique_keys(entry.1@)) by {
                            assert(all[k - 1].1@ == entry.1@);
                        }
                    }
                    self.set_vm_usage(entry.0, entry.1);
                },
            }
        }
    }
}

/// Anonymous-memory footprint per tenant, reported alongside usage.
#[derive(Clone, Debug)]
pub struct AppStats {
    pub anon_memory_mb: Vec<(AppId, MemoryMb)>,
}

impl AppStats {
    pub open spec fn wf(self) -> bool {
        unique_keys(self.anon_memory_mb@)
    }
}

} // verus!
