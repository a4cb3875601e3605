//! The coordinator's allocation splitter.
//!
//! A global per-tenant budget is divided uniformly over the VMs that host
//! the tenant: each VM receives the integer quotient of the budget by the
//! number of hosting VMs, on the memory axis and on the bandwidth axis.
//! The residual of the integer division is at most one less than the
//! number of VMs on each axis and is handed out to nobody.

use vstd::prelude::*;
use crate::assoc::{
    find_key, has_key, lemma_lookup_at, lemma_push_fresh, lemma_update_value, lookup, unique_keys,
};
use crate::convert::{AppId, BandwidthMbps, MemoryMb, VmId};
use crate::types::{UpdateConfig, UsageMap};

verus! {

/// What one of `n` hosting VMs receives of a tenant budget.
pub open spec fn vm_share(alloc: (MemoryMb, BandwidthMbps), n: int) -> (MemoryMb, BandwidthMbps)
    recommends
        n > 0,
{
    ((alloc.0 as int / n) as u64, (alloc.1 as int / n) as u64)
}

/// The per-VM allocation list `r` assigns tenant `app` the ceilings
/// `share` on VM `vm`.
pub open spec fn covers(
    r: Seq<(VmId, UpdateConfig)>,
    vm: VmId,
    app: AppId,
    share: (MemoryMb, BandwidthMbps),
) -> bool {
    has_key(r, vm) && lookup(r, vm).has_app(app) && lookup(r, vm).alloc_of(app) == share
}

/// The coordinator's view of the cluster: where each tenant runs, how to
/// reach each VM, and the budgets most recently decided.
pub struct GlobalAllocation {
    pub cur_config: UpdateConfig,
    pub usage_map: UsageMap,
    pub vm_ip_map: Vec<(VmId, String)>,
    pub placement_map: Vec<(AppId, Vec<VmId>)>,
    pub id_preload_map: Vec<(VmId, String)>,
}

impl GlobalAllocation {
    /// Maps read as maps, and every placed tenant runs on at least one VM.
    pub open spec fn wf(self) -> bool {
        &&& unique_keys(self.placement_map@)
        &&& unique_keys(self.vm_ip_map@)
        &&& forall|i: int|
            0 <= i < self.placement_map@.len() ==> (#[trigger] self.placement_map@[i]).1@.len() > 0
    }

    /// The VMs hosting tenant `app`.
    pub open spec fn vms_of(self, app: AppId) -> Seq<VmId> {
        lookup(self.placement_map@, app)@
    }

    /// Whether tenant `app` has a placement.
    pub open spec fn has_placement(self, app: AppId) -> bool {
        has_key(self.placement_map@, app)
    }

    /// Split a global allocation into one allocation per VM.
    ///
    /// A VM appears in the result exactly when it hosts a tenant of `cfg`,
    /// and its config holds exactly the tenants of `cfg` it hosts, each
    /// with the tenant's budget divided by the number of hosting VMs.
    pub fn split_global_allocation(&self, cfg: &UpdateConfig) -> (r: Vec<(VmId, UpdateConfig)>)
        requires
            self.wf(),
            cfg.wf(),
            forall|a: u64| cfg.has_app(a) ==> self.has_placement(a),
        ensures
            unique_keys(r@),
            forall|k: int| 0 <= k < r@.len() ==> (#[trigger] r@[k]).1.wf(),
            // every hosted tenant of cfg is covered on each of its VMs
            forall|i: int, j: int|
                0 <= i < cfg.allocation_map@.len() && 0 <= j < self.vms_of(
                    cfg.allocation_map@[i].0,
                ).len() ==> covers(
                    r@,
                    #[trigger] self.vms_of(cfg.allocation_map@[i].0)[j],
                    cfg.allocation_map@[i].0,
                    vm_share(
                        cfg.allocation_map@[i].1,
                        self.vms_of(cfg.allocation_map@[i].0).len() as int,
                    ),
                ),
            // nothing else is handed out
            forall|k: int, a: u64|
                0 <= k < r@.len() && (#[trigger] r@[k].1.has_app(a)) ==> cfg.has_app(a)
                    && self.has_placement(a) && self.vms_of(a).contains(r@[k].0) && r@[k].1.alloc_of(
                    a,
                ) == vm_share(cfg.alloc_of(a), self.vms_of(a).len() as int),
            // every VM listed is handed at least one tenant
            forall|k: int|
                0 <= k < r@.len() ==> (#[trigger] r@[k]).1.allocation_map@.len() > 0,
    {
        let cfg_len = cfg.allocation_map.len();
        let mut local_allocs: Vec<(VmId, UpdateConfig)> = Vec::new();
        let mut idx: usize = 0;
        while idx < cfg_len
            invariant
                self.wf(),
                cfg.wf(),
                forall|a: u64| cfg.has_app(a) ==> self.has_placement(a),
                cfg_len == cfg.allocation_map@.len(),
                idx <= cfg_len,
                unique_keys(local_allocs@),
                forall|k: int|
                    0 <= k < local_allocs@.len() ==> (#[trigger] local_allocs@[k]).1.wf(),
                forall|i: int, j: int|
                    0 <= i < idx && 0 <= j < self.vms_of(
                        cfg.allocation_map@[i].0,
                    ).len() ==> covers(
                        local_allocs@,
                        #[trigger] self.vms_of(cfg.allocation_map@[i].0)[j],
                        cfg.allocation_map@[i].0,
                        vm_share(
                            cfg.allocation_map@[i].1,
                            self.vms_of(cfg.allocation_map@[i].0).len() as int,
                        ),
                    ),
                forall|k: int, a: u64|
                    0 <= k < local_allocs@.len() && (#[trigger] local_allocs@[k].1.has_app(a))
                        ==> cfg.has_app(a) && self.has_placement(a) && self.vms_of(a).contains(
                        local_allocs@[k].0,
                    ) && local_allocs@[k].1.alloc_of(a) == vm_share(
                        cfg.alloc_of(a),
                        self.vms_of(a).len() as int,
                    ),
                forall|k: int|
                    0 <= k < local_allocs@.len() ==> (#[trigger] local_allocs@[k]).1.allocation_map@.len() > 0,
            decreases cfg_len - idx,
        {
            let app_id = cfg.allocation_map[idx].0;
            let mem = cfg.allocation_map[idx].1.0;
            let bw = cfg.allocation_map[idx].1.1;
            proof {
                lemma_lookup_at(cfg.allocation_map@, idx as int);
            }
            let pi = match find_key(&self.placement_map, app_id) {
                Some(pi) => pi,
                None => {
                    proof {
                        assert(cfg.has_app(app_id));
                        assert(self.has_placement(app_id));
                        assert(false);
                    }
                    0
                },
            };
            proof {
                lemma_lookup_at(self.placement_map@, pi as int);
            }
            let num_vms = self.placement_map[pi].1.len() as u64;
            let mem_alloc = mem / num_vms;
            let bw_alloc = bw / num_vms;
            let ghost share = (mem_alloc, bw_alloc);
            let mut j: usize = 0;
            while j < self.placement_map[pi].1.len()
                invariant
                    self.wf(),
                    cfg.wf(),
                    forall|a: u64| cfg.has_app(a) ==> self.has_placement(a),
                    cfg_len == cfg.allocation_map@.len(),
                    idx < cfg_len,
                    pi < self.placement_map@.len(),
                    self.placement_map@[pi as int].0 == app_id,
                    self.vms_of(app_id) == self.placement_map@[pi as int].1@,
                    cfg.allocation_map@[idx as int].0 == app_id,
                    cfg.has_app(app_id),
                    cfg.alloc_of(app_id) == (mem, bw),
                    self.has_placement(app_id),
                    num_vms == self.vms_of(app_id).len(),
                    num_vms > 0,
                    share == vm_share(cfg.alloc_of(app_id), num_vms as int),
                    share == (mem_alloc, bw_alloc),
                    j <= self.vms_of(app_id).len(),
                    unique_keys(local_allocs@),
                    forall|k: int|
                        0 <= k < local_allocs@.len() ==> (#[trigger] local_allocs@[k]).1.wf(),
                    forall|i: int, jj: int|
                        0 <= i < idx && 0 <= jj < self.vms_of(
                            cfg.allocation_map@[i].0,
                        ).len() ==> covers(
                            local_allocs@,
                            #[trigger] self.vms_of(cfg.allocation_map@[i].0)[jj],
                            cfg.allocation_map@[i].0,
                            vm_share(
                                cfg.allocation_map@[i].1,
                                self.vms_of(cfg.allocation_map@[i].0).len() as int,
                            ),
                        ),
                    forall|jj: int|
                        0 <= jj < j ==> covers(
                            local_allocs@,
                            self.vms_of(app_id)[jj],
                            app_id,
                            share,
                        ),
                    forall|k: int, a: u64|
                        0 <= k < local_allocs@.len() && (#[trigger] local_allocs@[k].1.has_app(a))
                            ==> cfg.has_app(a) && self.has_placement(a) && self.vms_of(a).contains(
                            local_allocs@[k].0,
                        ) && local_allocs@[k].1.alloc_of(a) == vm_share(
                            cfg.alloc_of(a),
                            self.vms_of(a).len() as int,
                        ),
                    forall|k: int|
                        0 <= k < local_allocs@.len() ==> (#[trigger] local_allocs@[k]).1.allocation_map@.len() > 0,
                decreases self.vms_of(app_id).len() - j,
            {
                let vm = self.placement_map[pi].1[j];
                proof {
                    assert(self.vms_of(app_id)[j as int] == vm);
                    assert(self.vms_of(app_id).contains(vm));
                }
                match find_key(&local_allocs, vm) {
                    Some(k) => {
                        let ghost la_old = local_allocs@;
                        proof {
                            lemma_lookup_at(la_old, k as int);
                        }
                        let entry = alloc_entry_mut(&mut local_allocs, k);
                        entry.set_allocation(app_id, mem_alloc, bw_alloc);
                        proof {
                            let la_new = local_allocs@;
                            let c_new = la_new[k as int].1;
                            lemma_update_value(la_old, k as int, c_new);
                            assert(la_new =~= la_old.update(k as int, (la_old[k as int].0, c_new)));
                            assert(lookup(la_new, vm) == c_new);
                            assert(c_new.has_app(app_id) && c_new.alloc_of(app_id) == share);
                            assert(covers(la_new, vm, app_id, share));
                            assert forall|vm2: u64, a: u64, s2: (u64, u64)|
                                covers(la_old, vm2, a, s2) && !(vm2 == vm && a == app_id) implies
                                #[trigger] covers(la_new, vm2, a, s2) by {
                                if vm2 == vm {
                                    assert(lookup(la_old, vm) == la_old[k as int].1);
                                } else {
                                    assert(lookup(la_new, vm2) == lookup(la_old, vm2));
                                }
                            }
                            assert forall|i: int, jj: int|
                                0 <= i < idx && 0 <= jj < self.vms_of(
                                    cfg.allocation_map@[i].0,
                                ).len() implies covers(
                                la_new,
                                #[trigger] self.vms_of(cfg.allocation_map@[i].0)[jj],
                                cfg.allocation_map@[i].0,
                                vm_share(
                                    cfg.allocation_map@[i].1,
                                    self.vms_of(cfg.allocation_map@[i].0).len() as int,
                                ),
                            ) by {
                                assert(cfg.allocation_map@[i].0 != app_id);
                                assert(covers(
                                    la_old,
                                    self.vms_of(cfg.allocation_map@[i].0)[jj],
                                    cfg.allocation_map@[i].0,
                                    vm_share(
                                        cfg.allocation_map@[i].1,
                                        self.vms_of(cfg.allocation_map@[i].0).len() as int,
                                    ),
                                ));
                            }
                            assert forall|jj: int| 0 <= jj < j + 1 implies covers(
                                la_new,
                                self.vms_of(app_id)[jj],
                                app_id,
                                share,
                            ) by {
                                if jj < j {
                                    assert(covers(la_old, self.vms_of(app_id)[jj], app_id, share));
                                    if self.vms_of(app_id)[jj] == vm {
                                        assert(lookup(la_old, vm) == la_old[k as int].1);
                                    }
                                }
                            }
                            assert forall|k2: int, a: u64|
                                0 <= k2 < la_new.len() && (#[trigger] la_new[k2].1.has_app(a))
                                    implies cfg.has_app(a) && self.has_placement(a)
                                    && self.vms_of(a).contains(la_new[k2].0)
                                    && la_new[k2].1.alloc_of(a) == vm_share(
                                    cfg.alloc_of(a),
                                    self.vms_of(a).len() as int,
                                ) by {
                                if k2 == k {
                                    if a != app_id {
                                        assert(la_old[k2].1.has_app(a));
                                    }
                                } else {
                                    assert(la_new[k2] == la_old[k2]);
                                    assert(la_old[k2].1.has_app(a));
                                }
                            }
                            assert forall|k2: int| 0 <= k2 < la_new.len() implies (
                            #[trigger] la_new[k2]).1.allocation_map@.len() > 0 by {
                                if k2 == k {
                                    assert(la_new[k2].1.has_app(app_id));
                                } else {
                                    assert(la_new[k2] == la_old[k2]);
                                }
                            }
                        }
                    },
                    None => {
                        let ghost la_old = local_allocs@;
                        let mut fresh = UpdateConfig::new();
                        fresh.set_allocation(app_id, mem_alloc, bw_alloc);
                        proof {
                            assert(forall|a: u64|
                                a != app_id ==> !(#[trigger] fresh.has_app(a)));
                            lemma_push_fresh(la_old, vm, fresh);
                        }
                        local_allocs.push((vm, fresh));
                        proof {
                            let la_new = local_allocs@;
                            assert(lookup(la_new, vm) == fresh);
                            assert(covers(la_new, vm, app_id, share));
                            assert forall|vm2: u64, a: u64, s2: (u64, u64)|
                                covers(la_old, vm2, a, s2) implies #[trigger] covers(
                                la_new,
                                vm2,
                                a,
                                s2,
                            ) by {
                                assert(vm2 != vm);
                                assert(lookup(la_new, vm2) == lookup(la_old, vm2));
                            }
                            assert forall|i: int, jj: int|
                                0 <= i < idx && 0 <= jj < self.vms_of(
                                    cfg.allocation_map@[i].0,
                                ).len() implies covers(
                                la_new,
                                #[trigger] self.vms_of(cfg.allocation_map@[i].0)[jj],
                                cfg.allocation_map@[i].0,
                                vm_share(
                                    cfg.allocation_map@[i].1,
                                    self.vms_of(cfg.allocation_map@[i].0).len() as int,
                                ),
                            ) by {
                                assert(covers(
                                    la_old,
                                    self.vms_of(cfg.allocation_map@[i].0)[jj],
                                    cfg.allocation_map@[i].0,
                                    vm_share(
                                        cfg.allocation_map@[i].1,
                                        self.vms_of(cfg.allocation_map@[i].0).len() as int,
                                    ),
                                ));
                            }
                            assert forall|jj: int| 0 <= jj < j + 1 implies covers(
                                la_new,
                                self.vms_of(app_id)[jj],
                                app_id,
                                share,
                            ) by {
                                if jj < j {
                                    assert(covers(la_old, self.vms_of(app_id)[jj], app_id, share));
                                }
                            }
                            assert forall|k2: int, a: u64|
                                0 <= k2 < la_new.len() && (#[trigger] la_new[k2].1.has_app(a))
                                    implies cfg.has_app(a) && self.has_placement(a)
                                    && self.vms_of(a).contains(la_new[k2].0)
                                    && la_new[k2].1.alloc_of(a) == vm_share(
                                    cfg.alloc_of(a),
                                    self.vms_of(a).len() as int,
                                ) by {
                                if k2 == la_old.len() {
                                    assert(a == app_id);
                                } else {
                                    assert(la_new[k2] == la_old[k2]);
                                    assert(la_old[k2].1.has_app(a));
                                }
                            }
                            assert forall|k2: int| 0 <= k2 < la_new.len() implies (
                            #[trigger] la_new[k2]).1.allocation_map@.len() > 0 by {
                                if k2 == la_old.len() {
                                    assert(la_new[k2].1.has_app(app_id));
                                } else {
                                    assert(la_new[k2] == la_old[k2]);
                                }
                            }
                        }
                    },
                }
                j = j + 1;
            }
            idx = idx + 1;
        }
        local_allocs
    }
}

/// Mutable access to the config stored at index `i`.
fn alloc_entry_mut(v: &mut Vec<(VmId, UpdateConfig)>, i: usize) -> (e: &mut UpdateConfig)
    requires
        i < old(v)@.len(),
    ensures
        *e == old(v)@[i as int].1,
        final(v)@ == old(v)@.update(i as int, (old(v)@[i as int].0, *final(e))),
{
    &mut v[i].1
}

/// What every tenant budget split conserves: over `n` hosting VMs the
/// shares sum to `n` times the integer quotient on each axis, which is at
/// most the budget and misses it by at most `n - 1`.
pub proof fn lemma_allocation_split_conservation(alloc: (MemoryMb, BandwidthMbps), n: int)
    requires
        1 <= n,
    ensures
        n * vm_share(alloc, n).0 <= alloc.0 < n * vm_share(alloc, n).0 + n,
        n * vm_share(alloc, n).1 <= alloc.1 < n * vm_share(alloc, n).1 + n,
{
    vstd::arithmetic::div_mod::lemma_remainder(alloc.0 as int, n);
    vstd::arithmetic::div_mod::lemma_remainder(alloc.1 as int, n);
    assert(0 <= alloc.0 as int / n <= alloc.0) by (nonlinear_arith)
        requires
            1 <= n,
            0 <= alloc.0,
    ;
    assert(0 <= alloc.1 as int / n <= alloc.1) by (nonlinear_arith)
        requires
            1 <= n,
            0 <= alloc.1,
    ;
    assert(alloc.0 as int / n * n == n * (alloc.0 as int / n)) by (nonlinear_arith);
    assert(alloc.1 as int / n * n == n * (alloc.1 as int / n)) by (nonlinear_arith);
}

} // verus!
