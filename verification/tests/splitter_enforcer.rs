use spirit::enforcer::{
    high_watermark, plan_memory_limit, shrink_step, shrink_step_value, swap_ceiling_update,
    ShrinkStep, SWAP_CEILING_MB,
};
use spirit::splitter::GlobalAllocation;
use spirit::types::{UpdateConfig, UsageMap};

fn coordinator(placement: Vec<(u64, Vec<u64>)>) -> GlobalAllocation {
    GlobalAllocation {
        cur_config: UpdateConfig::new(),
        usage_map: UsageMap::new(),
        vm_ip_map: Vec::new(),
        placement_map: placement,
        id_preload_map: Vec::new(),
    }
}

fn alloc_of(r: &[(u64, UpdateConfig)], vm: u64, app: u64) -> Option<(u64, u64)> {
    r.iter()
        .find(|(v, _)| *v == vm)
        .and_then(|(_, c)| c.allocation_map.iter().find(|(a, _)| *a == app).map(|(_, x)| *x))
}

#[test]
fn splitter_three_vms_even() {
    let g = coordinator(vec![(7, vec![1, 2, 3])]);
    let mut cfg = UpdateConfig::new();
    cfg.set_allocation(7, 900, 300);
    let r = g.split_global_allocation(&cfg);
    assert_eq!(r.len(), 3);
    for vm in [1, 2, 3] {
        assert_eq!(alloc_of(&r, vm, 7), Some((300, 100)));
    }
}

#[test]
fn splitter_two_vms_remainder() {
    let g = coordinator(vec![(7, vec![1, 2])]);
    let mut cfg = UpdateConfig::new();
    cfg.set_allocation(7, 901, 301);
    let r = g.split_global_allocation(&cfg);
    assert_eq!(r.len(), 2);
    for vm in [1, 2] {
        assert_eq!(alloc_of(&r, vm, 7), Some((450, 150)));
    }
    // the residual of the integer division is handed to nobody
    let handed: u64 = r.iter().map(|(_, c)| c.allocation_map[0].1 .0).sum();
    assert_eq!(handed, 900);
}

#[test]
fn splitter_two_apps_shared_vm() {
    let g = coordinator(vec![(1, vec![10, 11]), (2, vec![11])]);
    let mut cfg = UpdateConfig::new();
    cfg.set_allocation(1, 100, 50);
    cfg.set_allocation(2, 64, 8);
    let r = g.split_global_allocation(&cfg);
    assert_eq!(r.len(), 2);
    assert_eq!(alloc_of(&r, 10, 1), Some((50, 25)));
    assert_eq!(alloc_of(&r, 11, 1), Some((50, 25)));
    assert_eq!(alloc_of(&r, 11, 2), Some((64, 8)));
    assert_eq!(alloc_of(&r, 10, 2), None);
}

#[test]
fn splitter_empty_config() {
    let g = coordinator(vec![(1, vec![10])]);
    let cfg = UpdateConfig::new();
    let r = g.split_global_allocation(&cfg);
    assert!(r.is_empty());
}

#[test]
fn enforcer_shrink_ten_to_five_gb() {
    // memory stays pinned at each written ceiling: the classic walk
    let readings = vec![10240, 10240, 9216, 8294, 7464, 6717];
    let w = plan_memory_limit(&readings, 5120);
    let maxes: Vec<u64> = w.iter().map(|p| p.0).collect();
    assert_eq!(maxes, vec![9216, 8294, 7464, 6717, 6045, 5120]);
    // at most ITER_MAX + 1 writes, the last one the target itself
    assert_eq!(w.len(), 6);
    assert_eq!(w[5], (5120, high_watermark(5120)));
    // each intermediate ceiling is nine tenths of the reading it answers
    for i in 0..5 {
        assert_eq!(w[i].0, readings[i + 1] * 9 / 10);
        assert_eq!(w[i].1, high_watermark(w[i].0));
    }
}

#[test]
fn enforcer_shrink_stops_when_consumption_drops() {
    // the workload shed memory by itself after the first round
    let readings = vec![10240, 10240, 5000, 0, 0, 0];
    let w = plan_memory_limit(&readings, 5120);
    let maxes: Vec<u64> = w.iter().map(|p| p.0).collect();
    assert_eq!(maxes, vec![9216, 5120]);
}

#[test]
fn enforcer_shrink_undershoot_breaks_to_target() {
    // nine tenths of the reading would land below the target
    let readings = vec![6000, 5500, 0, 0, 0, 0];
    let w = plan_memory_limit(&readings, 5120);
    let maxes: Vec<u64> = w.iter().map(|p| p.0).collect();
    // 5500 * 9 / 10 = 4950 < 5120: straight to the final write
    assert_eq!(maxes, vec![5120]);
}

#[test]
fn enforcer_grow_single_write() {
    let readings = vec![2048, 0, 0, 0, 0, 0];
    let w = plan_memory_limit(&readings, 8192);
    assert_eq!(w.len(), 1);
    assert_eq!(w[0], (8192, 7936));
}

#[test]
fn high_watermark_values() {
    // 256 MB below the ceiling, but never below nine tenths of it
    assert_eq!(high_watermark(8192), 7936);
    assert_eq!(high_watermark(1000), 900);
    assert_eq!(high_watermark(100), 90);
    assert_eq!(high_watermark(0), 0);
}

#[test]
fn shrink_step_decisions() {
    assert_eq!(shrink_step(5000, 5120), ShrinkStep::Reached);
    assert_eq!(shrink_step(5500, 5120), ShrinkStep::Undershoot);
    assert_eq!(shrink_step(10240, 5120), ShrinkStep::Step(9216));
    assert_eq!(shrink_step_value(11), 9);
}

#[test]
fn swap_ceiling_raised_only_upward() {
    assert_eq!(swap_ceiling_update(0), Some(SWAP_CEILING_MB));
    assert_eq!(swap_ceiling_update(SWAP_CEILING_MB - 1), Some(SWAP_CEILING_MB));
    assert_eq!(swap_ceiling_update(SWAP_CEILING_MB), None);
    assert_eq!(swap_ceiling_update(SWAP_CEILING_MB + 5), None);
}
