use spirit::bench::{
    initialize_buckets, should_perform_set, should_reset_perf_metrics, update_index,
    update_trace_time, NUM_BUCKETS,
};
use spirit::config::{precheck_config, InitConfig, PreloadMap};
use spirit::convert::{
    bw_to_req, bytes_to_report_mbps, mbps_to_bytes_interval, mbps_to_bytes_per_sec, req_to_bw,
};
use spirit::perfstat::{blk_bandwidth_update, derive_app_usage, BlkUseStat, PerfStat};
use spirit::requests::{DatabaseOperation, DatabaseRequest};
use spirit::types::{AppStats, AppUsage, UpdateConfig, UsageMap};

fn agent_config(entries: Vec<PreloadMap>) -> InitConfig {
    InitConfig {
        id_preload_map: entries,
        id_benchmark_map: Vec::new(),
        memory_dev_name: String::from("/dev/nvme0n1"),
        memory_ip: String::from("10.0.0.2"),
        global_ip: String::from("10.0.0.1"),
        config_path: None,
        init_script: None,
        enable_mrc: Some(true),
        vm_id: Some(3),
    }
}

fn entry(id: u64, name: &str, launch: Option<bool>, script: &str) -> PreloadMap {
    PreloadMap {
        id,
        script: String::from(script),
        docker_name: String::from(name),
        launch,
        cgroup_map: None,
        port: None,
    }
}

#[test]
fn conversions_exact() {
    assert_eq!(bw_to_req(100, 1024), 2441);
    assert_eq!(req_to_bw(1000, 1048576), 8000);
    assert_eq!(bytes_to_report_mbps(1048576, 1_000_000), 8);
    assert_eq!(bytes_to_report_mbps(1048576, 2_000_000), 4);
    assert_eq!(mbps_to_bytes_interval(8), 209715);
    assert_eq!(mbps_to_bytes_per_sec(100), 12_500_000);
}

#[test]
fn allocation_map_insert_and_update() {
    let mut cfg = UpdateConfig::new();
    cfg.set_allocation(1, 100, 10);
    cfg.set_allocation(2, 200, 20);
    cfg.set_allocation(1, 150, 15);
    assert_eq!(cfg.allocation_map.len(), 2);
    assert_eq!(cfg.get_allocation(1), Some((150, 15)));
    assert_eq!(cfg.get_allocation(2), Some((200, 20)));
    assert_eq!(cfg.get_allocation(3), None);
}

#[test]
fn usage_map_merge_by_vm() {
    fn report(vm: u64, app: u64, bw: u64) -> Vec<(u64, AppUsage)> {
        vec![(
            app,
            AppUsage {
                vm_id: vm,
                app_id: app,
                mem_mb: 0,
                bw_mbps: bw,
                cache_mbps: 0,
                access_mem_ops_sec: 0,
                access_rate_ops_sec: 0,
                hit_rate_ppm: 0,
                local_lat: 0,
                remote_lat: 0,
                mrc: None,
            },
        )]
    }
    let mut view = UsageMap::new();
    view.set_vm_usage(1, report(1, 9, 10));
    view.set_vm_usage(2, report(2, 9, 20));
    let mut incoming = UsageMap::new();
    incoming.set_vm_usage(2, report(2, 9, 25));
    incoming.set_vm_usage(3, report(3, 9, 30));
    view.merge(incoming);
    assert_eq!(view.map.len(), 3);
    let bw_of = |vm: u64| {
        view.map
            .iter()
            .find(|e| e.0 == vm)
            .map(|e| e.1[0].1.bw_mbps)
            .unwrap()
    };
    assert_eq!(bw_of(1), 10);
    assert_eq!(bw_of(2), 25);
    assert_eq!(bw_of(3), 30);
}

#[test]
fn perf_windows_average() {
    let mut s = PerfStat::new();
    s.update(100, 200, 4, 50);
    assert_eq!(s.avg_miss, 100);
    assert_eq!(s.avg_hit, 200);
    s.update(200, 400, 8, 100);
    assert_eq!(s.avg_miss, 150);
    assert_eq!(s.avg_hit, 300);
    assert_eq!(s.avg_faults, 6);
    assert_eq!(s.avg_mem_ops, 75);
    s.drop_records();
    assert_eq!(s.avg_miss, 0);
    assert_eq!(s.avg_faults, 6);
}

#[test]
fn perf_window_bounded_at_sixteen() {
    let mut s = PerfStat::new();
    for i in 0..40u64 {
        s.update(i, 0, 0, 0);
    }
    assert_eq!(s.cache_misses.len(), 16);
    // mean of 24..=39
    assert_eq!(s.avg_miss, (24..40).sum::<u64>() / 16);
}

#[test]
fn block_bandwidth_deltas() {
    let mut b = BlkUseStat::new();
    // 100 Mbit/s: 13107200 bytes over one second
    assert_eq!(blk_bandwidth_update(&mut b, 13107200, 0, 1000), 100);
    // the clock must advance
    assert_eq!(blk_bandwidth_update(&mut b, 99999999, 0, 1000), 0);
    assert_eq!(b.prev_read_bytes, 13107200);
    // no further traffic
    assert_eq!(blk_bandwidth_update(&mut b, 13107200, 13107200, 2000), 100);
    assert_eq!(blk_bandwidth_update(&mut b, 13107200, 13107200, 3000), 0);
}

#[test]
fn app_usage_from_counters() {
    let mut s = PerfStat::new();
    s.update(125000, 250000, 10, 42);
    let mrc = vec![(256u64, 500_000u64), (512, 0)];
    let u = derive_app_usage(3, 9, 2048, 77, &s, Some(mrc.clone()));
    assert_eq!(u.vm_id, 3);
    assert_eq!(u.app_id, 9);
    assert_eq!(u.mem_mb, 2048);
    assert_eq!(u.bw_mbps, 77);
    assert_eq!(u.cache_mbps, 64);
    assert_eq!(u.access_rate_ops_sec, 128);
    assert_eq!(u.access_mem_ops_sec, 42);
    assert_eq!(u.hit_rate_ppm, 80);
    assert_eq!(u.mrc, Some(mrc));
}

#[test]
fn fault_ratio_with_no_misses() {
    let mut s = PerfStat::new();
    s.update(0, 0, 7, 0);
    let u = derive_app_usage(1, 1, 0, 0, &s, None);
    // divided by a floor of one miss
    assert_eq!(u.hit_rate_ppm, 7_000_000);
}

#[test]
fn config_validation() {
    let ok = agent_config(vec![
        entry(1, "cache-a", Some(true), "launch.sh"),
        entry(2, "cache-b", None, ""),
    ]);
    assert!(precheck_config(&ok));
    // tenant identifiers are opaque machine words; any value is a key
    let large_id = agent_config(vec![entry(u64::MAX, "cache-a", None, "")]);
    assert!(precheck_config(&large_id));
    let unnamed = agent_config(vec![entry(1, "", None, "")]);
    assert!(!precheck_config(&unnamed));
    let launch_without_script = agent_config(vec![entry(1, "cache-a", Some(true), "")]);
    assert!(!precheck_config(&launch_without_script));
    let no_launch_no_script = agent_config(vec![entry(1, "cache-a", Some(false), "")]);
    assert!(precheck_config(&no_launch_no_script));
}

#[test]
fn bench_helpers() {
    let mut idx = 10u64;
    update_index(&mut idx, 4, 2, 100);
    assert_eq!(idx, 14);
    update_index(&mut idx, 4, 2, 15);
    assert_eq!(idx, 2);

    assert!(should_perform_set(10, 20));
    assert!(!should_perform_set(20, 20));
    assert!(!should_perform_set(10, 0));

    assert!(should_reset_perf_metrics(0, true, 31, 100));
    assert!(!should_reset_perf_metrics(0, true, 30, 100));
    assert!(!should_reset_perf_metrics(1, true, 31, 100));
    assert!(!should_reset_perf_metrics(0, false, 31, 100));

    let mut prev = 0u64;
    let mut trace = 5u64;
    update_trace_time(&mut prev, 500, &mut trace);
    assert_eq!((prev, trace), (0, 5));
    update_trace_time(&mut prev, 1501, &mut trace);
    assert_eq!((prev, trace), (1501, 6));

    let buckets = initialize_buckets();
    assert_eq!(buckets.len(), NUM_BUCKETS);
    assert!(buckets.iter().all(|b| *b == 0));
}

#[test]
fn request_records() {
    let d = DatabaseRequest::default();
    assert_eq!(d.operation, DatabaseOperation::Unknown);
    assert!(d.key.is_empty());
    assert!(d.value.is_none());
    assert_eq!(DatabaseOperation::Get.label(), "Get");
    assert_eq!(DatabaseOperation::GetAndPut.label(), "GetAndPut");
    assert_eq!(DatabaseOperation::default(), DatabaseOperation::Unknown);
}

#[test]
fn app_stats_carries_anon_figures() {
    let st = AppStats { anon_memory_mb: vec![(9, 4), (10, 8)] };
    assert_eq!(st.anon_memory_mb.iter().find(|e| e.0 == 10).unwrap().1, 8);
}

#[test]
fn failed_estimation_keeps_previous_curve() {
    // the agent replaces the stored curve only on a successful cycle;
    // a skipped cycle reports the previous one unchanged
    let mut s = PerfStat::new();
    s.update(10, 10, 1, 1);
    let first = vec![(256u64, 800_000u64), (512, 0)];
    s.update_mrc(first.clone());
    let reported = derive_app_usage(1, 9, 0, 0, &s, Some(s.mrc.clone()));
    assert_eq!(reported.mrc, Some(first.clone()));
    // nothing written between two reports: still the same curve
    let reported_again = derive_app_usage(1, 9, 0, 0, &s, Some(s.mrc.clone()));
    assert_eq!(reported_again.mrc, Some(first));
}
