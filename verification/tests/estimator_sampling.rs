use spirit::estimator::{
    average_records, cache_accesses_per_sec, cache_size_grid, collect_app_records, finalize_mrc,
    miss_ratio_transient, mrc_entry_ppm, observed_miss_ratio_ppm, pages_fetched_of, prepare_estimate,
    AppRecord, EstimateSkip, UsageHistory, LEN_PERF_HISTORY, PPM,
};
use spirit::types::UpdateConfig;
use spirit::sampling::{
    filter_user_pages, frequency_buckets, page_frequencies, quantize_to_pages,
    sample_frequency_buckets, KERNEL_SPACE_FIRST_PAGE,
};
use spirit::types::{AppStats, AppUsage, UsageMap};

fn usage(vm: u64, app: u64, bw: u64, cache: u64, hit_ppm: u64) -> AppUsage {
    AppUsage {
        vm_id: vm,
        app_id: app,
        mem_mb: 0,
        bw_mbps: bw,
        cache_mbps: cache,
        access_mem_ops_sec: 0,
        access_rate_ops_sec: 0,
        hit_rate_ppm: hit_ppm,
        local_lat: 0,
        remote_lat: 0,
        mrc: None,
    }
}

#[test]
fn grid_covers_256mb_to_16gb() {
    let g = cache_size_grid();
    assert_eq!(g.len(), 64);
    assert_eq!(g[0], 256);
    assert_eq!(g[1], 512);
    assert_eq!(g[63], 16384);
}

#[test]
fn finalize_clamps_and_zeroes_last() {
    let mut ratios = vec![500_000u64; 64];
    ratios[0] = 2_000_000; // beyond one: clamped
    let mrc = finalize_mrc(&ratios);
    assert_eq!(mrc.len(), 64);
    assert_eq!(mrc[0], (256, 1_000_000));
    assert_eq!(mrc[1], (512, 500_000));
    assert_eq!(mrc[63], (16384, 0));
}

#[test]
fn finalize_keeps_monotone_input_monotone() {
    let mut ratios: Vec<u64> = Vec::new();
    for i in 0..64u64 {
        ratios.push(640_000 - i * 10_000);
    }
    let mrc = finalize_mrc(&ratios);
    for i in 1..mrc.len() {
        assert!(mrc[i - 1].1 >= mrc[i].1);
    }
    assert_eq!(mrc[63].1, 0);
}

#[test]
fn trivial_sample_yields_all_zero_curve() {
    // a single repeated page and nothing fetched from the block device
    let sample = vec![7, 7, 7, 7];
    let (pages, _) = sample_frequency_buckets(&sample);
    let pages_detected = pages.len() as u64;
    assert_eq!(pages_detected, 1);
    let anon_pages = 100u64; // footprint far below the smallest grid size
    let grid = cache_size_grid();
    let mut ratios = Vec::new();
    for c in &grid {
        let cache_pages = c * 256;
        ratios.push(mrc_entry_ppm(700_000, cache_pages, pages_detected, anon_pages));
    }
    let mrc = finalize_mrc(&ratios);
    assert!(mrc.iter().all(|e| e.1 == 0));
    // and nothing fetched keeps the window from reading as transient
    let mr = observed_miss_ratio_ppm(900_000, 0, 1000);
    assert_eq!(mr, 0);
    assert!(!miss_ratio_transient(mr));
}

#[test]
fn transient_window_is_rejected() {
    assert!(miss_ratio_transient(PPM));
    assert!(miss_ratio_transient(PPM + 1));
    assert!(!miss_ratio_transient(PPM - 1));
}

#[test]
fn observed_miss_ratio_takes_least_ratio() {
    // fault ratio 0.5, fetched/accessed 0.1, one: least is 0.1, then /8
    assert_eq!(observed_miss_ratio_ppm(500_000, 100, 1000), 12_500);
    // the constant one dominates nothing: a huge fetch ratio is capped
    assert_eq!(observed_miss_ratio_ppm(2_000_000, 5000, 1000), 125_000);
}

#[test]
fn working_quantities() {
    assert_eq!(pages_fetched_of(10), 320);
    assert_eq!(cache_accesses_per_sec(64), 125_000);
}

#[test]
fn frequency_pipeline_conserves_sample() {
    let sample = vec![1, 1, 2, 3, 3, 3];
    let pages = page_frequencies(&sample);
    assert_eq!(pages.len(), 3);
    let count_of = |p: u64| pages.iter().find(|e| e.0 == p).map(|e| e.1);
    assert_eq!(count_of(1), Some(2));
    assert_eq!(count_of(2), Some(1));
    assert_eq!(count_of(3), Some(3));
    let buckets = frequency_buckets(&pages);
    let bucket_of = |f: u64| buckets.iter().find(|e| e.0 == f).map(|e| e.1);
    assert_eq!(bucket_of(1), Some(1));
    assert_eq!(bucket_of(2), Some(1));
    assert_eq!(bucket_of(3), Some(1));
    // the frequency-to-data roundtrip of every sampling window
    let weighted: u64 = buckets.iter().map(|e| e.0 * e.1).sum();
    assert_eq!(weighted, sample.len() as u64);
}

#[test]
fn frequency_pipeline_on_empty_sample() {
    let sample: Vec<u64> = Vec::new();
    let (pages, buckets) = sample_frequency_buckets(&sample);
    assert!(pages.is_empty());
    assert!(buckets.is_empty());
}

#[test]
fn quantize_and_filter() {
    let addrs = vec![4096, 8191, 0xFFFF_8000_0000_1000];
    let pages = quantize_to_pages(&addrs);
    assert_eq!(pages, vec![1, 1, 0xFFFF_8000_0000_1000 / 4096]);
    let user = filter_user_pages(&pages);
    assert_eq!(user, vec![1, 1]);
    assert!(pages[2] >= KERNEL_SPACE_FIRST_PAGE);
}

#[test]
fn history_window_holds_last_hundred() {
    let mut h = UsageHistory::new();
    for i in 0..105u64 {
        let mut um = UsageMap::new();
        um.set_vm_usage(1, vec![(9, usage(1, 9, i, 0, 0))]);
        let st = AppStats { anon_memory_mb: vec![(9, i)] };
        h.push(um, st);
    }
    assert_eq!(h.records.len(), LEN_PERF_HISTORY);
    // the five oldest reports have been dropped
    assert_eq!(h.records[0].1.anon_memory_mb[0].1, 5);
    assert_eq!(h.records[99].1.anon_memory_mb[0].1, 104);
}

#[test]
fn collect_records_needs_every_report() {
    let mut h = UsageHistory::new();
    let mut um = UsageMap::new();
    um.set_vm_usage(1, vec![(9, usage(1, 9, 10, 20, 100))]);
    h.push(um, AppStats { anon_memory_mb: vec![(9, 4)] });
    let r = collect_app_records(&h, 1, 9).expect("record present");
    assert_eq!(r.len(), 1);
    assert_eq!(r[0].bw_mbps, 10);
    assert_eq!(r[0].cache_mbps, 20);
    assert_eq!(r[0].anon_mem_mb, 4);
    // a report without the tenant's stats aborts the cycle
    let mut um2 = UsageMap::new();
    um2.set_vm_usage(1, vec![(9, usage(1, 9, 10, 20, 100))]);
    h.push(um2, AppStats { anon_memory_mb: Vec::new() });
    assert!(collect_app_records(&h, 1, 9).is_none());
    // and so does one from another VM only
    let mut h2 = UsageHistory::new();
    let mut um3 = UsageMap::new();
    um3.set_vm_usage(2, vec![(9, usage(2, 9, 10, 20, 100))]);
    h2.push(um3, AppStats { anon_memory_mb: vec![(9, 4)] });
    assert!(collect_app_records(&h2, 1, 9).is_none());
}

#[test]
fn averages_over_window() {
    let records = vec![
        AppRecord { bw_mbps: 10, cache_mbps: 30, access_rate_ops_sec: 5, hit_rate_ppm: 100, anon_mem_mb: 4 },
        AppRecord { bw_mbps: 20, cache_mbps: 50, access_rate_ops_sec: 7, hit_rate_ppm: 300, anon_mem_mb: 8 },
    ];
    let a = average_records(&records);
    assert_eq!(a.avg_bio_mbps, 15);
    assert_eq!(a.avg_cache_miss_mbps, 40);
    assert_eq!(a.avg_cache_ref_ops_sec, 6);
    assert_eq!(a.avg_fault_ratio_ppm, 200);
    // (4 + 8) MB as 4 KiB pages, averaged
    assert_eq!(a.avg_anon_pages, 1536);
}

#[test]
fn buckets_sorted_hottest_first() {
    let buckets = vec![(1u64, 5u64), (7, 1), (3, 2)];
    let sorted = spirit::sampling::sort_buckets_desc(&buckets);
    assert_eq!(sorted, vec![(7, 1), (3, 2), (1, 5)]);
}

#[test]
fn estimation_cycle_skip_reasons() {
    let empty_history = UsageHistory::new();
    let no_cfg = UpdateConfig::new();

    // nothing sampled from user space
    let kernel_only = vec![KERNEL_SPACE_FIRST_PAGE, KERNEL_SPACE_FIRST_PAGE + 7];
    assert!(matches!(
        prepare_estimate(&kernel_only, &empty_history, 1, 9, &no_cfg),
        Err(EstimateSkip::EmptySample)
    ));

    // no ceilings recorded for the tenant
    let sample = vec![5, 5, 6];
    assert!(matches!(
        prepare_estimate(&sample, &empty_history, 1, 9, &no_cfg),
        Err(EstimateSkip::NoAllocation)
    ));

    // not enough reports yet
    let mut cfg = UpdateConfig::new();
    cfg.set_allocation(9, 1024, 100);
    assert!(matches!(
        prepare_estimate(&sample, &empty_history, 1, 9, &cfg),
        Err(EstimateSkip::HistoryShort)
    ));

    // a full window, but one report without the tenant's figures
    let mut short_history = UsageHistory::new();
    for _ in 0..LEN_PERF_HISTORY {
        short_history.push(UsageMap::new(), AppStats { anon_memory_mb: Vec::new() });
    }
    assert!(matches!(
        prepare_estimate(&sample, &short_history, 1, 9, &cfg),
        Err(EstimateSkip::MissingRecord)
    ));
}

#[test]
fn estimation_cycle_full_window() {
    fn window(bw: u64, cache: u64, fault_ppm: u64, anon: u64) -> UsageHistory {
        let mut h = UsageHistory::new();
        for _ in 0..LEN_PERF_HISTORY {
            let mut um = UsageMap::new();
            um.set_vm_usage(1, vec![(9, usage(1, 9, bw, cache, fault_ppm))]);
            h.push(um, AppStats { anon_memory_mb: vec![(9, anon)] });
        }
        h
    }

    let mut cfg = UpdateConfig::new();
    cfg.set_allocation(9, 1024, 100);
    let sample = vec![5, 5, 6];

    let inputs = prepare_estimate(&sample, &window(10, 64, 500_000, 4), 1, 9, &cfg)
        .expect("cycle runs");
    assert_eq!(inputs.pages_detected, 2);
    assert_eq!(inputs.cache_size_pages, 1024 * 256);
    assert_eq!(inputs.anon_pages, 1024);
    assert_eq!(inputs.averages.avg_bio_mbps, 10);
    assert_eq!(inputs.pages_fetched, 320);
    assert_eq!(inputs.cache_accesses, 125_000);
    // min(1, 0.5, 320/125000) / 8 in parts per million
    assert_eq!(inputs.observed_miss_ratio_ppm, 320);

    // an absurd anonymous footprint stops the page conversion
    assert!(matches!(
        prepare_estimate(&sample, &window(10, 64, 0, u64::MAX), 1, 9, &cfg),
        Err(EstimateSkip::FootprintOverflow)
    ));
    // an absurd bandwidth average stops the working quantities
    assert!(matches!(
        prepare_estimate(&sample, &window(u64::MAX, 64, 0, 4), 1, 9, &cfg),
        Err(EstimateSkip::RateOverflow)
    ));
}
