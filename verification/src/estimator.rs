//! Integer bookkeeping of the miss-ratio-curve estimator.
//!
//! The estimator predicts, for a grid of hypothetical cache sizes, the
//! miss ratio a tenant would see.  The non-linear curve fit itself works
//! on real numbers and lives outside the verified library; everything
//! around it is integer logic and lives here: the cache-size grid, the
//! working quantities derived from the report history, the guards that
//! skip an estimation cycle, and the emission step that turns fitted
//! ratios into the final curve.  Ratios are carried in parts per million.

use vstd::prelude::*;
use crate::assoc::{find_key, has_key, lemma_lookup_at, lookup, unique_keys};
use crate::convert::{AppId, BandwidthMbps, MemoryMb, VmId, MBPS_TO_BYTES_PER_SEC};
use crate::sampling::{sample_frequency_buckets, sum_counts, user_pages_of, weighted_sum};
use crate::types::{AppStats, UpdateConfig, UsageMap};

verus! {

use vstd::math::min;

/// Largest cache size of the grid, in MB.
pub const MAX_CACHE_IN_MB: u64 = 16384;

/// Spacing of the cache-size grid, in MB.
pub const CACHE_GRANULARITY_MB: u64 = 256;

/// Cache line size, in bytes.
pub const CACHE_LINE_SIZE_BYTES: u64 = 64;

/// Reports required before an estimation cycle may run.
pub const LEN_PERF_HISTORY: usize = 100;

/// Kernel read-ahead amplifies block reads over cache-line misses by
/// this factor; observed miss ratios are scaled down by it.
pub const OS_PREFETCH_FACTOR: u64 = 8;

/// One, in parts per million.
pub const PPM: u64 = 1000000;

/// Pages of 4 KiB per MB.
pub const PAGES_PER_MB: u64 = 256;

/// A sequence is non-increasing.
pub open spec fn non_increasing(s: Seq<u64>) -> bool {
    forall|i: int, j: int| 0 <= i <= j < s.len() ==> s[i] >= s[j]
}

/// The miss ratios of a curve are non-increasing in the cache size.
pub open spec fn mrc_monotone(m: Seq<(u64, u64)>) -> bool {
    forall|i: int, j: int| 0 <= i <= j < m.len() ==> (#[trigger] m[i]).1 >= (#[trigger] m[j]).1
}

/// The cache sizes at which the curve is evaluated: 256 MB to 16384 MB
/// in steps of 256 MB.
pub fn cache_size_grid() -> (r: Vec<u64>)
    ensures
        r@.len() == MAX_CACHE_IN_MB / CACHE_GRANULARITY_MB,
        forall|i: int|
            0 <= i < r@.len() ==> #[trigger] r@[i] == CACHE_GRANULARITY_MB * (i + 1),
{
    let mut r: Vec<u64> = Vec::new();
    let mut c: u64 = CACHE_GRANULARITY_MB;
    while c <= MAX_CACHE_IN_MB
        invariant
            CACHE_GRANULARITY_MB <= c <= MAX_CACHE_IN_MB + CACHE_GRANULARITY_MB,
            c % CACHE_GRANULARITY_MB == 0,
            r@.len() == c / CACHE_GRANULARITY_MB - 1,
            forall|i: int|
                0 <= i < r@.len() ==> #[trigger] r@[i] == CACHE_GRANULARITY_MB * (i + 1),
        decreases MAX_CACHE_IN_MB + CACHE_GRANULARITY_MB - c,
    {
        r.push(c);
        c = c + CACHE_GRANULARITY_MB;
    }
    r
}

/// The candidate miss ratio emitted for one grid size before clamping:
/// the fitted value where the model applies, zero where the cache
/// already holds every detected page or exceeds the anonymous footprint.
pub open spec fn spec_mrc_entry_ppm(
    fitted_ppm: u64,
    cache_pages: u64,
    pages_detected: u64,
    anon_pages: u64,
) -> u64 {
    if cache_pages > pages_detected && cache_pages <= anon_pages {
        fitted_ppm
    } else {
        0
    }
}

/// Candidate miss ratio for one grid size.
pub fn mrc_entry_ppm(fitted_ppm: u64, cache_pages: u64, pages_detected: u64, anon_pages: u64) -> (r:
    u64)
    ensures
        r == spec_mrc_entry_ppm(fitted_ppm, cache_pages, pages_detected, anon_pages),
{
    if cache_pages > pages_detected && cache_pages <= anon_pages {
        fitted_ppm
    } else {
        0
    }
}

/// Pair candidate miss ratios with the cache-size grid, clamp each into
/// `[0, PPM]`, and force the entry for the largest size to zero.
///
/// Monotone MRC: the produced curve pairs the `i`-th ratio with the
/// `i`-th grid size, every ratio lies in `[0, PPM]`, the last one is
/// zero, and a non-increasing input yields a non-increasing curve.
pub fn finalize_mrc(ratios_ppm: &Vec<u64>) -> (r: Vec<(u64, u64)>)
    requires
        ratios_ppm@.len() == MAX_CACHE_IN_MB / CACHE_GRANULARITY_MB,
    ensures
        r@.len() == ratios_ppm@.len(),
        forall|i: int|
            0 <= i < r@.len() ==> (#[trigger] r@[i]).0 == CACHE_GRANULARITY_MB * (i + 1),
        forall|i: int|
            0 <= i < r@.len() - 1 ==> (#[trigger] r@[i]).1 == min(
                ratios_ppm@[i] as int,
                PPM as int,
            ),
        r@[r@.len() - 1].1 == 0,
        forall|i: int| 0 <= i < r@.len() ==> (#[trigger] r@[i]).1 <= PPM,
        non_increasing(ratios_ppm@) ==> mrc_monotone(r@),
{
    let grid = cache_size_grid();
    let n = grid.len();
    let mut r: Vec<(u64, u64)> = Vec::new();
    let mut i: usize = 0;
    while i < n
        invariant
            n == grid@.len(),
            n == ratios_ppm@.len(),
            i <= n,
            r@.len() == i,
            forall|k: int|
                0 <= k < grid@.len() ==> #[trigger] grid@[k] == CACHE_GRANULARITY_MB * (k + 1),
            forall|k: int|
                0 <= k < r@.len() ==> (#[trigger] r@[k]).0 == CACHE_GRANULARITY_MB * (k + 1),
            forall|k: int|
                0 <= k < r@.len() ==> (#[trigger] r@[k]).1 == min(
                    ratios_ppm@[k] as int,
                    PPM as int,
                ),
        decreases n - i,
    {
        let ratio = ratios_ppm[i];
        let clamped = if ratio > PPM {
            PPM
        } else {
            ratio
        };
        r.push((grid[i], clamped));
        i = i + 1;
    }
    let last = n - 1;
    let size_last = r[last].0;
    r.set(last, (size_last, 0));
    proof {
        if non_increasing(ratios_ppm@) {
            assert forall|i2: int, j2: int| 0 <= i2 <= j2 < r@.len() implies (#[trigger] r@[i2]).1
                >= (#[trigger] r@[j2]).1 by {
                if j2 < r@.len() - 1 {
                    assert(ratios_ppm@[i2] >= ratios_ppm@[j2]);
                }
            }
        }
    }
    r
}

/// Pages fetched per second from block I/O at `avg_bio_mbps` megabits
/// per second: megabits to bytes, bytes to 4 KiB pages.
pub fn pages_fetched_of(avg_bio_mbps: BandwidthMbps) -> (r: u64)
    requires
        avg_bio_mbps * 32 <= u64::MAX,
    ensures
        r == avg_bio_mbps as int * 1024 * 1024 / 8 / 4096,
        r == avg_bio_mbps * 32,
{
    proof {
        assert(avg_bio_mbps as int * 1024 * 1024 / 8 / 4096 == avg_bio_mbps as int * 32) by (nonlinear_arith);
    }
    avg_bio_mbps * 32
}

/// Last-level-cache misses per second implied by a cache-miss bandwidth
/// in megabits per second.
pub fn cache_accesses_per_sec(cache_mbps: BandwidthMbps) -> (r: u64)
    requires
        cache_mbps * crate::convert::MBPS_TO_BYTES_PER_SEC <= u64::MAX,
    ensures
        r == cache_mbps as int * crate::convert::MBPS_TO_BYTES_PER_SEC as int / CACHE_LINE_SIZE_BYTES as int,
{
    cache_mbps * crate::convert::MBPS_TO_BYTES_PER_SEC / CACHE_LINE_SIZE_BYTES
}

/// The observed miss ratio, in parts per million: the least of one, the
/// fault ratio, and the fetched-to-accessed page ratio, scaled down by
/// the kernel read-ahead factor.
pub open spec fn spec_observed_miss_ratio_ppm(
    fault_ratio_ppm: u64,
    pages_fetched: u64,
    accesses: u64,
) -> int {
    min(
        min(PPM as int, fault_ratio_ppm as int),
        pages_fetched as int * PPM / accesses as int,
    ) / OS_PREFETCH_FACTOR as int
}

/// Observed miss ratio of the current window, in parts per million.
pub fn observed_miss_ratio_ppm(fault_ratio_ppm: u64, pages_fetched: u64, accesses: u64) -> (r: u64)
    requires
        accesses > 0,
    ensures
        r == spec_observed_miss_ratio_ppm(fault_ratio_ppm, pages_fetched, accesses),
        r <= PPM / OS_PREFETCH_FACTOR,
{
    let fetched_ratio = (pages_fetched as u128) * (PPM as u128) / (accesses as u128);
    let mut m: u128 = PPM as u128;
    if (fault_ratio_ppm as u128) < m {
        m = fault_ratio_ppm as u128;
    }
    if fetched_ratio < m {
        m = fetched_ratio;
    }
    (m / (OS_PREFETCH_FACTOR as u128)) as u64
}

/// An estimation cycle is abandoned when the observed miss ratio reaches
/// one: the window's data is too transient to fit.
pub fn miss_ratio_transient(mr_ppm: u64) -> (r: bool)
    ensures
        r == (mr_ppm >= PPM),
{
    mr_ppm >= PPM
}


/// The figures of one usage report that the estimator consumes for one
/// tenant.
#[derive(Clone, Copy, Debug, PartialEq, Eq, Structural)]
pub struct AppRecord {
    pub bw_mbps: BandwidthMbps,
    pub cache_mbps: BandwidthMbps,
    pub access_rate_ops_sec: u64,
    pub hit_rate_ppm: u64,
    pub anon_mem_mb: MemoryMb,
}

/// The rolling window of recent usage reports the estimator reads,
/// bounded at `LEN_PERF_HISTORY` entries.
pub struct UsageHistory {
    pub records: Vec<(UsageMap, AppStats)>,
}

impl UsageHistory {
    /// The window never exceeds its bound and holds well-formed maps.
    pub open spec fn wf(self) -> bool {
        &&& self.records@.len() <= LEN_PERF_HISTORY
        &&& forall|i: int|
            0 <= i < self.records@.len() ==> (#[trigger] self.records@[i]).0.wf()
                && self.records@[i].1.wf()
    }

    pub fn new() -> (r: Self)
        ensures
            r.wf(),
            r.records@.len() == 0,
    {
        UsageHistory { records: Vec::new() }
    }

    /// Append the newest report; once the window is full the oldest
    /// entry makes room.
    pub fn push(&mut self, usage: UsageMap, stats: AppStats)
        requires
            old(self).wf(),
            usage.wf(),
            stats.wf(),
        ensures
            final(self).wf(),
            old(self).records@.len() < LEN_PERF_HISTORY ==> final(self).records@ == old(
                self,
            ).records@.push((usage, stats)),
            old(self).records@.len() == LEN_PERF_HISTORY ==> final(self).records@ == old(
                self,
            ).records@.drop_first().push((usage, stats)),
    {
        if self.records.len() == LEN_PERF_HISTORY {
            self.records.remove(0);
            proof {
                assert(self.records@ =~= old(self).records@.drop_first());
            }
        }
        self.records.push((usage, stats));
    }
}

/// Whether one report carries both the tenant's usage under the VM and
/// the tenant's anonymous-memory figure.
pub open spec fn has_full_record(rec: (UsageMap, AppStats), vm: VmId, app: AppId) -> bool {
    &&& rec.0.has_vm(vm)
    &&& has_key(rec.0.vm_usage(vm), app)
    &&& has_key(rec.1.anon_memory_mb@, app)
}

/// The estimator's reading of one report for one tenant.
pub open spec fn app_record_of(rec: (UsageMap, AppStats), vm: VmId, app: AppId) -> AppRecord {
    AppRecord {
        bw_mbps: lookup(rec.0.vm_usage(vm), app).bw_mbps,
        cache_mbps: lookup(rec.0.vm_usage(vm), app).cache_mbps,
        access_rate_ops_sec: lookup(rec.0.vm_usage(vm), app).access_rate_ops_sec,
        hit_rate_ppm: lookup(rec.0.vm_usage(vm), app).hit_rate_ppm,
        anon_mem_mb: lookup(rec.1.anon_memory_mb@, app),
    }
}

/// Extract one tenant's figures from every report of the window, oldest
/// first; a single report without them abandons the cycle.
pub fn collect_app_records(history: &UsageHistory, vm: VmId, app: AppId) -> (r: Option<
    Vec<AppRecord>,
>)
    requires
        history.wf(),
    ensures
        r is Some <==> forall|i: int|
            0 <= i < history.records@.len() ==> has_full_record(
                #[trigger] history.records@[i],
                vm,
                app,
            ),
        match r {
            Some(v) => v@.len() == history.records@.len() && forall|i: int|
                0 <= i < v@.len() ==> #[trigger] v@[i] == app_record_of(
                    history.records@[i],
                    vm,
                    app,
                ),
            None => true,
        },
{
    let mut out: Vec<AppRecord> = Vec::new();
    let mut i: usize = 0;
    let n = history.records.len();
    while i < n
        invariant
            history.wf(),
            n == history.records@.len(),
            i <= n,
            out@.len() == i,
            forall|j: int|
                0 <= j < i ==> has_full_record(#[trigger] history.records@[j], vm, app),
            forall|j: int|
                0 <= j < i ==> #[trigger] out@[j] == app_record_of(
                    history.records@[j],
                    vm,
                    app,
                ),
        decreases n - i,
    {
        let rec = &history.records[i];
        let vm_idx = match find_key(&rec.0.map, vm) {
            Some(k) => k,
            None => {
                return None;
            },
        };
        proof {
            lemma_lookup_at(rec.0.map@, vm_idx as int);
        }
        let app_idx = match find_key(&rec.0.map[vm_idx].1, app) {
            Some(k) => k,
            None => {
                return None;
            },
        };
        let anon_idx = match find_key(&rec.1.anon_memory_mb, app) {
            Some(k) => k,
            None => {
                return None;
            },
        };
        proof {
            lemma_lookup_at(rec.0.map@[vm_idx as int].1@, app_idx as int);
            lemma_lookup_at(rec.1.anon_memory_mb@, anon_idx as int);
        }
        let u = &rec.0.map[vm_idx].1[app_idx];
        out.push(
            AppRecord {
                bw_mbps: u.1.bw_mbps,
                cache_mbps: u.1.cache_mbps,
                access_rate_ops_sec: u.1.access_rate_ops_sec,
                hit_rate_ppm: u.1.hit_rate_ppm,
                anon_mem_mb: rec.1.anon_memory_mb[anon_idx].1,
            },
        );
        i = i + 1;
    }
    Some(out)
}

/// Sum of a sequence of machine words.
pub open spec fn sum_of(s: Seq<u64>) -> int
    decreases s.len(),
{
    if s.len() == 0 {
        0
    } else {
        sum_of(s.drop_last()) + s.last()
    }
}

/// Sums of machine words are nonnegative and bounded by count times the
/// largest word.
proof fn lemma_sum_of_bound(s: Seq<u64>)
    ensures
        0 <= sum_of(s) <= s.len() * u64::MAX,
    decreases s.len(),
{
    if s.len() == 0 {
    } else {
        lemma_sum_of_bound(s.drop_last());
        assert((s.len() - 1) * u64::MAX + u64::MAX == s.len() * u64::MAX) by (nonlinear_arith);
    }
}

/// The averages over a window of records that the estimator works from.
#[derive(Clone, Copy, Debug, PartialEq, Eq, Structural)]
pub struct WindowAverages {
    pub avg_bio_mbps: u64,
    pub avg_cache_miss_mbps: u64,
    pub avg_cache_ref_ops_sec: u64,
    pub avg_fault_ratio_ppm: u64,
    pub avg_anon_pages: u64,
}

/// Average each figure over the window: block-I/O bandwidth, cache-miss
/// bandwidth, reference rate, fault ratio, and the anonymous footprint
/// converted to 4 KiB pages.
pub fn average_records(records: &Vec<AppRecord>) -> (r: WindowAverages)
    requires
        0 < records@.len() <= LEN_PERF_HISTORY,
        forall|i: int|
            0 <= i < records@.len() ==> (#[trigger] records@[i]).anon_mem_mb <= u64::MAX / 256,
    ensures
        r.avg_bio_mbps == sum_of(records@.map_values(|a: AppRecord| a.bw_mbps)) / records@.len() as int,
        r.avg_cache_miss_mbps == sum_of(records@.map_values(|a: AppRecord| a.cache_mbps))
            / records@.len() as int,
        r.avg_cache_ref_ops_sec == sum_of(
            records@.map_values(|a: AppRecord| a.access_rate_ops_sec),
        ) / records@.len() as int,
        r.avg_fault_ratio_ppm == sum_of(records@.map_values(|a: AppRecord| a.hit_rate_ppm))
            / records@.len() as int,
        r.avg_anon_pages == sum_of(records@.map_values(|a: AppRecord| a.anon_mem_mb)) * 256 / records@.len() as int,
{
    let n = records.len();
    let mut sum_bio: u128 = 0;
    let mut sum_miss: u128 = 0;
    let mut sum_ref: u128 = 0;
    let mut sum_fault: u128 = 0;
    let mut sum_anon: u128 = 0;
    let mut i: usize = 0;
    while i < n
        invariant
            n == records@.len(),
            0 < n <= LEN_PERF_HISTORY,
            forall|j: int|
                0 <= j < records@.len() ==> (#[trigger] records@[j]).anon_mem_mb <= u64::MAX / 256,
            i <= n,
            sum_bio == sum_of(records@.take(i as int).map_values(|a: AppRecord| a.bw_mbps)),
            sum_miss == sum_of(records@.take(i as int).map_values(|a: AppRecord| a.cache_mbps)),
            sum_ref == sum_of(
                records@.take(i as int).map_values(|a: AppRecord| a.access_rate_ops_sec),
            ),
            sum_fault == sum_of(records@.take(i as int).map_values(|a: AppRecord| a.hit_rate_ppm)),
            sum_anon == sum_of(records@.take(i as int).map_values(|a: AppRecord| a.anon_mem_mb)),
            sum_bio <= i * (u64::MAX as int),
            sum_miss <= i * (u64::MAX as int),
            sum_ref <= i * (u64::MAX as int),
            sum_fault <= i * (u64::MAX as int),
            sum_anon <= i * (u64::MAX as int),
            sum_anon <= i * ((u64::MAX / 256) as int),
        decreases n - i,
    {
        let a = records[i];
        proof {
            lemma_take_map_push(records@, i as int);
            assert((i as int) * (u64::MAX as int) + u64::MAX == (i + 1) * (u64::MAX as int))
                by (nonlinear_arith);
            assert((i as int) * ((u64::MAX / 256) as int) + (u64::MAX / 256) == (i + 1) * ((u64::MAX
                / 256) as int)) by (nonlinear_arith);
        }
        sum_bio = sum_bio + a.bw_mbps as u128;
        sum_miss = sum_miss + a.cache_mbps as u128;
        sum_ref = sum_ref + a.access_rate_ops_sec as u128;
        sum_fault = sum_fault + a.hit_rate_ppm as u128;
        sum_anon = sum_anon + a.anon_mem_mb as u128;
        i = i + 1;
    }
    proof {
        assert(records@.take(n as int) =~= records@);
        lemma_avg_fits(sum_bio as int, n as int);
        lemma_avg_fits(sum_miss as int, n as int);
        lemma_avg_fits(sum_ref as int, n as int);
        lemma_avg_fits(sum_fault as int, n as int);
        assert(sum_anon * 256 <= (n as int) * (u64::MAX as int)) by (nonlinear_arith)
            requires
                sum_anon <= (n as int) * ((u64::MAX / 256) as int),
        ;
        assert(sum_anon * 256 <= u128::MAX) by (nonlinear_arith)
            requires
                0 <= sum_anon <= (n as int) * ((u64::MAX / 256) as int),
                0 < n <= LEN_PERF_HISTORY,
        ;
        lemma_avg256_fits(sum_anon as int, n as int);
    }
    WindowAverages {
        avg_bio_mbps: (sum_bio / (n as u128)) as u64,
        avg_cache_miss_mbps: (sum_miss / (n as u128)) as u64,
        avg_cache_ref_ops_sec: (sum_ref / (n as u128)) as u64,
        avg_fault_ratio_ppm: (sum_fault / (n as u128)) as u64,
        avg_anon_pages: (sum_anon * 256 / (n as u128)) as u64,
    }
}

/// Taking one more element extends every mapped sum by that element.
proof fn lemma_take_map_push(s: Seq<AppRecord>, i: int)
    requires
        0 <= i < s.len(),
    ensures
        sum_of(s.take(i + 1).map_values(|a: AppRecord| a.bw_mbps)) == sum_of(
            s.take(i).map_values(|a: AppRecord| a.bw_mbps),
        ) + s[i].bw_mbps,
        sum_of(s.take(i + 1).map_values(|a: AppRecord| a.cache_mbps)) == sum_of(
            s.take(i).map_values(|a: AppRecord| a.cache_mbps),
        ) + s[i].cache_mbps,
        sum_of(s.take(i + 1).map_values(|a: AppRecord| a.access_rate_ops_sec)) == sum_of(
            s.take(i).map_values(|a: AppRecord| a.access_rate_ops_sec),
        ) + s[i].access_rate_ops_sec,
        sum_of(s.take(i + 1).map_values(|a: AppRecord| a.hit_rate_ppm)) == sum_of(
            s.take(i).map_values(|a: AppRecord| a.hit_rate_ppm),
        ) + s[i].hit_rate_ppm,
        sum_of(s.take(i + 1).map_values(|a: AppRecord| a.anon_mem_mb)) == sum_of(
            s.take(i).map_values(|a: AppRecord| a.anon_mem_mb),
        ) + s[i].anon_mem_mb,
{
    assert(s.take(i + 1).map_values(|a: AppRecord| a.bw_mbps).drop_last() =~= s.take(i).map_values(
        |a: AppRecord| a.bw_mbps,
    ));
    assert(s.take(i + 1).map_values(|a: AppRecord| a.cache_mbps).drop_last() =~= s.take(
        i,
    ).map_values(|a: AppRecord| a.cache_mbps));
    assert(s.take(i + 1).map_values(|a: AppRecord| a.access_rate_ops_sec).drop_last() =~= s.take(
        i,
    ).map_values(|a: AppRecord| a.access_rate_ops_sec));
    assert(s.take(i + 1).map_values(|a: AppRecord| a.hit_rate_ppm).drop_last() =~= s.take(
        i,
    ).map_values(|a: AppRecord| a.hit_rate_ppm));
    assert(s.take(i + 1).map_values(|a: AppRecord| a.anon_mem_mb).drop_last() =~= s.take(
        i,
    ).map_values(|a: AppRecord| a.anon_mem_mb));
}

/// An average of machine words fits a machine word.
proof fn lemma_avg_fits(sum: int, n: int)
    requires
        n > 0,
        0 <= sum <= n * (u64::MAX as int),
    ensures
        0 <= sum / n <= u64::MAX,
{
    assert(sum / n <= u64::MAX) by (nonlinear_arith)
        requires
            n > 0,
            sum <= n * (u64::MAX as int),
    ;
    assert(sum / n >= 0) by (nonlinear_arith)
        requires
            n > 0,
            sum >= 0,
    ;
}

/// The page-scaled anonymous average fits a machine word.
proof fn lemma_avg256_fits(sum: int, n: int)
    requires
        n > 0,
        0 <= sum,
        sum * 256 <= n * (u64::MAX as int),
    ensures
        0 <= sum * 256 / n <= u64::MAX,
{
    assert(sum * 256 / n <= u64::MAX) by (nonlinear_arith)
        requires
            n > 0,
            sum * 256 <= n * (u64::MAX as int),
    ;
    assert(sum * 256 / n >= 0) by (nonlinear_arith)
        requires
            n > 0,
            sum >= 0,
    ;
}


/// The figures of the whole window, read in spec: one record per
/// report.
pub open spec fn spec_app_records(h: UsageHistory, vm: VmId, app: AppId) -> Seq<AppRecord> {
    h.records@.map_values(|rec: (UsageMap, AppStats)| app_record_of(rec, vm, app))
}

/// The averages the estimator would compute over the window.
pub open spec fn spec_window_averages(h: UsageHistory, vm: VmId, app: AppId) -> WindowAverages
    recommends
        h.records@.len() > 0,
{
    let rs = spec_app_records(h, vm, app);
    WindowAverages {
        avg_bio_mbps: (sum_of(rs.map_values(|a: AppRecord| a.bw_mbps)) / rs.len() as int) as u64,
        avg_cache_miss_mbps: (sum_of(rs.map_values(|a: AppRecord| a.cache_mbps))
            / rs.len() as int) as u64,
        avg_cache_ref_ops_sec: (sum_of(rs.map_values(|a: AppRecord| a.access_rate_ops_sec))
            / rs.len() as int) as u64,
        avg_fault_ratio_ppm: (sum_of(rs.map_values(|a: AppRecord| a.hit_rate_ppm))
            / rs.len() as int) as u64,
        avg_anon_pages: (sum_of(rs.map_values(|a: AppRecord| a.anon_mem_mb)) * 256
            / rs.len() as int) as u64,
    }
}

/// The window is ready to estimate from: the sample holds user-space
/// pages, the tenant has ceilings, and the history is full with every
/// report carrying the tenant's figures.
pub open spec fn window_ready(
    sampled: Seq<u64>,
    h: UsageHistory,
    vm: VmId,
    app: AppId,
    cfg: UpdateConfig,
) -> bool {
    &&& user_pages_of(sampled).len() > 0
    &&& cfg.has_app(app)
    &&& h.records@.len() >= LEN_PERF_HISTORY
    &&& forall|i: int|
        0 <= i < h.records@.len() ==> has_full_record(#[trigger] h.records@[i], vm, app)
}

/// Every reported anonymous footprint of the window fits a machine
/// word when scaled to 4 KiB pages.
pub open spec fn window_footprints_fit(h: UsageHistory, vm: VmId, app: AppId) -> bool {
    forall|i: int|
        0 <= i < spec_app_records(h, vm, app).len() ==> (#[trigger] spec_app_records(
            h,
            vm,
            app,
        )[i]).anon_mem_mb <= u64::MAX / 256
}

/// The window's averaged rates admit the working quantities.
pub open spec fn window_rates_fit(h: UsageHistory, vm: VmId, app: AppId) -> bool {
    &&& spec_window_averages(h, vm, app).avg_bio_mbps <= u64::MAX / 32
    &&& spec_window_averages(h, vm, app).avg_cache_miss_mbps <= u64::MAX
        / MBPS_TO_BYTES_PER_SEC
}

/// The miss ratio one cycle observes over the window, in parts per
/// million: the observed-ratio formula applied to the window's
/// averages.
pub open spec fn spec_cycle_miss_ratio_ppm(h: UsageHistory, vm: VmId, app: AppId) -> int
    recommends
        h.records@.len() > 0,
        window_rates_fit(h, vm, app),
{
    spec_observed_miss_ratio_ppm(
        spec_window_averages(h, vm, app).avg_fault_ratio_ppm,
        (spec_window_averages(h, vm, app).avg_bio_mbps * 32) as u64,
        vstd::math::max(
            spec_window_averages(h, vm, app).avg_cache_miss_mbps as int
                * MBPS_TO_BYTES_PER_SEC as int / CACHE_LINE_SIZE_BYTES as int,
            1,
        ) as u64,
    )
}

/// Why an estimation cycle was abandoned; the coordinator keeps the
/// previous curve.
#[derive(Clone, Copy, Debug, PartialEq, Eq, Structural)]
pub enum EstimateSkip {
    /// The sampler delivered no user-space pages this window.
    EmptySample,
    /// The tenant has no recorded ceilings to estimate against.
    NoAllocation,
    /// Fewer reports than the window requires have been collected.
    HistoryShort,
    /// Some report of the window lacks the tenant's figures.
    MissingRecord,
    /// A reported anonymous footprint is too large to convert to pages.
    FootprintOverflow,
    /// An averaged rate is too large for the working quantities.
    RateOverflow,
    /// The observed miss ratio reached one: the data is too transient.
    /// The ratio formula takes a minimum with one and then divides by
    /// `OS_PREFETCH_FACTOR`, so it never exceeds an eighth of one and
    /// this arm cannot fire; the guard stands as the policy asks.
    Transient,
}

/// Everything the curve fit consumes, assembled from one window.
pub struct EstimatorInputs {
    pub page_counts: Vec<(u64, u64)>,
    pub buckets: Vec<(u64, u64)>,
    pub pages_detected: u64,
    pub cache_size_pages: u64,
    pub anon_pages: u64,
    pub averages: WindowAverages,
    pub pages_fetched: u64,
    pub cache_accesses: u64,
    pub observed_miss_ratio_ppm: u64,
}

/// Assemble the integer inputs of one estimation cycle, or say exactly
/// why the cycle is skipped.  The checks run in the order the cycle
/// does: the sample, the allocation, the history, the window's
/// completeness, the machine limits, and the transience of the window.
pub fn prepare_estimate(
    sampled_pages: &Vec<u64>,
    history: &UsageHistory,
    vm: VmId,
    app: AppId,
    cfg: &UpdateConfig,
) -> (r: Result<EstimatorInputs, EstimateSkip>)
    requires
        history.wf(),
        cfg.wf(),
        sampled_pages@.len() < u64::MAX,
    ensures
        r == Err::<EstimatorInputs, EstimateSkip>(EstimateSkip::EmptySample) <==> user_pages_of(
            sampled_pages@,
        ).len() == 0,
        r == Err::<EstimatorInputs, EstimateSkip>(EstimateSkip::NoAllocation) <==> user_pages_of(
            sampled_pages@,
        ).len() > 0 && !cfg.has_app(app),
        r == Err::<EstimatorInputs, EstimateSkip>(EstimateSkip::HistoryShort) <==> user_pages_of(
            sampled_pages@,
        ).len() > 0 && cfg.has_app(app) && history.records@.len() < LEN_PERF_HISTORY,
        r == Err::<EstimatorInputs, EstimateSkip>(EstimateSkip::MissingRecord) <==> user_pages_of(
            sampled_pages@,
        ).len() > 0 && cfg.has_app(app) && history.records@.len() >= LEN_PERF_HISTORY && !(
        forall|i: int|
            0 <= i < history.records@.len() ==> has_full_record(
                #[trigger] history.records@[i],
                vm,
                app,
            )),
        r == Err::<EstimatorInputs, EstimateSkip>(EstimateSkip::FootprintOverflow)
            <==> window_ready(sampled_pages@, *history, vm, app, *cfg) && !window_footprints_fit(
            *history,
            vm,
            app,
        ),
        r == Err::<EstimatorInputs, EstimateSkip>(EstimateSkip::RateOverflow) <==> window_ready(
            sampled_pages@,
            *history,
            vm,
            app,
            *cfg,
        ) && window_footprints_fit(*history, vm, app) && !window_rates_fit(*history, vm, app),
        r == Err::<EstimatorInputs, EstimateSkip>(EstimateSkip::Transient) <==> window_ready(
            sampled_pages@,
            *history,
            vm,
            app,
            *cfg,
        ) && window_footprints_fit(*history, vm, app) && window_rates_fit(*history, vm, app)
            && spec_cycle_miss_ratio_ppm(*history, vm, app) >= PPM,
        r is Ok <==> window_ready(sampled_pages@, *history, vm, app, *cfg)
            && window_footprints_fit(*history, vm, app) && window_rates_fit(*history, vm, app)
            && spec_cycle_miss_ratio_ppm(*history, vm, app) < PPM,
        match r {
            Ok(inputs) => {
                &&& unique_keys(inputs.page_counts@)
                &&& unique_keys(inputs.buckets@)
                &&& sum_counts(inputs.page_counts@) == user_pages_of(sampled_pages@).len()
                &&& weighted_sum(inputs.buckets@) == user_pages_of(sampled_pages@).len()
                &&& inputs.pages_detected == inputs.page_counts@.len()
                &&& inputs.averages == spec_window_averages(*history, vm, app)
                &&& inputs.anon_pages == inputs.averages.avg_anon_pages
                &&& inputs.pages_fetched == inputs.averages.avg_bio_mbps * 32
                &&& inputs.cache_accesses == vstd::math::max(
                    inputs.averages.avg_cache_miss_mbps as int * MBPS_TO_BYTES_PER_SEC as int
                        / CACHE_LINE_SIZE_BYTES as int,
                    1,
                )
                &&& inputs.observed_miss_ratio_ppm == spec_observed_miss_ratio_ppm(
                    inputs.averages.avg_fault_ratio_ppm,
                    inputs.pages_fetched,
                    inputs.cache_accesses,
                )
                &&& inputs.observed_miss_ratio_ppm < PPM
                &&& inputs.cache_size_pages == vstd::math::min(
                    cfg.alloc_of(app).0 as int * PAGES_PER_MB as int,
                    u64::MAX as int,
                )
                &&& cfg.has_app(app)
                &&& user_pages_of(sampled_pages@).len() > 0
                &&& history.records@.len() >= LEN_PERF_HISTORY
            },
            Err(_) => true,
        },
{
    let user = crate::sampling::filter_user_pages(sampled_pages);
    if user.len() == 0 {
        return Err(EstimateSkip::EmptySample);
    }
    let alloc = match cfg.get_allocation(app) {
        Some(a) => a,
        None => {
            return Err(EstimateSkip::NoAllocation);
        },
    };
    if history.records.len() < LEN_PERF_HISTORY {
        return Err(EstimateSkip::HistoryShort);
    }
    let records = match collect_app_records(history, vm, app) {
        Some(v) => v,
        None => {
            return Err(EstimateSkip::MissingRecord);
        },
    };
    proof {
        assert(records@ =~= spec_app_records(*history, vm, app));
    }
    let mut i: usize = 0;
    while i < records.len()
        invariant
            i <= records@.len(),
            records@ == spec_app_records(*history, vm, app),
            user_pages_of(sampled_pages@).len() > 0,
            cfg.has_app(app),
            history.records@.len() >= LEN_PERF_HISTORY,
            forall|j: int|
                0 <= j < history.records@.len() ==> has_full_record(
                    #[trigger] history.records@[j],
                    vm,
                    app,
                ),
            forall|j: int|
                0 <= j < i ==> (#[trigger] records@[j]).anon_mem_mb <= u64::MAX / 256,
        decreases records@.len() - i,
    {
        if records[i].anon_mem_mb > u64::MAX / 256 {
            return Err(EstimateSkip::FootprintOverflow);
        }
        i = i + 1;
    }
    let averages = average_records(&records);
    proof {
        assert forall|j: int|
            0 <= j < spec_app_records(*history, vm, app).len() implies (
        #[trigger] spec_app_records(*history, vm, app)[j]).anon_mem_mb <= u64::MAX / 256 by {
            assert(spec_app_records(*history, vm, app)[j] == records@[j]);
        }
        assert(averages == spec_window_averages(*history, vm, app));
    }
    if averages.avg_bio_mbps > u64::MAX / 32 || averages.avg_cache_miss_mbps > u64::MAX
        / MBPS_TO_BYTES_PER_SEC {
        return Err(EstimateSkip::RateOverflow);
    }
    let (page_counts, buckets) = sample_frequency_buckets(&user);
    let pages_detected = page_counts.len() as u64;
    let pages_fetched = pages_fetched_of(averages.avg_bio_mbps);
    let accesses0 = cache_accesses_per_sec(averages.avg_cache_miss_mbps);
    let cache_accesses: u64 = if accesses0 == 0 {
        1
    } else {
        accesses0
    };
    let mr = observed_miss_ratio_ppm(averages.avg_fault_ratio_ppm, pages_fetched, cache_accesses);
    proof {
        assert(mr == spec_cycle_miss_ratio_ppm(*history, vm, app));
    }
    if miss_ratio_transient(mr) {
        return Err(EstimateSkip::Transient);
    }
    let cache_size_pages: u64 = if alloc.0 > u64::MAX / PAGES_PER_MB {
        u64::MAX
    } else {
        alloc.0 * PAGES_PER_MB
    };
    Ok(
        EstimatorInputs {
            page_counts,
            buckets,
            pages_detected,
            cache_size_pages,
            anon_pages: averages.avg_anon_pages,
            averages,
            pages_fetched,
            cache_accesses,
            observed_miss_ratio_ppm: mr,
        },
    )
}

} // verus!
