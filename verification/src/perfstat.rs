//! Sliding windows over the per-second hardware counters, the block-I/O
//! accountant, and the assembly of a usage report from them.

use vstd::prelude::*;
use crate::convert::{AppId, BandwidthMbps, MemoryMb, VmId, MBPS_TO_BYTES_PER_SEC};
use crate::estimator::{sum_of, CACHE_LINE_SIZE_BYTES};
use crate::types::AppUsage;

verus! {

use vstd::math::min;

/// Depth of each counter window.
pub const PERF_HISTORY_LENGTH: usize = 16;

/// A counter window after one more sample: the oldest sample makes room
/// once the depth is reached.
pub open spec fn ring_pushed(s: Seq<u64>, x: u64) -> Seq<u64> {
    if s.len() < PERF_HISTORY_LENGTH {
        s.push(x)
    } else {
        s.drop_first().push(x)
    }
}

/// Append a sample to a counter window, dropping the oldest sample when
/// the window is full.
fn ring_push(ring: &mut Vec<u64>, x: u64)
    requires
        old(ring)@.len() <= PERF_HISTORY_LENGTH,
    ensures
        final(ring)@ == ring_pushed(old(ring)@, x),
        1 <= final(ring)@.len() <= PERF_HISTORY_LENGTH,
{
    if ring.len() == PERF_HISTORY_LENGTH {
        ring.remove(0);
        proof {
            assert(ring@ =~= old(ring)@.drop_first());
        }
    }
    ring.push(x);
}

/// The arithmetic mean of a non-empty counter window.
fn ring_avg(ring: &Vec<u64>) -> (r: u64)
    requires
        1 <= ring@.len() <= PERF_HISTORY_LENGTH,
    ensures
        r == sum_of(ring@) / ring@.len() as int,
{
    let n = ring.len();
    let mut sum: u128 = 0;
    let mut i: usize = 0;
    while i < n
        invariant
            n == ring@.len(),
            1 <= n <= PERF_HISTORY_LENGTH,
            i <= n,
            sum == sum_of(ring@.take(i as int)),
            sum <= i * (u64::MAX as int),
        decreases n - i,
    {
        proof {
            assert(ring@.take(i + 1).drop_last() =~= ring@.take(i as int));
            assert((i as int) * (u64::MAX as int) + u64::MAX == (i + 1) * (u64::MAX as int))
                by (nonlinear_arith);
        }
        sum = sum + ring[i] as u128;
        i = i + 1;
    }
    proof {
        assert(ring@.take(n as int) =~= ring@);
        assert((sum as int) / (n as int) <= u64::MAX) by (nonlinear_arith)
            requires
                0 < n,
                0 <= sum <= (n as int) * (u64::MAX as int),
        ;
    }
    (sum / (n as u128)) as u64
}

/// Per-container sliding windows of the four raw counters, their means,
/// and the tenant's latest miss-ratio curve (ratios in parts per
/// million).
pub struct PerfStat {
    pub cache_misses: Vec<u64>,
    pub cache_references: Vec<u64>,
    pub major_faults: Vec<u64>,
    pub mem_ops: Vec<u64>,
    pub avg_miss: u64,
    pub avg_hit: u64,
    pub avg_faults: u64,
    pub avg_mem_ops: u64,
    pub mrc: Vec<(u64, u64)>,
}

impl PerfStat {
    /// Windows stay within depth and each mean agrees with its window.
    pub open spec fn wf(self) -> bool {
        &&& self.cache_misses@.len() <= PERF_HISTORY_LENGTH
        &&& self.cache_references@.len() <= PERF_HISTORY_LENGTH
        &&& self.major_faults@.len() <= PERF_HISTORY_LENGTH
        &&& self.mem_ops@.len() <= PERF_HISTORY_LENGTH
        &&& self.avg_miss == if self.cache_misses@.len() == 0 {
            0int
        } else {
            sum_of(self.cache_misses@) / self.cache_misses@.len() as int
        }
        &&& self.avg_hit == if self.cache_references@.len() == 0 {
            0int
        } else {
            sum_of(self.cache_references@) / self.cache_references@.len() as int
        }
        &&& self.avg_faults == if self.major_faults@.len() == 0 {
            0int
        } else {
            sum_of(self.major_faults@) / self.major_faults@.len() as int
        }
        &&& self.avg_mem_ops == if self.mem_ops@.len() == 0 {
            0int
        } else {
            sum_of(self.mem_ops@) / self.mem_ops@.len() as int
        }
    }

    pub fn new() -> (r: Self)
        ensures
            r.wf(),
            r.cache_misses@.len() == 0,
            r.cache_references@.len() == 0,
            r.major_faults@.len() == 0,
            r.mem_ops@.len() == 0,
            r.mrc@.len() == 0,
    {
        PerfStat {
            cache_misses: Vec::new(),
            cache_references: Vec::new(),
            major_faults: Vec::new(),
            mem_ops: Vec::new(),
            avg_miss: 0,
            avg_hit: 0,
            avg_faults: 0,
            avg_mem_ops: 0,
            mrc: Vec::new(),
        }
    }

    /// Record one second's counters and refresh the means.
    pub fn update(&mut self, miss: u64, hit: u64, faults: u64, mem_ops: u64)
        requires
            old(self).wf(),
        ensures
            final(self).wf(),
            final(self).cache_misses@ == ring_pushed(old(self).cache_misses@, miss),
            final(self).cache_references@ == ring_pushed(old(self).cache_references@, hit),
            final(self).major_faults@ == ring_pushed(old(self).major_faults@, faults),
            final(self).mem_ops@ == ring_pushed(old(self).mem_ops@, mem_ops),
            final(self).mrc@ == old(self).mrc@,
    {
        ring_push(&mut self.cache_misses, miss);
        ring_push(&mut self.cache_references, hit);
        ring_push(&mut self.major_faults, faults);
        ring_push(&mut self.mem_ops, mem_ops);
        self.avg_miss = ring_avg(&self.cache_misses);
        self.avg_hit = ring_avg(&self.cache_references);
        self.avg_faults = ring_avg(&self.major_faults);
        self.avg_mem_ops = ring_avg(&self.mem_ops);
    }

    /// Replace the tenant's miss-ratio curve.
    pub fn update_mrc(&mut self, mrc: Vec<(u64, u64)>)
        requires
            old(self).wf(),
        ensures
            final(self).wf(),
            final(self).mrc@ == mrc@,
            final(self).cache_misses@ == old(self).cache_misses@,
            final(self).cache_references@ == old(self).cache_references@,
            final(self).major_faults@ == old(self).major_faults@,
            final(self).mem_ops@ == old(self).mem_ops@,
            final(self).avg_miss == old(self).avg_miss,
            final(self).avg_hit == old(self).avg_hit,
            final(self).avg_faults == old(self).avg_faults,
            final(self).avg_mem_ops == old(self).avg_mem_ops,
    {
        self.mrc = mrc;
    }

    /// Forget the cache-miss and cache-reference windows.
    pub fn drop_records(&mut self)
        requires
            old(self).wf(),
        ensures
            final(self).wf(),
            final(self).cache_misses@.len() == 0,
            final(self).cache_references@.len() == 0,
            final(self).avg_miss == 0,
            final(self).avg_hit == 0,
            final(self).major_faults@ == old(self).major_faults@,
            final(self).mem_ops@ == old(self).mem_ops@,
            final(self).mrc@ == old(self).mrc@,
    {
        self.cache_misses = Vec::new();
        self.cache_references = Vec::new();
        self.avg_miss = 0;
        self.avg_hit = 0;
    }
}

/// The block-I/O accountant's snapshot of the previous reading.
pub struct BlkUseStat {
    pub prev_read_bytes: u64,
    pub prev_write_bytes: u64,
    pub prev_time: u128,
}

impl BlkUseStat {
    pub fn new() -> (r: Self)
        ensures
            r.prev_read_bytes == 0,
            r.prev_write_bytes == 0,
            r.prev_time == 0,
    {
        BlkUseStat { prev_read_bytes: 0, prev_write_bytes: 0, prev_time: 0 }
    }
}

/// Megabits per second implied by a byte delta over a span of
/// milliseconds.  A counter that moved backwards reads as no traffic.
pub open spec fn mbps_of_delta(now_bytes: u64, prev_bytes: u64, elapsed_ms: int) -> int {
    if now_bytes < prev_bytes {
        0
    } else {
        (now_bytes - prev_bytes) * 8 * 1000 / ((1024 * 1024) * elapsed_ms)
    }
}

/// Fold one reading of the cgroup's I/O byte counters into the
/// accountant and report the higher of the read and write bandwidths.
/// When the clock has not advanced, zero is reported and nothing is
/// recorded.
pub fn blk_bandwidth_update(
    stat: &mut BlkUseStat,
    read_bytes: u64,
    write_bytes: u64,
    now_ms: u128,
) -> (r: BandwidthMbps)
    requires
        now_ms <= u64::MAX,
    ensures
        now_ms <= old(stat).prev_time ==> r == 0 && *final(stat) == *old(stat),
        now_ms > old(stat).prev_time ==> {
            &&& final(stat).prev_read_bytes == read_bytes
            &&& final(stat).prev_write_bytes == write_bytes
            &&& final(stat).prev_time == now_ms
            &&& r == vstd::math::max(
                mbps_of_delta(
                    read_bytes,
                    old(stat).prev_read_bytes,
                    now_ms - old(stat).prev_time,
                ),
                mbps_of_delta(
                    write_bytes,
                    old(stat).prev_write_bytes,
                    now_ms - old(stat).prev_time,
                ),
            )
        },
{
    if now_ms <= stat.prev_time {
        return 0;
    }
    let elapsed_ms = now_ms - stat.prev_time;
    let read_mbps = delta_mbps(read_bytes, stat.prev_read_bytes, elapsed_ms);
    let write_mbps = delta_mbps(write_bytes, stat.prev_write_bytes, elapsed_ms);
    stat.prev_read_bytes = read_bytes;
    stat.prev_write_bytes = write_bytes;
    stat.prev_time = now_ms;
    if read_mbps > write_mbps {
        read_mbps
    } else {
        write_mbps
    }
}

/// Bandwidth of one byte delta, computed in wide arithmetic.
fn delta_mbps(now_bytes: u64, prev_bytes: u64, elapsed_ms: u128) -> (r: u64)
    requires
        0 < elapsed_ms <= u64::MAX,
    ensures
        r == mbps_of_delta(now_bytes, prev_bytes, elapsed_ms as int),
{
    if now_bytes < prev_bytes {
        return 0;
    }
    let delta = (now_bytes - prev_bytes) as u128;
    let divisor: u128 = 1048576 * elapsed_ms;
    proof {
        assert(1048576 * elapsed_ms >= 1048576) by (nonlinear_arith)
            requires
                elapsed_ms >= 1,
        ;
        assert(1048576 * elapsed_ms <= 1048576 * (u64::MAX as u128)) by (nonlinear_arith)
            requires
                elapsed_ms <= u64::MAX,
        ;
    }
    let mbps = delta * 8 * 1000 / divisor;
    proof {
        assert(delta * 8 * 1000 / ((1024 * 1024) * (elapsed_ms as int)) <= delta)
            by (nonlinear_arith)
            requires
                elapsed_ms >= 1,
                0 <= delta,
        ;
    }
    mbps as u64
}

/// Assemble one tenant's usage report from the counter means and the
/// figures read this cycle.  The fault ratio saturates at the largest
/// machine word.
pub fn derive_app_usage(
    vm_id: VmId,
    app_id: AppId,
    mem_mb: MemoryMb,
    bw_mbps: BandwidthMbps,
    stat: &PerfStat,
    mrc: Option<Vec<(u64, u64)>>,
) -> (r: AppUsage)
    ensures
        r.vm_id == vm_id,
        r.app_id == app_id,
        r.mem_mb == mem_mb,
        r.bw_mbps == bw_mbps,
        r.cache_mbps == stat.avg_miss as int * CACHE_LINE_SIZE_BYTES as int
            / MBPS_TO_BYTES_PER_SEC as int,
        r.access_mem_ops_sec == stat.avg_mem_ops,
        r.access_rate_ops_sec == stat.avg_hit as int * CACHE_LINE_SIZE_BYTES as int
            / MBPS_TO_BYTES_PER_SEC as int,
        r.hit_rate_ppm == min(
            stat.avg_faults as int * crate::estimator::PPM as int / (if stat.avg_miss == 0 {
                1int
            } else {
                stat.avg_miss as int
            }),
            u64::MAX as int,
        ),
        r.local_lat == 0,
        r.remote_lat == 0,
        r.mrc == mrc,
{
    let cache_mbps = ((stat.avg_miss as u128) * (CACHE_LINE_SIZE_BYTES as u128) / (
    MBPS_TO_BYTES_PER_SEC as u128)) as u64;
    let access_rate_ops_sec = ((stat.avg_hit as u128) * (CACHE_LINE_SIZE_BYTES as u128) / (
    MBPS_TO_BYTES_PER_SEC as u128)) as u64;
    let divisor: u64 = if stat.avg_miss == 0 {
        1
    } else {
        stat.avg_miss
    };
    let ratio = (stat.avg_faults as u128) * (crate::estimator::PPM as u128) / (divisor as u128);
    let hit_rate_ppm: u64 = if ratio > u64::MAX as u128 {
        u64::MAX
    } else {
        ratio as u64
    };
    proof {
        assert(stat.avg_miss as int * (CACHE_LINE_SIZE_BYTES as int) / (MBPS_TO_BYTES_PER_SEC
            as int) <= stat.avg_miss) by (nonlinear_arith);
        assert(stat.avg_hit as int * (CACHE_LINE_SIZE_BYTES as int) / (MBPS_TO_BYTES_PER_SEC
            as int) <= stat.avg_hit) by (nonlinear_arith);
    }
    AppUsage {
        vm_id,
        app_id,
        mem_mb,
        bw_mbps,
        cache_mbps,
        access_mem_ops_sec: stat.avg_mem_ops,
        access_rate_ops_sec,
        hit_rate_ppm,
        local_lat: 0,
        remote_lat: 0,
        mrc,
    }
}

} // verus!
