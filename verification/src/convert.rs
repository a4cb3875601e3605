//! Unit conversions between request rates, bandwidths and byte counts.

use vstd::prelude::*;

verus! {

use vstd::math::max;
use vstd::math::min;

/// Opaque tenant identifier.
pub type AppId = u64;

/// Opaque VM identifier.
pub type VmId = u64;

/// A memory magnitude in megabytes.
pub type MemoryMb = u64;

/// A bandwidth magnitude in megabits per second.
pub type BandwidthMbps = u64;

/// A TCP port number, as carried in configuration files.
pub type Port = u64;

/// Interval at which usage reports are emitted.
pub const REPORT_INTERVAL_MS: u64 = 1000;

/// Interval at which rate-limited request counters are refilled.
pub const UPDATE_INTERVAL_MS: u64 = 200;

/// One megabit per second, in bytes per second.
pub const MBPS_TO_BYTES_PER_SEC: u64 = 125000;

/// Number of requests allowed per update interval so that a bandwidth
/// budget of `bw_mbps` is not exceeded by objects of `object_size_bytes`.
pub fn bw_to_req(bw_mbps: BandwidthMbps, object_size_bytes: u64) -> (r: u64)
    requires
        object_size_bytes > 0,
        bw_mbps <= u64::MAX as u64 / 1000000,
    ensures
        r == max(1, bw_mbps as int * 1000000 / 8 / object_size_bytes as int)
            / (1000int / UPDATE_INTERVAL_MS as int),
{
    let total_memory_bytes = (bw_mbps * 1000000) / 8;
    let mut reqs_per_sec = total_memory_bytes / object_size_bytes;
    if reqs_per_sec < 1 {
        reqs_per_sec = 1;
    }
    let intervals_per_sec = 1000 / UPDATE_INTERVAL_MS;
    reqs_per_sec / intervals_per_sec
}

/// Bandwidth implied by `reqs` requests of `object_size_bytes` each over one
/// report interval.
pub fn req_to_bw(reqs: u64, object_size_bytes: u64) -> (r: BandwidthMbps)
    requires
        reqs * object_size_bytes <= u64::MAX,
    ensures
        r == reqs as int * object_size_bytes as int / (1024int * 1024) * 8,
{
    let total_memory_bytes = reqs * object_size_bytes;
    let total_memory_mb = total_memory_bytes / (1024 * 1024);
    total_memory_mb * 8
}

/// Bandwidth in megabits per second implied by `bytes` transferred over
/// `elapsed_micros` microseconds.  A bits-per-second figure beyond the
/// machine word saturates before the megabit division.
pub fn bytes_to_report_mbps(bytes: u64, elapsed_micros: u64) -> (r: BandwidthMbps)
    requires
        elapsed_micros > 0,
    ensures
        r == min(bytes as int * 8 * 1000000 / elapsed_micros as int, u64::MAX as int)
            / (1024int * 1024),
{
    let bits = bytes as u128 * 8 * 1000000;
    let per_sec = bits / (elapsed_micros as u128);
    let capped: u64 = if per_sec > u64::MAX as u128 {
        u64::MAX
    } else {
        per_sec as u64
    };
    capped / (1024 * 1024)
}

/// Number of bytes that may be transferred in one update interval at
/// `mbps` megabits per second.
pub fn mbps_to_bytes_interval(mbps: BandwidthMbps) -> (r: u64)
    requires
        mbps * 1024 * 1024 <= u64::MAX,
    ensures
        r == mbps as int * 1024 * 1024 / ((1000int / UPDATE_INTERVAL_MS as int) * 8),
{
    let intervals_per_sec = 1000 / UPDATE_INTERVAL_MS;
    mbps * 1024 * 1024 / (intervals_per_sec * 8)
}

/// Bytes-per-second figure written to a control group `io.max` rule for a
/// bandwidth target in megabits per second.
pub fn mbps_to_bytes_per_sec(mbps: BandwidthMbps) -> (r: u64)
    requires
        mbps * MBPS_TO_BYTES_PER_SEC <= u64::MAX,
    ensures
        r == mbps * MBPS_TO_BYTES_PER_SEC,
{
    mbps * MBPS_TO_BYTES_PER_SEC
}

} // verus!
