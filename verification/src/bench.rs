//! Plain helpers of the benchmark client that replays traces against
//! the cache: its configuration types, request pacing and index
//! bookkeeping, and the latency-histogram setup.

use vstd::prelude::*;
use crate::convert::{AppId, BandwidthMbps, Port};

verus! {

/// Pause between retries when the backend refuses a request.
pub const BACKEND_RETRY_MS: u64 = 1;

/// Requests allowed per rate-limit interval.
pub const RATE_LIMIT: u64 = 1000000;

/// Length of one rate-limit interval.
pub const RATE_LIMIT_INTERVAL_MS: u64 = 200;

/// Whether the client throttles itself.
pub const IS_RATE_LIMITED: bool = false;

/// Values at or below this many bytes are sent as they are; larger
/// ones are simulated from precomputed data.
pub const VALUE_SIMULATION_THRESHOLD: u64 = 32;

/// Bytes of random data precomputed for simulated values.
pub const PRECOMPUTED_SIZE: usize = 1048576;

/// Buckets of the latency histogram.
pub const NUM_BUCKETS: usize = 50000;

/// Replayed fraction denominator: one replayed request stands for this
/// many of the original trace.
pub const TRACE_REPLAY_DUPLICATION_RATIO: u64 = 1;

/// Credentials for an object-store backend.
#[derive(Clone, Debug)]
pub struct BackendAuth {
    pub admin_url: String,
    pub admin_id: String,
    pub admin_pass: String,
    pub access_key: String,
    pub secret_key: String,
}

/// The benchmark client's configuration file.
#[derive(Clone, Debug)]
pub struct InitConfig {
    pub id_preload_map: Vec<(AppId, String)>,
    pub id_benchmark_map: Vec<(AppId, String)>,
    pub backend_ip_map: Vec<(AppId, Vec<String>)>,
    pub backend_auth: Option<Vec<(AppId, Vec<BackendAuth>)>>,
    pub config_path: Option<Vec<(AppId, String)>>,
    pub global_ip: String,
    pub val_size_bytes: u64,
    pub network_limit_mbps: Option<BandwidthMbps>,
    pub netdev: Option<String>,
    pub cache_ip: Option<String>,
    pub bind_port: Option<Port>,
    pub metric_port: Option<Port>,
}

/// The client's command line folded into its configuration.
#[derive(Clone, Debug)]
pub struct BenchmarkClientConfig {
    pub concurrency: usize,
    pub initial_config: InitConfig,
}

/// Advance the trace clock: once more than a second of wall time has
/// passed, the trace time moves forward one tick.
pub fn update_trace_time(prev_trace_time_ms: &mut u64, now_ms: u64, trace_time: &mut u64)
    requires
        now_ms >= *old(prev_trace_time_ms),
        *old(trace_time) < u64::MAX,
    ensures
        now_ms - *old(prev_trace_time_ms) > 1000 ==> *final(prev_trace_time_ms) == now_ms
            && *final(trace_time) == *old(trace_time) + 1,
        now_ms - *old(prev_trace_time_ms) <= 1000 ==> *final(prev_trace_time_ms) == *old(
            prev_trace_time_ms,
        ) && *final(trace_time) == *old(trace_time),
{
    if now_ms - *prev_trace_time_ms > 1000 {
        *prev_trace_time_ms = now_ms;
        *trace_time = *trace_time + 1;
    }
}

/// Step a worker's request index by the worker count, wrapping to the
/// worker's own offset at the end of the trace.
pub fn update_index(index: &mut u64, thread_num: u16, thread_idx: u16, db_requests_len: u64)
    requires
        *old(index) + thread_num <= u64::MAX,
    ensures
        *old(index) + thread_num >= db_requests_len ==> *final(index) == thread_idx,
        *old(index) + thread_num < db_requests_len ==> *final(index) == *old(index) + thread_num,
{
    *index = *index + thread_num as u64;
    if *index >= db_requests_len {
        *index = thread_idx as u64;
    }
}

/// Whether the warm-up worker has replayed enough of the trace to
/// reset the performance counters: three tenths of the trace.
pub fn should_reset_perf_metrics(thread_idx: u16, warmup: bool, index: u64, db_requests_len: u64) -> (r:
    bool)
    requires
        index * TRACE_REPLAY_DUPLICATION_RATIO <= u64::MAX,
    ensures
        r == (thread_idx == 0 && warmup && index * TRACE_REPLAY_DUPLICATION_RATIO
            > db_requests_len as int * 3 / 10),
{
    let threshold = ((db_requests_len as u128) * 3 / 10) as u64;
    proof {
        assert((db_requests_len as int) * 3 / 10 <= db_requests_len) by (nonlinear_arith);
    }
    thread_idx == 0 && warmup && index * TRACE_REPLAY_DUPLICATION_RATIO > threshold
}

/// A cached value of the wrong length is rewritten; a request that
/// carries no value writes nothing.
pub fn should_perform_set(actual_value_len: usize, expected_value_len: usize) -> (r: bool)
    ensures
        r == (expected_value_len != 0 && actual_value_len != expected_value_len),
{
    if expected_value_len == 0 {
        false
    } else {
        actual_value_len != expected_value_len
    }
}

/// The empty latency histogram: one zeroed bucket per latency slot.
pub fn initialize_buckets() -> (r: Vec<usize>)
    ensures
        r@.len() == NUM_BUCKETS,
        forall|i: int| 0 <= i < r@.len() ==> r@[i] == 0,
{
    let mut r: Vec<usize> = Vec::new();
    let mut i: usize = 0;
    while i < NUM_BUCKETS
        invariant
            i <= NUM_BUCKETS,
            r@.len() == i,
            forall|j: int| 0 <= j < r@.len() ==> r@[j] == 0,
        decreases NUM_BUCKETS - i,
    {
        r.push(0);
        i = i + 1;
    }
    r
}

} // verus!
