//! Verified core of a distributed cache-memory controller.
//!
//! A cluster of cache nodes serves multiple tenant applications.  A central
//! coordinator divides a global memory/bandwidth budget among tenants and
//! per-VM shards; each local agent enforces the derived limits through
//! control-group writes and reports back a miss-ratio curve (MRC) estimated
//! from sparse hardware samples.  This crate holds the decision and
//! computation logic of that system: the allocation splitter, the gradual
//! memory enforcer, the sample post-processing and estimator bookkeeping,
//! and the parsers for the control-group accounting files.  Process, file
//! and network plumbing lives outside, in the unverified agent binaries.

pub mod assoc;
pub mod bench;
pub mod config;
pub mod convert;
pub mod enforcer;
pub mod estimator;
pub mod parse;
pub mod perfstat;
pub mod requests;
pub mod sampling;
pub mod splitter;
pub mod trace;
pub mod types;
