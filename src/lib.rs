//! Trace-driven load generation for benchmarking cache back-ends: trace lines
//! become typed commands, commands are grouped into batches for the workers,
//! and the workers' reports are merged into one.
use vstd::prelude::*;

pub mod cache;
pub mod config;
pub mod dispatch;
pub mod load_gen;
pub mod parser;
pub mod report;
pub mod runs;

pub use cache::{execute, process_batch, process_commands, CacheDriver};
pub use config::{Config, EvictionListenerMode};
pub use dispatch::{finish_run, next_batch, plan_batches, replay, yield_due, Producer};
pub use load_gen::{generate_commands, Command, BATCH_SIZE};
pub use parser::{parse_trace_line, TraceEntry, TraceError};
pub use report::{Counters, EvictionCounts, Report, ReportBuilder};
pub use runs::{
    run_multi_tasks_moka_async, run_multi_threads_hashlink, run_multi_threads_light_cache,
    run_multi_threads_light_cache_lru, run_multi_threads_moka_dash, run_multi_threads_moka_segment,
    run_multi_threads_moka_sync, run_multi_threads_quick_cache, run_multi_threads_stretto,
    run_multi_threads_tiny_ufo, run_single, Backend, RunSetup,
};

verus! {

} // verus!
