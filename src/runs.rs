//! What each benchmark run sets up before its workers start: which back-end
//! to build and with what capacity, and the template of the workers' reports.
use crate::cache::{outcomes, ran, CacheDriver};
use crate::config::Config;
use crate::dispatch::{
    concat, count_kind, kind_total, lemma_planned_unique, lemma_replay_counts_every_command,
    lemma_tally_kind, plan_batches, planned_stream, replay,
};
use crate::load_gen::first_bad_line;
use crate::parser::TraceError;
use crate::report::{tally, Counters, Report, ReportBuilder};
use vstd::prelude::*;
use vstd::string::StringExecFns;

verus! {

/// The back-end of a run, with the parameters it is built from.
#[derive(Clone, Copy, Debug, PartialEq, Eq, Structural)]
pub enum Backend {
    MokaSync { max_capacity: u64, capacity: usize, entry_api: bool },
    MokaSegmented { max_capacity: u64, capacity: usize, num_segments: usize, entry_api: bool },
    MokaAsync { max_capacity: u64, capacity: usize, entry_api: bool },
    MiniMokaSync { max_capacity: u64, capacity: usize },
    HashLink { capacity: usize },
    QuickCache { capacity: usize, max_weight: u64 },
    LightCache { capacity: usize },
    LightCacheLru { capacity: usize },
    Stretto { capacity: usize },
    TinyUfo { capacity: usize },
}

/// A run ready to start: the back-end to build, the template of the workers'
/// reports, and the number of workers.
#[derive(Clone, Debug)]
pub struct RunSetup {
    pub backend: Backend,
    pub report_builder: ReportBuilder,
    pub num_clients: u16,
}

/// Whether `s` is the setup with these parts.
pub open spec fn setup_is(
    s: RunSetup,
    backend: Backend,
    name: Seq<char>,
    capacity: u64,
    num_clients: u16,
) -> bool {
    &&& s.backend == backend
    &&& s.report_builder.name@ == name
    &&& s.report_builder.capacity == capacity
    &&& s.report_builder.num_clients == Some(num_clients)
    &&& s.num_clients == num_clients
}

fn setup(backend: Backend, name: &str, capacity: u64, num_clients: u16) -> (r: RunSetup)
    ensures
        setup_is(r, backend, name@, capacity, num_clients),
{
    RunSetup {
        backend,
        report_builder: ReportBuilder::new(name, capacity, Some(num_clients)),
        num_clients,
    }
}

pub open spec fn digit_char(d: nat) -> char {
    ((d + 48) as u8) as char
}

/// Decimal digits of `n`, most significant first.
pub open spec fn decimal(n: nat) -> Seq<char>
    decreases n,
{
    if n < 10 {
        seq![digit_char(n)]
    } else {
        decimal(n / 10).push(digit_char(n % 10))
    }
}

fn digit_str(d: usize) -> (r: &'static str)
    requires
        d < 10,
    ensures
        r@ == seq![digit_char(d as nat)],
{
    if d == 0 {
        proof { reveal_strlit("0"); }
        "0"
    } else if d == 1 {
        proof { reveal_strlit("1"); }
        "1"
    } else if d == 2 {
        proof { reveal_strlit("2"); }
        "2"
    } else if d == 3 {
        proof { reveal_strlit("3"); }
        "3"
    } else if d == 4 {
        proof { reveal_strlit("4"); }
        "4"
    } else if d == 5 {
        proof { reveal_strlit("5"); }
        "5"
    } else if d == 6 {
        proof { reveal_strlit("6"); }
        "6"
    } else if d == 7 {
        proof { reveal_strlit("7"); }
        "7"
    } else if d == 8 {
        proof { reveal_strlit("8"); }
        "8"
    } else {
        proof { reveal_strlit("9"); }
        "9"
    }
}

fn push_decimal(s: &mut String, n: usize)
    ensures
        final(s)@ == old(s)@ + decimal(n as nat),
    decreases n,
{
    if n >= 10 {
        push_decimal(s, n / 10);
    }
    s.append(digit_str(n % 10));
    proof {
        if n < 10 {
            assert(n % 10 == n);
        }
    }
}

/// Name of the report of a segmented cache with `n` segments.
pub open spec fn segmented_name(n: nat) -> Seq<char> {
    "Moka SegmentedCache("@ + decimal(n) + ")"@
}

fn segmented_report_name(n: usize) -> (r: String)
    ensures
        r@ == segmented_name(n as nat),
{
    let mut name = "Moka SegmentedCache(".to_string();
    push_decimal(&mut name, n);
    name.append(")");
    name
}

/// Builds the setup of a run on Moka's synchronous cache, through its entry API
/// where the configuration asks.
pub fn run_multi_threads_moka_sync(config: &Config, capacity: usize, num_clients: u16) -> (r:
    RunSetup)
    requires
        num_clients >= 1,
        config.capacity_fits(capacity),
    ensures
        setup_is(
            r,
            Backend::MokaSync {
                max_capacity: config.max_capacity_of(capacity) as u64,
                capacity,
                entry_api: config.entry_api,
            },
            "Moka Sync Cache"@,
            config.max_capacity_of(capacity) as u64,
            num_clients,
        ),
{
    let max_cap = config.max_capacity(capacity);
    let backend = Backend::MokaSync { max_capacity: max_cap, capacity, entry_api: config.entry_api };
    setup(backend, "Moka Sync Cache", max_cap, num_clients)
}

/// Builds the setup of a run on Moka's segmented cache with `num_segments` segments.
pub fn run_multi_threads_moka_segment(
    config: &Config,
    capacity: usize,
    num_clients: u16,
    num_segments: usize,
) -> (r: RunSetup)
    requires
        num_clients >= 1,
        config.capacity_fits(capacity),
    ensures
        setup_is(
            r,
            Backend::MokaSegmented {
                max_capacity: config.max_capacity_of(capacity) as u64,
                capacity,
                num_segments,
                entry_api: config.entry_api,
            },
            segmented_name(num_segments as nat),
            config.max_capacity_of(capacity) as u64,
            num_clients,
        ),
{
    let max_cap = config.max_capacity(capacity);
    let name = segmented_report_name(num_segments);
    let backend = Backend::MokaSegmented {
        max_capacity: max_cap,
        capacity,
        num_segments,
        entry_api: config.entry_api,
    };
    setup(backend, name.as_str(), max_cap, num_clients)
}

/// Builds the setup of a run on Moka's asynchronous cache, for cooperatively
/// scheduled tasks.
pub fn run_multi_tasks_moka_async(config: &Config, capacity: usize, num_clients: u16) -> (r:
    RunSetup)
    requires
        num_clients >= 1,
        config.capacity_fits(capacity),
    ensures
        setup_is(
            r,
            Backend::MokaAsync {
                max_capacity: config.max_capacity_of(capacity) as u64,
                capacity,
                entry_api: config.entry_api,
            },
            "Moka Async Cache"@,
            config.max_capacity_of(capacity) as u64,
            num_clients,
        ),
{
    let max_cap = config.max_capacity(capacity);
    let backend = Backend::MokaAsync { max_capacity: max_cap, capacity, entry_api: config.entry_api };
    setup(backend, "Moka Async Cache", max_cap, num_clients)
}

/// Builds the setup of a run on Mini Moka's concurrent cache.
pub fn run_multi_threads_moka_dash(config: &Config, capacity: usize, num_clients: u16) -> (r:
    RunSetup)
    requires
        num_clients >= 1,
        config.capacity_fits(capacity),
    ensures
        setup_is(
            r,
            Backend::MiniMokaSync { max_capacity: config.max_capacity_of(capacity) as u64, capacity },
            "Mini Moka Sync Cache"@,
            config.max_capacity_of(capacity) as u64,
            num_clients,
        ),
{
    let max_cap = config.max_capacity(capacity);
    let backend = Backend::MiniMokaSync { max_capacity: max_cap, capacity };
    setup(backend, "Mini Moka Sync Cache", max_cap, num_clients)
}

/// Builds the setup of a run on an LRU map behind a mutex.
pub fn run_multi_threads_hashlink(config: &Config, capacity: usize, num_clients: u16) -> (r:
    RunSetup)
    requires
        num_clients >= 1,
    ensures
        setup_is(
            r,
            Backend::HashLink { capacity },
            "HashLink (LRU w/ Mutex)"@,
            capacity as u64,
            num_clients,
        ),
{
    setup(Backend::HashLink { capacity }, "HashLink (LRU w/ Mutex)", capacity as u64, num_clients)
}

/// Builds the setup of a run on quick_cache's synchronous cache, weighted by
/// the scaled capacity. The report shows the nominal capacity.
pub fn run_multi_threads_quick_cache(config: &Config, capacity: usize, num_clients: u16) -> (r:
    RunSetup)
    requires
        num_clients >= 1,
        config.capacity_fits(capacity),
    ensures
        setup_is(
            r,
            Backend::QuickCache { capacity, max_weight: config.max_capacity_of(capacity) as u64 },
            "QuickCache Sync Cache"@,
            capacity as u64,
            num_clients,
        ),
{
    let max_cap = config.max_capacity(capacity);
    let backend = Backend::QuickCache { capacity, max_weight: max_cap };
    setup(backend, "QuickCache Sync Cache", capacity as u64, num_clients)
}

/// Builds the setup of a run on light-cache's cache.
pub fn run_multi_threads_light_cache(config: &Config, capacity: usize, num_clients: u16) -> (r:
    RunSetup)
    requires
        num_clients >= 1,
    ensures
        setup_is(
            r,
            Backend::LightCache { capacity },
            "LightCache Sync Cache"@,
            capacity as u64,
            num_clients,
        ),
{
    setup(Backend::LightCache { capacity }, "LightCache Sync Cache", capacity as u64, num_clients)
}

/// Builds the setup of a run on light-cache's LRU cache.
pub fn run_multi_threads_light_cache_lru(config: &Config, capacity: usize, num_clients: u16) -> (r:
    RunSetup)
    requires
        num_clients >= 1,
    ensures
        setup_is(
            r,
            Backend::LightCacheLru { capacity },
            "LightCache Sync Cache LRU"@,
            capacity as u64,
            num_clients,
        ),
{
    setup(
        Backend::LightCacheLru { capacity },
        "LightCache Sync Cache LRU",
        capacity as u64,
        num_clients,
    )
}

/// Builds the setup of a run on Stretto's cache.
pub fn run_multi_threads_stretto(config: &Config, capacity: usize, num_clients: u16) -> (r:
    RunSetup)
    requires
        num_clients >= 1,
    ensures
        setup_is(r, Backend::Stretto { capacity }, "Stretto"@, capacity as u64, num_clients),
{
    setup(Backend::Stretto { capacity }, "Stretto", capacity as u64, num_clients)
}

/// Builds the setup of a run on TinyUFO's cache.
pub fn run_multi_threads_tiny_ufo(config: &Config, capacity: usize, num_clients: u16) -> (r:
    RunSetup)
    requires
        num_clients >= 1,
    ensures
        setup_is(r, Backend::TinyUfo { capacity }, "TinyUFO"@, capacity as u64, num_clients),
{
    setup(Backend::TinyUfo { capacity }, "TinyUFO", capacity as u64, num_clients)
}

/// Clock readings for a run's duration.
#[verifier::external_type_specification]
#[verifier::external_body]
pub struct ExInstant(std::time::Instant);

/// Relies on `std::time::Instant::now`: a reading of the monotonic clock.
/// Nothing is promised of its value.
pub assume_specification[ std::time::Instant::now ]() -> std::time::Instant;

/// Relies on `std::time::Instant::elapsed`: the time since the reading.
/// Nothing is promised of its value.
pub assume_specification[ std::time::Instant::elapsed ](i: &std::time::Instant) -> std::time::Duration;

/// The single-worker run on Mini Moka's unsynchronized cache: makes every
/// command of the run first, then runs them in order on `cache`, a cache of
/// `max_capacity(capacity)`, and reports the counts with the time the replay
/// took. Fails, before running anything, on the first line that does not parse.
pub fn run_single<D: CacheDriver>(
    config: &Config,
    capacity: usize,
    lines: &Vec<String>,
    cache: &mut D,
) -> (r: Result<Report, TraceError>)
    requires
        config.capacity_fits(capacity),
        config.repeats() * lines@.len() <= usize::MAX,
    ensures
        (config.repeats() == 0 || first_bad_line(lines@, 0, lines@.len() as int).is_none())
            <==> r.is_ok(),
        r.is_err() ==> r == Err::<Report, TraceError>(
            TraceError::Malformed {
                line_number: first_bad_line(lines@, 0, lines@.len() as int).unwrap() as usize,
            },
        ) && final(cache).history() == old(cache).history(),
        r.is_ok() ==> {
            let rep = r.unwrap();
            let flat = planned_stream(config, lines@);
            &&& rep.name@ == "Mini Moka Unsync Cache"@
            &&& rep.capacity == config.max_capacity_of(capacity)
            &&& rep.num_clients == Some(1u16)
            &&& rep.eviction_counts.is_none()
            &&& rep.duration.is_some()
            &&& ran(old(cache).history(), final(cache).history(), flat)
            &&& rep.counters == tally(
                Counters::zero(),
                flat,
                outcomes(old(cache).history(), final(cache).history()),
            )
            &&& config.repeats() * lines@.len() <= u64::MAX ==> {
                &&& rep.counters.operations() == config.repeats() * lines@.len()
                &&& forall|k: nat| k < 6 ==> kind_total(rep.counters, k) == count_kind(flat, k)
            }
            &&& (config.repeats() == 0 || lines@.len() == 0) ==> rep.counters == Counters::zero()
        },
{
    let max_cap = config.max_capacity(capacity);
    let batches = match plan_batches(config, lines) {
        Ok(b) => b,
        Err(e) => return Err(e),
    };
    let mut report = Report::new("Mini Moka Unsync Cache", max_cap, Some(1));
    let instant = std::time::Instant::now();
    replay(&batches, cache, &mut report);
    let elapsed = instant.elapsed();
    report.duration = Some(elapsed);
    proof {
        let flat = concat(batches@);
        lemma_planned_unique(config, lines@, flat);
        if config.repeats() * lines@.len() <= u64::MAX {
            lemma_replay_counts_every_command(
                config,
                lines@,
                batches@,
                outcomes(old(cache).history(), cache.history()),
            );
            assert forall|k: nat| k < 6 implies kind_total(report.counters, k) == count_kind(
                flat,
                k,
            ) by {
                lemma_tally_kind(
                    Counters::zero(),
                    flat,
                    outcomes(old(cache).history(), cache.history()),
                    k,
                );
            }
        }
        if config.repeats() == 0 || lines@.len() == 0 {
            assert(flat.len() == 0) by (nonlinear_arith)
                requires
                    flat.len() == config.repeats() * lines@.len(),
                    config.repeats() == 0 || lines@.len() == 0,
            ;
        }
    }
    Ok(report)
}

} // verus!
