use mokabench::{
    finish_run, generate_commands, parse_trace_line, plan_batches, process_commands, replay,
    yield_due, CacheDriver, Command, Config, Counters, EvictionCounts, EvictionListenerMode,
    Report, ReportBuilder, TraceEntry, TraceError, BATCH_SIZE, run_single, next_batch, Producer,
};
use std::cell::RefCell;
use std::collections::HashSet;
use std::rc::Rc;
use std::time::Duration;

/// An unbounded cache whose clones share their contents.
#[derive(Clone, Default)]
struct SetCache {
    keys: Rc<RefCell<HashSet<u64>>>,
    evictions: Option<EvictionCounts>,
}

impl CacheDriver for SetCache {
    fn get_or_insert(&mut self, entry: &TraceEntry) -> bool {
        self.keys.borrow_mut().insert(entry.key)
    }
    fn get_or_insert_once(&mut self, entry: &TraceEntry) -> bool {
        self.keys.borrow_mut().insert(entry.key)
    }
    fn update(&mut self, entry: &TraceEntry) {
        self.keys.borrow_mut().insert(entry.key);
    }
    fn invalidate(&mut self, entry: &TraceEntry) {
        self.keys.borrow_mut().remove(&entry.key);
    }
    fn invalidate_all(&mut self) {
        self.keys.borrow_mut().clear();
    }
    fn invalidate_entries_if(&mut self, entry: &TraceEntry) {
        let k = entry.key;
        self.keys.borrow_mut().retain(|x| *x % 2 != k % 2);
    }
    fn iterate(&mut self) {
        let _ = self.keys.borrow().iter().count();
    }
    fn eviction_counts(&self) -> Option<EvictionCounts> {
        self.evictions
    }
}

fn config(repeat: Option<u16>) -> Config {
    Config {
        trace_file: "trace.lis".to_string(),
        repeat,
        insert_once: false,
        update: false,
        invalidate: false,
        invalidate_all: false,
        invalidate_entries_if: false,
        iterate: false,
        size_aware: false,
        entry_api: false,
        eviction_listener: EvictionListenerMode::Disabled,
        channel_capacity: None,
    }
}

fn trace(n: usize) -> Vec<String> {
    (0..n).map(|i| format!("{} 1 0 {}", (i * 7) % 300, i)).collect()
}

fn entry_of(c: &Command) -> Option<TraceEntry> {
    match c {
        Command::GetOrInsert(e)
        | Command::GetOrInsertOnce(e)
        | Command::Update(e)
        | Command::Invalidate(e)
        | Command::InvalidateEntriesIf(e) => Some(*e),
        Command::InvalidateAll | Command::Iterate => None,
    }
}

/// Shares the batches out round-robin among `n` workers, as competing
/// receivers might, and merges their reports.
fn run_workers(cfg: &Config, batches: &[Vec<Command>], n: usize) -> Report {
    let builder = ReportBuilder::new("test", 100, Some(n as u16));
    let cache = SetCache::default();
    let mut workers: Vec<(SetCache, Report)> =
        (0..n).map(|_| (cache.clone(), builder.build())).collect();
    for (j, b) in batches.iter().enumerate() {
        let (c, r) = &mut workers[j % n];
        process_commands(b.clone(), c, r);
    }
    let reports: Vec<Report> = workers.into_iter().map(|(_, r)| r).collect();
    finish_run(cfg, &builder, &reports, Duration::from_millis(5), cache.eviction_counts())
}

fn total(batches: &[Vec<Command>]) -> usize {
    batches.iter().map(|b| b.len()).sum()
}

#[test]
fn parse_well_formed_line() {
    let e = parse_trace_line("12 3 0 1", 4, 9).unwrap();
    assert_eq!(e, TraceEntry { line_number: 4, seq: 9, key: 12, len: 3 });
    let e = parse_trace_line("7 250", 0, 1).unwrap();
    assert_eq!((e.key, e.len), (7, 250));
    let e = parse_trace_line("18446744073709551615 1", 0, 1).unwrap();
    assert_eq!(e.key, u64::MAX);
}

#[test]
fn parse_malformed_lines() {
    for bad in ["", "abc", "12", "12 ", " 12 3", "12 3x", "12  3", "18446744073709551616 1"] {
        assert_eq!(
            parse_trace_line(bad, 6, 1),
            Err(TraceError::Malformed { line_number: 6 }),
            "{bad:?}"
        );
    }
}

#[test]
fn generate_commands_advances_counter() {
    let cfg = config(None);
    let lines = trace(450);
    let mut counter = 10usize;
    let batch = generate_commands(&cfg, BATCH_SIZE, &mut counter, &lines, 400).unwrap();
    assert_eq!(batch.len(), 50);
    assert_eq!(counter, 60);
    let e = entry_of(&batch[0]).unwrap();
    assert_eq!((e.line_number, e.seq, e.key), (400, 11, (400 * 7) % 300));
    let mut counter = 0usize;
    let batch = generate_commands(&cfg, BATCH_SIZE, &mut counter, &lines, 0).unwrap();
    assert_eq!(batch.len(), 200);
    assert_eq!(counter, 200);
}

#[test]
fn generate_commands_reports_first_bad_line() {
    let cfg = config(None);
    let mut lines = trace(10);
    lines[3] = "x".to_string();
    lines[5] = "y".to_string();
    let mut counter = 0usize;
    let r = generate_commands(&cfg, BATCH_SIZE, &mut counter, &lines, 0);
    assert_eq!(r, Err(TraceError::Malformed { line_number: 3 }));
}

#[test]
fn command_policy_by_sequence_index() {
    let mut cfg = config(None);
    cfg.invalidate = true;
    cfg.update = true;
    cfg.insert_once = true;
    let batches = plan_batches(&cfg, &trace(32)).unwrap();
    let all: Vec<Command> = batches.concat();
    assert!(matches!(all[7], Command::Invalidate(e) if e.seq == 8));
    assert!(matches!(all[15], Command::Invalidate(e) if e.seq == 16));
    assert!(matches!(all[0], Command::GetOrInsertOnce(e) if e.seq == 1));
    let mut cfg = config(None);
    cfg.update = true;
    let all: Vec<Command> = plan_batches(&cfg, &trace(32)).unwrap().concat();
    assert!(matches!(all[15], Command::Update(e) if e.seq == 16));
    assert!(matches!(all[7], Command::GetOrInsert(e) if e.seq == 8));
    let mut cfg = config(None);
    cfg.invalidate_all = true;
    cfg.iterate = true;
    cfg.invalidate_entries_if = true;
    let all: Vec<Command> = plan_batches(&cfg, &trace(100_000)).unwrap().concat();
    assert_eq!(all[4_999].clone(), Command::InvalidateEntriesIf(entry_of(&all[4_999]).unwrap()));
    assert_eq!(all[49_999], Command::Iterate);
    assert_eq!(all[99_999], Command::InvalidateAll);
}

#[test]
fn thousand_lines_four_workers() {
    let cfg = config(Some(1));
    let batches = plan_batches(&cfg, &trace(1000)).unwrap();
    assert_eq!(batches.len(), 5);
    assert_eq!(total(&batches), 1000);
    let report = run_workers(&cfg, &batches, 4);
    assert_eq!(report.counters.read_count, 1000);
    assert_eq!(report.counters.hit_count + report.counters.insert_count, 1000);
    assert_eq!(report.duration, Some(Duration::from_millis(5)));
    assert_eq!(report.name, "test");
}

#[test]
fn thousand_lines_three_repeats() {
    let cfg = config(Some(3));
    let batches = plan_batches(&cfg, &trace(1000)).unwrap();
    assert_eq!(total(&batches), 3000);
    assert!(batches.iter().all(|b| !b.is_empty() && b.len() <= BATCH_SIZE));
    let report = run_workers(&cfg, &batches, 4);
    assert_eq!(report.counters.read_count, 3000);
}

#[test]
fn sequence_indices_strictly_increase() {
    let cfg = config(Some(3));
    let all: Vec<Command> = plan_batches(&cfg, &trace(450)).unwrap().concat();
    assert_eq!(all.len(), 1350);
    for (k, c) in all.iter().enumerate() {
        let e = entry_of(c).unwrap();
        assert_eq!(e.seq, k + 1);
        assert_eq!(e.line_number, k % 450);
    }
}

#[test]
fn single_worker_matches_four_workers() {
    let mut cfg = config(Some(2));
    cfg.invalidate = true;
    let batches = plan_batches(&cfg, &trace(1000)).unwrap();
    let mut cache = SetCache::default();
    let mut single = Report::new("single", 100, Some(1));
    replay(&batches, &mut cache, &mut single);
    let multi = run_workers(&cfg, &batches, 4);
    assert_eq!(single.counters.read_count, multi.counters.read_count);
    assert_eq!(single.counters.invalidation_count, multi.counters.invalidation_count);
    assert_eq!(single.counters.invalidation_count, 250);
    assert_eq!(single.counters.read_count, 1750);
}

#[test]
fn empty_trace_gives_empty_report() {
    let cfg = config(None);
    let batches = plan_batches(&cfg, &Vec::new()).unwrap();
    assert!(batches.is_empty());
    let mut cache = SetCache::default();
    let mut report = Report::new("single", 100, Some(1));
    replay(&batches, &mut cache, &mut report);
    assert_eq!(report.counters, Counters::zeroed());
    let merged = run_workers(&cfg, &batches, 4);
    assert_eq!(merged.counters, Counters::zeroed());
}

#[test]
fn malformed_trace_fails_the_plan() {
    let mut lines = trace(1000);
    lines[517] = "517 one".to_string();
    lines[900] = "".to_string();
    assert_eq!(
        plan_batches(&config(Some(2)), &lines),
        Err(TraceError::Malformed { line_number: 517 })
    );
    assert_eq!(plan_batches(&config(Some(0)), &lines), Ok(Vec::new()));
}

#[test]
fn eviction_counts_follow_the_listener() {
    let counts = EvictionCounts { size: 4, expired: 0, explicit: 1 };
    let builder = ReportBuilder::new("moka", 10, Some(2));
    let reports = vec![builder.build(), builder.build()];
    let cfg = config(None);
    let r = finish_run(&cfg, &builder, &reports, Duration::from_secs(1), Some(counts));
    assert_eq!(r.eviction_counts, None);
    let mut cfg = config(None);
    cfg.eviction_listener = EvictionListenerMode::Immediate;
    let r = finish_run(&cfg, &builder, &reports, Duration::from_secs(1), Some(counts));
    assert_eq!(r.eviction_counts, Some(counts));
    assert_eq!(r.capacity, 10);
    assert_eq!(r.num_clients, Some(2));
}

#[test]
fn yields_every_ten_thousand_commands() {
    assert!(yield_due(9_900, 10_100));
    assert!(yield_due(9_999, 10_000));
    assert!(!yield_due(0, 200));
    assert!(!yield_due(10_000, 10_200));
    assert!(yield_due(19_800, 20_000));
}

/// Records every command it is asked to run; reads miss on odd keys.
#[derive(Default)]
struct Recorder {
    log: Vec<Command>,
}

impl CacheDriver for Recorder {
    fn get_or_insert(&mut self, entry: &TraceEntry) -> bool {
        self.log.push(Command::GetOrInsert(*entry));
        entry.key % 2 == 1
    }
    fn get_or_insert_once(&mut self, entry: &TraceEntry) -> bool {
        self.log.push(Command::GetOrInsertOnce(*entry));
        entry.key % 2 == 1
    }
    fn update(&mut self, entry: &TraceEntry) {
        self.log.push(Command::Update(*entry));
    }
    fn invalidate(&mut self, entry: &TraceEntry) {
        self.log.push(Command::Invalidate(*entry));
    }
    fn invalidate_all(&mut self) {
        self.log.push(Command::InvalidateAll);
    }
    fn invalidate_entries_if(&mut self, entry: &TraceEntry) {
        self.log.push(Command::InvalidateEntriesIf(*entry));
    }
    fn iterate(&mut self) {
        self.log.push(Command::Iterate);
    }
    fn eviction_counts(&self) -> Option<EvictionCounts> {
        None
    }
}

#[test]
fn every_command_reaches_the_driver_in_order() {
    let mut cfg = config(Some(2));
    cfg.invalidate = true;
    cfg.update = true;
    let batches = plan_batches(&cfg, &trace(450)).unwrap();
    let mut driver = Recorder::default();
    let mut report = Report::new("single", 100, Some(1));
    replay(&batches, &mut driver, &mut report);
    assert_eq!(driver.log, batches.concat());
    let reads: Vec<&Command> = driver
        .log
        .iter()
        .filter(|c| matches!(c, Command::GetOrInsert(_) | Command::GetOrInsertOnce(_)))
        .collect();
    let misses = reads.iter().filter(|c| entry_of(c).unwrap().key % 2 == 1).count() as u64;
    assert_eq!(report.counters.read_count, reads.len() as u64);
    assert_eq!(report.counters.insert_count, misses);
    assert_eq!(report.counters.hit_count, reads.len() as u64 - misses);

    let mut driver = Recorder::default();
    let mut report = Report::new("one", 100, Some(1));
    process_commands(batches[1].clone(), &mut driver, &mut report);
    assert_eq!(driver.log, batches[1]);
}

#[test]
fn batches_follow_each_pass() {
    let batches = plan_batches(&config(Some(2)), &trace(450)).unwrap();
    let lens: Vec<usize> = batches.iter().map(|b| b.len()).collect();
    assert_eq!(lens, vec![200, 200, 50, 200, 200, 50]);
    let batches = plan_batches(&config(Some(1)), &trace(400)).unwrap();
    let lens: Vec<usize> = batches.iter().map(|b| b.len()).collect();
    assert_eq!(lens, vec![200, 200]);
}

#[test]
fn run_single_counts_every_command() {
    let mut cfg = config(Some(3));
    cfg.invalidate = true;
    let lines = trace(1000);
    let mut driver = Recorder::default();
    let report = run_single(&cfg, 500, &lines, &mut driver).unwrap();
    assert_eq!(report.name, "Mini Moka Unsync Cache");
    assert_eq!(report.capacity, 500);
    assert_eq!(report.num_clients, Some(1));
    assert!(report.duration.is_some());
    assert_eq!(report.eviction_counts, None);
    assert_eq!(driver.log, plan_batches(&cfg, &lines).unwrap().concat());
    assert_eq!(report.counters.read_count + report.counters.invalidation_count, 3000);
    assert_eq!(report.counters.invalidation_count, 375);
    let mut cfg = config(None);
    cfg.size_aware = true;
    let report = run_single(&cfg, 2, &lines, &mut SetCache::default()).unwrap();
    assert_eq!(report.capacity, 65_536);
}

#[test]
fn run_single_matches_four_workers() {
    let mut cfg = config(Some(2));
    cfg.invalidate = true;
    cfg.update = true;
    let lines = trace(1000);
    let single = run_single(&cfg, 100, &lines, &mut SetCache::default()).unwrap();
    let multi = run_workers(&cfg, &plan_batches(&cfg, &lines).unwrap(), 4);
    let (a, b) = (single.counters, multi.counters);
    assert_eq!(a.read_count, b.read_count);
    assert_eq!(a.update_count, b.update_count);
    assert_eq!(a.invalidation_count, b.invalidation_count);
    assert_eq!(a.invalidate_all_count, b.invalidate_all_count);
    assert_eq!(a.invalidate_if_count, b.invalidate_if_count);
    assert_eq!(a.iterate_count, b.iterate_count);
}

#[test]
fn run_single_fails_on_malformed_line() {
    let mut lines = trace(300);
    lines[250] = "250".to_string();
    let mut driver = Recorder::default();
    let r = run_single(&config(Some(2)), 100, &lines, &mut driver);
    assert_eq!(r.unwrap_err(), TraceError::Malformed { line_number: 250 });
    assert!(driver.log.is_empty());
}

#[test]
fn run_single_on_empty_work() {
    let mut driver = Recorder::default();
    let r = run_single(&config(None), 100, &Vec::new(), &mut driver).unwrap();
    assert_eq!(r.counters, Counters::zeroed());
    assert_eq!(r.num_clients, Some(1));
    let r = run_single(&config(Some(0)), 100, &trace(50), &mut driver).unwrap();
    assert_eq!(r.counters, Counters::zeroed());
    assert!(driver.log.is_empty());
}

#[test]
fn producer_makes_the_planned_batches() {
    let mut cfg = config(Some(3));
    cfg.invalidate = true;
    let lines = trace(450);
    let mut p = Producer::new();
    let mut made = Vec::new();
    while let Some(b) = next_batch(&cfg, &lines, &mut p) {
        made.push(b.unwrap());
    }
    assert_eq!(made, plan_batches(&cfg, &lines).unwrap());
    assert_eq!(p, Producer { repeat: 3, start: 0, counter: 1350 });
    assert_eq!(next_batch(&cfg, &Vec::new(), &mut Producer::new()), None);
}

#[test]
fn producer_fails_on_malformed_line() {
    let mut lines = trace(450);
    lines[420] = "oops".to_string();
    let cfg = config(Some(2));
    let mut p = Producer::new();
    assert!(next_batch(&cfg, &lines, &mut p).unwrap().is_ok());
    assert!(next_batch(&cfg, &lines, &mut p).unwrap().is_ok());
    assert_eq!(
        next_batch(&cfg, &lines, &mut p),
        Some(Err(TraceError::Malformed { line_number: 420 }))
    );
}
