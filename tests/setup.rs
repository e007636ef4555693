use mokabench::{
    run_multi_tasks_moka_async, run_multi_threads_hashlink, run_multi_threads_light_cache,
    run_multi_threads_light_cache_lru, run_multi_threads_moka_dash,
    run_multi_threads_moka_segment, run_multi_threads_moka_sync, run_multi_threads_quick_cache,
    run_multi_threads_stretto, run_multi_threads_tiny_ufo, Backend, Config,
    EvictionListenerMode,
};

fn config(size_aware: bool, entry_api: bool) -> Config {
    Config {
        trace_file: "trace.lis".to_string(),
        repeat: None,
        insert_once: false,
        update: false,
        invalidate: false,
        invalidate_all: false,
        invalidate_entries_if: false,
        iterate: false,
        size_aware,
        entry_api,
        eviction_listener: EvictionListenerMode::Queued,
        channel_capacity: None,
    }
}

#[test]
fn config_helpers() {
    let mut c = config(true, false);
    assert_eq!(c.repeat_count(), 1);
    c.repeat = Some(4);
    assert_eq!(c.repeat_count(), 4);
    assert!(c.is_eviction_listener_enabled());
    c.eviction_listener = EvictionListenerMode::Disabled;
    assert!(!c.is_eviction_listener_enabled());
    assert_eq!(c.max_capacity(10), 327_680);
    c.size_aware = false;
    assert_eq!(c.max_capacity(10), 10);
}

#[test]
fn moka_sync_setup() {
    let s = run_multi_threads_moka_sync(&config(false, true), 500, 4);
    assert_eq!(s.backend, Backend::MokaSync { max_capacity: 500, capacity: 500, entry_api: true });
    assert_eq!(s.report_builder.name, "Moka Sync Cache");
    assert_eq!(s.report_builder.capacity, 500);
    assert_eq!(s.report_builder.num_clients, Some(4));
    assert_eq!(s.num_clients, 4);
    let s = run_multi_threads_moka_sync(&config(true, false), 500, 2);
    assert_eq!(s.report_builder.capacity, 500 * 32_768);
}

#[test]
fn moka_segment_name() {
    let s = run_multi_threads_moka_segment(&config(false, false), 100, 8, 8);
    assert_eq!(s.report_builder.name, "Moka SegmentedCache(8)");
    let s = run_multi_threads_moka_segment(&config(false, false), 100, 8, 16);
    assert_eq!(s.report_builder.name, "Moka SegmentedCache(16)");
    let s = run_multi_threads_moka_segment(&config(false, false), 100, 8, 1024);
    assert_eq!(s.report_builder.name, "Moka SegmentedCache(1024)");
    assert_eq!(
        s.backend,
        Backend::MokaSegmented { max_capacity: 100, capacity: 100, num_segments: 1024, entry_api: false }
    );
}

#[test]
fn other_setups() {
    let c = config(true, false);
    let s = run_multi_tasks_moka_async(&c, 3, 2);
    assert_eq!(s.report_builder.name, "Moka Async Cache");
    assert_eq!(s.report_builder.capacity, 3 * 32_768);
    let s = run_multi_threads_moka_dash(&c, 3, 2);
    assert_eq!(s.report_builder.name, "Mini Moka Sync Cache");
    let s = run_multi_threads_hashlink(&c, 3, 2);
    assert_eq!((s.report_builder.name.as_str(), s.report_builder.capacity), ("HashLink (LRU w/ Mutex)", 3));
    let s = run_multi_threads_quick_cache(&c, 3, 2);
    assert_eq!(s.backend, Backend::QuickCache { capacity: 3, max_weight: 3 * 32_768 });
    assert_eq!(s.report_builder.capacity, 3);
    assert_eq!(run_multi_threads_light_cache(&c, 3, 2).report_builder.name, "LightCache Sync Cache");
    assert_eq!(
        run_multi_threads_light_cache_lru(&c, 3, 2).report_builder.name,
        "LightCache Sync Cache LRU"
    );
    assert_eq!(run_multi_threads_stretto(&c, 3, 2).backend, Backend::Stretto { capacity: 3 });
    assert_eq!(run_multi_threads_tiny_ufo(&c, 3, 2).report_builder.name, "TinyUFO");
}
