use mokabench::{Command, Counters, EvictionCounts, Report, ReportBuilder, TraceEntry};

fn counters(seed: u64) -> Counters {
    Counters {
        read_count: seed,
        hit_count: seed / 2,
        insert_count: seed - seed / 2,
        update_count: seed + 1,
        invalidation_count: seed * 3,
        invalidate_all_count: 1,
        invalidate_if_count: seed % 5,
        iterate_count: 2,
    }
}

fn merged(order: &[Counters]) -> Counters {
    let mut r = Report::new("m", 1, None);
    for c in order {
        let mut w = Report::new("w", 1, None);
        w.counters = *c;
        r.merge(&w);
    }
    r.counters
}

#[test]
fn merge_sums_fields() {
    let mut a = counters(10);
    a.merge(&counters(4));
    assert_eq!(a.read_count, 14);
    assert_eq!(a.hit_count, 7);
    assert_eq!(a.insert_count, 7);
    assert_eq!(a.update_count, 16);
    assert_eq!(a.invalidation_count, 42);
    assert_eq!(a.invalidate_all_count, 2);
    assert_eq!(a.invalidate_if_count, 4);
    assert_eq!(a.iterate_count, 4);
}

#[test]
fn merge_in_any_order() {
    let (a, b, c) = (counters(3), counters(40), counters(500));
    let abc = merged(&[a, b, c]);
    assert_eq!(abc, merged(&[c, a, b]));
    assert_eq!(abc, merged(&[b, c, a]));
    assert_eq!(abc, merged(&[c, b, a]));
    let mut ab = a;
    ab.merge(&b);
    let mut bc = b;
    bc.merge(&c);
    let mut left = ab;
    left.merge(&c);
    let mut right = a;
    right.merge(&bc);
    assert_eq!(left, right);
}

#[test]
fn merge_saturates() {
    let mut a = Counters::zeroed();
    a.read_count = u64::MAX - 1;
    let mut b = Counters::zeroed();
    b.read_count = 5;
    a.merge(&b);
    assert_eq!(a.read_count, u64::MAX);
}

#[test]
fn record_counts_by_kind() {
    let e = TraceEntry { line_number: 0, seq: 1, key: 5, len: 1 };
    let mut r = ReportBuilder::new("r", 8, Some(1)).build();
    r.record(&Command::GetOrInsert(e), true);
    r.record(&Command::GetOrInsertOnce(e), false);
    r.record(&Command::Update(e), true);
    r.record(&Command::Invalidate(e), false);
    r.record(&Command::InvalidateAll, false);
    r.record(&Command::InvalidateEntriesIf(e), false);
    r.record(&Command::Iterate, false);
    let c = r.counters;
    assert_eq!((c.read_count, c.insert_count, c.hit_count), (2, 1, 1));
    assert_eq!((c.update_count, c.invalidation_count), (1, 1));
    assert_eq!((c.invalidate_all_count, c.invalidate_if_count, c.iterate_count), (1, 1, 1));
    assert_eq!(r.name, "r");
    assert_eq!(r.capacity, 8);
}

#[test]
fn merge_keeps_header() {
    let mut r = Report::new("head", 9, Some(3));
    let counts = EvictionCounts { size: 1, expired: 2, explicit: 3 };
    r.add_eviction_counts(&counts);
    let mut w = Report::new("w", 1, None);
    w.counters = counters(7);
    r.merge(&w);
    assert_eq!(r.name, "head");
    assert_eq!(r.capacity, 9);
    assert_eq!(r.num_clients, Some(3));
    assert_eq!(r.eviction_counts, Some(counts));
    assert_eq!(r.counters, counters(7));
}
