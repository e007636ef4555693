//! The run: the producer's batches over all repeats of the trace, the
//! single-worker replay, and the merge of the workers' reports into the final
//! one. Threads, tasks and the channel between them are the caller's; each
//! worker hands every batch it receives to `process_commands`.
use crate::cache::{outcomes, process_batch, ran, same_header, CacheDriver};
use crate::config::Config;
use crate::load_gen::{
    chunk_end, command_at, first_bad_line, lemma_first_bad_exists, lemma_first_bad_line, generate_commands, line_at, Command, BATCH_SIZE,
};
use crate::parser::line_parses;
use crate::report::{merge_all, tally, Counters, EvictionCounts, Report, ReportBuilder};
use vstd::prelude::*;

verus! {

/// The commands of a sequence of batches, in order.
pub open spec fn concat(bs: Seq<Vec<Command>>) -> Seq<Command>
    decreases bs.len(),
{
    if bs.len() == 0 {
        Seq::empty()
    } else {
        concat(bs.drop_last()) + bs.last()@
    }
}

/// `flat` is the whole run's command stream: every line of the trace, once per
/// repeat, the `k`-th command getting sequence index `k + 1`.
pub open spec fn planned(config: &Config, lines: Seq<String>, flat: Seq<Command>) -> bool {
    &&& flat.len() == config.repeats() * lines.len()
    &&& forall|k: int|
        0 <= k < flat.len() ==> #[trigger] flat[k] == command_at(
            config,
            lines,
            k % (lines.len() as int),
            k + 1,
        )
}

/// Lengths of the batches that one pass over a trace of `n` lines makes from
/// line `start` on: `BATCH_SIZE` each, the last one shorter where `n` is not a
/// multiple of it.
pub open spec fn chunk_lens(n: int, start: int) -> Seq<int>
    decreases n - start,
{
    if start >= n {
        Seq::empty()
    } else {
        seq![chunk_end(start, BATCH_SIZE as int, n) - start] + chunk_lens(
            n,
            chunk_end(start, BATCH_SIZE as int, n),
        )
    }
}

/// Lengths of the batches of `r` passes over a trace of `n` lines.
pub open spec fn repeat_lens(n: int, r: nat) -> Seq<int>
    decreases r,
{
    if r == 0 {
        Seq::empty()
    } else {
        repeat_lens(n, (r - 1) as nat) + chunk_lens(n, 0)
    }
}

/// The length of each batch, in order.
pub open spec fn batch_lens(bs: Seq<Vec<Command>>) -> Seq<int> {
    bs.map_values(|b: Vec<Command>| b@.len() as int)
}

/// The run's command stream: every line of the trace, once per repeat, the
/// `k`-th command getting sequence index `k + 1`.
pub open spec fn planned_stream(config: &Config, lines: Seq<String>) -> Seq<Command> {
    Seq::new(
        config.repeats() * lines.len(),
        |k: int| command_at(config, lines, k % (lines.len() as int), k + 1),
    )
}

/// `planned` holds of one stream only.
pub proof fn lemma_planned_unique(config: &Config, lines: Seq<String>, flat: Seq<Command>)
    requires
        planned(config, lines, flat),
    ensures
        flat == planned_stream(config, lines),
{
    assert(flat =~= planned_stream(config, lines));
}

/// Every batch holds at least one command and at most `BATCH_SIZE`.
pub open spec fn batch_sizes_ok(bs: Seq<Vec<Command>>) -> bool {
    forall|j: int| 0 <= j < bs.len() ==> 0 < #[trigger] bs[j]@.len() <= BATCH_SIZE
}

proof fn lemma_no_bad_line(lines: Seq<String>, start: int, end: int)
    requires
        forall|j: int| start <= j < end ==> line_parses(#[trigger] line_at(lines, j)),
    ensures
        first_bad_line(lines, start, end).is_none(),
{
}

proof fn lemma_mod_offset(r: int, n: int, j: int)
    requires
        0 <= r,
        0 <= j < n,
    ensures
        (r * n + j) % n == j,
{
    vstd::arithmetic::div_mod::lemma_mod_multiples_vanish(r, j, n);
    vstd::arithmetic::div_mod::lemma_small_mod(j as nat, n as nat);
    assert(n * r == r * n) by (nonlinear_arith);
}

/// Makes the batches of the whole run: the trace's lines, `repeat` times over,
/// each pass cut into consecutive batches of `BATCH_SIZE` commands, the last
/// one shorter. Fails on the first line that does not parse.
pub fn plan_batches(config: &Config, lines: &Vec<String>) -> (r: Result<
    Vec<Vec<Command>>,
    crate::parser::TraceError,
>)
    requires
        config.repeats() * lines@.len() <= usize::MAX,
    ensures
        (config.repeats() == 0 || first_bad_line(lines@, 0, lines@.len() as int).is_none())
            <==> r.is_ok(),
        r.is_ok() ==> planned(config, lines@, concat(r.unwrap()@)) && batch_sizes_ok(
            r.unwrap()@,
        ) && batch_lens(r.unwrap()@) == repeat_lens(lines@.len() as int, config.repeats()),
        r.is_err() ==> r == Err::<Vec<Vec<Command>>, crate::parser::TraceError>(
            crate::parser::TraceError::Malformed {
                line_number: first_bad_line(lines@, 0, lines@.len() as int).unwrap() as usize,
            },
        ),
{
    let n = lines.len();
    let repeat = config.repeat_count();
    let mut batches: Vec<Vec<Command>> = Vec::new();
    let mut counter: usize = 0;
    let mut r: u16 = 0;
    proof {
        assert(batch_lens(batches@) =~= repeat_lens(n as int, 0));
    }
    while r < repeat
        invariant
            n == lines@.len(),
            repeat as nat == config.repeats(),
            r <= repeat,
            config.repeats() * n <= usize::MAX,
            counter == r * n,
            concat(batches@).len() == counter,
            batch_sizes_ok(batches@),
            batch_lens(batches@) == repeat_lens(n as int, r as nat),
            forall|k: int|
                0 <= k < counter ==> #[trigger] concat(batches@)[k] == command_at(
                    config,
                    lines@,
                    k % (n as int),
                    k + 1,
                ),
            r > 0 ==> forall|j: int| 0 <= j < n ==> line_parses(#[trigger] line_at(lines@, j)),
        decreases repeat - r,
    {
        let mut start: usize = 0;
        proof {
            assert(batch_lens(batches@) + chunk_lens(n as int, 0) =~= repeat_lens(
                n as int,
                (r + 1) as nat,
            ));
        }
        while start < n
            invariant
                n == lines@.len(),
                repeat as nat == config.repeats(),
                r < repeat,
                start <= n,
                config.repeats() * n <= usize::MAX,
                counter == r * n + start,
                concat(batches@).len() == counter,
                batch_sizes_ok(batches@),
                batch_lens(batches@) + chunk_lens(n as int, start as int) == repeat_lens(
                    n as int,
                    (r + 1) as nat,
                ),
                forall|k: int|
                    0 <= k < counter ==> #[trigger] concat(batches@)[k] == command_at(
                        config,
                        lines@,
                        k % (n as int),
                        k + 1,
                    ),
                forall|j: int| 0 <= j < start ==> line_parses(#[trigger] line_at(lines@, j)),
                r > 0 ==> forall|j: int|
                    0 <= j < n ==> line_parses(#[trigger] line_at(lines@, j)),
            decreases n - start,
        {
            let ghost end = chunk_end(start as int, BATCH_SIZE as int, n as int);
            proof {
                assert((r + 1) * n <= config.repeats() * n) by (nonlinear_arith)
                    requires
                        r + 1 <= config.repeats(),
                ;
                assert(r * n + n == (r + 1) * n) by (nonlinear_arith);
            }
            let ghost c0 = counter;
            let ghost old_batches = batches@;
            match generate_commands(config, BATCH_SIZE, &mut counter, lines, start) {
                Ok(batch) => {
                    proof {
                        if first_bad_line(lines@, start as int, end).is_some() {
                            lemma_first_bad_line(lines@, start as int, end);
                        }
                        assert forall|j: int| start <= j < end implies line_parses(
                            #[trigger] line_at(lines@, j),
                        ) by {
                            if !line_parses(line_at(lines@, j)) {
                                assert(first_bad_line(lines@, start as int, end).is_some());
                            }
                        }
                    }
                    batches.push(batch);
                    proof {
                        assert(batches@.drop_last() =~= old_batches);
                        assert(batch_lens(batches@) =~= batch_lens(old_batches).push(
                            batch@.len() as int,
                        ));
                        assert(batch_lens(batches@) + chunk_lens(n as int, end) =~= batch_lens(
                            old_batches,
                        ) + chunk_lens(n as int, start as int));
                        let flat = concat(batches@);
                        assert forall|k: int| 0 <= k < counter implies #[trigger] flat[k]
                            == command_at(config, lines@, k % (n as int), k + 1) by {
                            if k >= c0 {
                                let kk = k - c0;
                                assert(flat[k] == batch@[kk]);
                                lemma_mod_offset(r as int, n as int, start + kk);
                                assert(r * n + (start + kk) == k) by (nonlinear_arith)
                                    requires
                                        kk == k - c0,
                                        c0 == r * n + start,
                                ;
                            } else {
                                assert(flat[k] == concat(old_batches)[k]);
                            }
                        }
                    }
                    start = if BATCH_SIZE < n - start {
                        start + BATCH_SIZE
                    } else {
                        n
                    };
                },
                Err(e) => {
                    proof {
                        lemma_first_bad_line(lines@, start as int, end);
                        let i = first_bad_line(lines@, start as int, end).unwrap();
                        lemma_first_bad_exists(lines@, 0, n as int, i);
                    }
                    return Err(e);
                },
            }
        }
        proof {
            assert((r + 1) * n == r * n + n) by (nonlinear_arith);
            assert(batch_lens(batches@) =~= repeat_lens(n as int, (r + 1) as nat));
        }
        r = r + 1;
    }
    proof {
        if config.repeats() > 0 {
            lemma_no_bad_line(lines@, 0, n as int);
        }
    }
    Ok(batches)
}

} // verus!

verus! {

proof fn lemma_concat_push(bs: Seq<Vec<Command>>, b: Vec<Command>)
    ensures
        concat(bs.push(b)) == concat(bs) + b@,
{
    assert(bs.push(b).drop_last() =~= bs);
}

/// Runs every batch in order on one worker: the unsynchronized, single-worker
/// mode. The back-end runs the batches' commands one after another, and each
/// is counted with the outcome the back-end gave for it.
pub fn replay<D: CacheDriver>(batches: &Vec<Vec<Command>>, cache: &mut D, report: &mut Report)
    ensures
        ran(old(cache).history(), final(cache).history(), concat(batches@)),
        final(report).counters == tally(
            old(report).counters,
            concat(batches@),
            outcomes(old(cache).history(), final(cache).history()),
        ),
        same_header(*final(report), *old(report)),
{
    let ghost c0 = report.counters;
    let ghost h0 = cache.history();
    let mut i: usize = 0;
    proof {
        assert(batches@.subrange(0, 0) =~= Seq::<Vec<Command>>::empty());
        assert(cache.history().subrange(0, h0.len() as int) =~= h0);
        assert(outcomes(h0, cache.history()) =~= Seq::<bool>::empty());
    }
    while i < batches.len()
        invariant
            i <= batches@.len(),
            ran(h0, cache.history(), concat(batches@.subrange(0, i as int))),
            report.counters == tally(
                c0,
                concat(batches@.subrange(0, i as int)),
                outcomes(h0, cache.history()),
            ),
            same_header(*report, *old(report)),
            c0 == old(report).counters,
            h0 == old(cache).history(),
        decreases batches@.len() - i,
    {
        let ghost before = report.counters;
        let ghost hp = cache.history();
        process_batch(&batches[i], cache, report);
        proof {
            let h = cache.history();
            let prev = concat(batches@.subrange(0, i as int));
            let b = batches@[i as int]@;
            assert(batches@.subrange(0, i + 1) =~= batches@.subrange(0, i as int).push(
                batches@[i as int],
            ));
            lemma_concat_push(batches@.subrange(0, i as int), batches@[i as int]);
            assert(outcomes(h0, h) =~= outcomes(h0, hp) + outcomes(hp, h));
            crate::report::lemma_tally_append(c0, prev, outcomes(h0, hp), b, outcomes(hp, h));
            assert(h.subrange(0, h0.len() as int) =~= hp.subrange(0, h0.len() as int)) by {
                assert forall|k: int| 0 <= k < h0.len() implies h[k] == hp[k] by {
                    assert(h.subrange(0, hp.len() as int)[k] == hp[k]);
                }
            }
            assert forall|k: int| 0 <= k < (prev + b).len() implies (#[trigger] h[h0.len()
                + k]).0 == (prev + b)[k] by {
                if k < prev.len() {
                    assert(h.subrange(0, hp.len() as int)[h0.len() + k] == hp[h0.len() + k]);
                } else {
                    let kk = k - prev.len();
                    assert(h[hp.len() + kk].0 == b[kk]);
                }
            }
        }
        i = i + 1;
    }
    proof {
        assert(batches@.subrange(0, batches@.len() as int) =~= batches@);
    }
}

/// The counts of each report, in order.
pub open spec fn counters_of(rs: Seq<Report>) -> Seq<Counters> {
    rs.map_values(|r: Report| r.counters)
}

/// The final report of a run: a fresh report from the template, with the
/// run's duration, the workers' counts merged in order, and the eviction
/// counts where the configuration installs an eviction listener.
pub fn finish_run(
    config: &Config,
    builder: &ReportBuilder,
    reports: &Vec<Report>,
    duration: std::time::Duration,
    eviction: Option<EvictionCounts>,
) -> (r: Report)
    requires
        config.listener_enabled() ==> eviction.is_some(),
    ensures
        r.name@ == builder.name@,
        r.capacity == builder.capacity,
        r.num_clients == builder.num_clients,
        r.duration == Some(duration),
        r.counters == merge_all(counters_of(reports@)),
        r.eviction_counts == (if config.listener_enabled() {
            eviction
        } else {
            None
        }),
{
    let mut report = builder.build();
    report.duration = Some(duration);
    let mut i: usize = 0;
    proof {
        assert(counters_of(reports@.subrange(0, 0)) =~= Seq::<Counters>::empty());
    }
    while i < reports.len()
        invariant
            i <= reports@.len(),
            report.name@ == builder.name@,
            report.capacity == builder.capacity,
            report.num_clients == builder.num_clients,
            report.duration == Some(duration),
            report.eviction_counts.is_none(),
            report.counters == merge_all(counters_of(reports@.subrange(0, i as int))),
        decreases reports@.len() - i,
    {
        report.merge(&reports[i]);
        proof {
            assert(counters_of(reports@.subrange(0, i + 1)).drop_last() =~= counters_of(
                reports@.subrange(0, i as int),
            ));
        }
        i = i + 1;
    }
    proof {
        assert(reports@.subrange(0, reports@.len() as int) =~= reports@);
    }
    if config.is_eviction_listener_enabled() {
        match eviction {
            Some(c) => report.add_eviction_counts(&c),
            None => {},
        }
    }
    report
}

/// Commands that an asynchronous worker processes between two voluntary yields.
pub const YIELD_PERIOD: u64 = 10000;

/// Whether a worker whose processed-command count went from `before` to
/// `after` has passed a multiple of `YIELD_PERIOD`, and so yields to the scheduler.
pub fn yield_due(before: u64, after: u64) -> (r: bool)
    ensures
        r == (before / YIELD_PERIOD < after / YIELD_PERIOD),
{
    before / YIELD_PERIOD < after / YIELD_PERIOD
}

} // verus!

verus! {

/// The sequence index that a command carries, where it carries an entry.
pub open spec fn seq_index(c: Command) -> Option<usize> {
    match c {
        Command::GetOrInsert(e) => Some(e.seq),
        Command::GetOrInsertOnce(e) => Some(e.seq),
        Command::Update(e) => Some(e.seq),
        Command::Invalidate(e) => Some(e.seq),
        Command::InvalidateAll => None,
        Command::InvalidateEntriesIf(e) => Some(e.seq),
        Command::Iterate => None,
    }
}

/// Over the whole run, across repeats of the trace, the `k`-th command carries
/// sequence index `k + 1` where it carries one: the indices strictly increase,
/// so none repeats, and none is skipped.
pub proof fn lemma_sequence_indices(config: &Config, lines: Seq<String>, flat: Seq<Command>)
    requires
        planned(config, lines, flat),
        config.repeats() * lines.len() <= usize::MAX,
    ensures
        forall|k: int|
            0 <= k < flat.len() ==> seq_index(#[trigger] flat[k]) is None || seq_index(flat[k])
                == Some((k + 1) as usize),
        forall|i: int, j: int|
            0 <= i < j < flat.len() && seq_index(#[trigger] flat[i]) is Some && seq_index(
                #[trigger] flat[j],
            ) is Some ==> seq_index(flat[i]).unwrap() < seq_index(flat[j]).unwrap(),
{
}

/// The commands of the batches that worker `w` received, in the order in
/// which they were sent; `owner[j]` is the worker that received batch `j`.
pub open spec fn worker_stream(bs: Seq<Vec<Command>>, owner: Seq<nat>, w: nat) -> Seq<Command>
    decreases bs.len(),
{
    if bs.len() == 0 {
        Seq::empty()
    } else {
        worker_stream(bs.drop_last(), owner.drop_last(), w) + if owner[bs.len() - 1] == w {
            bs.last()@
        } else {
            Seq::empty()
        }
    }
}

/// Total length of the streams of workers `0..m`.
pub open spec fn streams_len(bs: Seq<Vec<Command>>, owner: Seq<nat>, m: nat) -> nat
    decreases m,
{
    if m == 0 {
        0
    } else {
        streams_len(bs, owner, (m - 1) as nat) + worker_stream(bs, owner, (m - 1) as nat).len()
    }
}

/// Total number of commands counted in the reports `0..m`.
pub open spec fn operations_upto(cs: Seq<Counters>, m: int) -> int
    decreases m,
{
    if m <= 0 {
        0
    } else {
        operations_upto(cs, m - 1) + cs[m - 1].operations()
    }
}

proof fn lemma_streams_step(bs: Seq<Vec<Command>>, owner: Seq<nat>, m: nat)
    requires
        bs.len() > 0,
        owner.len() == bs.len(),
    ensures
        streams_len(bs, owner, m) == streams_len(bs.drop_last(), owner.drop_last(), m) + (if owner[bs.len()
            - 1] < m {
            bs.last()@.len()
        } else {
            0
        }),
    decreases m,
{
    if m > 0 {
        lemma_streams_step(bs, owner, (m - 1) as nat);
    }
}

proof fn lemma_streams_cover(bs: Seq<Vec<Command>>, owner: Seq<nat>, m: nat)
    requires
        owner.len() == bs.len(),
        forall|j: int| 0 <= j < owner.len() ==> #[trigger] owner[j] < m,
    ensures
        streams_len(bs, owner, m) == concat(bs).len(),
    decreases bs.len(),
{
    if bs.len() == 0 {
        lemma_streams_empty(bs, owner, m);
    } else {
        lemma_streams_step(bs, owner, m);
        lemma_streams_cover(bs.drop_last(), owner.drop_last(), m);
    }
}

proof fn lemma_streams_empty(bs: Seq<Vec<Command>>, owner: Seq<nat>, m: nat)
    requires
        bs.len() == 0,
    ensures
        streams_len(bs, owner, m) == 0,
    decreases m,
{
    if m > 0 {
        lemma_streams_empty(bs, owner, (m - 1) as nat);
    }
}

proof fn lemma_tally_operations(c: Counters, s: Seq<Command>, m: Seq<bool>)
    requires
        s.len() == m.len(),
        c.operations() + s.len() <= u64::MAX,
    ensures
        tally(c, s, m).operations() == c.operations() + s.len(),
    decreases s.len(),
{
    if s.len() > 0 {
        lemma_tally_operations(c, s.drop_last(), m.drop_last());
    }
}

proof fn lemma_merge_operations(cs: Seq<Counters>, m: int)
    requires
        0 <= m <= cs.len(),
        operations_upto(cs, m) <= u64::MAX,
        forall|w: int| 0 <= w < cs.len() ==> #[trigger] cs[w].operations() >= 0,
    ensures
        merge_all(cs.subrange(0, m)).operations() == operations_upto(cs, m),
    decreases m,
{
    if m > 0 {
        lemma_merge_operations(cs, m - 1);
        assert(cs.subrange(0, m).drop_last() =~= cs.subrange(0, m - 1));
    } else {
        assert(cs.subrange(0, 0) =~= Seq::<Counters>::empty());
    }
}

proof fn lemma_operations_match(
    bs: Seq<Vec<Command>>,
    owner: Seq<nat>,
    cs: Seq<Counters>,
    m: nat,
)
    requires
        m <= cs.len(),
        forall|w: int|
            0 <= w < cs.len() ==> #[trigger] cs[w].operations() == worker_stream(
                bs,
                owner,
                w as nat,
            ).len(),
    ensures
        operations_upto(cs, m as int) == streams_len(bs, owner, m),
    decreases m,
{
    if m > 0 {
        lemma_operations_match(bs, owner, cs, (m - 1) as nat);
    }
}

/// Every command of the run is counted exactly once in the merged report,
/// however the batches were shared out among the workers: with `owner[j]` the
/// worker that received batch `j`, and each worker's counts taken from its own
/// stream with any outcomes, the merged counts hold `repeat` times the
/// trace's length in commands.
pub proof fn lemma_every_command_counted(
    config: &Config,
    lines: Seq<String>,
    bs: Seq<Vec<Command>>,
    owner: Seq<nat>,
    cs: Seq<Counters>,
    misses: Seq<Seq<bool>>,
)
    requires
        planned(config, lines, concat(bs)),
        config.repeats() * lines.len() <= u64::MAX,
        owner.len() == bs.len(),
        forall|j: int| 0 <= j < owner.len() ==> #[trigger] owner[j] < cs.len(),
        misses.len() == cs.len(),
        forall|w: int|
            0 <= w < cs.len() ==> (#[trigger] misses[w]).len() == worker_stream(
                bs,
                owner,
                w as nat,
            ).len() && cs[w] == tally(Counters::zero(), worker_stream(bs, owner, w as nat), misses[w]),
    ensures
        merge_all(cs).operations() == config.repeats() * lines.len(),
{
    lemma_streams_cover(bs, owner, cs.len());
    assert forall|w: int| 0 <= w < cs.len() implies #[trigger] cs[w].operations()
        == worker_stream(bs, owner, w as nat).len() by {
        lemma_streams_bound(bs, owner, cs.len(), w as nat);
        lemma_tally_operations(Counters::zero(), worker_stream(bs, owner, w as nat), misses[w]);
    }
    lemma_operations_match(bs, owner, cs, cs.len());
    lemma_merge_operations(cs, cs.len() as int);
    assert(cs.subrange(0, cs.len() as int) =~= cs);
}

proof fn lemma_streams_bound(bs: Seq<Vec<Command>>, owner: Seq<nat>, m: nat, w: nat)
    requires
        w < m,
    ensures
        worker_stream(bs, owner, w).len() <= streams_len(bs, owner, m),
    decreases m,
{
    if w < m - 1 {
        lemma_streams_bound(bs, owner, (m - 1) as nat, w);
    }
}

/// The harness's part of a run does not depend on the `entry_api` switch:
/// two configurations that differ only there plan the same command stream.
pub proof fn lemma_plan_ignores_entry_api(
    c1: &Config,
    c2: &Config,
    lines: Seq<String>,
    flat: Seq<Command>,
)
    requires
        *c2 == (Config { entry_api: c2.entry_api, ..*c1 }),
    ensures
        planned(c1, lines, flat) <==> planned(c2, lines, flat),
{
}

} // verus!

verus! {

/// Which count of a report a command adds to: reads, updates, invalidations,
/// full invalidations, predicate invalidations, scans.
pub open spec fn kind_of(c: Command) -> nat {
    match c {
        Command::GetOrInsert(_) => 0,
        Command::GetOrInsertOnce(_) => 0,
        Command::Update(_) => 1,
        Command::Invalidate(_) => 2,
        Command::InvalidateAll => 3,
        Command::InvalidateEntriesIf(_) => 4,
        Command::Iterate => 5,
    }
}

/// The count of a report for commands of kind `k`.
pub open spec fn kind_total(c: Counters, k: nat) -> int {
    if k == 0 {
        c.read_count as int
    } else if k == 1 {
        c.update_count as int
    } else if k == 2 {
        c.invalidation_count as int
    } else if k == 3 {
        c.invalidate_all_count as int
    } else if k == 4 {
        c.invalidate_if_count as int
    } else {
        c.iterate_count as int
    }
}

/// Number of commands of kind `k` in `s`.
pub open spec fn count_kind(s: Seq<Command>, k: nat) -> int
    decreases s.len(),
{
    if s.len() == 0 {
        0
    } else {
        count_kind(s.drop_last(), k) + if kind_of(s.last()) == k {
            1int
        } else {
            0int
        }
    }
}

proof fn lemma_count_kind_append(a: Seq<Command>, b: Seq<Command>, k: nat)
    ensures
        count_kind(a + b, k) == count_kind(a, k) + count_kind(b, k),
    decreases b.len(),
{
    if b.len() == 0 {
        assert(a + b =~= a);
    } else {
        lemma_count_kind_append(a, b.drop_last(), k);
        assert((a + b).drop_last() =~= a + b.drop_last());
    }
}

pub(crate) proof fn lemma_tally_kind(c: Counters, s: Seq<Command>, m: Seq<bool>, k: nat)
    requires
        k < 6,
        s.len() == m.len(),
        kind_total(c, k) + s.len() <= u64::MAX,
    ensures
        kind_total(tally(c, s, m), k) == kind_total(c, k) + count_kind(s, k),
        0 <= count_kind(s, k) <= s.len(),
    decreases s.len(),
{
    if s.len() > 0 {
        lemma_tally_kind(c, s.drop_last(), m.drop_last(), k);
    }
}

/// Total of the counts of kind `k` in the reports `0..m`.
pub open spec fn kind_upto(cs: Seq<Counters>, m: int, k: nat) -> int
    decreases m,
{
    if m <= 0 {
        0
    } else {
        kind_upto(cs, m - 1, k) + kind_total(cs[m - 1], k)
    }
}

proof fn lemma_merge_kind(cs: Seq<Counters>, m: int, k: nat)
    requires
        k < 6,
        0 <= m <= cs.len(),
        kind_upto(cs, m, k) <= u64::MAX,
    ensures
        kind_total(merge_all(cs.subrange(0, m)), k) == kind_upto(cs, m, k),
    decreases m,
{
    if m > 0 {
        lemma_merge_kind(cs, m - 1, k);
        assert(cs.subrange(0, m).drop_last() =~= cs.subrange(0, m - 1));
    } else {
        assert(cs.subrange(0, 0) =~= Seq::<Counters>::empty());
    }
}

/// Total number of commands of kind `k` in the streams of workers `0..m`.
pub open spec fn streams_kind(bs: Seq<Vec<Command>>, owner: Seq<nat>, m: nat, k: nat) -> int
    decreases m,
{
    if m == 0 {
        0
    } else {
        streams_kind(bs, owner, (m - 1) as nat, k) + count_kind(
            worker_stream(bs, owner, (m - 1) as nat),
            k,
        )
    }
}

proof fn lemma_streams_kind_step(bs: Seq<Vec<Command>>, owner: Seq<nat>, m: nat, k: nat)
    requires
        bs.len() > 0,
        owner.len() == bs.len(),
    ensures
        streams_kind(bs, owner, m, k) == streams_kind(bs.drop_last(), owner.drop_last(), m, k)
            + (if owner[bs.len() - 1] < m {
            count_kind(bs.last()@, k)
        } else {
            0
        }),
    decreases m,
{
    if m > 0 {
        lemma_streams_kind_step(bs, owner, (m - 1) as nat, k);
        let w = (m - 1) as nat;
        let init = worker_stream(bs.drop_last(), owner.drop_last(), w);
        if owner[bs.len() - 1] == w {
            lemma_count_kind_append(init, bs.last()@, k);
        } else {
            assert(init + Seq::<Command>::empty() =~= init);
        }
    }
}

proof fn lemma_streams_kind_cover(bs: Seq<Vec<Command>>, owner: Seq<nat>, m: nat, k: nat)
    requires
        owner.len() == bs.len(),
        forall|j: int| 0 <= j < owner.len() ==> #[trigger] owner[j] < m,
    ensures
        streams_kind(bs, owner, m, k) == count_kind(concat(bs), k),
    decreases bs.len(),
{
    if bs.len() == 0 {
        lemma_streams_kind_empty(bs, owner, m, k);
    } else {
        lemma_streams_kind_step(bs, owner, m, k);
        lemma_streams_kind_cover(bs.drop_last(), owner.drop_last(), m, k);
        lemma_count_kind_append(concat(bs.drop_last()), bs.last()@, k);
    }
}

proof fn lemma_streams_kind_empty(bs: Seq<Vec<Command>>, owner: Seq<nat>, m: nat, k: nat)
    requires
        bs.len() == 0,
    ensures
        streams_kind(bs, owner, m, k) == 0,
    decreases m,
{
    if m > 0 {
        lemma_streams_kind_empty(bs, owner, (m - 1) as nat, k);
    }
}

proof fn lemma_kind_match(
    bs: Seq<Vec<Command>>,
    owner: Seq<nat>,
    cs: Seq<Counters>,
    m: nat,
    k: nat,
)
    requires
        m <= cs.len(),
        forall|w: int|
            0 <= w < cs.len() ==> #[trigger] kind_total(cs[w], k) == count_kind(
                worker_stream(bs, owner, w as nat),
                k,
            ),
    ensures
        kind_upto(cs, m as int, k) == streams_kind(bs, owner, m, k),
    decreases m,
{
    if m > 0 {
        lemma_kind_match(bs, owner, cs, (m - 1) as nat, k);
    }
}

/// A single worker that replays a run and any number of workers that share
/// its batches out among themselves count the same number of commands of
/// every kind: `owner[j]` is the worker that received batch `j`, each worker
/// counts its own stream, and the outcomes, which the back-ends decide, may
/// differ everywhere.
pub proof fn lemma_single_worker_matches_workers(
    config: &Config,
    lines: Seq<String>,
    bs: Seq<Vec<Command>>,
    single_misses: Seq<bool>,
    owner: Seq<nat>,
    cs: Seq<Counters>,
    misses: Seq<Seq<bool>>,
    k: nat,
)
    requires
        k < 6,
        planned(config, lines, concat(bs)),
        config.repeats() * lines.len() <= u64::MAX,
        single_misses.len() == concat(bs).len(),
        owner.len() == bs.len(),
        forall|j: int| 0 <= j < owner.len() ==> #[trigger] owner[j] < cs.len(),
        misses.len() == cs.len(),
        forall|w: int|
            0 <= w < cs.len() ==> (#[trigger] misses[w]).len() == worker_stream(
                bs,
                owner,
                w as nat,
            ).len() && cs[w] == tally(Counters::zero(), worker_stream(bs, owner, w as nat), misses[w]),
    ensures
        kind_total(merge_all(cs), k) == kind_total(
            tally(Counters::zero(), concat(bs), single_misses),
            k,
        ),
        kind_total(merge_all(cs), k) == count_kind(concat(bs), k),
{
    lemma_streams_cover(bs, owner, cs.len());
    assert forall|w: int| 0 <= w < cs.len() implies #[trigger] kind_total(cs[w], k)
        == count_kind(worker_stream(bs, owner, w as nat), k) by {
        lemma_streams_bound(bs, owner, cs.len(), w as nat);
        lemma_tally_kind(Counters::zero(), worker_stream(bs, owner, w as nat), misses[w], k);
    }
    lemma_kind_match(bs, owner, cs, cs.len(), k);
    lemma_streams_kind_cover(bs, owner, cs.len(), k);
    lemma_tally_kind(Counters::zero(), concat(bs), single_misses, k);
    lemma_merge_kind(cs, cs.len() as int, k);
    assert(cs.subrange(0, cs.len() as int) =~= cs);
}

/// A single worker that replays a whole run counts every command of it once:
/// `repeat` times the trace's length, whatever the back-end's outcomes. On an
/// empty trace every count, hits and misses included, stays zero.
pub proof fn lemma_replay_counts_every_command(
    config: &Config,
    lines: Seq<String>,
    bs: Seq<Vec<Command>>,
    misses: Seq<bool>,
)
    requires
        planned(config, lines, concat(bs)),
        config.repeats() * lines.len() <= u64::MAX,
        misses.len() == concat(bs).len(),
    ensures
        tally(Counters::zero(), concat(bs), misses).operations() == config.repeats()
            * lines.len(),
        lines.len() == 0 ==> tally(Counters::zero(), concat(bs), misses) == Counters::zero(),
{
    lemma_tally_operations(Counters::zero(), concat(bs), misses);
    if lines.len() == 0 {
        assert(concat(bs).len() == 0) by (nonlinear_arith)
            requires
                concat(bs).len() == config.repeats() * lines.len(),
                lines.len() == 0,
        ;
    }
}

} // verus!

verus! {

/// Where a producer that makes the run's batches one at a time stands: the
/// repeat it is in, the first line of its next batch, and how many commands
/// it has made so far.
#[derive(Clone, Copy, Debug, PartialEq, Eq, Structural)]
pub struct Producer {
    pub repeat: u16,
    pub start: usize,
    pub counter: usize,
}

impl Producer {
    /// A producer at the start of the run.
    pub fn new() -> (r: Producer)
        ensures
            r == (Producer { repeat: 0, start: 0, counter: 0 }),
    {
        Producer { repeat: 0, start: 0, counter: 0 }
    }

    /// The position is one that the run passes through.
    pub open spec fn wf(self, config: &Config, n: int) -> bool {
        &&& self.repeat <= config.repeats()
        &&& self.start < n || (self.start == 0 && (n == 0 || self.repeat == config.repeats()))
        &&& self.counter == self.repeat * n + self.start
    }

    /// Whether every batch of the run has been made.
    pub open spec fn done(self, config: &Config, n: int) -> bool {
        n == 0 || self.repeat >= config.repeats()
    }
}

/// Makes the next batch of the run, and moves the producer past it: the
/// commands that `plan_batches` would put in that place of the run. `None`
/// once every batch has been made. Fails on the first malformed line of the
/// batch.
pub fn next_batch(config: &Config, lines: &Vec<String>, p: &mut Producer) -> (r: Option<
    Result<Vec<Command>, crate::parser::TraceError>,
>)
    requires
        config.repeats() * lines@.len() <= usize::MAX,
        old(p).wf(config, lines@.len() as int),
    ensures
        ({
            let n = lines@.len() as int;
            let end = chunk_end(old(p).start as int, BATCH_SIZE as int, n);
            let c = old(p).counter as int;
            if old(p).done(config, n) {
                r.is_none() && *final(p) == *old(p)
            } else {
                match first_bad_line(lines@, old(p).start as int, end) {
                    Some(i) => r == Some(
                        Err::<Vec<Command>, crate::parser::TraceError>(
                            crate::parser::TraceError::Malformed { line_number: i as usize },
                        ),
                    ),
                    None => {
                        &&& r.is_some() && r.unwrap().is_ok()
                        &&& r.unwrap().unwrap()@ == planned_stream(config, lines@).subrange(
                            c,
                            c + (end - old(p).start),
                        )
                        &&& final(p).counter == c + (end - old(p).start)
                        &&& final(p).wf(config, n)
                        &&& if end == n {
                            final(p).repeat == old(p).repeat + 1 && final(p).start == 0
                        } else {
                            final(p).repeat == old(p).repeat && final(p).start == end
                        }
                    },
                }
            }
        }),
{
    let n = lines.len();
    if n == 0 || p.repeat >= config.repeat_count() {
        return None;
    }
    let ghost r0 = p.repeat as int;
    let ghost s0 = p.start as int;
    let ghost c0 = p.counter as int;
    let ghost end = chunk_end(s0, BATCH_SIZE as int, n as int);
    proof {
        assert((r0 + 1) * n <= config.repeats() * n) by (nonlinear_arith)
            requires
                r0 + 1 <= config.repeats(),
        ;
        assert(r0 * n + n == (r0 + 1) * n) by (nonlinear_arith);
    }
    match generate_commands(config, BATCH_SIZE, &mut p.counter, lines, p.start) {
        Ok(batch) => {
            proof {
                let flat = planned_stream(config, lines@);
                assert forall|k: int| 0 <= k < end - s0 implies #[trigger] batch@[k] == flat[c0
                    + k] by {
                    lemma_mod_offset(r0, n as int, s0 + k);
                    assert(r0 * n + (s0 + k) == c0 + k);
                    assert(c0 + k < config.repeats() * n) by (nonlinear_arith)
                        requires
                            c0 + k < (r0 + 1) * n,
                            (r0 + 1) * n <= config.repeats() * n,
                    ;
                }
                assert(batch@ =~= flat.subrange(c0, c0 + (end - s0)));
            }
            p.start = if BATCH_SIZE < n - p.start {
                p.start + BATCH_SIZE
            } else {
                n
            };
            if p.start == n {
                p.repeat = p.repeat + 1;
                p.start = 0;
                proof {
                    assert(p.counter == p.repeat * n) by (nonlinear_arith)
                        requires
                            p.counter == r0 * n + n,
                            p.repeat == r0 + 1,
                    ;
                }
            }
            Some(Ok(batch))
        },
        Err(e) => Some(Err(e)),
    }
}

} // verus!

verus! {

/// The final report's counts do not depend on the order in which the
/// workers' reports reach `finish_run`: any reordering of them merges to the
/// same counts.
pub proof fn lemma_finish_order_irrelevant(rs: Seq<Report>, qs: Seq<Report>)
    requires
        counters_of(rs).to_multiset() == counters_of(qs).to_multiset(),
    ensures
        merge_all(counters_of(rs)) == merge_all(counters_of(qs)),
{
    crate::report::lemma_merge_order_irrelevant(counters_of(rs), counters_of(qs));
}

} // verus!
