//! The operations a cache back-end offers to the workers, and the execution of
//! a batch of commands against one.
use crate::load_gen::Command;
use crate::parser::TraceEntry;
use crate::report::{tally, EvictionCounts, Report};
use vstd::prelude::*;

verus! {

/// What a driver has been asked to do: each command it ran, in order, with
/// whether it reported a miss (`false` for all but the reads).
pub type History = Seq<(Command, bool)>;

/// A cache back-end under test. Each worker holds its own handle; the handles
/// of one run share the back-end's contents. Each operation records itself,
/// with its outcome, at the end of the handle's history.
pub trait CacheDriver {
    /// The commands this handle has run, with their outcomes. A handle
    /// verified in Verus overrides this with a ghost record of its calls, and
    /// its operations' contracts below then hold of it. The default exists
    /// because a compiled trait keeps this item: handles written in ordinary
    /// Rust, which cannot name a ghost value, would otherwise not compile.
    /// Such handles are not checked against the contracts; calls through a
    /// generic handle never read the default (Verus does not unfold it there).
    closed spec fn history(&self) -> History {
        Seq::empty()
    }

    /// Reads the entry's key, inserting a value on a miss. Returns whether it missed.
    fn get_or_insert(&mut self, entry: &TraceEntry) -> (miss: bool)
        ensures
            final(self).history() == old(self).history().push((Command::GetOrInsert(*entry), miss)),
    ;

    /// As `get_or_insert`, with the value computed at most once for concurrent misses
    /// on one key.
    fn get_or_insert_once(&mut self, entry: &TraceEntry) -> (miss: bool)
        ensures
            final(self).history() == old(self).history().push(
                (Command::GetOrInsertOnce(*entry), miss),
            ),
    ;

    /// Replaces the value of the entry's key.
    fn update(&mut self, entry: &TraceEntry)
        ensures
            final(self).history() == old(self).history().push((Command::Update(*entry), false)),
    ;

    /// Removes the entry's key.
    fn invalidate(&mut self, entry: &TraceEntry)
        ensures
            final(self).history() == old(self).history().push((Command::Invalidate(*entry), false)),
    ;

    /// Removes every entry.
    fn invalidate_all(&mut self)
        ensures
            final(self).history() == old(self).history().push((Command::InvalidateAll, false)),
    ;

    /// Removes the entries that a predicate derived from `entry` selects.
    fn invalidate_entries_if(&mut self, entry: &TraceEntry)
        ensures
            final(self).history() == old(self).history().push(
                (Command::InvalidateEntriesIf(*entry), false),
            ),
    ;

    /// Visits every entry.
    fn iterate(&mut self)
        ensures
            final(self).history() == old(self).history().push((Command::Iterate, false)),
    ;

    /// The eviction counts so far, where an eviction listener is installed.
    fn eviction_counts(&self) -> Option<EvictionCounts>;
}

/// Runs one command against the back-end. Returns whether a read missed;
/// `false` for the other kinds.
pub fn execute<D: CacheDriver>(c: &Command, cache: &mut D) -> (miss: bool)
    ensures
        final(cache).history() == old(cache).history().push((*c, miss)),
{
    match c {
        Command::GetOrInsert(e) => cache.get_or_insert(e),
        Command::GetOrInsertOnce(e) => cache.get_or_insert_once(e),
        Command::Update(e) => {
            cache.update(e);
            false
        },
        Command::Invalidate(e) => {
            cache.invalidate(e);
            false
        },
        Command::InvalidateAll => {
            cache.invalidate_all();
            false
        },
        Command::InvalidateEntriesIf(e) => {
            cache.invalidate_entries_if(e);
            false
        },
        Command::Iterate => {
            cache.iterate();
            false
        },
    }
}

/// Whether two reports agree on everything but their counts.
pub open spec fn same_header(a: Report, b: Report) -> bool {
    &&& a.name == b.name
    &&& a.capacity == b.capacity
    &&& a.num_clients == b.num_clients
    &&& a.duration == b.duration
    &&& a.eviction_counts == b.eviction_counts
}

/// `after` is `before` followed by one entry for each of `cmds`, in order.
pub open spec fn ran(before: History, after: History, cmds: Seq<Command>) -> bool {
    &&& after.len() == before.len() + cmds.len()
    &&& after.subrange(0, before.len() as int) == before
    &&& forall|i: int| 0 <= i < cmds.len() ==> (#[trigger] after[before.len() + i]).0 == cmds[i]
}

/// The outcomes recorded in `after` beyond `before`.
pub open spec fn outcomes(before: History, after: History) -> Seq<bool> {
    Seq::new((after.len() - before.len()) as nat, |i: int| after[before.len() + i].1)
}

/// Runs a batch in order against the back-end and counts each command in the
/// report with the outcome the back-end gave for it.
pub fn process_commands<D: CacheDriver>(commands: Vec<Command>, cache: &mut D, report: &mut Report)
    ensures
        ran(old(cache).history(), final(cache).history(), commands@),
        final(report).counters == tally(
            old(report).counters,
            commands@,
            outcomes(old(cache).history(), final(cache).history()),
        ),
        same_header(*final(report), *old(report)),
{
    process_batch(&commands, cache, report);
}

/// As `process_commands`, on a borrowed batch.
pub fn process_batch<D: CacheDriver>(commands: &Vec<Command>, cache: &mut D, report: &mut Report)
    ensures
        ran(old(cache).history(), final(cache).history(), commands@),
        final(report).counters == tally(
            old(report).counters,
            commands@,
            outcomes(old(cache).history(), final(cache).history()),
        ),
        same_header(*final(report), *old(report)),
{
    let ghost c0 = report.counters;
    let ghost h0 = cache.history();
    let mut i: usize = 0;
    proof {
        assert(cache.history().subrange(0, h0.len() as int) =~= h0);
        assert(outcomes(h0, cache.history()) =~= Seq::<bool>::empty());
    }
    while i < commands.len()
        invariant
            i <= commands@.len(),
            ran(h0, cache.history(), commands@.subrange(0, i as int)),
            report.counters == tally(
                c0,
                commands@.subrange(0, i as int),
                outcomes(h0, cache.history()),
            ),
            same_header(*report, *old(report)),
            c0 == old(report).counters,
            h0 == old(cache).history(),
        decreases commands@.len() - i,
    {
        let ghost hp = cache.history();
        let miss = execute(&commands[i], cache);
        report.record(&commands[i], miss);
        proof {
            let h = cache.history();
            assert(commands@.subrange(0, i + 1).drop_last() =~= commands@.subrange(0, i as int));
            assert(outcomes(h0, h).drop_last() =~= outcomes(h0, hp));
            assert(h.subrange(0, h0.len() as int) =~= hp.subrange(0, h0.len() as int));
            assert forall|k: int| 0 <= k < i + 1 implies (#[trigger] h[h0.len() + k]).0
                == commands@.subrange(0, i + 1)[k] by {
                if k < i {
                    assert(h[h0.len() + k] == hp[h0.len() + k]);
                }
            }
        }
        i = i + 1;
    }
    proof {
        assert(commands@.subrange(0, commands@.len() as int) =~= commands@);
    }
}

} // verus!
