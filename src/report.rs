//! Per-worker counters, their merge, and the final report of a run.
use crate::load_gen::Command;
use vstd::prelude::*;

verus! {

/// Addition that stops at `u64::MAX`.
pub open spec fn sat_add(a: u64, b: u64) -> u64 {
    if a + b > u64::MAX {
        u64::MAX
    } else {
        (a + b) as u64
    }
}

/// Counts of what a worker executed and observed. Each count stops at `u64::MAX`.
#[derive(Clone, Copy, Debug, PartialEq, Eq, Structural)]
pub struct Counters {
    /// `GetOrInsert` and `GetOrInsertOnce` commands.
    pub read_count: u64,
    /// Reads that found their key.
    pub hit_count: u64,
    /// Reads that missed and inserted a value.
    pub insert_count: u64,
    pub update_count: u64,
    pub invalidation_count: u64,
    pub invalidate_all_count: u64,
    pub invalidate_if_count: u64,
    pub iterate_count: u64,
}

impl Counters {
    pub open spec fn zero() -> Counters {
        Counters {
            read_count: 0,
            hit_count: 0,
            insert_count: 0,
            update_count: 0,
            invalidation_count: 0,
            invalidate_all_count: 0,
            invalidate_if_count: 0,
            iterate_count: 0,
        }
    }

    /// Field-wise sum of two sets of counts.
    pub open spec fn sum(self, o: Counters) -> Counters {
        Counters {
            read_count: sat_add(self.read_count, o.read_count),
            hit_count: sat_add(self.hit_count, o.hit_count),
            insert_count: sat_add(self.insert_count, o.insert_count),
            update_count: sat_add(self.update_count, o.update_count),
            invalidation_count: sat_add(self.invalidation_count, o.invalidation_count),
            invalidate_all_count: sat_add(self.invalidate_all_count, o.invalidate_all_count),
            invalidate_if_count: sat_add(self.invalidate_if_count, o.invalidate_if_count),
            iterate_count: sat_add(self.iterate_count, o.iterate_count),
        }
    }

    /// Number of commands counted, of every kind.
    pub open spec fn operations(self) -> int {
        self.read_count + self.update_count + self.invalidation_count + self.invalidate_all_count
            + self.invalidate_if_count + self.iterate_count
    }

    pub open spec fn after_read(self, miss: bool) -> Counters {
        if miss {
            Counters {
                read_count: sat_add(self.read_count, 1),
                insert_count: sat_add(self.insert_count, 1),
                ..self
            }
        } else {
            Counters {
                read_count: sat_add(self.read_count, 1),
                hit_count: sat_add(self.hit_count, 1),
                ..self
            }
        }
    }

    /// The counts after one more command; `miss` tells whether a read had to
    /// insert its value, and is ignored for the other kinds.
    pub open spec fn after(self, c: Command, miss: bool) -> Counters {
        match c {
            Command::GetOrInsert(_) => self.after_read(miss),
            Command::GetOrInsertOnce(_) => self.after_read(miss),
            Command::Update(_) => Counters { update_count: sat_add(self.update_count, 1), ..self },
            Command::Invalidate(_) => Counters {
                invalidation_count: sat_add(self.invalidation_count, 1),
                ..self
            },
            Command::InvalidateAll => Counters {
                invalidate_all_count: sat_add(self.invalidate_all_count, 1),
                ..self
            },
            Command::InvalidateEntriesIf(_) => Counters {
                invalidate_if_count: sat_add(self.invalidate_if_count, 1),
                ..self
            },
            Command::Iterate => Counters { iterate_count: sat_add(self.iterate_count, 1), ..self },
        }
    }

    pub fn zeroed() -> (r: Counters)
        ensures
            r == Counters::zero(),
    {
        Counters {
            read_count: 0,
            hit_count: 0,
            insert_count: 0,
            update_count: 0,
            invalidation_count: 0,
            invalidate_all_count: 0,
            invalidate_if_count: 0,
            iterate_count: 0,
        }
    }

    /// Adds another set of counts to this one.
    pub fn merge(&mut self, o: &Counters)
        ensures
            *final(self) == old(self).sum(*o),
    {
        self.read_count = self.read_count.saturating_add(o.read_count);
        self.hit_count = self.hit_count.saturating_add(o.hit_count);
        self.insert_count = self.insert_count.saturating_add(o.insert_count);
        self.update_count = self.update_count.saturating_add(o.update_count);
        self.invalidation_count = self.invalidation_count.saturating_add(o.invalidation_count);
        self.invalidate_all_count = self.invalidate_all_count.saturating_add(
            o.invalidate_all_count,
        );
        self.invalidate_if_count = self.invalidate_if_count.saturating_add(o.invalidate_if_count);
        self.iterate_count = self.iterate_count.saturating_add(o.iterate_count);
    }

    /// Counts one executed command.
    pub fn record(&mut self, c: &Command, miss: bool)
        ensures
            *final(self) == old(self).after(*c, miss),
    {
        match c {
            Command::GetOrInsert(_) | Command::GetOrInsertOnce(_) => {
                self.read_count = self.read_count.saturating_add(1);
                if miss {
                    self.insert_count = self.insert_count.saturating_add(1);
                } else {
                    self.hit_count = self.hit_count.saturating_add(1);
                }
            },
            Command::Update(_) => {
                self.update_count = self.update_count.saturating_add(1);
            },
            Command::Invalidate(_) => {
                self.invalidation_count = self.invalidation_count.saturating_add(1);
            },
            Command::InvalidateAll => {
                self.invalidate_all_count = self.invalidate_all_count.saturating_add(1);
            },
            Command::InvalidateEntriesIf(_) => {
                self.invalidate_if_count = self.invalidate_if_count.saturating_add(1);
            },
            Command::Iterate => {
                self.iterate_count = self.iterate_count.saturating_add(1);
            },
        }
    }
}

/// The counts after a sequence of commands with the given outcomes.
pub open spec fn tally(c: Counters, cmds: Seq<Command>, misses: Seq<bool>) -> Counters
    decreases cmds.len(),
{
    if cmds.len() == 0 {
        c
    } else {
        tally(c, cmds.drop_last(), misses.drop_last()).after(
            cmds.last(),
            misses[cmds.len() - 1],
        )
    }
}

/// Counting two sequences of commands one after the other is counting their
/// concatenation.
pub proof fn lemma_tally_append(
    c: Counters,
    a: Seq<Command>,
    ma: Seq<bool>,
    b: Seq<Command>,
    mb: Seq<bool>,
)
    requires
        a.len() == ma.len(),
        b.len() == mb.len(),
    ensures
        tally(c, a + b, ma + mb) == tally(tally(c, a, ma), b, mb),
    decreases b.len(),
{
    if b.len() > 0 {
        lemma_tally_append(c, a, ma, b.drop_last(), mb.drop_last());
        assert((a + b).drop_last() =~= a + b.drop_last());
        assert((ma + mb).drop_last() =~= ma + mb.drop_last());
    } else {
        assert(a + b =~= a);
        assert(ma + mb =~= ma);
    }
}

/// The counts of several reports merged one after the other into zero.
pub open spec fn merge_all(cs: Seq<Counters>) -> Counters
    decreases cs.len(),
{
    if cs.len() == 0 {
        Counters::zero()
    } else {
        merge_all(cs.drop_last()).sum(cs.last())
    }
}

/// Counts of entries that the back-end evicted, taken once the workers are done.
#[derive(Clone, Copy, Debug, PartialEq, Eq, Structural)]
pub struct EvictionCounts {
    /// Evicted because the cache was full.
    pub size: u64,
    /// Evicted because they expired.
    pub expired: u64,
    /// Removed by an invalidation.
    pub explicit: u64,
}

/// What a worker, or a whole run, measured.
#[derive(Clone, Debug)]
pub struct Report {
    pub name: String,
    pub capacity: u64,
    pub num_clients: Option<u16>,
    pub counters: Counters,
    /// Wall-clock time of the whole run, set once on the merged report.
    pub duration: Option<std::time::Duration>,
    /// Eviction counts, present only where an eviction listener was installed.
    pub eviction_counts: Option<EvictionCounts>,
}

impl Report {
    /// An empty report.
    pub fn new(name: &str, capacity: u64, num_clients: Option<u16>) -> (r: Report)
        ensures
            r.name@ == name@,
            r.capacity == capacity,
            r.num_clients == num_clients,
            r.counters == Counters::zero(),
            r.duration.is_none(),
            r.eviction_counts.is_none(),
    {
        Report {
            name: name.to_string(),
            capacity,
            num_clients,
            counters: Counters::zeroed(),
            duration: None,
            eviction_counts: None,
        }
    }

    /// Folds another report's counts into this one. Nothing else changes.
    pub fn merge(&mut self, other: &Report)
        ensures
            final(self).counters == old(self).counters.sum(other.counters),
            final(self).name == old(self).name,
            final(self).capacity == old(self).capacity,
            final(self).num_clients == old(self).num_clients,
            final(self).duration == old(self).duration,
            final(self).eviction_counts == old(self).eviction_counts,
    {
        self.counters.merge(&other.counters);
    }

    /// Counts one executed command.
    pub fn record(&mut self, c: &Command, miss: bool)
        ensures
            final(self).counters == old(self).counters.after(*c, miss),
            final(self).name == old(self).name,
            final(self).capacity == old(self).capacity,
            final(self).num_clients == old(self).num_clients,
            final(self).duration == old(self).duration,
            final(self).eviction_counts == old(self).eviction_counts,
    {
        self.counters.record(c, miss);
    }

    /// Attaches the back-end's eviction counts.
    pub fn add_eviction_counts(&mut self, c: &EvictionCounts)
        ensures
            final(self).eviction_counts == Some(*c),
            final(self).counters == old(self).counters,
            final(self).name == old(self).name,
            final(self).capacity == old(self).capacity,
            final(self).num_clients == old(self).num_clients,
            final(self).duration == old(self).duration,
    {
        self.eviction_counts = Some(*c);
    }
}

/// The shared template from which each worker's report is made.
#[derive(Clone, Debug)]
pub struct ReportBuilder {
    pub name: String,
    pub capacity: u64,
    pub num_clients: Option<u16>,
}

impl ReportBuilder {
    pub fn new(name: &str, capacity: u64, num_clients: Option<u16>) -> (r: ReportBuilder)
        ensures
            r.name@ == name@,
            r.capacity == capacity,
            r.num_clients == num_clients,
    {
        ReportBuilder { name: name.to_string(), capacity, num_clients }
    }

    /// A fresh, empty report from the template.
    pub fn build(&self) -> (r: Report)
        ensures
            r.name@ == self.name@,
            r.capacity == self.capacity,
            r.num_clients == self.num_clients,
            r.counters == Counters::zero(),
            r.duration.is_none(),
            r.eviction_counts.is_none(),
    {
        Report::new(self.name.as_str(), self.capacity, self.num_clients)
    }
}

} // verus!

verus! {

/// Merging two reports' counts does not depend on which is merged into which.
pub proof fn lemma_merge_commutative(a: Counters, b: Counters)
    ensures
        a.sum(b) == b.sum(a),
{
}

/// Merging three reports' counts does not depend on how the merges are grouped.
pub proof fn lemma_merge_associative(a: Counters, b: Counters, c: Counters)
    ensures
        a.sum(b).sum(c) == a.sum(b.sum(c)),
{
}

proof fn lemma_merge_all_remove(cs: Seq<Counters>, j: int)
    requires
        0 <= j < cs.len(),
    ensures
        merge_all(cs) == merge_all(cs.remove(j)).sum(cs[j]),
    decreases cs.len(),
{
    if j == cs.len() - 1 {
        assert(cs.remove(j) =~= cs.drop_last());
    } else {
        let init = cs.drop_last();
        lemma_merge_all_remove(init, j);
        assert(cs.remove(j).drop_last() =~= init.remove(j));
        assert(cs.remove(j).last() == cs.last());
        lemma_merge_associative(merge_all(init.remove(j)), cs[j], cs.last());
        lemma_merge_associative(merge_all(init.remove(j)), cs.last(), cs[j]);
        lemma_merge_commutative(cs[j], cs.last());
    }
}

/// Merging the workers' reports gives the same counts in whatever order the
/// workers finished: any two orders of one collection of reports agree.
pub proof fn lemma_merge_order_irrelevant(cs: Seq<Counters>, ds: Seq<Counters>)
    requires
        cs.to_multiset() == ds.to_multiset(),
    ensures
        merge_all(cs) == merge_all(ds),
    decreases cs.len(),
{
    broadcast use vstd::seq_lib::group_to_multiset_ensures;

    if cs.len() == 0 {
        assert(cs.to_multiset().len() == 0);
        assert(ds.to_multiset().len() == ds.len());
    } else {
        let x = cs.last();
        let init = cs.drop_last();
        assert(cs =~= init.push(x));
        assert(cs.to_multiset().count(x) > 0) by {
            assert(cs.contains(x)) by {
                assert(cs[cs.len() - 1] == x);
            }
        }
        assert(ds.contains(x));
        let j = choose|j: int| 0 <= j < ds.len() && ds[j] == x;
        assert(init.to_multiset() =~= ds.remove(j).to_multiset()) by {
            assert(init.to_multiset() =~= cs.to_multiset().remove(x));
        }
        lemma_merge_order_irrelevant(init, ds.remove(j));
        lemma_merge_all_remove(ds, j);
    }
}

} // verus!
