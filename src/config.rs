//! Run configuration: the switches that decide capacity, command mix and
//! whether an eviction listener is installed.
use vstd::prelude::*;

verus! {

/// Factor by which the nominal capacity is scaled in size-aware mode.
pub const SIZE_UNIT: u64 = 32768;

/// How the back-end reports evicted entries, if at all.
#[derive(Clone, Copy, Debug, PartialEq, Eq, Structural)]
pub enum EvictionListenerMode {
    Disabled,
    Immediate,
    Queued,
}

/// The options of one benchmark run.
#[derive(Clone, Debug)]
pub struct Config {
    /// Path of the trace file to replay.
    pub trace_file: String,
    /// How many times the trace is replayed; `None` means once.
    pub repeat: Option<u16>,
    /// Read with `GetOrInsertOnce` instead of `GetOrInsert`.
    pub insert_once: bool,
    /// Replace some reads by updates.
    pub update: bool,
    /// Replace some reads by invalidations of the same key.
    pub invalidate: bool,
    /// Replace some reads by a full invalidation.
    pub invalidate_all: bool,
    /// Replace some reads by a predicate-based invalidation.
    pub invalidate_entries_if: bool,
    /// Replace some reads by a full scan.
    pub iterate: bool,
    /// Scale the capacity by `SIZE_UNIT` to model variable-sized entries.
    pub size_aware: bool,
    /// Use the back-end's entry API for insertions, where it has one.
    pub entry_api: bool,
    /// Whether and how an eviction listener is installed.
    pub eviction_listener: EvictionListenerMode,
    /// Capacity of the channel to the workers, in batches. `None` buffers
    /// every batch before the workers start; a bound makes the producer run
    /// beside the workers and wait while the channel is full.
    pub channel_capacity: Option<usize>,
}

impl Config {
    pub open spec fn listener_enabled(&self) -> bool {
        self.eviction_listener != EvictionListenerMode::Disabled
    }

    pub open spec fn repeats(&self) -> nat {
        match self.repeat {
            Some(n) => n as nat,
            None => 1,
        }
    }

    /// Whether the back-end is built with an eviction listener.
    pub fn is_eviction_listener_enabled(&self) -> (r: bool)
        ensures
            r == self.listener_enabled(),
    {
        match self.eviction_listener {
            EvictionListenerMode::Disabled => false,
            _ => true,
        }
    }

    /// How many times the trace is replayed.
    pub fn repeat_count(&self) -> (r: u16)
        ensures
            r as nat == self.repeats(),
    {
        match self.repeat {
            Some(n) => n,
            None => 1,
        }
    }

    /// Whether `max_capacity` is defined for `capacity`.
    pub open spec fn capacity_fits(&self, capacity: usize) -> bool {
        self.size_aware ==> capacity * SIZE_UNIT <= u64::MAX
    }

    pub open spec fn max_capacity_of(&self, capacity: usize) -> int {
        if self.size_aware {
            capacity * SIZE_UNIT
        } else {
            capacity as int
        }
    }

    /// The capacity handed to the back-end: scaled by `SIZE_UNIT` in
    /// size-aware mode.
    pub fn max_capacity(&self, capacity: usize) -> (r: u64)
        requires
            self.capacity_fits(capacity),
        ensures
            r == self.max_capacity_of(capacity),
    {
        if self.size_aware {
            capacity as u64 * SIZE_UNIT
        } else {
            capacity as u64
        }
    }
}

} // verus!
