//! Turning trace lines into commands, one batch at a time.
use crate::config::Config;
use crate::parser::{entry_of, line_parses, parse_trace_line, TraceEntry, TraceError};
use vstd::prelude::*;
use vstd::utf8::encode_utf8;

verus! {

/// Most commands in one batch.
pub const BATCH_SIZE: usize = 200;

/// With `update`, every command whose sequence index is a multiple of this is an update.
pub const UPDATE_PERIOD: usize = 16;

/// With `invalidate`, every command whose sequence index is a multiple of this
/// invalidates its key.
pub const INVALIDATE_PERIOD: usize = 8;

/// With `invalidate_entries_if`, the period of predicate-based invalidations.
pub const INVALIDATE_IF_PERIOD: usize = 5000;

/// With `invalidate_all`, the period of full invalidations.
pub const INVALIDATE_ALL_PERIOD: usize = 100000;

/// With `iterate`, the period of full scans.
pub const ITERATE_PERIOD: usize = 50000;

/// One cache operation taken from the trace.
#[derive(Clone, Copy, Debug, PartialEq, Eq, Structural)]
pub enum Command {
    GetOrInsert(TraceEntry),
    GetOrInsertOnce(TraceEntry),
    Update(TraceEntry),
    Invalidate(TraceEntry),
    InvalidateAll,
    InvalidateEntriesIf(TraceEntry),
    Iterate,
}

/// The command that the configuration makes of an entry. The entry's sequence
/// index decides which of the periodic operations, if any, replaces the read.
pub open spec fn command_for(config: &Config, e: TraceEntry) -> Command {
    if config.invalidate_all && e.seq % INVALIDATE_ALL_PERIOD == 0 {
        Command::InvalidateAll
    } else if config.iterate && e.seq % ITERATE_PERIOD == 0 {
        Command::Iterate
    } else if config.invalidate_entries_if && e.seq % INVALIDATE_IF_PERIOD == 0 {
        Command::InvalidateEntriesIf(e)
    } else if config.invalidate && e.seq % INVALIDATE_PERIOD == 0 {
        Command::Invalidate(e)
    } else if config.update && e.seq % UPDATE_PERIOD == 0 {
        Command::Update(e)
    } else if config.insert_once {
        Command::GetOrInsertOnce(e)
    } else {
        Command::GetOrInsert(e)
    }
}

fn make_command(config: &Config, e: TraceEntry) -> (r: Command)
    ensures
        r == command_for(config, e),
{
    if config.invalidate_all && e.seq % INVALIDATE_ALL_PERIOD == 0 {
        Command::InvalidateAll
    } else if config.iterate && e.seq % ITERATE_PERIOD == 0 {
        Command::Iterate
    } else if config.invalidate_entries_if && e.seq % INVALIDATE_IF_PERIOD == 0 {
        Command::InvalidateEntriesIf(e)
    } else if config.invalidate && e.seq % INVALIDATE_PERIOD == 0 {
        Command::Invalidate(e)
    } else if config.update && e.seq % UPDATE_PERIOD == 0 {
        Command::Update(e)
    } else if config.insert_once {
        Command::GetOrInsertOnce(e)
    } else {
        Command::GetOrInsert(e)
    }
}

/// The bytes of line `i` of the trace.
pub open spec fn line_at(lines: Seq<String>, i: int) -> Seq<u8> {
    encode_utf8(lines[i]@)
}

/// The command made of line `i` of the trace when it gets sequence index `seq`.
pub open spec fn command_at(config: &Config, lines: Seq<String>, i: int, seq: int) -> Command {
    command_for(config, entry_of(line_at(lines, i), i as usize, seq as usize))
}

/// End of the batch that starts at line `start`.
pub open spec fn chunk_end(start: int, batch_size: int, n: int) -> int {
    if start + batch_size < n {
        start + batch_size
    } else {
        n
    }
}

/// Index of the first line in `[start, end)` that does not parse, if any.
pub open spec fn first_bad_line(lines: Seq<String>, start: int, end: int) -> Option<int> {
    if exists|i: int| start <= i < end && !line_parses(#[trigger] line_at(lines, i)) {
        let i = choose|i: int|
            start <= i < end && !line_parses(#[trigger] line_at(lines, i)) && forall|j: int|
                start <= j < i ==> line_parses(#[trigger] line_at(lines, j));
        Some(i)
    } else {
        None
    }
}

proof fn lemma_has_min_bad(lines: Seq<String>, start: int, end: int, k: int)
    requires
        start <= k < end,
        !line_parses(line_at(lines, k)),
    ensures
        exists|i: int|
            start <= i < end && !line_parses(#[trigger] line_at(lines, i)) && forall|j: int|
                start <= j < i ==> line_parses(#[trigger] line_at(lines, j)),
    decreases k - start,
{
    if exists|j: int| start <= j < k && !line_parses(#[trigger] line_at(lines, j)) {
        let j = choose|j: int| start <= j < k && !line_parses(#[trigger] line_at(lines, j));
        lemma_has_min_bad(lines, start, end, j);
    } else {
        assert(forall|j: int| start <= j < k ==> line_parses(#[trigger] line_at(lines, j)));
    }
}

/// The line that `first_bad_line` names is malformed, and the lines before it
/// in the range are not.
pub(crate) proof fn lemma_first_bad_line(lines: Seq<String>, start: int, end: int)
    requires
        first_bad_line(lines, start, end).is_some(),
    ensures
        ({
            let i = first_bad_line(lines, start, end).unwrap();
            &&& start <= i < end
            &&& !line_parses(line_at(lines, i))
            &&& forall|j: int| start <= j < i ==> line_parses(#[trigger] line_at(lines, j))
        }),
{
    let k = choose|k: int| start <= k < end && !line_parses(#[trigger] line_at(lines, k));
    lemma_has_min_bad(lines, start, end, k);
}

/// A malformed line with no malformed line before it in the range is the
/// one that `first_bad_line` names.
pub(crate) proof fn lemma_first_bad_exists(lines: Seq<String>, start: int, end: int, k: int)
    requires
        start <= k < end,
        !line_parses(line_at(lines, k)),
        forall|j: int| start <= j < k ==> line_parses(#[trigger] line_at(lines, j)),
    ensures
        first_bad_line(lines, start, end) == Some(k),
{
    let i = choose|i: int|
        start <= i < end && !line_parses(#[trigger] line_at(lines, i)) && forall|j: int|
            start <= j < i ==> line_parses(#[trigger] line_at(lines, j));
    if i < k {
        assert(line_parses(line_at(lines, i)));
    } else if i > k {
        assert(line_parses(line_at(lines, k)));
    }
}

/// Makes the commands of the lines from `start` up to `batch_size` of them,
/// numbering them on from `counter`. The counter advances once for each line.
/// A line that does not parse fails the whole batch.
pub fn generate_commands(
    config: &Config,
    batch_size: usize,
    counter: &mut usize,
    lines: &Vec<String>,
    start: usize,
) -> (r: Result<Vec<Command>, TraceError>)
    requires
        start <= lines@.len(),
        *old(counter) + chunk_end(start as int, batch_size as int, lines@.len() as int) - start
            <= usize::MAX,
    ensures
        ({
            let end = chunk_end(start as int, batch_size as int, lines@.len() as int);
            match first_bad_line(lines@, start as int, end) {
                None => {
                    &&& r.is_ok()
                    &&& r.unwrap()@.len() == end - start
                    &&& forall|k: int|
                        0 <= k < end - start ==> #[trigger] r.unwrap()@[k] == command_at(
                            config,
                            lines@,
                            start + k,
                            *old(counter) + k + 1,
                        )
                    &&& *final(counter) == *old(counter) + (end - start)
                },
                Some(i) => r == Err::<Vec<Command>, TraceError>(
                    TraceError::Malformed { line_number: i as usize },
                ),
            }
        }),
{
    let n = lines.len();
    let end = if batch_size < n - start {
        start + batch_size
    } else {
        n
    };
    let mut commands: Vec<Command> = Vec::new();
    let mut i: usize = start;
    let ghost c0 = *counter;
    while i < end
        invariant
            start <= i <= end,
            end == chunk_end(start as int, batch_size as int, lines@.len() as int),
            n == lines@.len(),
            c0 + end - start <= usize::MAX,
            *counter == c0 + (i - start),
            commands@.len() == i - start,
            forall|j: int| start <= j < i ==> line_parses(#[trigger] line_at(lines@, j)),
            forall|k: int|
                0 <= k < i - start ==> #[trigger] commands@[k] == command_at(
                    config,
                    lines@,
                    start + k,
                    c0 + k + 1,
                ),
        decreases end - i,
    {
        *counter = *counter + 1;
        match parse_trace_line(lines[i].as_str(), i, *counter) {
            Ok(entry) => {
                commands.push(make_command(config, entry));
            },
            Err(e) => {
                proof {
                    lemma_first_bad_exists(lines@, start as int, end as int, i as int);
                }
                return Err(e);
            },
        }
        i = i + 1;
    }
    Ok(commands)
}

} // verus!
