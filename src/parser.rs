//! Trace lines. A line holds a start block and a block count as decimal
//! numbers separated by one space; anything after a further space is ignored.
use vstd::prelude::*;
use vstd::string::StringSliceAdditionalSpecFns;

verus! {

pub const SPACE: u8 = 32;

pub open spec fn is_digit(b: u8) -> bool {
    48 <= b <= 57
}

/// Value of a run of decimal digits.
pub open spec fn digits_value(s: Seq<u8>) -> nat
    decreases s.len(),
{
    if s.len() == 0 {
        0
    } else {
        digits_value(s.drop_last()) * 10 + (s.last() - 48) as nat
    }
}

/// End of the run of digits that starts at `i`.
pub open spec fn digit_run_end(s: Seq<u8>, i: int) -> int
    decreases s.len() - i,
{
    if 0 <= i < s.len() && is_digit(s[i]) {
        digit_run_end(s, i + 1)
    } else {
        i
    }
}

/// The two numbers of a well-formed line, whatever their size.
pub open spec fn line_fields(s: Seq<u8>) -> Option<(nat, nat)> {
    let e1 = digit_run_end(s, 0);
    let e2 = digit_run_end(s, e1 + 1);
    if e1 == 0 || e1 >= s.len() || s[e1] != SPACE || e2 == e1 + 1 || (e2 < s.len() && s[e2]
        != SPACE) {
        None
    } else {
        Some((digits_value(s.subrange(0, e1)), digits_value(s.subrange(e1 + 1, e2))))
    }
}

/// Whether a line parses into a trace entry: well formed, and both numbers fit in a `u64`.
pub open spec fn line_parses(s: Seq<u8>) -> bool {
    match line_fields(s) {
        Some((a, b)) => a <= u64::MAX && b <= u64::MAX,
        None => false,
    }
}

/// One record of the trace, numbered by its line and by its place in the whole run.
#[derive(Clone, Copy, Debug, PartialEq, Eq, Structural)]
pub struct TraceEntry {
    /// Index of the line in the trace file, from 0.
    pub line_number: usize,
    /// Sequence index of the command in the whole run, over all repeats, from 1.
    pub seq: usize,
    /// The cache key: the first block of the request.
    pub key: u64,
    /// The number of blocks requested, used as the value's size.
    pub len: u64,
}

/// A trace line that could not be parsed.
#[derive(Clone, Copy, Debug, PartialEq, Eq, Structural)]
pub enum TraceError {
    Malformed { line_number: usize },
}

/// The entry that a line parses into, given its line number and sequence index.
pub open spec fn entry_of(s: Seq<u8>, line_number: usize, seq: usize) -> TraceEntry
    recommends
        line_parses(s),
{
    let (a, b) = line_fields(s).unwrap();
    TraceEntry { line_number, seq, key: a as u64, len: b as u64 }
}

proof fn lemma_digits_step(s: Seq<u8>, a: int, k: int)
    requires
        0 <= a <= k < s.len(),
    ensures
        digits_value(s.subrange(a, k + 1)) == digits_value(s.subrange(a, k)) * 10 + (s[k]
            - 48) as nat,
{
    assert(s.subrange(a, k + 1).drop_last() =~= s.subrange(a, k));
}

proof fn lemma_run_end(s: Seq<u8>, i: int, j: int)
    requires
        0 <= i <= j <= s.len(),
        forall|k: int| i <= k < j ==> is_digit(#[trigger] s[k]),
    ensures
        digit_run_end(s, i) == digit_run_end(s, j),
    decreases j - i,
{
    if i < j {
        lemma_run_end(s, i + 1, j);
    }
}

/// Reads the run of digits that starts at `start`: its end, and its value
/// where that fits in a `u64`.
fn read_number(b: &[u8], start: usize) -> (r: (usize, Option<u64>))
    requires
        start <= b@.len(),
    ensures
        r.0 == digit_run_end(b@, start as int),
        start <= r.0 <= b@.len(),
        digits_value(b@.subrange(start as int, r.0 as int)) <= u64::MAX <==> r.1.is_some(),
        r.1.is_some() ==> r.1.unwrap() == digits_value(b@.subrange(start as int, r.0 as int)),
{
    let mut i: usize = start;
    let mut acc: u64 = 0;
    let mut overflow: bool = false;
    proof {
        assert(b@.subrange(start as int, start as int) =~= Seq::<u8>::empty());
    }
    while i < b.len() && 48 <= b[i] && b[i] <= 57
        invariant
            start <= i <= b@.len(),
            forall|k: int| start <= k < i ==> is_digit(#[trigger] b@[k]),
            overflow <==> digits_value(b@.subrange(start as int, i as int)) > u64::MAX,
            !overflow ==> acc == digits_value(b@.subrange(start as int, i as int)),
        decreases b@.len() - i,
    {
        let d = (b[i] - 48) as u64;
        proof {
            lemma_digits_step(b@, start as int, i as int);
        }
        if !overflow {
            if acc > (u64::MAX - d) / 10 {
                overflow = true;
            } else {
                acc = acc * 10 + d;
            }
        }
        i = i + 1;
    }
    proof {
        lemma_run_end(b@, start as int, i as int);
    }
    if overflow {
        (i, None)
    } else {
        (i, Some(acc))
    }
}

/// Parses one trace line into an entry with the given line number and
/// sequence index.
pub fn parse_trace_line(line: &str, line_number: usize, seq: usize) -> (r: Result<
    TraceEntry,
    TraceError,
>)
    ensures
        line_parses(line.spec_bytes()) <==> r.is_ok(),
        r.is_ok() ==> r.unwrap() == entry_of(line.spec_bytes(), line_number, seq),
        r.is_err() ==> r == Err::<TraceEntry, TraceError>(TraceError::Malformed { line_number }),
{
    let b = line.as_bytes();
    let err = Err(TraceError::Malformed { line_number });
    let (e1, first) = read_number(b, 0);
    if e1 == 0 || e1 >= b.len() || b[e1] != SPACE {
        return err;
    }
    let (e2, second) = read_number(b, e1 + 1);
    if e2 == e1 + 1 || (e2 < b.len() && b[e2] != SPACE) {
        return err;
    }
    match (first, second) {
        (Some(key), Some(len)) => Ok(TraceEntry { line_number, seq, key, len }),
        _ => err,
    }
}

} // verus!
