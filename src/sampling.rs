//! Two-point sampling: per-second rates from two readings of cumulative
//! counters.
use vstd::prelude::*;
use crate::members::lemma_push_contains;
use crate::process::{ProcessSample, lookup, find_process};

verus! {

broadcast use vstd::std_specs::hash::group_hash_axioms;

/// Shortest sampling pause, in milliseconds.
pub const MIN_PAUSE_MS: u64 = 1;

/// Shortest elapsed time used as a rate denominator, in microseconds.
pub const MIN_ELAPSED_US: u64 = 1000;

/// The pause taken for a requested interval: zero becomes the minimum.
pub open spec fn pause_spec(interval_ms: u64) -> u64 {
    if interval_ms < MIN_PAUSE_MS {
        MIN_PAUSE_MS
    } else {
        interval_ms
    }
}

/// Length of the sampling pause for a requested interval in milliseconds.
pub fn sampling_pause_ms(interval_ms: u64) -> (r: u64)
    ensures
        r == pause_spec(interval_ms),
        r >= 1,
{
    if interval_ms < MIN_PAUSE_MS {
        MIN_PAUSE_MS
    } else {
        interval_ms
    }
}

/// The measured elapsed time, floored at `MIN_ELAPSED_US`.
pub open spec fn effective_elapsed(elapsed_us: u64) -> u64 {
    if elapsed_us < MIN_ELAPSED_US {
        MIN_ELAPSED_US
    } else {
        elapsed_us
    }
}

/// Growth of a cumulative counter; a decrease counts as none.
pub open spec fn counter_delta(first: u64, second: u64) -> nat {
    if second >= first {
        (second - first) as nat
    } else {
        0
    }
}

/// Bytes per second between two readings `elapsed_us` microseconds apart,
/// rounded down and capped at `u64::MAX`.
pub open spec fn rate_spec(first: u64, second: u64, elapsed_us: u64) -> u64 {
    let r = counter_delta(first, second) * 1_000_000 / (effective_elapsed(elapsed_us) as nat);
    if r > u64::MAX {
        u64::MAX
    } else {
        r as u64
    }
}

/// Per-second rate of a counter read as `first`, then as `second`.
pub fn per_second_rate(first: u64, second: u64, elapsed_us: u64) -> (r: u64)
    ensures
        r == rate_spec(first, second, elapsed_us),
        second < first ==> r == 0,
{
    let delta: u64 = second.saturating_sub(first);
    let elapsed: u64 = if elapsed_us < MIN_ELAPSED_US {
        MIN_ELAPSED_US
    } else {
        elapsed_us
    };
    assert((delta as nat) * 1_000_000 <= 0xffff_ffff_ffff_ffffnat * 1_000_000) by (nonlinear_arith)
        requires
            delta <= 0xffff_ffff_ffff_ffffu64,
    ;
    let scaled: u128 = (delta as u128) * 1_000_000u128;
    let q: u128 = scaled / (elapsed as u128);
    if q > (u64::MAX as u128) {
        u64::MAX
    } else {
        q as u64
    }
}

/// Network throughput of one process, in bytes per second.
#[derive(Clone, Copy, Debug, PartialEq, Eq)]
pub struct NetRate {
    pub rx: u64,
    pub tx: u64,
}

/// Sampled figures of one process, or their sum over a socket's processes.
#[derive(Clone, Copy, Debug, PartialEq, Eq)]
pub struct ProcessStats {
    /// CPU share in hundredths of a percent.
    pub cpu_centi: u64,
    /// Disk read rate, bytes per second.
    pub read_rate: u64,
    /// Disk write rate, bytes per second.
    pub write_rate: u64,
    /// Network rates; `None` where no measurement exists.
    pub net: Option<NetRate>,
    /// Cumulative bytes read, as of the second sample.
    pub total_read_bytes: u64,
    /// Cumulative bytes written, as of the second sample.
    pub total_written_bytes: u64,
}

/// Figures of a process seen as `base` before the pause and as `cur` after it.
pub open spec fn stats_spec(base: ProcessSample, cur: ProcessSample, elapsed_us: u64) -> ProcessStats {
    ProcessStats {
        cpu_centi: cur.cpu_centi,
        read_rate: rate_spec(base.total_read_bytes, cur.total_read_bytes, elapsed_us),
        write_rate: rate_spec(base.total_written_bytes, cur.total_written_bytes, elapsed_us),
        net: None,
        total_read_bytes: cur.total_read_bytes,
        total_written_bytes: cur.total_written_bytes,
    }
}

/// Whether `pid` gets figures: requested and present in both snapshots.
pub open spec fn sampled(
    pids: Seq<u32>,
    baseline: Seq<ProcessSample>,
    current: Seq<ProcessSample>,
    pid: u32,
) -> bool {
    pids.contains(pid) && lookup(baseline, pid) is Some && lookup(current, pid) is Some
}

/// Figures of each requested process from a baseline snapshot and a second
/// snapshot taken `elapsed_us` microseconds later. A process missing from
/// either snapshot gets no entry.
pub fn collect_process_stats(
    pids: &Vec<u32>,
    baseline: &Vec<ProcessSample>,
    current: &Vec<ProcessSample>,
    elapsed_us: u64,
) -> (r: std::collections::HashMap<u32, ProcessStats>)
    ensures
        forall|p: u32| #[trigger]
            r@.contains_key(p) <==> sampled(pids@, baseline@, current@, p),
        forall|p: u32|
            #[trigger] r@.contains_key(p) ==> r@[p] == stats_spec(
                lookup(baseline@, p)->Some_0,
                lookup(current@, p)->Some_0,
                elapsed_us,
            ),
        forall|p: u32|
            lookup(baseline@, p) is None && lookup(current@, p) is None ==> !(#[trigger] r@.contains_key(p)),
{
    let mut out: std::collections::HashMap<u32, ProcessStats> = std::collections::HashMap::new();
    let mut i: usize = 0;
    while i < pids.len()
        invariant
            i <= pids@.len(),
            forall|p: u32| #[trigger]
                out@.contains_key(p) <==> sampled(pids@.take(i as int), baseline@, current@, p),
            forall|p: u32|
                #[trigger] out@.contains_key(p) ==> out@[p] == stats_spec(
                    lookup(baseline@, p)->Some_0,
                    lookup(current@, p)->Some_0,
                    elapsed_us,
                ),
        decreases pids@.len() - i,
    {
        let pid = pids[i];
        proof {
            assert(pids@.take(i + 1) =~= pids@.take(i as int).push(pid));
            lemma_push_contains(pids@.take(i as int), pid);
        }
        match (find_process(baseline, pid), find_process(current, pid)) {
            (Some(b), Some(c)) => {
                let base = &baseline[b];
                let cur = &current[c];
                let s = ProcessStats {
                    cpu_centi: cur.cpu_centi,
                    read_rate: per_second_rate(base.total_read_bytes, cur.total_read_bytes, elapsed_us),
                    write_rate: per_second_rate(
                        base.total_written_bytes,
                        cur.total_written_bytes,
                        elapsed_us,
                    ),
                    net: None,
                    total_read_bytes: cur.total_read_bytes,
                    total_written_bytes: cur.total_written_bytes,
                };
                out.insert(pid, s);
            },
            _ => {},
        }
        i += 1;
    }
    proof {
        assert(pids@.take(i as int) =~= pids@);
    }
    out
}

/// A counter that went down yields a rate of zero, never a negative one.
pub proof fn lemma_decrease_rate_is_zero(first: u64, second: u64, elapsed_us: u64)
    requires
        second < first,
    ensures
        rate_spec(first, second, elapsed_us) == 0,
{
}

/// The rate denominator is never zero: an elapsed time of zero, or any
/// time below the floor, counts as `MIN_ELAPSED_US`.
pub proof fn lemma_elapsed_floor(elapsed_us: u64)
    ensures
        effective_elapsed(elapsed_us) >= MIN_ELAPSED_US,
        effective_elapsed(elapsed_us) > 0,
        elapsed_us == 0 ==> effective_elapsed(elapsed_us) == MIN_ELAPSED_US,
{
}

/// A requested interval of zero becomes the shortest positive pause.
pub proof fn lemma_zero_interval_pause()
    ensures
        pause_spec(0) == MIN_PAUSE_MS,
        MIN_PAUSE_MS > 0,
{
}

} // verus!
