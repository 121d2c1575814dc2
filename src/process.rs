//! Process snapshots and the process identity resolver.
use vstd::prelude::*;
use crate::text::{decimal, push_decimal};

verus! {

/// What one snapshot of the system shows of one process.
pub struct ProcessSample {
    pub pid: u32,
    /// Executable path, where the system exposes it.
    pub exe: Option<String>,
    /// Short name of the process.
    pub name: String,
    /// CPU share in hundredths of a percent, as the system computed it
    /// since its previous refresh.
    pub cpu_centi: u64,
    /// Cumulative bytes read from disk.
    pub total_read_bytes: u64,
    /// Cumulative bytes written to disk.
    pub total_written_bytes: u64,
}

/// The first sample of `pid` in the snapshot `procs`, if any.
pub open spec fn lookup(procs: Seq<ProcessSample>, pid: u32) -> Option<ProcessSample>
    decreases procs.len(),
{
    if procs.len() == 0 {
        None
    } else {
        let r = lookup(procs.drop_last(), pid);
        if r is Some {
            r
        } else if procs.last().pid == pid {
            Some(procs.last())
        } else {
            None
        }
    }
}

/// Index of the first sample of `pid` in `procs`.
pub fn find_process(procs: &Vec<ProcessSample>, pid: u32) -> (r: Option<usize>)
    ensures
        match r {
            Some(i) => i < procs@.len() && lookup(procs@, pid) == Some(procs@[i as int]),
            None => lookup(procs@, pid) is None,
        },
{
    let mut i: usize = 0;
    while i < procs.len()
        invariant
            i <= procs@.len(),
            lookup(procs@.take(i as int), pid) is None,
        decreases procs@.len() - i,
    {
        proof {
            assert(procs@.take(i + 1).drop_last() =~= procs@.take(i as int));
        }
        if procs[i].pid == pid {
            proof {
                lemma_lookup_extends(procs@, (i + 1) as int, pid);
            }
            return Some(i);
        }
        i += 1;
    }
    proof {
        assert(procs@.take(i as int) =~= procs@);
    }
    None
}

/// Once found in a prefix, the lookup is settled for the whole snapshot.
proof fn lemma_lookup_extends(procs: Seq<ProcessSample>, k: int, pid: u32)
    requires
        0 <= k <= procs.len(),
        lookup(procs.take(k), pid) is Some,
    ensures
        lookup(procs, pid) == lookup(procs.take(k), pid),
    decreases procs.len() - k,
{
    if k < procs.len() {
        assert(procs.take(k + 1).drop_last() =~= procs.take(k));
        lemma_lookup_extends(procs, k + 1, pid);
    } else {
        assert(procs.take(k) =~= procs);
    }
}

/// Label of `pid`: `"<pid>: <path>"`, the short name standing in for a
/// missing path, or `"<pid>: Unknown"` when the snapshot lacks the process.
pub open spec fn process_label(procs: Seq<ProcessSample>, pid: u32) -> Seq<char> {
    decimal(pid as nat) + ": "@ + match lookup(procs, pid) {
        Some(p) => match p.exe {
            Some(e) => e@,
            None => p.name@,
        },
        None => "Unknown"@,
    }
}

/// Appends the label of `pid` (see `process_label`) to `out`.
pub fn push_process_info(out: &mut String, procs: &Vec<ProcessSample>, pid: u32)
    ensures
        final(out)@ == old(out)@ + process_label(procs@, pid),
{
    push_decimal(out, pid as u64);
    out.append(": ");
    match find_process(procs, pid) {
        Some(i) => {
            match &procs[i].exe {
                Some(e) => out.append(e.as_str()),
                None => out.append(procs[i].name.as_str()),
            }
        },
        None => out.append("Unknown"),
    }
    proof {
        assert(final(out)@ =~= old(out)@ + process_label(procs@, pid));
    }
}

/// The label of `pid` in the snapshot `procs` (see `process_label`).
pub fn get_process_info(procs: &Vec<ProcessSample>, pid: u32) -> (r: String)
    ensures
        r@ == process_label(procs@, pid),
{
    let mut s = String::new();
    push_process_info(&mut s, procs, pid);
    proof {
        assert(s@ =~= process_label(procs@, pid));
    }
    s
}

} // verus!
