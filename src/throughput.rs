//! Per-process network throughput from per-connection byte counters.
use vstd::prelude::*;
use crate::members::lemma_push_contains;
use crate::sampling::{NetRate, rate_spec, per_second_rate};

verus! {

broadcast use vstd::std_specs::hash::group_hash_axioms;

/// Cumulative counters of one connection, attributed to its owning process.
#[derive(Clone, Copy, Debug, PartialEq, Eq)]
pub struct ConnCounters {
    pub pid: u32,
    /// Bytes received on the connection.
    pub received: u64,
    /// Bytes sent and acknowledged by the peer.
    pub acked: u64,
}

/// `n`, capped at `u64::MAX`.
pub open spec fn capped(n: nat) -> u64 {
    if n > u64::MAX {
        u64::MAX
    } else {
        n as u64
    }
}

/// Bytes received over the readings of connections owned by `pid`.
pub open spec fn owned_received(reads: Seq<ConnCounters>, pid: u32) -> nat
    decreases reads.len(),
{
    if reads.len() == 0 {
        0
    } else {
        owned_received(reads.drop_last(), pid) + if reads.last().pid == pid {
            reads.last().received as nat
        } else {
            0
        }
    }
}

/// Bytes acknowledged over the readings of connections owned by `pid`.
pub open spec fn owned_acked(reads: Seq<ConnCounters>, pid: u32) -> nat
    decreases reads.len(),
{
    if reads.len() == 0 {
        0
    } else {
        owned_acked(reads.drop_last(), pid) + if reads.last().pid == pid {
            reads.last().acked as nat
        } else {
            0
        }
    }
}

/// Whether some reading belongs to `pid`.
pub open spec fn owns_reading(reads: Seq<ConnCounters>, pid: u32) -> bool {
    exists|i: int| 0 <= i < reads.len() && #[trigger] reads[i].pid == pid
}

/// Totals of one process over one sample.
pub struct ProcessTotals {
    pub found: bool,
    pub received: u64,
    pub acked: u64,
}

/// Sums the counters of the connections owned by `pid`, saturating.
pub fn totals_for(reads: &Vec<ConnCounters>, pid: u32) -> (r: ProcessTotals)
    ensures
        r.found == owns_reading(reads@, pid),
        r.received == capped(owned_received(reads@, pid)),
        r.acked == capped(owned_acked(reads@, pid)),
{
    let mut found = false;
    let mut rx: u64 = 0;
    let mut tx: u64 = 0;
    let mut i: usize = 0;
    while i < reads.len()
        invariant
            i <= reads@.len(),
            found == owns_reading(reads@.take(i as int), pid),
            rx == capped(owned_received(reads@.take(i as int), pid)),
            tx == capped(owned_acked(reads@.take(i as int), pid)),
        decreases reads@.len() - i,
    {
        let c = reads[i];
        proof {
            assert(reads@.take(i + 1).drop_last() =~= reads@.take(i as int));
            assert(reads@.take(i + 1).last() == c);
            if owns_reading(reads@.take(i as int), pid) {
                let k = choose|k: int| 0 <= k < i && #[trigger] reads@.take(i as int)[k].pid == pid;
                assert(reads@.take(i + 1)[k].pid == pid);
            }
            if owns_reading(reads@.take(i + 1), pid) && c.pid != pid {
                let k = choose|k: int| 0 <= k < i + 1 && #[trigger] reads@.take(i + 1)[k].pid == pid;
                assert(reads@.take(i as int)[k].pid == pid);
            }
            if c.pid == pid {
                assert(reads@.take(i + 1)[i as int].pid == pid);
            }
            assert(owned_received(reads@.take(i + 1), pid) == owned_received(reads@.take(i as int), pid)
                + if c.pid == pid { c.received as nat } else { 0 });
            assert(owned_acked(reads@.take(i + 1), pid) == owned_acked(reads@.take(i as int), pid)
                + if c.pid == pid { c.acked as nat } else { 0 });
        }
        if c.pid == pid {
            found = true;
            rx = rx.saturating_add(c.received);
            tx = tx.saturating_add(c.acked);
        }
        i += 1;
    }
    proof {
        assert(reads@.take(i as int) =~= reads@);
    }
    ProcessTotals { found, received: rx, acked: tx }
}

/// Network rates of `pid` from the readings before and after a pause of
/// `elapsed_us` microseconds.
pub open spec fn throughput_spec(
    first: Seq<ConnCounters>,
    second: Seq<ConnCounters>,
    pid: u32,
    elapsed_us: u64,
) -> NetRate {
    NetRate {
        rx: rate_spec(
            capped(owned_received(first, pid)),
            capped(owned_received(second, pid)),
            elapsed_us,
        ),
        tx: rate_spec(
            capped(owned_acked(first, pid)),
            capped(owned_acked(second, pid)),
            elapsed_us,
        ),
    }
}

/// Per-process receive and send rates from two samples of connection
/// counters. A process gets a rate only where both samples hold a reading
/// of it; a counter that went down counts as no traffic.
pub fn throughput_rates(
    first: &Vec<ConnCounters>,
    second: &Vec<ConnCounters>,
    elapsed_us: u64,
) -> (r: std::collections::HashMap<u32, NetRate>)
    ensures
        forall|p: u32| #[trigger]
            r@.contains_key(p) <==> (owns_reading(first@, p) && owns_reading(second@, p)),
        forall|p: u32| #[trigger]
            r@.contains_key(p) ==> r@[p] == throughput_spec(first@, second@, p, elapsed_us),
{
    let mut out: std::collections::HashMap<u32, NetRate> = std::collections::HashMap::new();
    let mut i: usize = 0;
    while i < first.len()
        invariant
            i <= first@.len(),
            forall|p: u32| #[trigger]
                out@.contains_key(p) <==> (owns_reading(first@.take(i as int), p)
                    && owns_reading(second@, p)),
            forall|p: u32| #[trigger]
                out@.contains_key(p) ==> out@[p] == throughput_spec(first@, second@, p, elapsed_us),
        decreases first@.len() - i,
    {
        let pid = first[i].pid;
        proof {
            assert forall|p: u32|
                owns_reading(first@.take(i + 1), p) <==> (owns_reading(first@.take(i as int), p)
                    || p == pid) by {
                if owns_reading(first@.take(i as int), p) {
                    let k = choose|k: int| 0 <= k < i && #[trigger] first@.take(i as int)[k].pid == p;
                    assert(first@.take(i + 1)[k].pid == p);
                }
                if p == pid {
                    assert(first@.take(i + 1)[i as int].pid == p);
                }
                if owns_reading(first@.take(i + 1), p) && p != pid {
                    let k = choose|k: int| 0 <= k < i + 1 && #[trigger] first@.take(i + 1)[k].pid == p;
                    assert(first@.take(i as int)[k].pid == p);
                }
            }
        }
        if !out.contains_key(&pid) {
            let a = totals_for(first, pid);
            let b = totals_for(second, pid);
            if b.found {
                let rate = NetRate {
                    rx: per_second_rate(a.received, b.received, elapsed_us),
                    tx: per_second_rate(a.acked, b.acked, elapsed_us),
                };
                out.insert(pid, rate);
            }
        }
        i += 1;
    }
    proof {
        assert(first@.take(i as int) =~= first@);
    }
    out
}

} // verus!
