//! Per-socket aggregation of per-process figures.
use vstd::prelude::*;
use std::collections::HashMap;
use crate::entry::SocketEntry;
use crate::members::lemma_push_contains;
use crate::sampling::{NetRate, ProcessStats};
use crate::throughput::capped;

verus! {

broadcast use vstd::std_specs::hash::group_hash_axioms;

/// A figure of `ProcessStats` that adds up over processes.
#[derive(Clone, Copy, Debug, PartialEq, Eq)]
pub enum Figure {
    Cpu,
    ReadRate,
    WriteRate,
    TotalRead,
    TotalWritten,
}

pub open spec fn figure(s: ProcessStats, f: Figure) -> nat {
    match f {
        Figure::Cpu => s.cpu_centi as nat,
        Figure::ReadRate => s.read_rate as nat,
        Figure::WriteRate => s.write_rate as nat,
        Figure::TotalRead => s.total_read_bytes as nat,
        Figure::TotalWritten => s.total_written_bytes as nat,
    }
}

/// Sum of figure `f` over the distinct ids of `pids` that have figures.
pub open spec fn stats_sum(pids: Seq<u32>, stats: Map<u32, ProcessStats>, f: Figure) -> nat
    decreases pids.len(),
{
    if pids.len() == 0 {
        0
    } else {
        let rest = pids.drop_last();
        let p = pids.last();
        stats_sum(rest, stats, f) + if !rest.contains(p) && stats.contains_key(p) {
            figure(stats[p], f)
        } else {
            0
        }
    }
}

/// Sum of the receive (`rx`) or send rates over the distinct ids of `pids`
/// that have one.
pub open spec fn net_sum(pids: Seq<u32>, net: Map<u32, NetRate>, rx: bool) -> nat
    decreases pids.len(),
{
    if pids.len() == 0 {
        0
    } else {
        let rest = pids.drop_last();
        let p = pids.last();
        net_sum(rest, net, rx) + if !rest.contains(p) && net.contains_key(p) {
            if rx {
                net[p].rx as nat
            } else {
                net[p].tx as nat
            }
        } else {
            0
        }
    }
}

/// Whether some id of `pids` has figures.
pub open spec fn any_sampled(pids: Seq<u32>, stats: Map<u32, ProcessStats>) -> bool {
    exists|i: int| 0 <= i < pids.len() && stats.contains_key(#[trigger] pids[i])
}

/// Whether every id of `pids` has a network measurement.
pub open spec fn all_measured(pids: Seq<u32>, net: Map<u32, NetRate>) -> bool {
    forall|i: int| 0 <= i < pids.len() ==> net.contains_key(#[trigger] pids[i])
}

/// Figures of a socket owned by `pids`: each figure summed over its
/// distinct ids (capped at `u64::MAX`); none when no id was sampled.
/// Network rates are summed only where every id has a measurement, and are
/// unavailable otherwise.
pub open spec fn aggregate_spec(
    pids: Seq<u32>,
    stats: Map<u32, ProcessStats>,
    net: Map<u32, NetRate>,
) -> Option<ProcessStats> {
    if any_sampled(pids, stats) {
        Some(
            ProcessStats {
                cpu_centi: capped(stats_sum(pids, stats, Figure::Cpu)),
                read_rate: capped(stats_sum(pids, stats, Figure::ReadRate)),
                write_rate: capped(stats_sum(pids, stats, Figure::WriteRate)),
                net: if all_measured(pids, net) {
                    Some(NetRate { rx: capped(net_sum(pids, net, true)), tx: capped(net_sum(pids, net, false)) })
                } else {
                    None
                },
                total_read_bytes: capped(stats_sum(pids, stats, Figure::TotalRead)),
                total_written_bytes: capped(stats_sum(pids, stats, Figure::TotalWritten)),
            },
        )
    } else {
        None
    }
}

/// Whether `p` occurs among the first `end` ids of `v`.
pub fn contains_before(v: &Vec<u32>, end: usize, p: u32) -> (r: bool)
    requires
        end <= v@.len(),
    ensures
        r == v@.take(end as int).contains(p),
{
    let mut i: usize = 0;
    while i < end
        invariant
            i <= end <= v@.len(),
            !v@.take(i as int).contains(p),
        decreases end - i,
    {
        proof {
            assert(v@.take(i + 1) =~= v@.take(i as int).push(v@[i as int]));
            lemma_push_contains(v@.take(i as int), v@[i as int]);
        }
        if v[i] == p {
            proof {
                assert(v@.take(end as int)[i as int] == p);
            }
            return true;
        }
        i += 1;
    }
    proof {
        assert(v@.take(i as int) =~= v@.take(end as int));
    }
    false
}

/// Figures of a socket owned by `pids` (see `aggregate_spec`).
pub fn aggregate_stats(
    pids: &Vec<u32>,
    stats: &HashMap<u32, ProcessStats>,
    net: &HashMap<u32, NetRate>,
) -> (r: Option<ProcessStats>)
    ensures
        r == aggregate_spec(pids@, stats@, net@),
{
    let mut any = false;
    let mut all_net = true;
    let mut cpu: u64 = 0;
    let mut rd: u64 = 0;
    let mut wr: u64 = 0;
    let mut trd: u64 = 0;
    let mut twr: u64 = 0;
    let mut rx: u64 = 0;
    let mut tx: u64 = 0;
    let mut i: usize = 0;
    while i < pids.len()
        invariant
            i <= pids@.len(),
            any == any_sampled(pids@.take(i as int), stats@),
            all_net == all_measured(pids@.take(i as int), net@),
            cpu == capped(stats_sum(pids@.take(i as int), stats@, Figure::Cpu)),
            rd == capped(stats_sum(pids@.take(i as int), stats@, Figure::ReadRate)),
            wr == capped(stats_sum(pids@.take(i as int), stats@, Figure::WriteRate)),
            trd == capped(stats_sum(pids@.take(i as int), stats@, Figure::TotalRead)),
            twr == capped(stats_sum(pids@.take(i as int), stats@, Figure::TotalWritten)),
            rx == capped(net_sum(pids@.take(i as int), net@, true)),
            tx == capped(net_sum(pids@.take(i as int), net@, false)),
        decreases pids@.len() - i,
    {
        let p = pids[i];
        let seen = contains_before(pids, i, p);
        let ghost pre = pids@.take(i as int);
        let ghost post = pids@.take(i + 1);
        proof {
            assert(post.drop_last() =~= pre);
            assert(post.last() == p);
            assert(any_sampled(post, stats@) == (any_sampled(pre, stats@) || stats@.contains_key(p))) by {
                if any_sampled(pre, stats@) {
                    let k = choose|k: int| 0 <= k < pre.len() && stats@.contains_key(#[trigger] pre[k]);
                    assert(post[k] == pre[k]);
                }
                if stats@.contains_key(p) {
                    assert(post[i as int] == p);
                }
                if any_sampled(post, stats@) && !stats@.contains_key(p) {
                    let k = choose|k: int| 0 <= k < post.len() && stats@.contains_key(#[trigger] post[k]);
                    assert(pre[k] == post[k]);
                }
            }
            assert(all_measured(post, net@) == (all_measured(pre, net@) && net@.contains_key(p))) by {
                if !all_measured(pre, net@) {
                    let k = choose|k: int| 0 <= k < pre.len() && !net@.contains_key(#[trigger] pre[k]);
                    assert(post[k] == pre[k]);
                }
                if !net@.contains_key(p) {
                    assert(post[i as int] == p);
                }
                if all_measured(pre, net@) && net@.contains_key(p) {
                    assert forall|k: int| 0 <= k < post.len() implies net@.contains_key(
                        #[trigger] post[k],
                    ) by {
                        if k < i {
                            assert(post[k] == pre[k]);
                        }
                    }
                }
            }
        }
        match stats.get(&p) {
            Some(s) => {
                any = true;
                if !seen {
                    cpu = cpu.saturating_add(s.cpu_centi);
                    rd = rd.saturating_add(s.read_rate);
                    wr = wr.saturating_add(s.write_rate);
                    trd = trd.saturating_add(s.total_read_bytes);
                    twr = twr.saturating_add(s.total_written_bytes);
                }
            },
            None => {},
        }
        match net.get(&p) {
            Some(n) => {
                if !seen {
                    rx = rx.saturating_add(n.rx);
                    tx = tx.saturating_add(n.tx);
                }
            },
            None => {
                all_net = false;
            },
        }
        i += 1;
    }
    proof {
        assert(pids@.take(i as int) =~= pids@);
    }
    if any {
        Some(
            ProcessStats {
                cpu_centi: cpu,
                read_rate: rd,
                write_rate: wr,
                net: if all_net {
                    Some(NetRate { rx, tx })
                } else {
                    None
                },
                total_read_bytes: trd,
                total_written_bytes: twr,
            },
        )
    } else {
        None
    }
}

/// Aggregation adds up: a socket owned by two distinct processes with
/// figures reports, for each figure, the sum of theirs.
pub proof fn lemma_two_owners_add_up(
    a: u32,
    b: u32,
    stats: Map<u32, ProcessStats>,
    net: Map<u32, NetRate>,
)
    requires
        a != b,
        stats.contains_key(a),
        stats.contains_key(b),
    ensures
        aggregate_spec(seq![a, b], stats, net) is Some,
        aggregate_spec(seq![a, b], stats, net)->Some_0.read_rate == capped(
            (stats[a].read_rate + stats[b].read_rate) as nat,
        ),
        aggregate_spec(seq![a, b], stats, net)->Some_0.write_rate == capped(
            (stats[a].write_rate + stats[b].write_rate) as nat,
        ),
        aggregate_spec(seq![a, b], stats, net)->Some_0.cpu_centi == capped(
            (stats[a].cpu_centi + stats[b].cpu_centi) as nat,
        ),
{
    lemma_pair_sum(a, b, stats, Figure::Cpu);
    lemma_pair_sum(a, b, stats, Figure::ReadRate);
    lemma_pair_sum(a, b, stats, Figure::WriteRate);
    assert(stats.contains_key(seq![a, b][0]));
}

proof fn lemma_pair_sum(a: u32, b: u32, stats: Map<u32, ProcessStats>, f: Figure)
    requires
        a != b,
        stats.contains_key(a),
        stats.contains_key(b),
    ensures
        stats_sum(seq![a, b], stats, f) == figure(stats[a], f) + figure(stats[b], f),
{
    let s = seq![a, b];
    assert(s.drop_last() =~= seq![a]);
    assert(seq![a].drop_last() =~= Seq::<u32>::empty());
    assert(!seq![a].contains(b)) by {
        if seq![a].contains(b) {
            let k = choose|k: int| 0 <= k < 1 && seq![a][k] == b;
        }
    }
    assert(!Seq::<u32>::empty().contains(a));
    assert(seq![a].last() == a);
    assert(stats_sum(Seq::<u32>::empty(), stats, f) == 0);
    assert(stats_sum(seq![a], stats, f) == stats_sum(seq![a].drop_last(), stats, f) + figure(stats[a], f));
    assert(s.last() == b);
}

/// A socket with an owner lacking a network measurement has no aggregate
/// network rate, whatever the other owners measured.
pub proof fn lemma_unmeasured_owner_hides_network(
    pids: Seq<u32>,
    stats: Map<u32, ProcessStats>,
    net: Map<u32, NetRate>,
    i: int,
)
    requires
        0 <= i < pids.len(),
        !net.contains_key(pids[i]),
    ensures
        aggregate_spec(pids, stats, net) is Some ==> aggregate_spec(pids, stats, net)->Some_0.net
            is None,
{
}

/// `e` with its figures set to `agg`.
pub open spec fn with_stats(e: SocketEntry, agg: Option<ProcessStats>) -> SocketEntry {
    SocketEntry { agg_stats: agg, ..e }
}

/// Sets the figures of every row from the per-process figures `stats` and
/// the per-process network rates `net`.
pub fn attach_stats(
    entries: &mut Vec<SocketEntry>,
    stats: &HashMap<u32, ProcessStats>,
    net: &HashMap<u32, NetRate>,
)
    ensures
        final(entries)@.len() == old(entries)@.len(),
        forall|i: int|
            0 <= i < old(entries)@.len() ==> #[trigger] final(entries)@[i] == with_stats(
                old(entries)@[i],
                aggregate_spec(old(entries)@[i].pids@, stats@, net@),
            ),
{
    let mut i: usize = 0;
    while i < entries.len()
        invariant
            i <= entries@.len(),
            entries@.len() == old(entries)@.len(),
            forall|j: int|
                0 <= j < i ==> #[trigger] entries@[j] == with_stats(
                    old(entries)@[j],
                    aggregate_spec(old(entries)@[j].pids@, stats@, net@),
                ),
            forall|j: int| i <= j < entries@.len() ==> #[trigger] entries@[j] == old(entries)@[j],
        decreases entries@.len() - i,
    {
        let agg = aggregate_stats(&entries[i].pids, stats, net);
        entries[i].agg_stats = agg;
        i += 1;
    }
}

/// Whether `p` owns one of the rows.
pub open spec fn owns_row(entries: Seq<SocketEntry>, p: u32) -> bool {
    exists|i: int| 0 <= i < entries.len() && (#[trigger] entries[i]).pids@.contains(p)
}

/// The owning ids of all rows, each once.
pub fn distinct_pids(entries: &Vec<SocketEntry>) -> (r: Vec<u32>)
    ensures
        r@.no_duplicates(),
        forall|p: u32| #[trigger] r@.contains(p) <==> owns_row(entries@, p),
{
    let mut out: Vec<u32> = Vec::new();
    let mut i: usize = 0;
    while i < entries.len()
        invariant
            i <= entries@.len(),
            out@.no_duplicates(),
            forall|p: u32| #[trigger] out@.contains(p) <==> owns_row(entries@.take(i as int), p),
        decreases entries@.len() - i,
    {
        let ghost before = out@;
        let pids = &entries[i].pids;
        let mut k: usize = 0;
        while k < pids.len()
            invariant
                i < entries@.len(),
                *pids == entries@[i as int].pids,
                k <= pids@.len(),
                out@.no_duplicates(),
                forall|p: u32| #[trigger]
                    out@.contains(p) <==> (before.contains(p) || pids@.take(k as int).contains(p)),
            decreases pids@.len() - k,
        {
            let p = pids[k];
            proof {
                assert(pids@.take(k + 1) =~= pids@.take(k as int).push(p));
                lemma_push_contains(pids@.take(k as int), p);
                lemma_push_contains(out@, p);
            }
            if !contains_before(&out, out.len(), p) {
                proof {
                    assert(out@.take(out@.len() as int) =~= out@);
                }
                out.push(p);
            } else {
                proof {
                    assert(out@.take(out@.len() as int) =~= out@);
                }
            }
            k += 1;
        }
        proof {
            assert(pids@.take(k as int) =~= pids@);
            assert forall|p: u32|
                owns_row(entries@.take(i + 1), p) <==> (owns_row(entries@.take(i as int), p)
                    || pids@.contains(p)) by {
                if owns_row(entries@.take(i as int), p) {
                    let j = choose|j: int|
                        0 <= j < i && (#[trigger] entries@.take(i as int)[j]).pids@.contains(p);
                    assert(entries@.take(i + 1)[j] == entries@.take(i as int)[j]);
                }
                if pids@.contains(p) {
                    assert(entries@.take(i + 1)[i as int] == entries@[i as int]);
                }
                if owns_row(entries@.take(i + 1), p) && !pids@.contains(p) {
                    let j = choose|j: int|
                        0 <= j < i + 1 && (#[trigger] entries@.take(i + 1)[j]).pids@.contains(p);
                    assert(entries@.take(i as int)[j] == entries@.take(i + 1)[j]);
                }
            }
        }
        i += 1;
    }
    proof {
        assert(entries@.take(i as int) =~= entries@);
    }
    out
}

} // verus!
