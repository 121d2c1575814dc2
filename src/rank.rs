//! The ranking engine: default order by state, protocol and local address,
//! or by chosen metrics, highest first.
use vstd::prelude::*;
use crate::entry::SocketEntry;
use crate::lex::{ints, lex_lt, lex_less, lemma_lex_irreflexive, lemma_lex_asymmetric, lemma_lex_transitive, lemma_lex_total};
use crate::sampling::ProcessStats;
use crate::socket::{Protocol, state_order, state_sort_order};

verus! {

/// A metric that rows can be ranked by.
#[derive(Clone, Copy, Debug, PartialEq, Eq)]
pub enum SortKeyKind {
    Cpu,
    R,
    W,
    Rx,
    Tx,
}

/// Value of metric `k` in the figures `stats`, if available.
pub open spec fn metric(stats: Option<ProcessStats>, k: SortKeyKind) -> Option<nat> {
    match stats {
        None => None,
        Some(s) => match k {
            SortKeyKind::Cpu => Some(s.cpu_centi as nat),
            SortKeyKind::R => Some(s.read_rate as nat),
            SortKeyKind::W => Some(s.write_rate as nat),
            SortKeyKind::Rx => match s.net {
                Some(n) => Some(n.rx as nat),
                None => None,
            },
            SortKeyKind::Tx => match s.net {
                Some(n) => Some(n.tx as nat),
                None => None,
            },
        },
    }
}

/// Key component of a metric value: larger values come first, and an
/// unavailable value after every available one.
pub open spec fn metric_rank(v: Option<nat>) -> int {
    match v {
        Some(x) => -(x as int),
        None => 1,
    }
}

/// The metric part of a row's key.
pub open spec fn metric_key(stats: Option<ProcessStats>, keys: Seq<SortKeyKind>) -> Seq<int> {
    keys.map_values(|k: SortKeyKind| metric_rank(metric(stats, k)))
}

/// Key of an IP text's bytes: each byte shifted up by one and a closing
/// zero, so that a proper prefix sorts first, as in string order.
pub open spec fn text_key(bytes: Seq<u8>) -> Seq<int> {
    bytes.map_values(|b: u8| b as int + 1).push(0)
}

/// The default key: state priority, protocol name, local IP text, local port.
pub open spec fn default_key(e: SocketEntry) -> Seq<int> {
    seq![state_order(e.state) as int, e.protocol.name_rank()] + text_key(
        vstd::utf8::encode_utf8(e.local.ip@),
    ) + seq![e.local.port as int]
}

/// Full ranking key of a row under the metric list `keys`: the metrics in
/// order, then the default key as tie-break.
pub open spec fn rank_key(e: SocketEntry, keys: Seq<SortKeyKind>) -> Seq<int> {
    metric_key(e.agg_stats, keys) + default_key(e)
}

fn metric_rank_of(stats: &Option<ProcessStats>, k: SortKeyKind) -> (r: i128)
    ensures
        r as int == metric_rank(metric(*stats, k)),
{
    let v: Option<u64> = match stats {
        None => None,
        Some(s) => match k {
            SortKeyKind::Cpu => Some(s.cpu_centi),
            SortKeyKind::R => Some(s.read_rate),
            SortKeyKind::W => Some(s.write_rate),
            SortKeyKind::Rx => match s.net {
                Some(n) => Some(n.rx),
                None => None,
            },
            SortKeyKind::Tx => match s.net {
                Some(n) => Some(n.tx),
                None => None,
            },
        },
    };
    match v {
        Some(x) => -(x as i128),
        None => 1,
    }
}

/// The ranking key of `e` (see `rank_key`).
pub fn rank_key_of(e: &SocketEntry, keys: &Vec<SortKeyKind>) -> (r: Vec<i128>)
    ensures
        ints(r@) == rank_key(*e, keys@),
{
    let mut r: Vec<i128> = Vec::new();
    let mut i: usize = 0;
    while i < keys.len()
        invariant
            i <= keys@.len(),
            r@.len() == i,
            forall|k: int| 0 <= k < i ==> #[trigger] r@[k] as int == metric_rank(metric(e.agg_stats, keys@[k])),
        decreases keys@.len() - i,
    {
        let v = metric_rank_of(&e.agg_stats, keys[i]);
        r.push(v);
        i += 1;
    }
    let ghost m = keys@.len() as int;
    r.push(state_sort_order(e.state) as i128);
    r.push(
        match e.protocol {
            Protocol::Tcp => 0,
            Protocol::Udp => 1,
        },
    );
    let bytes = e.local.ip.as_str().as_bytes();
    let ghost head = r@;
    let mut j: usize = 0;
    while j < bytes.len()
        invariant
            j <= bytes@.len(),
            r@.len() == m + 2 + j,
            head.len() == m + 2,
            m == keys@.len(),
            forall|k: int| 0 <= k < m + 2 ==> #[trigger] r@[k] == head[k],
            forall|k: int| 0 <= k < j ==> #[trigger] r@[m + 2 + k] as int == bytes@[k] as int + 1,
        decreases bytes@.len() - j,
    {
        let ghost before = r@;
        let x = bytes[j] as i128 + 1;
        r.push(x);
        proof {
            assert(r@ == before.push(x));
            assert(r@[m + 2 + j] == x);
            assert forall|k: int| 0 <= k < j + 1 implies #[trigger] r@[m + 2 + k] as int == bytes@[k] as int + 1 by {
                if k < j {
                    assert(r@[m + 2 + k] == before[m + 2 + k]);
                }
            }
        }
        j += 1;
    }
    r.push(0);
    r.push(e.local.port as i128);
    proof {
        let want = rank_key(*e, keys@);
        let b = vstd::utf8::encode_utf8(e.local.ip@);
        assert(bytes@ == b);
        let n = b.len() as int;
        assert(want.len() == m + 2 + n + 2);
        assert forall|k: int| 0 <= k < want.len() implies #[trigger] ints(r@)[k] == want[k] by {
            if k < m {
                assert(want[k] == metric_key(e.agg_stats, keys@)[k]);
            } else if k < m + 2 {
            } else if k < m + 2 + n {
                assert(r@[m + 2 + (k - m - 2)] as int == bytes@[k - m - 2] as int + 1);
                assert(want[k] == text_key(b)[k - m - 2]);
            } else if k == m + 2 + n {
                assert(want[k] == text_key(b)[n]);
            }
        }
        assert(ints(r@) =~= want);
    }
    r
}

/// A row with key `ka` at input position `i` is placed before one with key
/// `kb` at input position `j`: by key, and by input position among equal
/// keys.
pub open spec fn precedes(ka: Seq<int>, i: int, kb: Seq<int>, j: int) -> bool {
    lex_lt(ka, kb) || (ka == kb && i < j)
}

/// `perm` lists each of `0..n` exactly once.
pub open spec fn is_permutation(perm: Seq<int>, n: int) -> bool {
    &&& perm.len() == n
    &&& forall|k: int| 0 <= k < n ==> 0 <= #[trigger] perm[k] < n
    &&& forall|a: int, b: int| 0 <= a < n && 0 <= b < n && a != b ==> #[trigger] perm[a] != #[trigger] perm[b]
}

/// `after` holds the rows of `before`, row `k` of it taken from position
/// `perm[k]`, in ascending order of ranking key and, among equal keys, of
/// input position.
pub open spec fn ranked_by(
    perm: Seq<int>,
    before: Seq<SocketEntry>,
    after: Seq<SocketEntry>,
    keys: Seq<SortKeyKind>,
) -> bool {
    &&& after.len() == before.len()
    &&& is_permutation(perm, before.len() as int)
    &&& forall|k: int| 0 <= k < after.len() ==> #[trigger] after[k] == before[perm[k]]
    &&& forall|a: int, b: int|
        0 <= a < b < after.len() ==> precedes(
            rank_key(#[trigger] after[a], keys),
            perm[a],
            rank_key(#[trigger] after[b], keys),
            perm[b],
        )
}

/// `after` is the stable ranking of `before` under `keys`.
pub open spec fn is_ranking(before: Seq<SocketEntry>, after: Seq<SocketEntry>, keys: Seq<SortKeyKind>) -> bool {
    exists|perm: Seq<int>| ranked_by(perm, before, after, keys)
}

pub proof fn lemma_precedes_transitive(ka: Seq<int>, i: int, kb: Seq<int>, j: int, kc: Seq<int>, l: int)
    requires
        precedes(ka, i, kb, j),
        precedes(kb, j, kc, l),
    ensures
        precedes(ka, i, kc, l),
{
    if lex_lt(ka, kb) && lex_lt(kb, kc) {
        lemma_lex_transitive(ka, kb, kc);
    }
}

/// Under the default order a row with a lower state priority is ranked
/// first, whatever else the rows hold.
pub proof fn lemma_default_order_by_state(a: SocketEntry, b: SocketEntry, keys: Seq<SortKeyKind>)
    requires
        keys.len() == 0,
        state_order(a.state) < state_order(b.state),
    ensures
        lex_lt(rank_key(a, keys), rank_key(b, keys)),
{
    assert(metric_key(a.agg_stats, keys) =~= Seq::<int>::empty());
    assert(metric_key(b.agg_stats, keys) =~= Seq::<int>::empty());
    assert(rank_key(a, keys)[0] == state_order(a.state) as int);
    assert(rank_key(b, keys)[0] == state_order(b.state) as int);
}

/// Ranking by a metric places every row where it is available before every
/// row where it is not.
pub proof fn lemma_unavailable_ranks_last(
    before: Seq<SocketEntry>,
    after: Seq<SocketEntry>,
    keys: Seq<SortKeyKind>,
    x: int,
    y: int,
)
    requires
        is_ranking(before, after, keys),
        keys.len() > 0,
        0 <= x < after.len(),
        0 <= y < after.len(),
        metric(after[x].agg_stats, keys[0]) is Some,
        metric(after[y].agg_stats, keys[0]) is None,
    ensures
        x < y,
{
    let perm = choose|perm: Seq<int>| ranked_by(perm, before, after, keys);
    let kx = rank_key(after[x], keys);
    let ky = rank_key(after[y], keys);
    assert(kx[0] <= 0);
    assert(ky[0] == 1);
    assert(lex_lt(kx, ky));
    if y < x {
        assert(precedes(ky, perm[y], kx, perm[x]));
        lemma_lex_asymmetric(kx, ky);
    } else if x == y {
        lemma_lex_irreflexive(kx);
    }
}

/// The ranking order is a strict total order on rows at distinct input
/// positions: exactly one of any two precedes the other.
pub proof fn lemma_precedes_total(ka: Seq<int>, i: int, kb: Seq<int>, j: int)
    requires
        i != j,
    ensures
        precedes(ka, i, kb, j) != precedes(kb, j, ka, i),
{
    if ka != kb {
        lemma_lex_total(ka, kb);
        if lex_lt(ka, kb) {
            lemma_lex_asymmetric(ka, kb);
        } else {
            lemma_lex_asymmetric(kb, ka);
        }
    } else {
        lemma_lex_irreflexive(ka);
    }
}

/// Where row `a` of the list comes from after moving row `i` to `j`.
pub open spec fn moved_from(a: int, j: int, i: int) -> int {
    if a < j {
        a
    } else if a == j {
        i
    } else if a <= i {
        a - 1
    } else {
        a
    }
}

/// Sorts the rows: with no metric keys by the default key alone, else by
/// the metrics in order, highest first, unavailable last, then by the
/// default key. Rows with equal keys keep their order.
#[verifier::loop_isolation(false)]
pub fn rank_entries(entries: &mut Vec<SocketEntry>, keys: &Vec<SortKeyKind>)
    ensures
        is_ranking(old(entries)@, final(entries)@, keys@),
{
    let ghost orig = entries@;
    let n = entries.len();
    let mut ks: Vec<Vec<i128>> = Vec::new();
    let mut i: usize = 0;
    while i < n
        invariant
            entries@ == orig,
            n == orig.len(),
            i <= n,
            ks@.len() == i,
            forall|k: int| 0 <= k < i ==> ints(#[trigger] ks@[k]@) == rank_key(orig[k], keys@),
        decreases n - i,
    {
        let k = rank_key_of(&entries[i], keys);
        ks.push(k);
        i += 1;
    }
    let ghost mut perm: Seq<int> = Seq::new(n as nat, |k: int| k);
    i = 0;
    while i < n
        invariant
            entries@.len() == n,
            ks@.len() == n,
            orig.len() == n,
            i <= n,
            forall|k: int| 0 <= k < n ==> ints(#[trigger] ks@[k]@) == rank_key(entries@[k], keys@),
            is_permutation(perm, n as int),
            forall|k: int| 0 <= k < n ==> #[trigger] entries@[k] == orig[perm[k]],
            forall|k: int| i <= k < n ==> #[trigger] perm[k] == k,
            forall|k: int| 0 <= k < i ==> #[trigger] perm[k] < i,
            forall|a: int, b: int|
                0 <= a < b < i ==> precedes(
                    rank_key(#[trigger] entries@[a], keys@),
                    perm[a],
                    rank_key(#[trigger] entries@[b], keys@),
                    perm[b],
                ),
        decreases n - i,
    {
        let mut j: usize = i;
        while j > 0 && lex_less(&ks[i], &ks[j - 1])
            invariant
                j <= i,
                forall|m: int|
                    j <= m < i ==> lex_lt(
                        rank_key(entries@[i as int], keys@),
                        rank_key(#[trigger] entries@[m], keys@),
                    ),
            decreases j,
        {
            j -= 1;
        }
        let ghost e0 = entries@;
        let ghost k0 = ks@;
        let ghost p0 = perm;
        let e = entries.remove(i);
        entries.insert(j, e);
        let kk = ks.remove(i);
        ks.insert(j, kk);
        proof {
            let ii = i as int;
            let jj = j as int;
            perm = Seq::new(n as nat, |a: int| p0[moved_from(a, jj, ii)]);
            assert forall|a: int| 0 <= a < n implies #[trigger] entries@[a] == e0[moved_from(a, jj, ii)]
                && ks@[a] == k0[moved_from(a, jj, ii)] by {
                if a < jj {
                } else if a == jj {
                } else if a <= ii {
                    assert(entries@[a] == e0.remove(ii)[a - 1]);
                    assert(ks@[a] == k0.remove(ii)[a - 1]);
                } else {
                    assert(entries@[a] == e0.remove(ii)[a - 1]);
                    assert(ks@[a] == k0.remove(ii)[a - 1]);
                }
            }
            assert forall|a: int, b: int|
                0 <= a < n && 0 <= b < n && a != b implies #[trigger] perm[a] != #[trigger] perm[b] by {
                assert(moved_from(a, jj, ii) != moved_from(b, jj, ii));
            }
            assert forall|a: int, b: int|
                0 <= a < b < ii + 1 implies precedes(
                    rank_key(#[trigger] entries@[a], keys@),
                    perm[a],
                    rank_key(#[trigger] entries@[b], keys@),
                    perm[b],
                ) by {
                let sa = moved_from(a, jj, ii);
                let sb = moved_from(b, jj, ii);
                if a == jj {
                    assert(lex_lt(rank_key(e0[ii], keys@), rank_key(e0[sb], keys@)));
                } else if b == jj {
                    let ki = rank_key(e0[ii], keys@);
                    let kp = rank_key(e0[jj - 1], keys@);
                    if kp != ki {
                        lemma_lex_total(kp, ki);
                    }
                    assert(precedes(kp, p0[jj - 1], ki, p0[ii]));
                    if a < jj - 1 {
                        lemma_precedes_transitive(
                            rank_key(e0[a], keys@),
                            p0[a],
                            kp,
                            p0[jj - 1],
                            ki,
                            p0[ii],
                        );
                    }
                } else {
                    assert(sa < sb);
                }
            }
        }
        i += 1;
    }
    proof {
        assert(ranked_by(perm, orig, entries@, keys@));
    }
}

} // verus!
