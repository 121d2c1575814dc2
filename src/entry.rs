//! Report rows: one per socket, joined with the labels of its processes.
use vstd::prelude::*;
use crate::process::{ProcessSample, process_label, push_process_info};
use crate::sampling::ProcessStats;
use crate::socket::{ConnState, Endpoint, Protocol, SocketRecord, Transport};

verus! {

/// One row of the report.
pub struct SocketEntry {
    pub protocol: Protocol,
    pub local: Endpoint,
    /// The peer; `None` for UDP, shown as `*:*`.
    pub remote: Option<Endpoint>,
    pub state: ConnState,
    /// Labels of the owning processes joined with `", "`, or `"Unknown"`.
    pub process_info: String,
    /// The owning process ids that the row shows and aggregates.
    pub pids: Vec<u32>,
    /// Figures summed over `pids`, once sampled.
    pub agg_stats: Option<ProcessStats>,
}

impl SocketEntry {
    /// Display name of the protocol.
    pub fn proto(&self) -> (r: &'static str)
        ensures
            r@ == self.protocol.label_spec(),
    {
        self.protocol.label()
    }

    /// Local endpoint as `ip:port`.
    pub fn local_addr(&self) -> (r: String)
        ensures
            r@ == self.local.text_spec(),
    {
        self.local.text()
    }

    pub open spec fn remote_addr_spec(self) -> Seq<char> {
        match self.remote {
            Some(e) => e.text_spec(),
            None => "*:*"@,
        }
    }

    /// Remote endpoint as `ip:port`, or `*:*` where there is none.
    pub fn remote_addr(&self) -> (r: String)
        ensures
            r@ == self.remote_addr_spec(),
    {
        match &self.remote {
            Some(e) => e.text(),
            None => {
                let mut s = String::new();
                s.append("*:*");
                proof {
                    assert(s@ =~= "*:*"@);
                }
                s
            },
        }
    }

    /// Display name of the connection state.
    pub fn state_label(&self) -> (r: &'static str)
        ensures
            r@ == self.state.label_spec(),
    {
        self.state.label()
    }
}

/// The owning ids a row keeps: the first `top_n` of them, or all.
pub open spec fn kept_pids(pids: Seq<u32>, top_n: Option<usize>) -> Seq<u32> {
    match top_n {
        Some(n) => if pids.len() > n {
            pids.take(n as int)
        } else {
            pids
        },
        None => pids,
    }
}

/// Labels of `pids`, in order, joined with `", "`.
pub open spec fn joined_labels(procs: Seq<ProcessSample>, pids: Seq<u32>) -> Seq<char>
    decreases pids.len(),
{
    if pids.len() == 0 {
        Seq::empty()
    } else if pids.len() == 1 {
        process_label(procs, pids[0])
    } else {
        joined_labels(procs, pids.drop_last()) + ", "@ + process_label(procs, pids.last())
    }
}

/// The process column of a row owned by `pids`.
pub open spec fn process_info_spec(procs: Seq<ProcessSample>, pids: Seq<u32>) -> Seq<char> {
    if pids.len() == 0 {
        "Unknown"@
    } else {
        joined_labels(procs, pids)
    }
}

/// Whether `e` is the row of the record `r`, labelled from `procs`, with
/// owning ids capped by `top_n`, not yet sampled.
pub open spec fn built_from(
    e: SocketEntry,
    r: SocketRecord,
    procs: Seq<ProcessSample>,
    top_n: Option<usize>,
) -> bool {
    &&& e.local == r.local
    &&& e.pids@ == kept_pids(r.pids@, top_n)
    &&& e.process_info@ == process_info_spec(procs, e.pids@)
    &&& e.agg_stats is None
    &&& match r.transport {
        Transport::Tcp { remote, state } => {
            &&& e.protocol == Protocol::Tcp
            &&& e.remote == Some(remote)
            &&& e.state == state
        },
        Transport::Udp => {
            &&& e.protocol == Protocol::Udp
            &&& e.remote is None
            &&& e.state == ConnState::Stateless
        },
    }
}

/// The row of one socket record.
pub fn build_entry(r: &SocketRecord, procs: &Vec<ProcessSample>, top_n: Option<usize>) -> (e:
    SocketEntry)
    ensures
        built_from(e, *r, procs@, top_n),
{
    let len = r.pids.len();
    let cap: usize = match top_n {
        Some(n) => if len > n {
            n
        } else {
            len
        },
        None => len,
    };
    let ghost kept = kept_pids(r.pids@, top_n);
    let mut pids: Vec<u32> = Vec::new();
    let mut info = String::new();
    let mut k: usize = 0;
    while k < cap
        invariant
            cap == kept.len(),
            kept == kept_pids(r.pids@, top_n),
            cap <= r.pids@.len(),
            k <= cap,
            pids@ == kept.take(k as int),
            info@ == joined_labels(procs@, kept.take(k as int)),
        decreases cap - k,
    {
        let pid = r.pids[k];
        assert(kept[k as int] == pid);
        proof {
            assert(kept.take(k + 1).drop_last() =~= kept.take(k as int));
        }
        if k > 0 {
            info.append(", ");
        }
        push_process_info(&mut info, procs, pid);
        pids.push(pid);
        proof {
            assert(info@ =~= joined_labels(procs@, kept.take(k + 1)));
            assert(pids@ =~= kept.take(k + 1));
        }
        k += 1;
    }
    proof {
        assert(kept.take(k as int) =~= kept);
    }
    if cap == 0 {
        info.append("Unknown");
        proof {
            assert(info@ =~= "Unknown"@);
        }
    }
    match &r.transport {
        Transport::Tcp { remote, state } => SocketEntry {
            protocol: Protocol::Tcp,
            local: r.local.duplicate(),
            remote: Some(remote.duplicate()),
            state: *state,
            process_info: info,
            pids,
            agg_stats: None,
        },
        Transport::Udp => SocketEntry {
            protocol: Protocol::Udp,
            local: r.local.duplicate(),
            remote: None,
            state: ConnState::Stateless,
            process_info: info,
            pids,
            agg_stats: None,
        },
    }
}

/// One row per socket record, in the records' order.
pub fn build_socket_entries(
    records: &Vec<SocketRecord>,
    procs: &Vec<ProcessSample>,
    top_n: Option<usize>,
) -> (r: Vec<SocketEntry>)
    ensures
        r@.len() == records@.len(),
        forall|i: int| 0 <= i < r@.len() ==> built_from(#[trigger] r@[i], records@[i], procs@, top_n),
{
    let mut out: Vec<SocketEntry> = Vec::new();
    let mut i: usize = 0;
    while i < records.len()
        invariant
            i <= records@.len(),
            out@.len() == i,
            forall|j: int| 0 <= j < i ==> built_from(#[trigger] out@[j], records@[j], procs@, top_n),
        decreases records@.len() - i,
    {
        let e = build_entry(&records[i], procs, top_n);
        out.push(e);
        i += 1;
    }
    out
}

/// A socket record with no owning process ids gives a row labelled exactly
/// `"Unknown"` with an empty id list.
pub proof fn lemma_ownerless_row_is_unknown(
    e: SocketEntry,
    r: SocketRecord,
    procs: Seq<ProcessSample>,
    top_n: Option<usize>,
)
    requires
        built_from(e, r, procs, top_n),
        r.pids@.len() == 0,
    ensures
        e.process_info@ == "Unknown"@,
        e.pids@.len() == 0,
{
}

} // verus!
