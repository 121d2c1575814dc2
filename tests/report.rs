use netstatw::aggregate::{aggregate_stats, attach_stats, distinct_pids};
use netstatw::entry::{build_entry, build_socket_entries, SocketEntry};
use netstatw::process::{find_process, get_process_info, ProcessSample};
use netstatw::rank::{rank_entries, rank_key_of, SortKeyKind};
use netstatw::sampling::{collect_process_stats, per_second_rate, sampling_pause_ms, NetRate, ProcessStats};
use netstatw::socket::{state_sort_order, ConnState, Endpoint, Protocol, SocketRecord, Transport};
use netstatw::text::decimal_string;
use netstatw::throughput::{throughput_rates, totals_for, ConnCounters};
use std::collections::HashMap;

fn ep(ip: &str, port: u16) -> Endpoint {
    Endpoint { ip: ip.to_string(), port }
}

fn proc_sample(pid: u32, exe: Option<&str>, name: &str, read: u64, written: u64) -> ProcessSample {
    ProcessSample {
        pid,
        exe: exe.map(|s| s.to_string()),
        name: name.to_string(),
        cpu_centi: 0,
        total_read_bytes: read,
        total_written_bytes: written,
    }
}

fn tcp(local: Endpoint, remote: Endpoint, state: ConnState, pids: Vec<u32>) -> SocketRecord {
    SocketRecord { local, transport: Transport::Tcp { remote, state }, pids }
}

fn udp(local: Endpoint, pids: Vec<u32>) -> SocketRecord {
    SocketRecord { local, transport: Transport::Udp, pids }
}

fn stats(cpu: u64, read: u64, write: u64) -> ProcessStats {
    ProcessStats {
        cpu_centi: cpu,
        read_rate: read,
        write_rate: write,
        net: None,
        total_read_bytes: 0,
        total_written_bytes: 0,
    }
}

fn row(state: ConnState, protocol: Protocol, ip: &str, port: u16, agg: Option<ProcessStats>) -> SocketEntry {
    SocketEntry {
        protocol,
        local: ep(ip, port),
        remote: None,
        state,
        process_info: String::new(),
        pids: Vec::new(),
        agg_stats: agg,
    }
}

#[test]
fn ownerless_record_is_unknown() {
    let procs = vec![proc_sample(7, Some("/bin/x"), "x", 0, 0)];
    let e = build_entry(&udp(ep("0.0.0.0", 53), vec![]), &procs, None);
    assert_eq!(e.process_info, "Unknown");
    assert!(e.pids.is_empty());
    let e = build_entry(&udp(ep("0.0.0.0", 53), vec![]), &procs, Some(3));
    assert_eq!(e.process_info, "Unknown");
}

#[test]
fn end_to_end_tcp_row() {
    let procs = vec![proc_sample(42, Some("/usr/bin/server"), "server", 0, 0)];
    let records = vec![tcp(ep("127.0.0.1", 8080), ep("10.0.0.5", 51234), ConnState::Established, vec![42])];
    let rows = build_socket_entries(&records, &procs, None);
    assert_eq!(rows.len(), 1);
    let r = &rows[0];
    assert_eq!(r.proto(), "TCP");
    assert_eq!(r.local_addr(), "127.0.0.1:8080");
    assert_eq!(r.remote_addr(), "10.0.0.5:51234");
    assert_eq!(r.state_label(), "Established");
    assert_eq!(r.process_info, "42: /usr/bin/server");
    assert_eq!(r.pids, vec![42]);
    assert!(r.agg_stats.is_none());
}

#[test]
fn udp_row_has_no_peer_and_dash_state() {
    let rows = build_socket_entries(&vec![udp(ep("::1", 5353), vec![9])], &vec![], None);
    assert_eq!(rows[0].proto(), "UDP");
    assert_eq!(rows[0].local_addr(), "::1:5353");
    assert_eq!(rows[0].remote_addr(), "*:*");
    assert_eq!(rows[0].state_label(), "-");
    assert_eq!(rows[0].process_info, "9: Unknown");
}

#[test]
fn labels_fall_back_to_name_and_join() {
    let procs = vec![proc_sample(5, None, "svc", 0, 0), proc_sample(6, Some("/opt/a"), "a", 0, 0)];
    assert_eq!(get_process_info(&procs, 5), "5: svc");
    assert_eq!(get_process_info(&procs, 6), "6: /opt/a");
    assert_eq!(get_process_info(&procs, 8), "8: Unknown");
    let e = build_entry(&tcp(ep("1.2.3.4", 1), ep("5.6.7.8", 2), ConnState::Listen, vec![5, 6, 8]), &procs, None);
    assert_eq!(e.process_info, "5: svc, 6: /opt/a, 8: Unknown");
}

#[test]
fn top_n_caps_labels_and_pids_together() {
    let procs = vec![proc_sample(1, Some("/a"), "a", 0, 0), proc_sample(2, Some("/b"), "b", 0, 0)];
    let rec = tcp(ep("1.1.1.1", 80), ep("2.2.2.2", 81), ConnState::Established, vec![1, 2, 3]);
    let e = build_entry(&rec, &procs, Some(2));
    assert_eq!(e.pids, vec![1, 2]);
    assert_eq!(e.process_info, "1: /a, 2: /b");
    let e = build_entry(&rec, &procs, Some(0));
    assert!(e.pids.is_empty());
    assert_eq!(e.process_info, "Unknown");
    let e = build_entry(&rec, &procs, Some(10));
    assert_eq!(e.pids, vec![1, 2, 3]);
}

#[test]
fn first_sample_of_a_pid_wins() {
    let procs = vec![proc_sample(3, Some("/first"), "f", 0, 0), proc_sample(3, Some("/second"), "s", 0, 0)];
    assert_eq!(find_process(&procs, 3), Some(0));
    assert_eq!(find_process(&procs, 4), None);
    assert_eq!(get_process_info(&procs, 3), "3: /first");
}

#[test]
fn decimal_text() {
    assert_eq!(decimal_string(0), "0");
    assert_eq!(decimal_string(7), "7");
    assert_eq!(decimal_string(65535), "65535");
    assert_eq!(decimal_string(u64::MAX), "18446744073709551615");
}

#[test]
fn absent_process_has_no_stats() {
    let base = vec![proc_sample(1, None, "a", 1000, 0), proc_sample(2, None, "b", 0, 0)];
    let cur = vec![proc_sample(1, None, "a", 3000, 500), proc_sample(3, None, "c", 0, 0)];
    let m = collect_process_stats(&vec![1, 2, 3, 4], &base, &cur, 1_000_000);
    assert_eq!(m.len(), 1);
    assert!(!m.contains_key(&4));
    assert!(!m.contains_key(&2));
    assert!(!m.contains_key(&3));
    let s = m[&1];
    assert_eq!(s.read_rate, 2000);
    assert_eq!(s.write_rate, 500);
    assert_eq!(s.total_read_bytes, 3000);
    assert_eq!(s.net, None);
}

#[test]
fn unrequested_process_has_no_stats() {
    let base = vec![proc_sample(1, None, "a", 0, 0)];
    let m = collect_process_stats(&vec![], &base, &base, 1_000_000);
    assert!(m.is_empty());
}

#[test]
fn cpu_comes_from_second_snapshot() {
    let mut b = proc_sample(1, None, "a", 0, 0);
    b.cpu_centi = 100;
    let mut c = proc_sample(1, None, "a", 0, 0);
    c.cpu_centi = 2550;
    let m = collect_process_stats(&vec![1], &vec![b], &vec![c], 800_000);
    assert_eq!(m[&1].cpu_centi, 2550);
}

#[test]
fn counter_decrease_gives_zero_rate() {
    assert_eq!(per_second_rate(5000, 100, 1_000_000), 0);
    let base = vec![proc_sample(1, None, "a", 9000, 9000)];
    let cur = vec![proc_sample(1, None, "a", 10, 9000)];
    let m = collect_process_stats(&vec![1], &base, &cur, 500_000);
    assert_eq!(m[&1].read_rate, 0);
    assert_eq!(m[&1].write_rate, 0);
}

#[test]
fn rate_formula_values() {
    assert_eq!(per_second_rate(100, 1100, 500_000), 2000);
    assert_eq!(per_second_rate(0, 1000, 800_000), 1250);
    assert_eq!(per_second_rate(0, 1, 3_000_000), 0);
    assert_eq!(per_second_rate(0, u64::MAX, 1_000), u64::MAX);
}

#[test]
fn zero_interval_is_coerced() {
    assert_eq!(sampling_pause_ms(0), 1);
    assert_eq!(sampling_pause_ms(800), 800);
    assert_eq!(per_second_rate(0, 5, 0), 5000);
    assert_eq!(per_second_rate(0, 5, 10), 5000);
}

#[test]
fn two_owner_read_rates_add_up() {
    let mut m = HashMap::new();
    m.insert(1u32, stats(10, 100, 1));
    m.insert(2u32, stats(20, 250, 2));
    let agg = aggregate_stats(&vec![1, 2], &m, &HashMap::new()).unwrap();
    assert_eq!(agg.read_rate, 350);
    assert_eq!(agg.write_rate, 3);
    assert_eq!(agg.cpu_centi, 30);
}

#[test]
fn repeated_owner_counts_once() {
    let mut m = HashMap::new();
    m.insert(1u32, stats(10, 100, 0));
    let agg = aggregate_stats(&vec![1, 1], &m, &HashMap::new()).unwrap();
    assert_eq!(agg.read_rate, 100);
    assert_eq!(agg.cpu_centi, 10);
}

#[test]
fn no_sampled_owner_gives_no_stats() {
    let mut m = HashMap::new();
    m.insert(1u32, stats(10, 100, 0));
    assert_eq!(aggregate_stats(&vec![2, 3], &m, &HashMap::new()), None);
    assert_eq!(aggregate_stats(&vec![], &m, &HashMap::new()), None);
}

#[test]
fn partial_network_is_unavailable() {
    let mut m = HashMap::new();
    m.insert(1u32, stats(0, 0, 0));
    m.insert(2u32, stats(0, 0, 0));
    let mut net = HashMap::new();
    net.insert(1u32, NetRate { rx: 1000, tx: 1000 });
    let agg = aggregate_stats(&vec![1, 2], &m, &net).unwrap();
    assert_eq!(agg.net, None);
    net.insert(2u32, NetRate { rx: 24, tx: 5 });
    let agg = aggregate_stats(&vec![1, 2], &m, &net).unwrap();
    assert_eq!(agg.net, Some(NetRate { rx: 1024, tx: 1005 }));
}

#[test]
fn attach_sets_each_row() {
    let procs = vec![];
    let records = vec![
        tcp(ep("1.1.1.1", 1), ep("2.2.2.2", 2), ConnState::Established, vec![1, 2]),
        udp(ep("3.3.3.3", 3), vec![3]),
        udp(ep("4.4.4.4", 4), vec![]),
    ];
    let mut rows = build_socket_entries(&records, &procs, None);
    let mut m = HashMap::new();
    m.insert(1u32, stats(5, 100, 0));
    m.insert(2u32, stats(5, 250, 0));
    attach_stats(&mut rows, &m, &HashMap::new());
    assert_eq!(rows[0].agg_stats.unwrap().read_rate, 350);
    assert_eq!(rows[0].agg_stats.unwrap().cpu_centi, 10);
    assert!(rows[1].agg_stats.is_none());
    assert!(rows[2].agg_stats.is_none());
    assert_eq!(rows[0].local_addr(), "1.1.1.1:1");
}

#[test]
fn distinct_pids_is_union_without_repeats() {
    let records = vec![
        udp(ep("1.1.1.1", 1), vec![4, 2, 4]),
        udp(ep("1.1.1.1", 2), vec![]),
        udp(ep("1.1.1.1", 3), vec![2, 9]),
    ];
    let rows = build_socket_entries(&records, &vec![], None);
    assert_eq!(distinct_pids(&rows), vec![4, 2, 9]);
}

#[test]
fn throughput_needs_both_samples() {
    let first = vec![
        ConnCounters { pid: 1, received: 100, acked: 50 },
        ConnCounters { pid: 1, received: 200, acked: 50 },
        ConnCounters { pid: 2, received: 10, acked: 10 },
    ];
    let second = vec![
        ConnCounters { pid: 1, received: 1300, acked: 600 },
        ConnCounters { pid: 3, received: 10, acked: 10 },
    ];
    let r = throughput_rates(&first, &second, 1_000_000);
    assert_eq!(r.len(), 1);
    assert_eq!(r[&1], NetRate { rx: 1000, tx: 500 });
    assert!(!r.contains_key(&2));
    assert!(!r.contains_key(&3));
}

#[test]
fn throughput_decrease_is_zero() {
    let first = vec![ConnCounters { pid: 7, received: 900, acked: 900 }];
    let second = vec![ConnCounters { pid: 7, received: 100, acked: 1900 }];
    let r = throughput_rates(&first, &second, 2_000_000);
    assert_eq!(r[&7], NetRate { rx: 0, tx: 500 });
}

#[test]
fn totals_saturate() {
    let reads = vec![
        ConnCounters { pid: 1, received: u64::MAX, acked: 1 },
        ConnCounters { pid: 1, received: 5, acked: 2 },
        ConnCounters { pid: 2, received: 5, acked: 2 },
    ];
    let t = totals_for(&reads, 1);
    assert!(t.found);
    assert_eq!(t.received, u64::MAX);
    assert_eq!(t.acked, 3);
    assert!(!totals_for(&reads, 3).found);
}

#[test]
fn state_priorities() {
    assert_eq!(state_sort_order(ConnState::Stateless), 1);
    assert_eq!(state_sort_order(ConnState::TimeWait), 2);
    assert_eq!(state_sort_order(ConnState::Established), 10);
    assert_eq!(state_sort_order(ConnState::Listen), 11);
    assert_eq!(state_sort_order(ConnState::Closed), 0);
    assert_eq!(state_sort_order(ConnState::DeleteTcb), 0);
}

#[test]
fn default_ranking_by_state() {
    let mut rows = vec![
        row(ConnState::TimeWait, Protocol::Tcp, "1.1.1.1", 1, None),
        row(ConnState::Listen, Protocol::Tcp, "1.1.1.1", 1, None),
        row(ConnState::Stateless, Protocol::Udp, "1.1.1.1", 1, None),
    ];
    rank_entries(&mut rows, &vec![]);
    let states: Vec<&str> = rows.iter().map(|r| r.state_label()).collect();
    assert_eq!(states, vec!["-", "TimeWait", "Listen"]);
}

#[test]
fn default_ranking_ties_on_protocol_ip_port() {
    let mut rows = vec![
        row(ConnState::Listen, Protocol::Udp, "1.1.1.1", 1, None),
        row(ConnState::Listen, Protocol::Tcp, "9.0.0.1", 1, None),
        row(ConnState::Listen, Protocol::Tcp, "10.0.0.5", 80, None),
        row(ConnState::Listen, Protocol::Tcp, "10.0.0.5", 22, None),
        row(ConnState::Listen, Protocol::Tcp, "10.0.0", 9000, None),
    ];
    rank_entries(&mut rows, &vec![]);
    let got: Vec<String> = rows.iter().map(|r| format!("{} {}", r.proto(), r.local_addr())).collect();
    assert_eq!(
        got,
        vec!["TCP 10.0.0:9000", "TCP 10.0.0.5:22", "TCP 10.0.0.5:80", "TCP 9.0.0.1:1", "UDP 1.1.1.1:1"]
    );
}

#[test]
fn unavailable_cpu_ranks_last() {
    let mut rows = vec![
        row(ConnState::Stateless, Protocol::Udp, "1.1.1.1", 1, None),
        row(ConnState::Listen, Protocol::Tcp, "2.2.2.2", 2, Some(stats(0, 0, 0))),
    ];
    rank_entries(&mut rows, &vec![SortKeyKind::Cpu]);
    assert!(rows[0].agg_stats.is_some());
    assert!(rows[1].agg_stats.is_none());
}

#[test]
fn metric_ranking_descends_then_breaks_ties() {
    let mut rows = vec![
        row(ConnState::Listen, Protocol::Tcp, "1.1.1.1", 1, Some(stats(10, 5, 0))),
        row(ConnState::Established, Protocol::Tcp, "1.1.1.1", 2, Some(stats(10, 5, 0))),
        row(ConnState::Listen, Protocol::Tcp, "1.1.1.1", 3, Some(stats(90, 1, 0))),
        row(ConnState::Listen, Protocol::Tcp, "1.1.1.1", 4, Some(stats(10, 7, 0))),
    ];
    rank_entries(&mut rows, &vec![SortKeyKind::Cpu, SortKeyKind::R]);
    let ports: Vec<u16> = rows.iter().map(|r| r.local.port).collect();
    assert_eq!(ports, vec![3, 4, 2, 1]);
}

#[test]
fn network_metric_unavailable_ranks_last() {
    let mut with_net = stats(0, 0, 0);
    with_net.net = Some(NetRate { rx: 0, tx: 3 });
    let mut rows = vec![
        row(ConnState::Listen, Protocol::Tcp, "1.1.1.1", 1, Some(stats(99, 99, 99))),
        row(ConnState::Listen, Protocol::Tcp, "1.1.1.1", 2, Some(with_net)),
    ];
    rank_entries(&mut rows, &vec![SortKeyKind::Rx]);
    assert_eq!(rows[0].local.port, 2);
    rank_entries(&mut rows, &vec![SortKeyKind::Tx]);
    assert_eq!(rows[0].local.port, 2);
}

#[test]
fn equal_rows_keep_their_order() {
    let mut a = row(ConnState::Listen, Protocol::Tcp, "1.1.1.1", 1, None);
    a.process_info = "first".to_string();
    let mut b = row(ConnState::Listen, Protocol::Tcp, "1.1.1.1", 1, None);
    b.process_info = "second".to_string();
    let mut rows = vec![a, b];
    rank_entries(&mut rows, &vec![SortKeyKind::W]);
    assert_eq!(rows[0].process_info, "first");
    assert_eq!(rows[1].process_info, "second");
}

#[test]
fn rank_key_layout() {
    let e = row(ConnState::TimeWait, Protocol::Udp, "1.2", 80, Some(stats(7, 0, 0)));
    let k = rank_key_of(&e, &vec![SortKeyKind::Cpu, SortKeyKind::Rx]);
    assert_eq!(k, vec![-7, 1, 2, 1, 50, 47, 51, 0, 80]);
}
