use sitrep::history::{compute_top_processes, HistoryEntry, ProcessHistory, SortColumn, HISTORY_BOUND};
use sitrep::monitor::{Monitor, TickInput, MemoryInfo, FdInfo, ContextSwitchInfo};
use sitrep::process::{build_live_groups, ProcessGroup, ProcessInfo};
use sitrep::sockets::SocketOverviewInfo;

fn group(pid: u32, cpu: u64, name: &str) -> ProcessGroup {
    ProcessGroup {
        pid,
        cpu,
        mem: 0,
        read_bytes: 0,
        written_bytes: 0,
        net_rx_bytes: 0,
        net_tx_bytes: 0,
        child_count: 0,
        name: name.into(),
        children: vec![],
    }
}

fn proc_info(pid: u32, parent: Option<u32>, cpu: u64, mem: u64) -> ProcessInfo {
    ProcessInfo {
        pid,
        parent,
        cpu,
        mem,
        read_bytes: 0,
        written_bytes: 0,
        net_rx_bytes: 0,
        net_tx_bytes: 0,
        name: format!("p{}", pid),
    }
}

#[test]
fn compute_top_processes_empty_history() {
    let history: Vec<HistoryEntry> = Vec::new();
    let result = compute_top_processes(&history, SortColumn::Cpu);
    assert!(result.is_empty());
}

#[test]
fn compute_top_processes_single_snapshot() {
    let mut g = group(1, 5000, "test");
    g.mem = 1000;
    g.read_bytes = 100;
    g.written_bytes = 200;
    g.net_rx_bytes = 10;
    g.net_tx_bytes = 20;
    let history = vec![HistoryEntry { timestamp_ms: 0, groups: vec![g] }];
    let result = compute_top_processes(&history, SortColumn::Cpu);
    assert_eq!(result.len(), 1);
    assert_eq!(result[0].name, "test");
    assert!((result[0].cpu as f64 / 100.0 - 50.0).abs() < 0.01);
}

#[test]
fn compute_top_processes_sorts_by_column() {
    let mut groups = Vec::new();
    for (pid, cpu) in [(1u32, 1000u64), (2, 5000), (3, 3000)] {
        groups.push(group(pid, cpu, &format!("p{}", pid)));
    }
    let history = vec![HistoryEntry { timestamp_ms: 0, groups }];
    let result = compute_top_processes(&history, SortColumn::Cpu);
    assert_eq!(result.len(), 3);
    assert_eq!(result[0].name, "p2");
    assert_eq!(result[1].name, "p3");
    assert_eq!(result[2].name, "p1");
}

#[test]
fn rank_averages_and_rates_over_window() {
    let mut a = group(7, 1000, "svc");
    a.read_bytes = 1000;
    a.mem = 100;
    let mut b = group(7, 3000, "svc");
    b.read_bytes = 3000;
    b.mem = 300;
    let history = vec![
        HistoryEntry { timestamp_ms: 1000, groups: vec![a] },
        HistoryEntry { timestamp_ms: 3000, groups: vec![b, group(8, 10, "other")] },
    ];
    let r = compute_top_processes(&history, SortColumn::Read);
    assert_eq!(r.len(), 2);
    assert_eq!(r[0].pid, 7);
    assert_eq!(r[0].cpu, 2000);
    assert_eq!(r[0].mem, 200);
    assert_eq!(r[0].read_rate, 1000);
    assert_eq!(r[0].samples, 2);
    assert_eq!(r[1].pid, 8);
    assert_eq!(r[1].read_rate, 0);
}

#[test]
fn rank_keeps_ten_rows_and_is_repeatable() {
    let groups: Vec<ProcessGroup> = (0..15u32).map(|p| group(p, (p as u64) * 10, "x")).collect();
    let groups2: Vec<ProcessGroup> = (0..15u32).map(|p| group(p, (p as u64) * 10, "x")).collect();
    let h1 = vec![HistoryEntry { timestamp_ms: 5, groups }];
    let h2 = vec![HistoryEntry { timestamp_ms: 5, groups: groups2 }];
    let r1 = compute_top_processes(&h1, SortColumn::Cpu);
    let r2 = compute_top_processes(&h2, SortColumn::Cpu);
    assert_eq!(r1.len(), 10);
    assert_eq!(r1[0].pid, 14);
    let p1: Vec<u32> = r1.iter().map(|r| r.pid).collect();
    let p2: Vec<u32> = r2.iter().map(|r| r.pid).collect();
    assert_eq!(p1, p2);
}

#[test]
fn equal_keys_keep_first_seen_order() {
    let history = vec![HistoryEntry { timestamp_ms: 0, groups: vec![group(5, 10, "a"), group(3, 10, "b")] }];
    let r = compute_top_processes(&history, SortColumn::Cpu);
    assert_eq!(r[0].pid, 5);
    assert_eq!(r[1].pid, 3);
}

#[test]
fn group_sums_equal_member_sums() {
    let procs = vec![
        proc_info(1, None, 100, 10),
        proc_info(2, Some(1), 250, 20),
        proc_info(3, Some(1), 50, 30),
        proc_info(4, Some(9), 5, 1),
    ];
    let net = vec![(2u32, 7u64, 8u64)];
    let groups = build_live_groups(&procs, &net);
    assert_eq!(groups.len(), 2);
    assert_eq!(groups[0].pid, 1);
    assert_eq!(groups[1].pid, 4);
    let g1: Vec<&ProcessGroup> = groups.iter().filter(|g| g.pid == 1).collect();
    assert_eq!(g1.len(), 1);
    let g = g1[0];
    assert_eq!(g.cpu, 100 + 250 + 50);
    assert_eq!(g.mem, 10 + 20 + 30);
    assert_eq!(g.child_count, 2);
    assert_eq!(g.net_rx_bytes, 7);
    let sum: u64 = g.children.iter().map(|c| c.cpu).sum();
    assert_eq!(g.cpu, sum);
}

#[test]
fn history_window_evicts_oldest() {
    let mut h = ProcessHistory::new(HISTORY_BOUND);
    for t in 1..=25u64 {
        assert!(h.push_snapshot(t * 1000, vec![]));
        assert!(h.entries.len() <= HISTORY_BOUND);
    }
    assert_eq!(h.entries.len(), 20);
    assert_eq!(h.entries[0].timestamp_ms, 6000);
    assert!(!h.push_snapshot(25000, vec![]));
    assert_eq!(h.entries.len(), 20);
}

fn tick(now_ms: u64, procs: Vec<ProcessInfo>) -> TickInput {
    TickInput {
        now_ms,
        time: "12:00:00".into(),
        core_count: 4,
        load_avg: (100, 50, 25),
        processes: procs,
        net_stats: vec![],
        disks: vec![("/".into(), 1000, 50)],
        interfaces: vec![("eth0".into(), 1000, 2000)],
        memory: MemoryInfo::default(),
        fd_info: FdInfo::default(),
        socket_overview: SocketOverviewInfo::default(),
        context_switches: ContextSwitchInfo::default(),
        disk_busy_pct: 0,
    }
}

#[test]
fn expanded_group_freezes_ranking() {
    let mut m = Monitor::new();
    m.update(tick(1000, vec![proc_info(1, None, 100, 0)]));
    let first = &m.last_data.as_ref().unwrap().historical_top;
    assert_eq!(first.len(), 1);
    assert_eq!(first[0].pid, 1);
    assert_eq!(m.last_data.as_ref().unwrap().disk_space.len(), 1);
    assert!(m.last_data.as_ref().unwrap().disk_space[0].is_warning);
    m.ui_state.expanded_pids.push(1);
    m.update(tick(4000, vec![proc_info(2, None, 9000, 0)]));
    let frozen = &m.last_data.as_ref().unwrap().historical_top;
    assert_eq!(frozen.len(), 1);
    assert_eq!(frozen[0].pid, 1);
    m.ui_state.expanded_pids.clear();
    m.update(tick(7000, vec![proc_info(2, None, 9000, 0)]));
    let fresh = &m.last_data.as_ref().unwrap().historical_top;
    assert_eq!(fresh[0].pid, 2);
}

#[test]
fn interface_rates_need_a_prior_reading() {
    let mut m = Monitor::new();
    m.update(tick(1000, vec![]));
    assert!(m.last_data.as_ref().unwrap().network.interfaces.is_empty());
    let mut next = tick(3000, vec![]);
    next.interfaces = vec![("eth0".into(), 3000, 2000)];
    m.update(next);
    let ifs = &m.last_data.as_ref().unwrap().network.interfaces;
    assert_eq!(ifs.len(), 1);
    assert_eq!(ifs[0].rx_rate, 1000);
    assert_eq!(ifs[0].tx_rate, 0);
}

#[test]
fn only_low_space_disks_published() {
    let disks = vec![
        ("/".to_string(), 1000u64, 50u64),
        ("/empty".to_string(), 0, 0),
        ("/data".to_string(), 1000, 500),
        ("/tight".to_string(), 1000, 99),
    ];
    let list = sitrep::monitor::disk_space_list(&disks);
    let mounts: Vec<&str> = list.iter().map(|d| d.mount_point.as_str()).collect();
    assert_eq!(mounts, vec!["/", "/tight"]);
    assert_eq!(list[0].percent_free, 500);
    assert_eq!(list[1].percent_free, 990);
}

#[test]
fn descendants_grouped_under_top_ancestor() {
    let procs = vec![
        proc_info(10, None, 100, 1),
        proc_info(11, Some(10), 200, 2),
        proc_info(12, Some(11), 300, 3),
        proc_info(20, Some(999), 5, 5),
    ];
    let groups = build_live_groups(&procs, &vec![]);
    assert_eq!(groups.len(), 2);
    assert_eq!(groups[0].pid, 10);
    let pids: Vec<u32> = groups[0].children.iter().map(|c| c.pid).collect();
    assert_eq!(pids, vec![10, 11, 12]);
    assert_eq!(groups[0].cpu, 600);
    assert_eq!(groups[1].pid, 20);
}

#[test]
fn parent_cycle_still_groups() {
    let procs = vec![proc_info(1, Some(2), 1, 0), proc_info(2, Some(1), 1, 0)];
    let groups = build_live_groups(&procs, &vec![]);
    let total: usize = groups.iter().map(|g| g.children.len()).sum();
    assert_eq!(total, 2);
}

#[test]
fn short_gap_still_gives_rate() {
    let mut a = group(3, 0, "io");
    a.read_bytes = 0;
    let mut b = group(3, 0, "io");
    b.read_bytes = 1000;
    let history = vec![
        HistoryEntry { timestamp_ms: 1000, groups: vec![a] },
        HistoryEntry { timestamp_ms: 1050, groups: vec![b] },
    ];
    let r = compute_top_processes(&history, SortColumn::Read);
    assert_eq!(r[0].read_rate, 20000);
}
