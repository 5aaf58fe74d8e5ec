use sitrep::diskstats::{is_block_device, parse_diskstats, DiskBusyTracker};
use sitrep::monitor::{
    fd_stats, parse_ctxt_total, parse_status, LinuxCollector, MacCollector,
};
use sitrep::netdev::{parse_net_dev, traffic_delta, NetworkAttribution};
use sitrep::sockets::{parse_tcp_table, socket_census, socket_inode, socket_owners, ProcessFds};
use sitrep::layout::{Layout, SectionId};

#[test]
fn disk_busy_first_call_is_zero_then_delta_over_elapsed() {
    let mut t = DiskBusyTracker::new();
    assert_eq!(t.sample(1000, vec![("sda".to_string(), 5000)]), 0);
    // 250 ms busy over 1000 ms elapsed: 25.00%
    assert_eq!(t.sample(2000, vec![("sda".to_string(), 5250)]), 2500);
    // 3000 ms busy over 1000 ms elapsed is held at 100%
    assert_eq!(t.sample(3000, vec![("sda".to_string(), 8250)]), 10000);
}

#[test]
fn disk_busy_takes_busiest_device_and_skips_new_ones() {
    let mut t = DiskBusyTracker::new();
    t.sample(0, vec![("sda".to_string(), 0), ("sdb".to_string(), 0)]);
    let b = t.sample(
        500,
        vec![("sda".to_string(), 100), ("sdb".to_string(), 400), ("sdc".to_string(), 99999)],
    );
    assert_eq!(b, 8000);
    assert_eq!(t.sample(500, vec![("sda".to_string(), 900)]), 0);
}

#[test]
fn block_device_names() {
    let none: Vec<String> = vec![];
    assert!(is_block_device("sda", &none));
    assert!(!is_block_device("sda1", &none));
    assert!(is_block_device("nvme0n1", &none));
    assert!(!is_block_device("nvme0n1p1", &none));
    assert!(is_block_device("vdb", &none));
    assert!(is_block_device("xvda", &none));
    assert!(!is_block_device("xvda1", &none));
    assert!(is_block_device("mmcblk0", &none));
    assert!(!is_block_device("mmcblk0p2", &none));
    assert!(is_block_device("dm-0", &none));
    assert!(!is_block_device("loop0", &none));
    assert!(is_block_device("loop0", &vec!["loop0".to_string()]));
}

#[test]
fn diskstats_parsed_for_whole_disks() {
    let content = "   8       0 sda 100 0 0 0 0 0 0 0 0 1234 0\n   8       1 sda1 1 0 0 0 0 0 0 0 0 99 0\n bad line\n";
    let r = parse_diskstats(content, &vec![]);
    assert_eq!(r, vec![("sda".to_string(), 1234)]);
}

#[test]
fn linux_collector_disk_query() {
    let mut c = LinuxCollector::new();
    let first = "8 0 sda 0 0 0 0 0 0 0 0 0 100 0\n";
    let second = "8 0 sda 0 0 0 0 0 0 0 0 0 600 0\n";
    assert_eq!(c.get_disk_io_pct(0, first, &vec![]), 0);
    assert_eq!(c.get_disk_io_pct(1000, second, &vec![]), 5000);
}

#[test]
fn tcp_table_parsed_and_counted() {
    let tcp = "  sl  local_address rem_address   st tx_queue rx_queue tr tm->when retrnsmt   uid  timeout inode\n   0: 0100007F:0CEA 00000000:0000 0A 00000000:00000000 00:00000000 00000000   0        0 111 1\n   1: 0100007F:0CEA 0100007F:D3C2 01 00000000:00000000 00:00000000 00000000   0        0 222 1\n   2: 0100007F:0CEA 0100007F:D3C4 06 00000000:00000000 00:00000000 00000000   0        0 0 1\n   3: 0100007F:0CEA 0100007F:D3C6 08 00000000:00000000 00:00000000 00000000   0        0 333 1\n";
    let entries = parse_tcp_table(tcp);
    assert_eq!(entries, vec![(111, 10), (222, 1), (333, 8)]);
    let procs = vec![
        ProcessFds { pid: 10, name: "nginx".into(), links: vec!["socket:[111]".into(), "socket:[222]".into()] },
        ProcessFds { pid: 20, name: "redis".into(), links: vec!["/dev/null".into(), "socket:[333]".into()] },
    ];
    let owners = socket_owners(&procs);
    assert_eq!(owners.len(), 3);
    let census = socket_census(&entries, &owners);
    assert_eq!(census.established, 1);
    assert_eq!(census.listen, 1);
    assert_eq!(census.close_wait, 1);
    assert_eq!(census.time_wait, 0);
    assert_eq!(census.top_processes, vec![("nginx".to_string(), 2), ("redis".to_string(), 1)]);
}

#[test]
fn socket_link_targets() {
    assert_eq!(socket_inode("socket:[12345]"), Some(12345));
    assert_eq!(socket_inode("socket:[]"), None);
    assert_eq!(socket_inode("pipe:[12]"), None);
    assert_eq!(socket_inode("socket:[12"), None);
}

#[test]
fn net_dev_parsed_without_loopback() {
    let content = "Inter-|   Receive                                                |  Transmit\n face |bytes    packets errs drop fifo frame compressed multicast|bytes    packets errs drop fifo colls carrier compressed\n    lo: 100 1 0 0 0 0 0 0 100 1 0 0 0 0 0 0\n  eth0: 5000 10 0 0 0 0 0 0 7000 9 0 0 0 0 0 0\n";
    let r = parse_net_dev(content);
    assert_eq!(r, vec![("eth0".to_string(), 5000, 7000)]);
    let prev = vec![("eth0".to_string(), 4000u64, 8000u64)];
    assert_eq!(traffic_delta(&prev, &r), (1000, 0));
}

#[test]
fn network_bytes_split_by_connection_share() {
    let mut a = NetworkAttribution::new();
    let entries = vec![(1u64, 1u8), (2, 1), (3, 1), (4, 10)];
    let procs = vec![
        ProcessFds { pid: 10, name: "a".into(), links: vec!["socket:[1]".into(), "socket:[2]".into()] },
        ProcessFds { pid: 20, name: "b".into(), links: vec!["socket:[3]".into(), "socket:[4]".into()] },
    ];
    let owners = socket_owners(&procs);
    let live = vec![10u32, 20];
    let first = a.update(0, vec![("eth0".into(), 0, 0)], &entries, &owners, &live);
    assert!(first.is_empty());
    let second = a.update(1000, vec![("eth0".into(), 300, 600)], &entries, &owners, &live);
    assert_eq!(second, vec![(10, 200, 400), (20, 100, 200)]);
    let third = a.update(2000, vec![("eth0".into(), 600, 600)], &entries, &owners, &vec![20]);
    assert_eq!(third, vec![(20, 200, 200)]);
}

#[test]
fn fd_stats_from_file_nr_and_counts() {
    let counts = vec![
        ("a".to_string(), 5u64),
        ("b".to_string(), 0),
        ("c".to_string(), 50),
        ("d".to_string(), 7),
        ("e".to_string(), 1),
        ("f".to_string(), 2),
        ("g".to_string(), 7),
    ];
    let info = fd_stats("3040\t100\t9223372036854775807\n", &counts);
    assert_eq!(info.system_used, 2940);
    assert_eq!(info.system_max, 9223372036854775807);
    let names: Vec<&str> = info.top_processes.iter().map(|p| p.0.as_str()).collect();
    assert_eq!(names, vec!["c", "d", "g", "a", "f"]);
}

#[test]
fn context_switch_files_parsed() {
    assert_eq!(parse_ctxt_total("cpu  1 2 3\nctxt 987654\nbtime 1\n"), 987654);
    assert_eq!(parse_ctxt_total("cpu 1\n"), 0);
    let (name, v, n) = parse_status(
        "Name:\tbash\nState:\tS\nvoluntary_ctxt_switches:\t12\nnonvoluntary_ctxt_switches:\t3\n",
        &"77".to_string(),
    );
    assert_eq!((name.as_str(), v, n), ("bash", 12, 3));
    let c = LinuxCollector::new();
    let statuses = vec![
        ("1".to_string(), "Name: init\nvoluntary_ctxt_switches: 5\n".to_string()),
        ("2".to_string(), "voluntary_ctxt_switches: 0\n".to_string()),
    ];
    let info = c.get_context_switches("ctxt 10\n", &statuses);
    assert_eq!(info.total_csw, 10);
    assert_eq!(info.top_processes, vec![("init".to_string(), 5)]);
}

#[test]
fn sysctl_value_parsed() {
    assert_eq!(MacCollector::parse_sysctl_value("kern.maxfiles: 122880\n"), 122880);
    assert_eq!(MacCollector::parse_sysctl_value("garbage"), 0);
    assert_eq!(MacCollector::parse_sysctl_value("k: x"), 0);
}

#[test]
fn layout_defaults_and_toggle() {
    let mut l = Layout::default_layout();
    assert_eq!(l.sections.len(), 9);
    assert_eq!(l.sections[0].title, "Load Average");
    assert!(!l.is_collapsed(SectionId::Memory));
    assert!(l.is_collapsed(SectionId::SocketOverview));
    l.toggle_section(SectionId::Memory);
    assert!(l.is_collapsed(SectionId::Memory));
    l.toggle_section(SectionId::Memory);
    assert!(!l.is_collapsed(SectionId::Memory));
}

#[test]
fn mac_socket_census_from_tool_output() {
    let c = MacCollector::new();
    let netstat = "tcp4 0 0 1.2.3.4.443 5.6.7.8.5000 ESTABLISHED\ntcp4 0 0 *.80 *.* LISTEN\ntcp4 0 0 a b TIME_WAIT\ntcp4 0 0 a b CLOSE_WAIT\ntcp4 0 0 a b FIN_WAIT_2\nheader line\n";
    let lsof = "COMMAND PID USER\nnginx 1 root TCP *:80 (LISTEN)\nnginx 1 root TCP a->b (ESTABLISHED)\nsshd 2 root TCP a->b (CLOSE_WAIT)\nfoo 3 root UDP *:53\n";
    let s = c.get_socket_stats(netstat, lsof);
    assert_eq!((s.established, s.listen, s.time_wait, s.close_wait, s.fin_wait), (1, 1, 1, 1, 1));
    assert_eq!(s.top_processes, vec![("nginx".to_string(), 2), ("sshd".to_string(), 1)]);
}

#[test]
fn mac_fd_and_switch_readings() {
    let c = MacCollector::new();
    let fd = c.get_fd_stats("kern.num_files: 2048\n", "kern.maxfiles: 122880\n", "  40 Chrome\n  12 Finder\n bad\n");
    assert_eq!(fd.system_used, 2048);
    assert_eq!(fd.system_max, 122880);
    assert_eq!(fd.top_processes, vec![("Chrome".to_string(), 40), ("Finder".to_string(), 12)]);
    let cs = c.get_context_switches("COMM NIVCSW\nkernel task 10\nlaunchd 0\nWindowServer 25\n");
    assert_eq!(cs.total_csw, 35);
    assert_eq!(cs.top_processes, vec![("WindowServer".to_string(), 25), ("kernel task".to_string(), 10)]);
}

#[test]
fn mac_nettop_bytes_per_pid() {
    let mut c = MacCollector::new();
    let out = "time,,interface,state,bytes_in,bytes_out\n12:00,Safari.123,,,1000,2000\n12:00,bad,,,1,1\n12:00,Safari.123,,,1500,2500\n12:00,mDNS.7,,,5,6\n";
    assert_eq!(c.get_process_network_stats(out), vec![(123, 1500, 2500), (7, 5, 6)]);
    assert_eq!(c.get_disk_io_pct(), 0);
}

#[test]
fn descriptor_counts_per_process() {
    let procs = vec![
        ProcessFds { pid: 1, name: "a".into(), links: vec!["x".into(), "y".into()] },
        ProcessFds { pid: 2, name: "b".into(), links: vec![] },
    ];
    assert_eq!(sitrep::sockets::fd_counts(&procs), vec![("a".to_string(), 2), ("b".to_string(), 0)]);
}
