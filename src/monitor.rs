//! One sampling tick: the platform figures, the process window and ranking,
//! and the assembled snapshot that the display reads.
use vstd::prelude::*;
use crate::counts::{count_views, first_n, sort_counts, top_counts};
use crate::diskstats::{DiskBusyTracker, parse_diskstats, tick_views, disk_entries, views, max_busy};
use crate::history::{
    HISTORY_BOUND, ProcessHistory, RankedProcess, SortColumn, copy_ranked, compute_top_processes, ranking,
};
use crate::layout::Layout;
use crate::netdev::{
    NetworkAttribution, iface_of, iface_views, parse_net_dev, sat_sub, net_entries,
};
use crate::process::{ProcessInfo, build_live_groups, cap};
use crate::sockets::{
    ProcessFds, SocketOverviewInfo, parse_tcp_table, socket_census, socket_owners,
};
use crate::text::{
    fields_spec, lines_spec, split_fields, split_on, split_spec, trim_spec, trim_str,
    u64_or_zero, u64_or_zero_of, after_header, split_lines,
};

verus! {

/// Memory totals in bytes.
#[derive(Clone, Copy, PartialEq, Eq, Debug, Default, Structural)]
pub struct MemoryInfo {
    pub total: u64,
    pub used: u64,
    pub available: u64,
    pub swap_total: u64,
    pub swap_used: u64,
}

/// Space of one mounted disk; `percent_free` is in hundredths of a percent.
pub struct DiskSpaceInfo {
    pub mount_point: String,
    pub total_bytes: u64,
    pub available_bytes: u64,
    pub percent_free: u64,
    pub is_warning: bool,
}

/// Free space below this share (hundredths of a percent) is a warning.
pub const LOW_SPACE_HUNDREDTHS: u64 = 1000;

/// Free share of a disk in hundredths of a percent; 0 for a disk of no size.
pub open spec fn percent_free(total: u64, available: u64) -> int {
    if total == 0 {
        0
    } else {
        cap((available as int) * 10000 / (total as int))
    }
}

/// The space figures of one disk, with a warning below the low-space share.
pub fn disk_space_info(mount_point: String, total: u64, available: u64) -> (r: DiskSpaceInfo)
    ensures
        r.mount_point == mount_point,
        r.total_bytes == total,
        r.available_bytes == available,
        r.percent_free == percent_free(total, available),
        r.is_warning == (percent_free(total, available) < LOW_SPACE_HUNDREDTHS),
{
    let pct: u64 = if total == 0 {
        0
    } else {
        let x: u128 = (available as u128) * 10000 / (total as u128);
        if x > u64::MAX as u128 {
            u64::MAX
        } else {
            x as u64
        }
    };
    DiskSpaceInfo {
        mount_point,
        total_bytes: total,
        available_bytes: available,
        percent_free: pct,
        is_warning: pct < LOW_SPACE_HUNDREDTHS,
    }
}

/// Received and sent bytes per second of one interface.
pub struct NetworkInterfaceInfo {
    pub name: String,
    pub rx_rate: u64,
    pub tx_rate: u64,
}

/// A process and its network bytes per second.
pub struct NetworkProcessInfo {
    pub name: String,
    pub bandwidth: u64,
}

#[derive(Default)]
pub struct NetworkInfo {
    pub interfaces: Vec<NetworkInterfaceInfo>,
    pub top_bandwidth_processes: Vec<NetworkProcessInfo>,
    pub established: usize,
    pub time_wait: usize,
    pub close_wait: usize,
}

/// System-wide and per-process open file descriptors.
#[derive(Default)]
pub struct FdInfo {
    pub system_used: u64,
    pub system_max: u64,
    /// (process name, descriptors), largest first.
    pub top_processes: Vec<(String, u64)>,
}

/// Context switches since boot, system-wide and per process.
#[derive(Default)]
pub struct ContextSwitchInfo {
    pub total_csw: u64,
    pub top_processes: Vec<(String, u64)>,
}

/// Interface rates are skipped over intervals shorter than this.
pub const MIN_RATE_INTERVAL_MS: u64 = 100;

pub open spec fn per_second(delta: int, ms: int) -> int {
    cap(delta * 1000 / ms)
}

/// The rates of the interfaces seen in both readings that moved any bytes,
/// in the order of the current reading.
pub open spec fn rates_spec(prev: Seq<(Seq<char>, u64, u64)>, cur: Seq<(Seq<char>, u64, u64)>, ms: int) -> Seq<
    (Seq<char>, int, int),
>
    decreases cur.len(),
{
    if cur.len() == 0 {
        Seq::empty()
    } else {
        let r = rates_spec(prev, cur.drop_last(), ms);
        let e = cur.last();
        match iface_of(prev, e.0) {
            Some(p) => {
                let rx = per_second(sat_sub(e.1, p.0), ms);
                let tx = per_second(sat_sub(e.2, p.1), ms);
                if rx > 0 || tx > 0 {
                    r.push((e.0, rx, tx))
                } else {
                    r
                }
            },
            None => r,
        }
    }
}

pub open spec fn rate_views(v: Seq<NetworkInterfaceInfo>) -> Seq<(Seq<char>, int, int)> {
    v.map_values(|i: NetworkInterfaceInfo| (i.name@, i.rx_rate as int, i.tx_rate as int))
}

/// Interface rates between the reading `prev` (taken at its time stamp) and
/// `current`, taken at `now_ms`: none where there is no earlier reading or
/// less than the minimum interval passed.
pub open spec fn interface_rates_spec(
    prev: Option<(u64, Seq<(Seq<char>, u64, u64)>)>,
    now_ms: u64,
    cur: Seq<(Seq<char>, u64, u64)>,
) -> Seq<(Seq<char>, int, int)> {
    match prev {
        Some((t, p)) => if now_ms >= t + MIN_RATE_INTERVAL_MS {
            rates_spec(p, cur, now_ms - t)
        } else {
            Seq::empty()
        },
        None => Seq::empty(),
    }
}

/// Per-second rates of each interface between two readings.
pub fn interface_rates(
    prev: &Option<(u64, Vec<(String, u64, u64)>)>,
    now_ms: u64,
    current: &Vec<(String, u64, u64)>,
) -> (r: Vec<NetworkInterfaceInfo>)
    ensures
        rate_views(r@) == interface_rates_spec(
            match prev {
                Some(p) => Some((p.0, iface_views(p.1@))),
                None => None,
            },
            now_ms,
            iface_views(current@),
        ),
{
    let mut r: Vec<NetworkInterfaceInfo> = Vec::new();
    assert(rate_views(r@) =~= Seq::<(Seq<char>, int, int)>::empty());
    match prev {
        Some((t, pv)) => {
            if now_ms >= *t && now_ms - *t >= MIN_RATE_INTERVAL_MS {
                let ms = now_ms - *t;
                let ghost cv = iface_views(current@);
                let mut i: usize = 0;
                while i < current.len()
                    invariant
                        i <= current@.len(),
                        cv == iface_views(current@),
                        ms >= MIN_RATE_INTERVAL_MS,
                        rate_views(r@) == rates_spec(iface_views(pv@), cv.take(i as int), ms as int),
                    decreases current.len() - i,
                {
                    assert(cv.take(i + 1).drop_last() =~= cv.take(i as int));
                    match crate::netdev::iface_lookup(pv, &current[i].0) {
                        Some((prx, ptx)) => {
                            let (crx, ctx) = (current[i].1, current[i].2);
                            let drx: u64 = if crx >= prx {
                                crx - prx
                            } else {
                                0
                            };
                            let dtx: u64 = if ctx >= ptx {
                                ctx - ptx
                            } else {
                                0
                            };
                            let rx0: u128 = (drx as u128) * 1000 / (ms as u128);
                            let tx0: u128 = (dtx as u128) * 1000 / (ms as u128);
                            let rx: u128 = if rx0 > u64::MAX as u128 {
                                u64::MAX as u128
                            } else {
                                rx0
                            };
                            let tx: u128 = if tx0 > u64::MAX as u128 {
                                u64::MAX as u128
                            } else {
                                tx0
                            };
                            if rx > 0 || tx > 0 {
                                let ghost before = r@;
                                r.push(
                                    NetworkInterfaceInfo {
                                        name: current[i].0.clone(),
                                        rx_rate: rx as u64,
                                        tx_rate: tx as u64,
                                    },
                                );
                                assert(rate_views(r@) =~= rate_views(before).push(
                                    (current@[i as int].0@, rx as int, tx as int),
                                ));
                            }
                        },
                        None => {},
                    }
                    i = i + 1;
                }
                assert(cv.take(current@.len() as int) =~= cv);
            }
        },
        None => {},
    }
    r
}

/// Descriptors in use (allocated less free) and the system maximum, from
/// the kernel's `allocated free max` file-handle line.
pub open spec fn file_nr_spec(content: Seq<char>) -> (int, int) {
    let f = fields_spec(content);
    if f.len() >= 3 {
        let a = u64_or_zero(f[0]);
        let b = u64_or_zero(f[1]);
        (if a >= b { a - b } else { 0 }, u64_or_zero(f[2]) as int)
    } else {
        (0, 0)
    }
}

/// Per-process descriptor counts with the empty ones dropped.
pub open spec fn nonzero_counts(v: Seq<(Seq<char>, nat)>) -> Seq<(Seq<char>, nat)>
    decreases v.len(),
{
    if v.len() == 0 {
        Seq::empty()
    } else if v.last().1 > 0 {
        nonzero_counts(v.drop_last()).push(v.last())
    } else {
        nonzero_counts(v.drop_last())
    }
}

/// The descriptor figures from the file-handle line and the per-process
/// descriptor counts: the five largest non-zero counts, largest first.
pub fn fd_stats(file_nr: &str, counts: &Vec<(String, u64)>) -> (r: FdInfo)
    ensures
        (r.system_used as int, r.system_max as int) == file_nr_spec(file_nr@),
        count_views(r.top_processes@) == first_n(
            sort_counts(nonzero_counts(count_views(counts@))),
            crate::sockets::TOP_PROCESSES as nat,
        ),
{
    let f = split_fields(file_nr);
    let mut used: u64 = 0;
    let mut max: u64 = 0;
    if f.len() >= 3 {
        let a = u64_or_zero_of(f[0].as_str());
        let b = u64_or_zero_of(f[1].as_str());
        used = if a >= b {
            a - b
        } else {
            0
        };
        max = u64_or_zero_of(f[2].as_str());
    }
    let ghost cv = count_views(counts@);
    let mut kept: Vec<(String, u64)> = Vec::new();
    let mut i: usize = 0;
    assert(count_views(kept@) =~= Seq::<(Seq<char>, nat)>::empty());
    while i < counts.len()
        invariant
            i <= counts@.len(),
            cv == count_views(counts@),
            count_views(kept@) == nonzero_counts(cv.take(i as int)),
        decreases counts.len() - i,
    {
        assert(cv.take(i + 1).drop_last() =~= cv.take(i as int));
        if counts[i].1 > 0 {
            let ghost before = kept@;
            kept.push((counts[i].0.clone(), counts[i].1));
            assert(count_views(kept@) =~= count_views(before).push(cv[i as int]));
        }
        i = i + 1;
    }
    assert(cv.take(counts@.len() as int) =~= cv);
    let top = top_counts(&kept, crate::sockets::TOP_PROCESSES);
    FdInfo { system_used: used, system_max: max, top_processes: top }
}

/// The value after the first `:` of a `name: value` line, read as a `u64`
/// (0 where it is missing or unreadable).
pub open spec fn sysctl_spec(s: Seq<char>) -> int {
    let parts = split_spec(s, ':');
    if parts.len() > 1 {
        u64_or_zero(trim_spec(parts[1])) as int
    } else {
        0
    }
}

/// The state the Linux collector keeps between readings.
pub struct LinuxCollector {
    pub disk: DiskBusyTracker,
    pub net: NetworkAttribution,
}

impl LinuxCollector {
    /// No readings yet.
    pub fn new() -> (r: Self)
        ensures
            r.disk.prev_time_ms is None,
            r.disk.prev_ticks@.len() == 0,
            r.net.prev_time_ms is None,
            r.net.prev_bytes@.len() == 0,
            r.net.cumulative@.len() == 0,
    {
        LinuxCollector { disk: DiskBusyTracker::new(), net: NetworkAttribution::new() }
    }

    /// Busy share of the busiest whole disk since the previous call, in
    /// hundredths of a percent, from the disk statistics table.
    pub fn get_disk_io_pct(&mut self, now_ms: u64, diskstats: &str, listed: &Vec<String>) -> (r: u64)
        ensures
            r == match old(self).disk.prev_time_ms {
                None => 0,
                Some(t) => {
                    let cur = disk_entries(lines_spec(diskstats@), views(listed@));
                    if now_ms <= t || cur.len() == 0 {
                        0
                    } else {
                        max_busy(tick_views(old(self).disk.prev_ticks@), cur, (now_ms - t) as nat)
                    }
                },
            },
            final(self).disk.prev_time_ms == Some(now_ms),
            tick_views(final(self).disk.prev_ticks@) == disk_entries(
                lines_spec(diskstats@),
                views(listed@),
            ),
            final(self).net == old(self).net,
    {
        let current = parse_diskstats(diskstats, listed);
        self.disk.sample(now_ms, current)
    }
}

/// The sum of the counts, held at `u64::MAX`.
pub open spec fn total_switches(v: Seq<(Seq<char>, nat)>) -> int
    decreases v.len(),
{
    if v.len() == 0 {
        0
    } else {
        cap(total_switches(v.drop_last()) + v.last().1)
    }
}

/// The collector for platforms that answer through command-line tools.
pub struct MacCollector {}

impl MacCollector {
    pub fn new() -> (r: Self) {
        MacCollector {}
    }

    /// This platform reports no disk busy share.
    pub fn get_disk_io_pct(&mut self) -> (r: u64)
        ensures
            r == 0,
    {
        0
    }

    /// File descriptors: in use and maximum from the kernel parameter
    /// tool's answers, the five commands with most open files from the
    /// counting pipeline over the open-file lister.
    pub fn get_fd_stats(&self, num_files: &str, max_files: &str, counted: &str) -> (r: FdInfo)
        ensures
            r.system_used == sysctl_spec(num_files@),
            r.system_max == sysctl_spec(max_files@),
            count_views(r.top_processes@) == first_n(
                crate::mac::count_lines_of(lines_spec(counted@)),
                crate::sockets::TOP_PROCESSES as nat,
            ),
    {
        let mut top = crate::mac::parse_count_lines(counted);
        let ghost all = count_views(top@);
        if top.len() > crate::sockets::TOP_PROCESSES {
            top.truncate(crate::sockets::TOP_PROCESSES);
            assert(count_views(top@) =~= all.take(crate::sockets::TOP_PROCESSES as int));
        }
        FdInfo {
            system_used: MacCollector::parse_sysctl_value(num_files),
            system_max: MacCollector::parse_sysctl_value(max_files),
            top_processes: top,
        }
    }

    /// The socket census from the network status tool's TCP listing and
    /// the open-file lister's network listing.
    pub fn get_socket_stats(&self, netstat: &str, lsof: &str) -> (r: SocketOverviewInfo)
        ensures
            r.established == crate::mac::count_lines(lines_spec(netstat@), 1),
            r.listen == crate::mac::count_lines(lines_spec(netstat@), 2),
            r.time_wait == crate::mac::count_lines(lines_spec(netstat@), 3),
            r.close_wait == crate::mac::count_lines(lines_spec(netstat@), 4),
            r.fin_wait == crate::mac::count_lines(lines_spec(netstat@), 5),
            count_views(r.top_processes@) == first_n(
                sort_counts(crate::mac::lsof_counts(after_header(lines_spec(lsof@), 1))),
                crate::sockets::TOP_PROCESSES as nat,
            ),
    {
        let c = crate::mac::count_netstat_states(netstat);
        let top = crate::mac::lsof_connection_top(lsof);
        SocketOverviewInfo {
            established: c.established,
            listen: c.listen,
            time_wait: c.time_wait,
            close_wait: c.close_wait,
            fin_wait: c.fin_wait,
            top_processes: top,
        }
    }

    /// Context switches: the total over all processes of the process
    /// lister's output (held at `u64::MAX`) and the five with most.
    pub fn get_context_switches(&self, ps: &str) -> (r: ContextSwitchInfo)
        ensures
            r.total_csw == total_switches(crate::mac::csw_lines(after_header(lines_spec(ps@), 1))),
            count_views(r.top_processes@) == first_n(
                sort_counts(nonzero_counts(crate::mac::csw_lines(after_header(lines_spec(ps@), 1)))),
                crate::sockets::TOP_PROCESSES as nat,
            ),
    {
        let all = crate::mac::parse_ps_switches(ps);
        let ghost av = count_views(all@);
        let mut total: u64 = 0;
        let mut kept: Vec<(String, u64)> = Vec::new();
        let mut i: usize = 0;
        assert(count_views(kept@) =~= Seq::<(Seq<char>, nat)>::empty());
        while i < all.len()
            invariant
                i <= all@.len(),
                av == count_views(all@),
                total == total_switches(av.take(i as int)),
                count_views(kept@) == nonzero_counts(av.take(i as int)),
            decreases all.len() - i,
        {
            assert(av.take(i + 1).drop_last() =~= av.take(i as int));
            total = total.saturating_add(all[i].1);
            if all[i].1 > 0 {
                let ghost before = kept@;
                kept.push((all[i].0.clone(), all[i].1));
                assert(count_views(kept@) =~= count_views(before).push(av[i as int]));
            }
            i = i + 1;
        }
        assert(av.take(all@.len() as int) =~= av);
        let top = top_counts(&kept, crate::sockets::TOP_PROCESSES);
        ContextSwitchInfo { total_csw: total, top_processes: top }
    }

    /// The per-process byte counts of the network top tool's output.
    pub fn get_process_network_stats(&mut self, nettop: &str) -> (r: Vec<(u32, u64, u64)>)
        ensures
            r@ == crate::mac::nettop_entries(after_header(lines_spec(nettop@), 1)),
    {
        crate::mac::parse_nettop(nettop)
    }

    /// Parses a `name: value` line of the kernel parameter tool.
    pub fn parse_sysctl_value(output: &str) -> (r: u64)
        ensures
            r == sysctl_spec(output@),
    {
        let parts = split_on(output, ':');
        if parts.len() > 1 {
            u64_or_zero_of(trim_str(parts[1].as_str()))
        } else {
            0
        }
    }
}

/// Row selection, expanded groups and sort order of the process table.
pub struct UIState {
    pub selected_index: usize,
    /// Groups whose members are shown; while any is, the ranking is frozen.
    pub expanded_pids: Vec<u32>,
    pub total_rows: usize,
    pub sort_column: SortColumn,
}

impl UIState {
    /// Nothing selected or expanded, sorted by CPU.
    pub fn new() -> (r: Self)
        ensures
            r.selected_index == 0,
            r.expanded_pids@.len() == 0,
            r.total_rows == 0,
            r.sort_column == SortColumn::Cpu,
    {
        UIState {
            selected_index: 0,
            expanded_pids: Vec::new(),
            total_rows: 0,
            sort_column: SortColumn::Cpu,
        }
    }

    /// Whether any group is expanded.
    pub fn has_expansions(&self) -> (r: bool)
        ensures
            r == (self.expanded_pids@.len() > 0),
    {
        self.expanded_pids.len() > 0
    }
}

impl Default for UIState {
    fn default() -> (r: Self)
        ensures
            r.selected_index == 0,
            r.expanded_pids@.len() == 0,
            r.total_rows == 0,
            r.sort_column == SortColumn::Cpu,
    {
        UIState::new()
    }
}

/// One published snapshot. CPU, load and busy figures are in hundredths.
pub struct MonitorData {
    pub time: String,
    pub core_count: u64,
    pub load_avg: (u64, u64, u64),
    pub historical_top: Vec<RankedProcess>,
    pub disk_space: Vec<DiskSpaceInfo>,
    pub disk_busy_pct: u64,
    pub memory: MemoryInfo,
    pub network: NetworkInfo,
    pub fd_info: FdInfo,
    pub context_switches: ContextSwitchInfo,
    pub socket_overview: SocketOverviewInfo,
}

/// What one tick reads from the system, as plain values.
pub struct TickInput {
    pub now_ms: u64,
    pub time: String,
    pub core_count: u64,
    pub load_avg: (u64, u64, u64),
    pub processes: Vec<ProcessInfo>,
    /// (pid, received, sent) network byte totals.
    pub net_stats: Vec<(u32, u64, u64)>,
    /// (mount point, total bytes, available bytes).
    pub disks: Vec<(String, u64, u64)>,
    /// (interface, received, sent) byte counters.
    pub interfaces: Vec<(String, u64, u64)>,
    pub memory: MemoryInfo,
    pub fd_info: FdInfo,
    pub socket_overview: SocketOverviewInfo,
    pub context_switches: ContextSwitchInfo,
    pub disk_busy_pct: u64,
}

/// The ranking a tick publishes: the previous one while any group is
/// expanded (none before the first tick), else the ranking of the window.
pub open spec fn published_top(
    frozen: bool,
    previous: Option<Seq<RankedProcess>>,
    window: Seq<crate::history::HistoryEntry>,
    col: SortColumn,
) -> Seq<RankedProcess> {
    if frozen {
        match previous {
            Some(t) => t,
            None => Seq::empty(),
        }
    } else {
        ranking(window, col)
    }
}

fn copy_rows(v: &Vec<RankedProcess>) -> (r: Vec<RankedProcess>)
    ensures
        r@ == v@,
{
    let mut r: Vec<RankedProcess> = Vec::new();
    let mut i: usize = 0;
    while i < v.len()
        invariant
            i <= v@.len(),
            r@ == v@.take(i as int),
        decreases v.len() - i,
    {
        r.push(copy_ranked(&v[i]));
        assert(v@.take(i + 1) =~= v@.take(i as int).push(v@[i as int]));
        i = i + 1;
    }
    assert(v@.take(v@.len() as int) =~= v@);
    r
}

/// A published disk as (mount point, total bytes, available bytes, free share).
pub open spec fn disk_view(d: DiskSpaceInfo) -> (Seq<char>, u64, u64, int) {
    (d.mount_point@, d.total_bytes, d.available_bytes, d.percent_free as int)
}

pub open spec fn disk_views(v: Seq<DiskSpaceInfo>) -> Seq<(Seq<char>, u64, u64, int)> {
    v.map_values(|d: DiskSpaceInfo| disk_view(d))
}

/// The disks with space whose free share is below the low-space share, in
/// order; disks of no size are left out.
pub open spec fn low_space_disks(disks: Seq<(String, u64, u64)>) -> Seq<(Seq<char>, u64, u64, int)>
    decreases disks.len(),
{
    if disks.len() == 0 {
        Seq::empty()
    } else {
        let d = disks.last();
        let rest = low_space_disks(disks.drop_last());
        if d.1 > 0 && percent_free(d.1, d.2) < LOW_SPACE_HUNDREDTHS {
            rest.push((d.0@, d.1, d.2, percent_free(d.1, d.2)))
        } else {
            rest
        }
    }
}

/// The low-space warnings: every disk with space whose free share is below
/// the low-space share.
pub fn disk_space_list(disks: &Vec<(String, u64, u64)>) -> (r: Vec<DiskSpaceInfo>)
    ensures
        disk_views(r@) == low_space_disks(disks@),
        forall|i: int| 0 <= i < r@.len() ==> (#[trigger] r@[i]).is_warning,
{
    let mut r: Vec<DiskSpaceInfo> = Vec::new();
    let mut i: usize = 0;
    assert(disks@.take(0) =~= Seq::<(String, u64, u64)>::empty());
    assert(disk_views(r@) =~= Seq::<(Seq<char>, u64, u64, int)>::empty());
    while i < disks.len()
        invariant
            i <= disks@.len(),
            disk_views(r@) == low_space_disks(disks@.take(i as int)),
            forall|q: int| 0 <= q < r@.len() ==> (#[trigger] r@[q]).is_warning,
        decreases disks.len() - i,
    {
        assert(disks@.take(i + 1).drop_last() =~= disks@.take(i as int));
        if disks[i].1 > 0 {
            let d = disk_space_info(disks[i].0.clone(), disks[i].1, disks[i].2);
            if d.is_warning {
                let ghost before = r@;
                let ghost dv = disk_view(d);
                r.push(d);
                assert(disk_views(r@) =~= disk_views(before).push(dv));
            }
        }
        i = i + 1;
    }
    assert(disks@.take(disks@.len() as int) =~= disks@);
    r
}

/// The metrics engine: the process window, the display state and the last
/// published snapshot.
pub struct Monitor {
    pub history: ProcessHistory,
    pub ui_state: UIState,
    pub layout: Layout,
    pub last_data: Option<MonitorData>,
    /// The interface counters of the previous tick and when they were read.
    pub prev_net_snapshot: Option<(u64, Vec<(String, u64, u64)>)>,
}

impl Monitor {
    /// An empty window, default display state and no snapshot yet.
    pub fn new() -> (r: Self)
        ensures
            r.history.wf(),
            r.history.bound == HISTORY_BOUND,
            r.history.entries@.len() == 0,
            r.last_data is None,
            r.prev_net_snapshot is None,
            r.ui_state.expanded_pids@.len() == 0,
            r.ui_state.sort_column == SortColumn::Cpu,
    {
        Monitor {
            history: ProcessHistory::new(HISTORY_BOUND),
            ui_state: UIState::new(),
            layout: Layout::default_layout(),
            last_data: None,
            prev_net_snapshot: None,
        }
    }

    /// Runs one tick: groups the process table into the window, ranks it
    /// (or keeps the previous ranking while a group is expanded), computes
    /// disk-space warnings and interface rates, and publishes the snapshot.
    pub fn update(&mut self, input: TickInput)
        requires
            old(self).history.wf(),
        ensures
            final(self).history.wf(),
            final(self).history.bound == old(self).history.bound,
            ({
                let h0 = old(self).history.entries@;
                let h1 = final(self).history.entries@;
                if h0.len() == 0 || h0.last().timestamp_ms < input.now_ms {
                    &&& h1 == crate::history::window(h0.push(h1.last()), old(self).history.bound as nat)
                    &&& h1.last().timestamp_ms == input.now_ms
                    &&& crate::process::groups_of(
                        crate::process::table_with_net(input.processes@, input.net_stats@),
                        h1.last().groups@,
                    )
                } else {
                    h1 == h0
                }
            }),
            final(self).ui_state == old(self).ui_state,
            final(self).prev_net_snapshot == Some((input.now_ms, input.interfaces)),
            final(self).last_data is Some,
            ({
                let d = final(self).last_data.unwrap();
                &&& d.historical_top@ == published_top(
                    old(self).ui_state.expanded_pids@.len() > 0,
                    match old(self).last_data {
                        Some(p) => Some(p.historical_top@),
                        None => None,
                    },
                    final(self).history.entries@,
                    old(self).ui_state.sort_column,
                )
                &&& rate_views(d.network.interfaces@) == interface_rates_spec(
                    match old(self).prev_net_snapshot {
                        Some(p) => Some((p.0, iface_views(p.1@))),
                        None => None,
                    },
                    input.now_ms,
                    iface_views(input.interfaces@),
                )
                &&& disk_views(d.disk_space@) == low_space_disks(input.disks@)
                &&& forall|i: int| 0 <= i < d.disk_space@.len() ==> (#[trigger] d.disk_space@[i]).is_warning
                &&& d.fd_info == input.fd_info
                &&& d.context_switches == input.context_switches
                &&& d.socket_overview == input.socket_overview
                &&& d.network.top_bandwidth_processes@.len() == 0
                &&& d.memory == input.memory
                &&& d.disk_busy_pct == input.disk_busy_pct
                &&& d.network.established == input.socket_overview.established
                &&& d.network.time_wait == input.socket_overview.time_wait
                &&& d.network.close_wait == input.socket_overview.close_wait
                &&& d.time == input.time
                &&& d.core_count == input.core_count
                &&& d.load_avg == input.load_avg
            }),
    {
        let groups = build_live_groups(&input.processes, &input.net_stats);
        let _accepted = self.history.push_snapshot(input.now_ms, groups);
        let historical_top = if self.ui_state.has_expansions() {
            match &self.last_data {
                Some(d) => copy_rows(&d.historical_top),
                None => Vec::new(),
            }
        } else {
            compute_top_processes(&self.history.entries, self.ui_state.sort_column)
        };
        let disk_space = disk_space_list(&input.disks);
        let interfaces = interface_rates(&self.prev_net_snapshot, input.now_ms, &input.interfaces);
        let network = NetworkInfo {
            interfaces,
            top_bandwidth_processes: Vec::new(),
            established: input.socket_overview.established,
            time_wait: input.socket_overview.time_wait,
            close_wait: input.socket_overview.close_wait,
        };
        self.prev_net_snapshot = Some((input.now_ms, input.interfaces));
        self.last_data = Some(
            MonitorData {
                time: input.time,
                core_count: input.core_count,
                load_avg: input.load_avg,
                historical_top,
                disk_space,
                disk_busy_pct: input.disk_busy_pct,
                memory: input.memory,
                network,
                fd_info: input.fd_info,
                context_switches: input.context_switches,
                socket_overview: input.socket_overview,
            },
        );
    }
}

pub open spec fn begins(s: Seq<char>, p: Seq<char>) -> bool {
    p.len() <= s.len() && s.take(p.len() as int) == p
}

/// The context switches since boot, from the first `ctxt N` line of the
/// kernel's statistics; 0 where there is none.
pub open spec fn ctxt_total(ls: Seq<Seq<char>>) -> int
    decreases ls.len(),
{
    if ls.len() == 0 {
        0
    } else if begins(ls[0], "ctxt "@) {
        u64_or_zero(trim_spec(ls[0].skip(5))) as int
    } else {
        ctxt_total(ls.drop_first())
    }
}

/// (name, voluntary, involuntary) from a process status file, the last
/// line of each kind counting; `fallback` names a process without a
/// `Name:` line.
pub open spec fn status_fields(ls: Seq<Seq<char>>, fallback: Seq<char>) -> (Seq<char>, int, int)
    decreases ls.len(),
{
    if ls.len() == 0 {
        (fallback, 0, 0)
    } else {
        let (n, v, nv) = status_fields(ls.drop_last(), fallback);
        let l = ls.last();
        if begins(l, "Name:"@) {
            (trim_spec(l.skip(5)), v, nv)
        } else if begins(l, "voluntary_ctxt_switches:"@) {
            (n, u64_or_zero(trim_spec(l.skip(24))) as int, nv)
        } else if begins(l, "nonvoluntary_ctxt_switches:"@) {
            (n, v, u64_or_zero(trim_spec(l.skip(27))) as int)
        } else {
            (n, v, nv)
        }
    }
}

/// Reads the system-wide context switch count.
pub fn parse_ctxt_total(stat: &str) -> (r: u64)
    ensures
        r == ctxt_total(lines_spec(stat@)),
{
    let lines = split_lines(stat);
    let ghost ls = lines_spec(stat@);
    let mut i: usize = 0;
    assert(ls.skip(0) =~= ls);
    proof {
        reveal_strlit("ctxt ");
    }
    while i < lines.len()
        invariant
            i <= lines@.len(),
            lines@.len() == ls.len(),
            forall|q: int| 0 <= q < lines@.len() ==> #[trigger] lines@[q]@ == ls[q],
            ls == lines_spec(stat@),
            ctxt_total(ls) == ctxt_total(ls.skip(i as int)),
        decreases lines.len() - i,
    {
        assert(ls.skip(i as int).drop_first() =~= ls.skip(i + 1));
        assert(ls.skip(i as int)[0] == lines@[i as int]@);
        proof {
            reveal_strlit("ctxt ");
        }
        match crate::text::strip_prefix(lines[i].as_str(), "ctxt ") {
            Some(rest) => {
                return u64_or_zero_of(trim_str(rest));
            },
            None => {},
        }
        i = i + 1;
    }
    0
}

/// Reads a process's name and context switch counts from its status file.
pub fn parse_status(status: &str, fallback: &String) -> (r: (String, u64, u64))
    ensures
        (r.0@, r.1 as int, r.2 as int) == status_fields(lines_spec(status@), fallback@),
{
    let lines = split_lines(status);
    let ghost ls = lines_spec(status@);
    let mut name = fallback.clone();
    let mut vol: u64 = 0;
    let mut nonvol: u64 = 0;
    let mut i: usize = 0;
    assert(ls.take(0) =~= Seq::<Seq<char>>::empty());
    proof {
        reveal_strlit("Name:");
        reveal_strlit("voluntary_ctxt_switches:");
        reveal_strlit("nonvoluntary_ctxt_switches:");
    }
    while i < lines.len()
        invariant
            i <= lines@.len(),
            lines@.len() == ls.len(),
            forall|q: int| 0 <= q < lines@.len() ==> #[trigger] lines@[q]@ == ls[q],
            (name@, vol as int, nonvol as int) == status_fields(ls.take(i as int), fallback@),
        decreases lines.len() - i,
    {
        assert(ls.take(i + 1).drop_last() =~= ls.take(i as int));
        assert(ls.take(i + 1).last() == lines@[i as int]@);
        proof {
            reveal_strlit("Name:");
            reveal_strlit("voluntary_ctxt_switches:");
            reveal_strlit("nonvoluntary_ctxt_switches:");
        }
        let l = lines[i].as_str();
        match crate::text::strip_prefix(l, "Name:") {
            Some(rest) => {
                name = String::from_str(trim_str(rest));
            },
            None => match crate::text::strip_prefix(l, "voluntary_ctxt_switches:") {
                Some(rest) => {
                    vol = u64_or_zero_of(trim_str(rest));
                },
                None => match crate::text::strip_prefix(l, "nonvoluntary_ctxt_switches:") {
                    Some(rest) => {
                        nonvol = u64_or_zero_of(trim_str(rest));
                    },
                    None => {},
                },
            },
        }
        i = i + 1;
    }
    assert(ls.take(lines@.len() as int) =~= ls);
    (name, vol, nonvol)
}

/// Per process, the name and total context switches (held at `u64::MAX`)
/// of its status file, for processes that switched at all.
pub open spec fn switch_counts(st: Seq<(String, String)>) -> Seq<(Seq<char>, nat)>
    decreases st.len(),
{
    if st.len() == 0 {
        Seq::empty()
    } else {
        let f = status_fields(lines_spec(st.last().1@), st.last().0@);
        let total = cap(f.1 + f.2);
        if total > 0 {
            switch_counts(st.drop_last()).push((f.0, total as nat))
        } else {
            switch_counts(st.drop_last())
        }
    }
}

impl LinuxCollector {
    /// Context switches: the system-wide count from the kernel statistics,
    /// and the five processes with most switches from their status files,
    /// given as (fallback name, contents).
    pub fn get_context_switches(&self, stat: &str, statuses: &Vec<(String, String)>) -> (r: ContextSwitchInfo)
        ensures
            r.total_csw == ctxt_total(lines_spec(stat@)),
            count_views(r.top_processes@) == first_n(
                sort_counts(switch_counts(statuses@)),
                crate::sockets::TOP_PROCESSES as nat,
            ),
    {
        let total_csw = parse_ctxt_total(stat);
        let mut counts: Vec<(String, u64)> = Vec::new();
        let mut i: usize = 0;
        assert(statuses@.take(0) =~= Seq::<(String, String)>::empty());
        assert(count_views(counts@) =~= Seq::<(Seq<char>, nat)>::empty());
        while i < statuses.len()
            invariant
                i <= statuses@.len(),
                count_views(counts@) == switch_counts(statuses@.take(i as int)),
            decreases statuses.len() - i,
        {
            assert(statuses@.take(i + 1).drop_last() =~= statuses@.take(i as int));
            let (name, vol, nonvol) = parse_status(statuses[i].1.as_str(), &statuses[i].0);
            let total = vol.saturating_add(nonvol);
            if total > 0 {
                let ghost before = counts@;
                let ghost nv = name@;
                counts.push((name, total));
                assert(count_views(counts@) =~= count_views(before).push((nv, total as nat)));
            }
            i = i + 1;
        }
        assert(statuses@.take(statuses@.len() as int) =~= statuses@);
        let top = top_counts(&counts, crate::sockets::TOP_PROCESSES);
        ContextSwitchInfo { total_csw, top_processes: top }
    }

    /// File descriptors: in use and maximum from the file-handle line, and
    /// the five processes holding most.
    pub fn get_fd_stats(&self, file_nr: &str, counts: &Vec<(String, u64)>) -> (r: FdInfo)
        ensures
            (r.system_used as int, r.system_max as int) == file_nr_spec(file_nr@),
            count_views(r.top_processes@) == first_n(
                sort_counts(nonzero_counts(count_views(counts@))),
                crate::sockets::TOP_PROCESSES as nat,
            ),
    {
        fd_stats(file_nr, counts)
    }

    /// The socket census of the IPv4 and IPv6 TCP tables, with socket
    /// owners from the processes' descriptor links.
    pub fn get_socket_stats(&self, tcp4: &str, tcp6: &str, procs: &Vec<ProcessFds>) -> (r: SocketOverviewInfo)
        ensures
            r.established == crate::sockets::count_state(
                crate::sockets::tcp_entries(after_header(lines_spec(tcp4@), 1)) + crate::sockets::tcp_entries(after_header(lines_spec(tcp6@), 1)),
                crate::sockets::TCP_ESTABLISHED,
            ),
            r.listen == crate::sockets::count_state(crate::sockets::tcp_entries(after_header(lines_spec(tcp4@), 1)) + crate::sockets::tcp_entries(after_header(lines_spec(tcp6@), 1)), crate::sockets::TCP_LISTEN),
            r.time_wait == crate::sockets::count_state(crate::sockets::tcp_entries(after_header(lines_spec(tcp4@), 1)) + crate::sockets::tcp_entries(after_header(lines_spec(tcp6@), 1)), crate::sockets::TCP_TIME_WAIT),
            r.close_wait == crate::sockets::count_state(crate::sockets::tcp_entries(after_header(lines_spec(tcp4@), 1)) + crate::sockets::tcp_entries(after_header(lines_spec(tcp6@), 1)), crate::sockets::TCP_CLOSE_WAIT),
            r.fin_wait == crate::sockets::count_state(crate::sockets::tcp_entries(after_header(lines_spec(tcp4@), 1)) + crate::sockets::tcp_entries(after_header(lines_spec(tcp6@), 1)), crate::sockets::TCP_FIN_WAIT1)
                + crate::sockets::count_state(crate::sockets::tcp_entries(after_header(lines_spec(tcp4@), 1)) + crate::sockets::tcp_entries(after_header(lines_spec(tcp6@), 1)), crate::sockets::TCP_FIN_WAIT2),
            count_views(r.top_processes@) == first_n(
                sort_counts(crate::sockets::conns_by_name(
                    crate::sockets::tcp_entries(after_header(lines_spec(tcp4@), 1)) + crate::sockets::tcp_entries(after_header(lines_spec(tcp6@), 1)),
                    crate::sockets::owners_of(procs@),
                )),
                crate::sockets::TOP_PROCESSES as nat,
            ),
    {
        let entries = tcp_tables(tcp4, tcp6);
        let owners = socket_owners(procs);
        socket_census(&entries, &owners)
    }

    /// The per-process network byte totals: the interface traffic since the
    /// previous call split by each process's share of established
    /// connections, for the processes in `live`.
    pub fn get_process_network_stats(
        &mut self,
        now_ms: u64,
        net_dev: &str,
        tcp4: &str,
        tcp6: &str,
        procs: &Vec<ProcessFds>,
        live: &Vec<u32>,
    ) -> (r: Vec<(u32, u64, u64)>)
        ensures
            final(self).net.cumulative@ == crate::netdev::prune(
                crate::netdev::credited(
                    old(self).net.cumulative@,
                    iface_views(old(self).net.prev_bytes@),
                    old(self).net.prev_time_ms,
                    now_ms,
                    net_entries(after_header(lines_spec(net_dev@), 2)),
                    crate::netdev::established_by_pid(
                        crate::sockets::tcp_entries(after_header(lines_spec(tcp4@), 1)) + crate::sockets::tcp_entries(after_header(lines_spec(tcp6@), 1)),
                        crate::sockets::owners_of(procs@),
                    ),
                ),
                live@,
            ),
            r@ == final(self).net.cumulative@,
            final(self).net.prev_time_ms == Some(now_ms),
            iface_views(final(self).net.prev_bytes@) == net_entries(after_header(lines_spec(net_dev@), 2)),
            final(self).disk == old(self).disk,
    {
        let current = parse_net_dev(net_dev);
        let entries = tcp_tables(tcp4, tcp6);
        let owners = socket_owners(procs);
        self.net.update(now_ms, current, &entries, &owners, live)
    }
}

/// The connections of both TCP tables, IPv4 first.
pub fn tcp_tables(tcp4: &str, tcp6: &str) -> (r: Vec<(u64, u8)>)
    ensures
        r@ == crate::sockets::tcp_entries(after_header(lines_spec(tcp4@), 1)) + crate::sockets::tcp_entries(after_header(lines_spec(tcp6@), 1)),
{
    let mut a = parse_tcp_table(tcp4);
    let mut b = parse_tcp_table(tcp6);
    a.append(&mut b);
    a
}

} // verus!
