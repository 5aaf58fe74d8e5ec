//! Grouping of the process table by top-level ancestor.
use vstd::prelude::*;

verus! {

/// One OS process at one sampling tick. CPU is in hundredths of a percent.
pub struct ProcessInfo {
    pub pid: u32,
    /// The parent process, where the OS reports one.
    pub parent: Option<u32>,
    pub cpu: u64,
    pub mem: u64,
    pub read_bytes: u64,
    pub written_bytes: u64,
    pub net_rx_bytes: u64,
    pub net_tx_bytes: u64,
    pub name: String,
}

/// The processes that share one top-level ancestor, with their summed figures.
pub struct ProcessGroup {
    /// The pid of the top-level ancestor within the table.
    pub pid: u32,
    pub cpu: u64,
    pub mem: u64,
    pub read_bytes: u64,
    pub written_bytes: u64,
    pub net_rx_bytes: u64,
    pub net_tx_bytes: u64,
    /// Members that have a parent.
    pub child_count: usize,
    pub name: String,
    pub children: Vec<ProcessInfo>,
}

/// `x`, or `u64::MAX` where it is larger.
pub open spec fn cap(x: int) -> int {
    if x > u64::MAX {
        u64::MAX as int
    } else {
        x
    }
}

/// The position of the first process of `t` with pid `pid`.
pub open spec fn pid_pos(t: Seq<ProcessInfo>, pid: u32) -> Option<int>
    decreases t.len(),
{
    if t.len() == 0 {
        None
    } else if t[0].pid == pid {
        Some(0)
    } else {
        match pid_pos(t.drop_first(), pid) {
            Some(i) => Some(i + 1),
            None => None,
        }
    }
}

/// The top-level ancestor of `p` within the table `t`: its parent's, where
/// the parent is in the table, else `p` itself; the walk takes at most
/// `fuel` steps, so a cycle of parents ends where the steps run out.
pub open spec fn root_from(t: Seq<ProcessInfo>, p: ProcessInfo, fuel: nat) -> u32
    decreases fuel,
{
    match p.parent {
        Some(q) => match pid_pos(t, q) {
            Some(i) => if fuel > 0 && 0 <= i < t.len() {
                root_from(t, t[i], (fuel - 1) as nat)
            } else {
                p.pid
            },
            None => p.pid,
        },
        None => p.pid,
    }
}

/// The group a process of the table `t` belongs to: its top-level ancestor
/// in the table (a process without a parent in the table leads its own).
pub open spec fn group_key(t: Seq<ProcessInfo>, p: ProcessInfo) -> u32 {
    root_from(t, p, t.len())
}

/// The processes of `s` in group `k` of the table `t`, in order.
pub open spec fn members(t: Seq<ProcessInfo>, s: Seq<ProcessInfo>, k: u32) -> Seq<ProcessInfo>
    decreases s.len(),
{
    if s.len() == 0 {
        Seq::empty()
    } else if group_key(t, s.last()) == k {
        members(t, s.drop_last(), k).push(s.last())
    } else {
        members(t, s.drop_last(), k)
    }
}

/// The group keys of `s`, each once, in order of first appearance.
pub open spec fn group_keys(t: Seq<ProcessInfo>, s: Seq<ProcessInfo>) -> Seq<u32>
    decreases s.len(),
{
    if s.len() == 0 {
        Seq::empty()
    } else if group_keys(t, s.drop_last()).contains(group_key(t, s.last())) {
        group_keys(t, s.drop_last())
    } else {
        group_keys(t, s.drop_last()).push(group_key(t, s.last()))
    }
}

pub open spec fn sum_cpu(s: Seq<ProcessInfo>) -> int
    decreases s.len(),
{
    if s.len() == 0 {
        0
    } else {
        sum_cpu(s.drop_last()) + s.last().cpu
    }
}

pub open spec fn sum_mem(s: Seq<ProcessInfo>) -> int
    decreases s.len(),
{
    if s.len() == 0 {
        0
    } else {
        sum_mem(s.drop_last()) + s.last().mem
    }
}

pub open spec fn sum_read(s: Seq<ProcessInfo>) -> int
    decreases s.len(),
{
    if s.len() == 0 {
        0
    } else {
        sum_read(s.drop_last()) + s.last().read_bytes
    }
}

pub open spec fn sum_written(s: Seq<ProcessInfo>) -> int
    decreases s.len(),
{
    if s.len() == 0 {
        0
    } else {
        sum_written(s.drop_last()) + s.last().written_bytes
    }
}

pub open spec fn sum_rx(s: Seq<ProcessInfo>) -> int
    decreases s.len(),
{
    if s.len() == 0 {
        0
    } else {
        sum_rx(s.drop_last()) + s.last().net_rx_bytes
    }
}

pub open spec fn sum_tx(s: Seq<ProcessInfo>) -> int
    decreases s.len(),
{
    if s.len() == 0 {
        0
    } else {
        sum_tx(s.drop_last()) + s.last().net_tx_bytes
    }
}

/// How many processes of `s` have a parent.
pub open spec fn with_parent(s: Seq<ProcessInfo>) -> int
    decreases s.len(),
{
    if s.len() == 0 {
        0
    } else {
        with_parent(s.drop_last()) + if s.last().parent is Some {
            1int
        } else {
            0int
        }
    }
}

/// A group's figures are those of its members: sums (held at `u64::MAX`),
/// the count of members with a parent, and the first member's name.
pub open spec fn group_matches(g: ProcessGroup, k: u32, m: Seq<ProcessInfo>) -> bool {
    &&& g.pid == k
    &&& g.children@ == m
    &&& m.len() > 0
    &&& g.cpu == cap(sum_cpu(m))
    &&& g.mem == cap(sum_mem(m))
    &&& g.read_bytes == cap(sum_read(m))
    &&& g.written_bytes == cap(sum_written(m))
    &&& g.net_rx_bytes == cap(sum_rx(m))
    &&& g.net_tx_bytes == cap(sum_tx(m))
    &&& g.child_count == with_parent(m)
    &&& g.name == m[0].name
}

/// The groups of the processes `s`, keyed by top-level ancestor in the
/// table `t`, one per key, in order of first appearance.
pub open spec fn groups_in(t: Seq<ProcessInfo>, s: Seq<ProcessInfo>, r: Seq<ProcessGroup>) -> bool {
    &&& r.len() == group_keys(t, s).len()
    &&& forall|j: int|
        0 <= j < r.len() ==> group_matches(
            #[trigger] r[j],
            group_keys(t, s)[j],
            members(t, s, group_keys(t, s)[j]),
        )
}

/// The groups of the process table `s`: one per top-level ancestor, in
/// order of first appearance, each holding exactly the processes that
/// descend from it within the table.
pub open spec fn groups_of(s: Seq<ProcessInfo>, r: Seq<ProcessGroup>) -> bool {
    groups_in(s, s, r)
}

/// The (rx, tx) byte counts recorded for `pid`: the first entry for it, else zeros.
pub open spec fn net_of(stats: Seq<(u32, u64, u64)>, pid: u32) -> (u64, u64)
    decreases stats.len(),
{
    if stats.len() == 0 {
        (0, 0)
    } else if stats[0].0 == pid {
        (stats[0].1, stats[0].2)
    } else {
        net_of(stats.drop_first(), pid)
    }
}

/// A copy of `p`.
pub fn copy_info(p: &ProcessInfo) -> (r: ProcessInfo)
    ensures
        r == *p,
{
    ProcessInfo {
        pid: p.pid,
        parent: p.parent,
        cpu: p.cpu,
        mem: p.mem,
        read_bytes: p.read_bytes,
        written_bytes: p.written_bytes,
        net_rx_bytes: p.net_rx_bytes,
        net_tx_bytes: p.net_tx_bytes,
        name: p.name.clone(),
    }
}

/// The network byte counts that `stats` holds for `pid`.
pub fn lookup_net(stats: &Vec<(u32, u64, u64)>, pid: u32) -> (r: (u64, u64))
    ensures
        r == net_of(stats@, pid),
{
    let mut i: usize = 0;
    assert(stats@.skip(0) =~= stats@);
    while i < stats.len()
        invariant
            i <= stats@.len(),
            net_of(stats@, pid) == net_of(stats@.skip(i as int), pid),
        decreases stats.len() - i,
    {
        assert(stats@.skip(i as int).drop_first() =~= stats@.skip(i + 1));
        if stats[i].0 == pid {
            return (stats[i].1, stats[i].2);
        }
        i = i + 1;
    }
    (0, 0)
}

fn find_pid(rows: &Vec<ProcessInfo>, pid: u32) -> (r: Option<usize>)
    ensures
        match r {
            Some(i) => pid_pos(rows@, pid) == Some(i as int) && i < rows@.len(),
            None => pid_pos(rows@, pid) is None,
        },
{
    let mut i: usize = 0;
    assert(rows@.skip(0) =~= rows@);
    while i < rows.len()
        invariant
            i <= rows@.len(),
            pid_pos(rows@, pid) == match pid_pos(rows@.skip(i as int), pid) {
                Some(j) => Some(j + i),
                None => None,
            },
        decreases rows.len() - i,
    {
        assert(rows@.skip(i as int).drop_first() =~= rows@.skip(i + 1));
        if rows[i].pid == pid {
            return Some(i);
        }
        i = i + 1;
    }
    None
}

/// The group key of `p`: its top-level ancestor in `rows`.
fn key_of(rows: &Vec<ProcessInfo>, p: &ProcessInfo) -> (k: u32)
    ensures
        k == group_key(rows@, *p),
{
    let mut cur = copy_info(p);
    let mut fuel: usize = rows.len();
    loop
        invariant
            group_key(rows@, *p) == root_from(rows@, cur, fuel as nat),
        decreases fuel,
    {
        match cur.parent {
            None => {
                return cur.pid;
            },
            Some(q) => match find_pid(rows, q) {
                None => {
                    return cur.pid;
                },
                Some(i) => {
                    if fuel == 0 {
                        return cur.pid;
                    }
                    cur = copy_info(&rows[i]);
                    fuel = fuel - 1;
                },
            },
        }
    }
}

fn find_group(groups: &Vec<ProcessGroup>, k: u32) -> (r: Option<usize>)
    ensures
        match r {
            Some(j) => j < groups@.len() && groups@[j as int].pid == k,
            None => forall|j: int| 0 <= j < groups@.len() ==> groups@[j].pid != k,
        },
{
    let mut j: usize = 0;
    while j < groups.len()
        invariant
            j <= groups@.len(),
            forall|q: int| 0 <= q < j ==> groups@[q].pid != k,
        decreases groups.len() - j,
    {
        if groups[j].pid == k {
            return Some(j);
        }
        j = j + 1;
    }
    None
}

fn absorb(g: &mut ProcessGroup, p: ProcessInfo)
    requires
        old(g).child_count < usize::MAX,
    ensures
        final(g).pid == old(g).pid,
        final(g).name == old(g).name,
        final(g).children@ == old(g).children@.push(p),
        final(g).cpu == cap(old(g).cpu + p.cpu),
        final(g).mem == cap(old(g).mem + p.mem),
        final(g).read_bytes == cap(old(g).read_bytes + p.read_bytes),
        final(g).written_bytes == cap(old(g).written_bytes + p.written_bytes),
        final(g).net_rx_bytes == cap(old(g).net_rx_bytes + p.net_rx_bytes),
        final(g).net_tx_bytes == cap(old(g).net_tx_bytes + p.net_tx_bytes),
        final(g).child_count == old(g).child_count + if p.parent is Some {
            1int
        } else {
            0int
        },
{
    g.cpu = g.cpu.saturating_add(p.cpu);
    g.mem = g.mem.saturating_add(p.mem);
    g.read_bytes = g.read_bytes.saturating_add(p.read_bytes);
    g.written_bytes = g.written_bytes.saturating_add(p.written_bytes);
    g.net_rx_bytes = g.net_rx_bytes.saturating_add(p.net_rx_bytes);
    g.net_tx_bytes = g.net_tx_bytes.saturating_add(p.net_tx_bytes);
    if p.parent.is_some() {
        g.child_count = g.child_count + 1;
    }
    g.children.push(p);
}

proof fn lemma_members_step(t: Seq<ProcessInfo>, s: Seq<ProcessInfo>, i: int, k: u32)
    requires
        0 <= i < s.len(),
    ensures
        members(t, s.take(i + 1), k) == if group_key(t, s[i]) == k {
            members(t, s.take(i), k).push(s[i])
        } else {
            members(t, s.take(i), k)
        },
        group_keys(t, s.take(i + 1)) == if group_keys(t, s.take(i)).contains(group_key(t, s[i])) {
            group_keys(t, s.take(i))
        } else {
            group_keys(t, s.take(i)).push(group_key(t, s[i]))
        },
{
    assert(s.take(i + 1).drop_last() =~= s.take(i));
}

proof fn lemma_member_counts_fit(t: Seq<ProcessInfo>, s: Seq<ProcessInfo>, k: u32)
    ensures
        with_parent(members(t, s, k)) <= members(t, s, k).len() <= s.len(),
    decreases s.len(),
{
    if s.len() > 0 {
        lemma_member_counts_fit(t, s.drop_last(), k);
        let m = members(t, s.drop_last(), k);
        assert(m.push(s.last()).drop_last() =~= m);
    }
}

proof fn lemma_keys_have_members(t: Seq<ProcessInfo>, s: Seq<ProcessInfo>)
    ensures
        forall|j: int| 0 <= j < group_keys(t, s).len() ==> #[trigger] members(t, s, group_keys(t, s)[j]).len() > 0,
        forall|k: u32| #[trigger] members(t, s, k).len() > 0 <==> group_keys(t, s).contains(k),
    decreases s.len(),
{
    if s.len() > 0 {
        lemma_keys_have_members(t, s.drop_last());
        let d = group_keys(t, s.drop_last());
        assert forall|k: u32| #[trigger] members(t, s, k).len() > 0 <==> group_keys(t, s).contains(k) by {
            if group_key(t, s.last()) == k {
                assert(group_keys(t, s).contains(k)) by {
                    if !d.contains(k) {
                        assert(group_keys(t, s)[d.len() as int] == k);
                    }
                }
            } else {
                assert(members(t, s, k) == members(t, s.drop_last(), k));
                if !d.contains(group_key(t, s.last())) {
                    assert(group_keys(t, s) == d.push(group_key(t, s.last())));
                    if d.contains(k) {
                        let j = choose|j: int| 0 <= j < d.len() && d[j] == k;
                        assert(group_keys(t, s)[j] == k);
                    }
                }
            }
        }
        assert forall|j: int| 0 <= j < group_keys(t, s).len() implies #[trigger] members(t, 
            s,
            group_keys(t, s)[j],
        ).len() > 0 by {
            assert(group_keys(t, s).contains(group_keys(t, s)[j]));
        }
    }
}

proof fn lemma_keys_distinct(t: Seq<ProcessInfo>, s: Seq<ProcessInfo>)
    ensures
        forall|a: int, b: int|
            0 <= a < b < group_keys(t, s).len() ==> group_keys(t, s)[a] != group_keys(t, s)[b],
    decreases s.len(),
{
    if s.len() > 0 {
        lemma_keys_distinct(t, s.drop_last());
        let d = group_keys(t, s.drop_last());
        let x = group_key(t, s.last());
        if !d.contains(x) {
            assert forall|a: int, b: int| 0 <= a < b < d.len() + 1 implies #[trigger] d.push(x)[a]
                != #[trigger] d.push(x)[b] by {
                if b == d.len() {
                    assert(d.push(x)[a] == d[a]);
                }
            }
        }
    }
}

/// `p` with the network byte counts that `stats` records for it.
pub open spec fn with_net(p: ProcessInfo, stats: Seq<(u32, u64, u64)>) -> ProcessInfo {
    ProcessInfo { net_rx_bytes: net_of(stats, p.pid).0, net_tx_bytes: net_of(stats, p.pid).1, ..p }
}

/// The process table with each process's network byte counts filled in.
pub open spec fn table_with_net(ps: Seq<ProcessInfo>, stats: Seq<(u32, u64, u64)>) -> Seq<ProcessInfo> {
    ps.map_values(|p: ProcessInfo| with_net(p, stats))
}

/// Groups the process table by top-level ancestor, filling each process's network byte
/// counts from `net_stats` first.
pub fn build_live_groups(processes: &Vec<ProcessInfo>, net_stats: &Vec<(u32, u64, u64)>) -> (r: Vec<
    ProcessGroup,
>)
    ensures
        groups_of(table_with_net(processes@, net_stats@), r@),
{
    let mut rows: Vec<ProcessInfo> = Vec::new();
    let mut i: usize = 0;
    while i < processes.len()
        invariant
            i <= processes@.len(),
            rows@ == table_with_net(processes@.take(i as int), net_stats@),
        decreases processes.len() - i,
    {
        let mut p = copy_info(&processes[i]);
        let (rx, tx) = lookup_net(net_stats, p.pid);
        p.net_rx_bytes = rx;
        p.net_tx_bytes = tx;
        rows.push(p);
        assert(rows@ =~= table_with_net(processes@.take(i + 1), net_stats@));
        i = i + 1;
    }
    assert(processes@.take(processes@.len() as int) =~= processes@);
    let groups = group_processes(&rows);
    groups
}

/// Groups processes by top-level ancestor within the table (a process
/// whose parent is not in the table leads its own group),
/// summing each group's figures.
pub fn group_processes(rows: &Vec<ProcessInfo>) -> (r: Vec<ProcessGroup>)
    ensures
        groups_of(rows@, r@),
{
    let ghost s = rows@;
    let mut groups: Vec<ProcessGroup> = Vec::new();
    let mut i: usize = 0;
    while i < rows.len()
        invariant
            s == rows@,
            i <= s.len(),
            groups_in(s, s.take(i as int), groups@),
        decreases rows.len() - i,
    {
        let p = copy_info(&rows[i]);
        let k = key_of(rows, &p);
        proof {
            lemma_members_step(s, s, i as int, k);
            lemma_keys_have_members(s, s.take(i as int));
            lemma_keys_have_members(s, s.take(i + 1));
            lemma_keys_distinct(s, s.take(i as int));
        }
        let ghost before = groups@;
        let ghost prev = s.take(i as int);
        let ghost next = s.take(i + 1);
        match find_group(&groups, k) {
            Some(j) => {
                proof {
                    lemma_member_counts_fit(s, prev, k);
                    assert(group_keys(s, prev)[j as int] == k);
                    assert(group_keys(s, prev).contains(k));
                }
                absorb(&mut groups[j], p);
                proof {
                    assert forall|q: int| 0 <= q < groups@.len() implies group_matches(
                        #[trigger] groups@[q],
                        group_keys(s, next)[q],
                        members(s, next, group_keys(s, next)[q]),
                    ) by {
                        if q != j {
                            assert(group_keys(s, prev)[q] != k);
                            lemma_members_step(s, s, i as int, group_keys(s, prev)[q]);
                        } else {
                            let m = members(s, prev, k);
                            assert(members(s, next, k) == m.push(s[i as int]));
                            assert(m.push(s[i as int]).drop_last() =~= m);
                            assert(m.push(s[i as int])[0] == m[0]);
                        }
                    }
                }
            },
            None => {
                let name = p.name.clone();
                let has_parent = p.parent.is_some();
                let mut children: Vec<ProcessInfo> = Vec::new();
                let g = ProcessGroup {
                    pid: k,
                    cpu: p.cpu,
                    mem: p.mem,
                    read_bytes: p.read_bytes,
                    written_bytes: p.written_bytes,
                    net_rx_bytes: p.net_rx_bytes,
                    net_tx_bytes: p.net_tx_bytes,
                    child_count: if has_parent {
                        1
                    } else {
                        0
                    },
                    name,
                    children: {
                        children.push(p);
                        children
                    },
                };
                proof {
                    assert(!group_keys(s, prev).contains(k)) by {
                        if group_keys(s, prev).contains(k) {
                            let q = choose|q: int|
                                0 <= q < group_keys(s, prev).len() && group_keys(s, prev)[q] == k;
                            assert(groups@[q].pid == k);
                        }
                    }
                    assert(members(s, prev, k).len() == 0);
                    assert(members(s, prev, k) =~= Seq::<ProcessInfo>::empty());
                    let m = members(s, next, k);
                    assert(m =~= seq![s[i as int]]);
                    assert(m.drop_last() =~= Seq::<ProcessInfo>::empty());
                }
                groups.push(g);
                proof {
                    assert forall|q: int| 0 <= q < groups@.len() implies group_matches(
                        #[trigger] groups@[q],
                        group_keys(s, next)[q],
                        members(s, next, group_keys(s, next)[q]),
                    ) by {
                        assert(group_keys(s, next) == group_keys(s, prev).push(k));
                        if q < before.len() {
                            assert(group_keys(s, next)[q] == group_keys(s, prev)[q]);
                            assert(group_keys(s, prev)[q] != k);
                            lemma_members_step(s, s, i as int, group_keys(s, prev)[q]);
                        } else {
                            assert(group_keys(s, next)[q] == k);
                            let m = members(s, next, k);
                            assert(m =~= seq![s[i as int]]);
                            lemma_single_sums(s[i as int]);
                        }
                    }
                }
            },
        }
        i = i + 1;
    }
    assert(s.take(s.len() as int) =~= s);
    groups
}

proof fn lemma_single_sums(x: ProcessInfo)
    ensures
        sum_cpu(seq![x]) == x.cpu,
        sum_mem(seq![x]) == x.mem,
        sum_read(seq![x]) == x.read_bytes,
        sum_written(seq![x]) == x.written_bytes,
        sum_rx(seq![x]) == x.net_rx_bytes,
        sum_tx(seq![x]) == x.net_tx_bytes,
        with_parent(seq![x]) == if x.parent is Some {
            1int
        } else {
            0int
        },
{
    let e = Seq::<ProcessInfo>::empty();
    assert(seq![x].drop_last() =~= e);
    assert(sum_cpu(e) == 0);
    assert(sum_mem(e) == 0);
    assert(sum_read(e) == 0);
    assert(sum_written(e) == 0);
    assert(sum_rx(e) == 0);
    assert(sum_tx(e) == 0);
    assert(with_parent(e) == 0);
}

/// A group's CPU and memory are exactly the sums over its members, for
/// groups whose sums fit in a `u64`.
pub proof fn lemma_group_sums_exact(s: Seq<ProcessInfo>, r: Seq<ProcessGroup>, j: int)
    requires
        groups_of(s, r),
        0 <= j < r.len(),
        sum_cpu(r[j].children@) <= u64::MAX,
        sum_mem(r[j].children@) <= u64::MAX,
    ensures
        r[j].cpu == sum_cpu(r[j].children@),
        r[j].mem == sum_mem(r[j].children@),
{
    lemma_group_sums(s, r, j);
}

/// Each group's figures are the sums of those of its members (held at
/// `u64::MAX`), and every process of the table is a member of exactly the
/// group of its key.
pub proof fn lemma_group_sums(s: Seq<ProcessInfo>, r: Seq<ProcessGroup>, j: int)
    requires
        groups_of(s, r),
        0 <= j < r.len(),
    ensures
        r[j].cpu == cap(sum_cpu(r[j].children@)),
        r[j].mem == cap(sum_mem(r[j].children@)),
        r[j].children@ == members(s, s, r[j].pid),
        forall|i: int|
            0 <= i < r[j].children@.len() ==> group_key(s, #[trigger] r[j].children@[i]) == r[j].pid,
{
    lemma_members_have_key(s, s, r[j].pid);
}

proof fn lemma_members_have_key(t: Seq<ProcessInfo>, s: Seq<ProcessInfo>, k: u32)
    ensures
        forall|i: int| 0 <= i < members(t, s, k).len() ==> group_key(t, #[trigger] members(t, s, k)[i]) == k,
    decreases s.len(),
{
    if s.len() > 0 {
        lemma_members_have_key(t, s.drop_last(), k);
        let m = members(t, s.drop_last(), k);
        if group_key(t, s.last()) == k {
            assert forall|i: int| 0 <= i < m.len() + 1 implies group_key(
            t,
                #[trigger] m.push(s.last())[i],
            ) == k by {
                if i < m.len() {
                    assert(m.push(s.last())[i] == m[i]);
                }
            }
        }
    }
}

/// Every process of the table lies in exactly one group: the one whose
/// pid is its key.
pub proof fn lemma_every_process_grouped(s: Seq<ProcessInfo>, r: Seq<ProcessGroup>, i: int)
    requires
        groups_of(s, r),
        0 <= i < s.len(),
    ensures
        exists|j: int| 0 <= j < r.len() && #[trigger] r[j].pid == group_key(s, s[i]),
        forall|a: int, b: int| 0 <= a < b < r.len() ==> r[a].pid != r[b].pid,
{
    lemma_keys_distinct(s, s);
    lemma_keys_have_members(s, s);
    lemma_member_of_key(s, s, i);
    let k = group_key(s, s[i]);
    assert(group_keys(s, s).contains(k));
    let j = choose|j: int| 0 <= j < group_keys(s, s).len() && group_keys(s, s)[j] == k;
    assert(r[j].pid == k);
}

proof fn lemma_member_of_key(t: Seq<ProcessInfo>, s: Seq<ProcessInfo>, i: int)
    requires
        0 <= i < s.len(),
    ensures
        members(t, s, group_key(t, s[i])).len() > 0,
    decreases s.len(),
{
    if i < s.len() - 1 {
        lemma_member_of_key(t, s.drop_last(), i);
        assert(s.drop_last()[i] == s[i]);
    }
}

} // verus!
