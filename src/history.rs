//! The bounded window of recent process snapshots and the ranking derived
//! from it.
use vstd::prelude::*;
use crate::process::{ProcessGroup, cap};

verus! {

/// The metric that orders the ranking.
#[derive(Clone, Copy, PartialEq, Eq, Debug, Structural)]
pub enum SortColumn {
    Cpu,
    Memory,
    Read,
    Write,
    NetDown,
    NetUp,
}

/// Snapshots the window keeps.
pub const HISTORY_BOUND: usize = 20;

/// Rows the ranking keeps.
pub const TOP_N: usize = 10;

/// The groups of one sampling tick, stamped in milliseconds.
pub struct HistoryEntry {
    pub timestamp_ms: u64,
    pub groups: Vec<ProcessGroup>,
}

/// Strictly increasing timestamps.
pub open spec fn time_ordered(h: Seq<HistoryEntry>) -> bool {
    forall|a: int, b: int| 0 <= a < b < h.len() ==> h[a].timestamp_ms < h[b].timestamp_ms
}

/// `h` with its oldest entry dropped where it holds more than `bound`.
pub open spec fn window(h: Seq<HistoryEntry>, bound: nat) -> Seq<HistoryEntry> {
    if h.len() > bound {
        h.drop_first()
    } else {
        h
    }
}

/// The most recent snapshots, oldest first.
pub struct ProcessHistory {
    pub entries: Vec<HistoryEntry>,
    pub bound: usize,
}

impl ProcessHistory {
    pub open spec fn wf(&self) -> bool {
        &&& 0 < self.bound
        &&& self.entries@.len() <= self.bound
        &&& time_ordered(self.entries@)
    }

    /// An empty window that keeps up to `bound` snapshots.
    pub fn new(bound: usize) -> (r: Self)
        requires
            bound > 0,
        ensures
            r.wf(),
            r.bound == bound,
            r.entries@.len() == 0,
    {
        ProcessHistory { entries: Vec::new(), bound }
    }

    /// Appends a snapshot newer than all held ones, evicting the oldest once
    /// the window is over its bound. A snapshot that is not newer is refused
    /// and changes nothing.
    pub fn push_snapshot(&mut self, timestamp_ms: u64, groups: Vec<ProcessGroup>) -> (accepted:
        bool)
        requires
            old(self).wf(),
        ensures
            final(self).wf(),
            final(self).bound == old(self).bound,
            accepted == (old(self).entries@.len() == 0 || old(self).entries@.last().timestamp_ms
                < timestamp_ms),
            accepted ==> final(self).entries@ == window(
                old(self).entries@.push(HistoryEntry { timestamp_ms, groups }),
                old(self).bound as nat,
            ),
            !accepted ==> final(self).entries@ == old(self).entries@,
    {
        let n = self.entries.len();
        if n > 0 && self.entries[n - 1].timestamp_ms >= timestamp_ms {
            return false;
        }
        let ghost before = self.entries@;
        self.entries.push(HistoryEntry { timestamp_ms, groups });
        if self.entries.len() > self.bound {
            self.entries.remove(0);
            assert(self.entries@ =~= before.push(HistoryEntry { timestamp_ms, groups }).drop_first());
        }
        true
    }
}

/// Once full, pushing a newer snapshot evicts exactly the oldest one: the
/// window stays within its bound, stays time-ordered, and its head
/// timestamp moves forward.
pub proof fn lemma_window_slides(h: Seq<HistoryEntry>, e: HistoryEntry, bound: nat)
    requires
        0 < bound,
        h.len() <= bound,
        time_ordered(h),
        h.len() == 0 || h.last().timestamp_ms < e.timestamp_ms,
    ensures
        window(h.push(e), bound).len() <= bound,
        time_ordered(window(h.push(e), bound)),
        window(h.push(e), bound).last() == e,
        h.len() == bound ==> window(h.push(e), bound) == h.drop_first().push(e),
        h.len() > 0 ==> window(h.push(e), bound)[0].timestamp_ms >= h[0].timestamp_ms,
        h.len() == bound && bound > 1 ==> window(h.push(e), bound)[0].timestamp_ms
            > h[0].timestamp_ms,
{
    let w = window(h.push(e), bound);
    assert forall|a: int, b: int| 0 <= a < b < h.push(e).len() implies h.push(e)[a].timestamp_ms
        < h.push(e)[b].timestamp_ms by {
        if b == h.len() {
            assert(h[a].timestamp_ms <= h.last().timestamp_ms);
        }
    }
    if h.len() == bound {
        assert(h.push(e).drop_first() =~= h.drop_first().push(e));
    }
    if h.len() > 0 {
        if h.push(e).len() > bound && h.len() > 1 {
            assert(w[0] == h[1]);
        }
    }
}

/// The samples of one snapshot, each with the snapshot's timestamp.
pub open spec fn stamped(e: HistoryEntry) -> Seq<(u64, ProcessGroup)> {
    e.groups@.map_values(|g: ProcessGroup| (e.timestamp_ms, g))
}

/// All samples of the window, oldest snapshot first.
pub open spec fn flat(h: Seq<HistoryEntry>) -> Seq<(u64, ProcessGroup)>
    decreases h.len(),
{
    if h.len() == 0 {
        Seq::empty()
    } else {
        flat(h.drop_last()) + stamped(h.last())
    }
}

/// The samples of `f` for process `k`, in order.
pub open spec fn occ(f: Seq<(u64, ProcessGroup)>, k: u32) -> Seq<(u64, ProcessGroup)>
    decreases f.len(),
{
    if f.len() == 0 {
        Seq::empty()
    } else if f.last().1.pid == k {
        occ(f.drop_last(), k).push(f.last())
    } else {
        occ(f.drop_last(), k)
    }
}

/// The pids of `f`, each once, in order of first appearance.
pub open spec fn pids(f: Seq<(u64, ProcessGroup)>) -> Seq<u32>
    decreases f.len(),
{
    if f.len() == 0 {
        Seq::empty()
    } else if pids(f.drop_last()).contains(f.last().1.pid) {
        pids(f.drop_last())
    } else {
        pids(f.drop_last()).push(f.last().1.pid)
    }
}

pub open spec fn occ_cpu(o: Seq<(u64, ProcessGroup)>) -> int
    decreases o.len(),
{
    if o.len() == 0 {
        0
    } else {
        occ_cpu(o.drop_last()) + o.last().1.cpu
    }
}

pub open spec fn occ_mem(o: Seq<(u64, ProcessGroup)>) -> int
    decreases o.len(),
{
    if o.len() == 0 {
        0
    } else {
        occ_mem(o.drop_last()) + o.last().1.mem
    }
}

/// Timestamp and cumulative counters of one sample.
pub open spec fn counters(s: (u64, ProcessGroup)) -> (u64, u64, u64, u64, u64) {
    (s.0, s.1.read_bytes, s.1.written_bytes, s.1.net_rx_bytes, s.1.net_tx_bytes)
}

/// Running figures of one process over the window: the name of its first
/// sample, the child count of its latest one.
pub struct Tally {
    pub pid: u32,
    pub name: String,
    pub child_count: usize,
    pub count: u64,
    pub cpu: u64,
    pub mem: u64,
    pub first: (u64, u64, u64, u64, u64),
    pub last: (u64, u64, u64, u64, u64),
}

/// The tally of process `k` over `f`, where `f` holds samples of it.
pub open spec fn tally_of(f: Seq<(u64, ProcessGroup)>, k: u32) -> Tally {
    let o = occ(f, k);
    Tally {
        pid: k,
        name: o[0].1.name,
        child_count: o.last().1.child_count,
        count: cap(o.len() as int) as u64,
        cpu: cap(occ_cpu(o)) as u64,
        mem: cap(occ_mem(o)) as u64,
        first: counters(o[0]),
        last: counters(o.last()),
    }
}

/// One tally per process of `f`, in order of first appearance.
pub open spec fn tallies(f: Seq<(u64, ProcessGroup)>) -> Seq<Tally> {
    pids(f).map_values(|k: u32| tally_of(f, k))
}

/// A process's row of the ranking. CPU is in hundredths of a percent; the
/// rates are bytes per second.
pub struct RankedProcess {
    pub pid: u32,
    pub name: String,
    pub child_count: usize,
    /// Samples of the window that hold the process.
    pub samples: u64,
    pub cpu: u64,
    pub mem: u64,
    pub read_rate: u64,
    pub write_rate: u64,
    pub rx_rate: u64,
    pub tx_rate: u64,
}

/// Growth from `a` to `b` per second over `ms` milliseconds; 0 where no
/// time passed or the counter went back.
pub open spec fn rate(a: u64, b: u64, ms: int) -> int {
    if ms <= 0 || b < a {
        0
    } else {
        cap((b - a) * 1000 / ms)
    }
}

/// The ranking row of a tally: CPU and memory averaged over the samples
/// that hold the process, counters as rates between its first and last one.
pub open spec fn ranked_of(t: Tally) -> RankedProcess {
    let ms = t.last.0 - t.first.0;
    RankedProcess {
        pid: t.pid,
        name: t.name,
        child_count: t.child_count,
        samples: t.count,
        cpu: (if t.count == 0 {
            0
        } else {
            t.cpu / t.count
        }) as u64,
        mem: (if t.count == 0 {
            0
        } else {
            t.mem / t.count
        }) as u64,
        read_rate: rate(t.first.1, t.last.1, ms) as u64,
        write_rate: rate(t.first.2, t.last.2, ms) as u64,
        rx_rate: rate(t.first.3, t.last.3, ms) as u64,
        tx_rate: rate(t.first.4, t.last.4, ms) as u64,
    }
}

pub open spec fn sort_key(r: RankedProcess, col: SortColumn) -> u64 {
    match col {
        SortColumn::Cpu => r.cpu,
        SortColumn::Memory => r.mem,
        SortColumn::Read => r.read_rate,
        SortColumn::Write => r.write_rate,
        SortColumn::NetDown => r.rx_rate,
        SortColumn::NetUp => r.tx_rate,
    }
}

/// `s` with `x` placed after every row whose key is at least its own.
pub open spec fn insert_desc(s: Seq<RankedProcess>, x: RankedProcess, col: SortColumn) -> Seq<
    RankedProcess,
>
    decreases s.len(),
{
    if s.len() == 0 {
        seq![x]
    } else if sort_key(s[0], col) < sort_key(x, col) {
        seq![x] + s
    } else {
        seq![s[0]] + insert_desc(s.drop_first(), x, col)
    }
}

/// `s` in non-increasing order of the key; rows with equal keys keep their
/// order.
pub open spec fn sort_desc(s: Seq<RankedProcess>, col: SortColumn) -> Seq<RankedProcess>
    decreases s.len(),
{
    if s.len() == 0 {
        Seq::empty()
    } else {
        insert_desc(sort_desc(s.drop_last(), col), s.last(), col)
    }
}

/// The first `TOP_N` rows of `s`.
pub open spec fn top_rows(s: Seq<RankedProcess>) -> Seq<RankedProcess> {
    if s.len() > TOP_N {
        s.take(TOP_N as int)
    } else {
        s
    }
}

/// The ranking of the window `h` by `col`.
pub open spec fn ranking(h: Seq<HistoryEntry>, col: SortColumn) -> Seq<RankedProcess> {
    top_rows(sort_desc(tallies(flat(h)).map_values(|t: Tally| ranked_of(t)), col))
}

pub open spec fn sorted_desc(s: Seq<RankedProcess>, col: SortColumn) -> bool {
    forall|a: int, b: int| 0 <= a < b < s.len() ==> sort_key(s[a], col) >= sort_key(s[b], col)
}

/// The tally of a process after one more sample of it.
pub open spec fn tally_step(t: Tally, s: (u64, ProcessGroup)) -> Tally {
    Tally {
        pid: t.pid,
        name: t.name,
        child_count: s.1.child_count,
        count: cap(t.count + 1) as u64,
        cpu: cap(t.cpu + s.1.cpu) as u64,
        mem: cap(t.mem + s.1.mem) as u64,
        first: t.first,
        last: counters(s),
    }
}

/// The tally of a process seen once.
pub open spec fn tally_new(s: (u64, ProcessGroup)) -> Tally {
    Tally {
        pid: s.1.pid,
        name: s.1.name,
        child_count: s.1.child_count,
        count: 1,
        cpu: s.1.cpu,
        mem: s.1.mem,
        first: counters(s),
        last: counters(s),
    }
}

proof fn lemma_push_unfold(f: Seq<(u64, ProcessGroup)>, e: (u64, ProcessGroup), k: u32)
    ensures
        occ(f.push(e), k) == if e.1.pid == k {
            occ(f, k).push(e)
        } else {
            occ(f, k)
        },
        pids(f.push(e)) == if pids(f).contains(e.1.pid) {
            pids(f)
        } else {
            pids(f).push(e.1.pid)
        },
{
    assert(f.push(e).drop_last() =~= f);
}

proof fn lemma_pids_occur(f: Seq<(u64, ProcessGroup)>)
    ensures
        forall|k: u32| #[trigger] occ(f, k).len() > 0 <==> pids(f).contains(k),
        forall|a: int, b: int| 0 <= a < b < pids(f).len() ==> pids(f)[a] != pids(f)[b],
    decreases f.len(),
{
    if f.len() > 0 {
        let g = f.drop_last();
        let e = f.last();
        assert(g.push(e) =~= f);
        lemma_pids_occur(g);
        lemma_push_unfold(g, e, e.1.pid);
        let d = pids(g);
        assert forall|k: u32| #[trigger] occ(f, k).len() > 0 <==> pids(f).contains(k) by {
            lemma_push_unfold(g, e, k);
            if e.1.pid == k {
                if !d.contains(k) {
                    assert(pids(f)[d.len() as int] == k);
                }
            } else if d.contains(k) && !d.contains(e.1.pid) {
                let j = choose|j: int| 0 <= j < d.len() && d[j] == k;
                assert(pids(f)[j] == k);
            }
        }
        if !d.contains(e.1.pid) {
            assert forall|a: int, b: int| 0 <= a < b < d.len() + 1 implies #[trigger] d.push(
                e.1.pid,
            )[a] != #[trigger] d.push(e.1.pid)[b] by {
                if b == d.len() {
                    assert(d.push(e.1.pid)[a] == d[a]);
                }
            }
        }
    }
}

proof fn lemma_occ_sums(o: Seq<(u64, ProcessGroup)>, e: (u64, ProcessGroup))
    ensures
        occ_cpu(o.push(e)) == occ_cpu(o) + e.1.cpu,
        occ_mem(o.push(e)) == occ_mem(o) + e.1.mem,
        o.len() > 0 ==> o.push(e)[0] == o[0],
{
    assert(o.push(e).drop_last() =~= o);
}

proof fn lemma_occ_nonneg(o: Seq<(u64, ProcessGroup)>)
    ensures
        occ_cpu(o) >= 0,
        occ_mem(o) >= 0,
    decreases o.len(),
{
    if o.len() > 0 {
        lemma_occ_nonneg(o.drop_last());
    }
}

proof fn lemma_tallies_step(f: Seq<(u64, ProcessGroup)>, e: (u64, ProcessGroup), x: int)
    requires
        0 <= x < pids(f).len(),
        pids(f)[x] == e.1.pid,
    ensures
        tallies(f.push(e)) == tallies(f).update(x, tally_step(tallies(f)[x], e)),
{
    lemma_pids_occur(f);
    lemma_push_unfold(f, e, e.1.pid);
    assert(pids(f).contains(e.1.pid));
    let o = occ(f, e.1.pid);
    lemma_occ_sums(o, e);
    assert forall|q: int| 0 <= q < pids(f).len() implies #[trigger] tallies(f.push(e))[q]
        == tallies(f).update(x, tally_step(tallies(f)[x], e))[q] by {
        lemma_push_unfold(f, e, pids(f)[q]);
        if q == x {
            assert(o.len() > 0);
            let o2 = occ(f.push(e), e.1.pid);
            assert(o2 == o.push(e));
            assert(o2[0] == o[0]);
            assert(o2.last() == e);
            lemma_occ_nonneg(o);
            let t1 = tally_of(f.push(e), e.1.pid);
            let t0 = tally_of(f, e.1.pid);
            assert(t1 == tally_step(t0, e));
        } else {
            assert(pids(f)[q] != e.1.pid);
        }
    }
    assert(tallies(f.push(e)) =~= tallies(f).update(x, tally_step(tallies(f)[x], e)));
}

proof fn lemma_tallies_new(f: Seq<(u64, ProcessGroup)>, e: (u64, ProcessGroup))
    requires
        !pids(f).contains(e.1.pid),
    ensures
        tallies(f.push(e)) == tallies(f).push(tally_new(e)),
{
    lemma_pids_occur(f);
    lemma_push_unfold(f, e, e.1.pid);
    let o = occ(f, e.1.pid);
    assert(o.len() == 0);
    assert(o =~= Seq::<(u64, ProcessGroup)>::empty());
    lemma_occ_sums(o, e);
    assert(o.push(e) =~= seq![e]);
    assert(occ_cpu(o) == 0);
    assert(occ_mem(o) == 0);
    assert forall|q: int| 0 <= q < pids(f).len() implies #[trigger] tallies(f.push(e))[q]
        == tallies(f).push(tally_new(e))[q] by {
        lemma_push_unfold(f, e, pids(f)[q]);
        assert(pids(f)[q] != e.1.pid);
    }
    assert(tallies(f.push(e)) =~= tallies(f).push(tally_new(e)));
}

fn find_tally(ts: &Vec<Tally>, pid: u32) -> (r: Option<usize>)
    ensures
        match r {
            Some(x) => x < ts@.len() && ts@[x as int].pid == pid,
            None => forall|q: int| 0 <= q < ts@.len() ==> ts@[q].pid != pid,
        },
{
    let mut x: usize = 0;
    while x < ts.len()
        invariant
            x <= ts@.len(),
            forall|q: int| 0 <= q < x ==> ts@[q].pid != pid,
        decreases ts.len() - x,
    {
        if ts[x].pid == pid {
            return Some(x);
        }
        x = x + 1;
    }
    None
}

fn step_tally(t: &mut Tally, ts: u64, g: &ProcessGroup)
    ensures
        *final(t) == tally_step(*old(t), (ts, *g)),
{
    t.count = t.count.saturating_add(1);
    t.child_count = g.child_count;
    t.cpu = t.cpu.saturating_add(g.cpu);
    t.mem = t.mem.saturating_add(g.mem);
    t.last = (ts, g.read_bytes, g.written_bytes, g.net_rx_bytes, g.net_tx_bytes);
}

fn new_tally(ts: u64, g: &ProcessGroup) -> (t: Tally)
    ensures
        t == tally_new((ts, *g)),
{
    Tally {
        pid: g.pid,
        name: g.name.clone(),
        child_count: g.child_count,
        count: 1,
        cpu: g.cpu,
        mem: g.mem,
        first: (ts, g.read_bytes, g.written_bytes, g.net_rx_bytes, g.net_tx_bytes),
        last: (ts, g.read_bytes, g.written_bytes, g.net_rx_bytes, g.net_tx_bytes),
    }
}

proof fn lemma_flat_step(h: Seq<HistoryEntry>, i: int)
    requires
        0 <= i < h.len(),
    ensures
        flat(h.take(i + 1)) == flat(h.take(i)) + stamped(h[i]),
{
    assert(h.take(i + 1).drop_last() =~= h.take(i));
}

/// The tallies of every process over the window, in order of first appearance.
pub fn tally_history(h: &Vec<HistoryEntry>) -> (r: Vec<Tally>)
    ensures
        r@ == tallies(flat(h@)),
{
    let mut ts: Vec<Tally> = Vec::new();
    let mut i: usize = 0;
    assert(flat(h@.take(0)) =~= Seq::<(u64, ProcessGroup)>::empty());
    assert(tallies(Seq::<(u64, ProcessGroup)>::empty()) =~= Seq::<Tally>::empty());
    while i < h.len()
        invariant
            i <= h@.len(),
            ts@ == tallies(flat(h@.take(i as int))),
        decreases h.len() - i,
    {
        let e = &h[i];
        let ghost base = flat(h@.take(i as int));
        let ghost row = stamped(h@[i as int]);
        let mut j: usize = 0;
        assert(base + row.take(0) =~= base);
        while j < e.groups.len()
            invariant
                e == h@[i as int],
                row == stamped(*e),
                j <= e.groups@.len(),
                row.len() == e.groups@.len(),
                ts@ == tallies(base + row.take(j as int)),
            decreases e.groups.len() - j,
        {
            let g = &e.groups[j];
            let ghost smp = (e.timestamp_ms, *g);
            assert(row[j as int] == smp);
            assert(base + row.take(j + 1) =~= (base + row.take(j as int)).push(smp));
            let ghost f = base + row.take(j as int);
            proof {
                lemma_pids_occur(f);
            }
            match find_tally(&ts, g.pid) {
                Some(x) => {
                    proof {
                        lemma_tallies_step(f, smp, x as int);
                    }
                    step_tally(&mut ts[x], e.timestamp_ms, g);
                },
                None => {
                    proof {
                        if pids(f).contains(g.pid) {
                            let q = choose|q: int| 0 <= q < pids(f).len() && pids(f)[q] == g.pid;
                            assert(ts@[q].pid == g.pid);
                        }
                        lemma_tallies_new(f, smp);
                    }
                    ts.push(new_tally(e.timestamp_ms, g));
                },
            }
            j = j + 1;
        }
        proof {
            lemma_flat_step(h@, i as int);
            assert(row.take(row.len() as int) =~= row);
        }
        i = i + 1;
    }
    assert(h@.take(h@.len() as int) =~= h@);
    ts
}

fn rate_exec(a: u64, b: u64, ms: u64) -> (r: u64)
    ensures
        r == rate(a, b, ms as int),
{
    if ms == 0 || b < a {
        0
    } else {
        let q: u128 = ((b - a) as u128 * 1000) / (ms as u128);
        if q > u64::MAX as u128 {
            u64::MAX
        } else {
            q as u64
        }
    }
}

/// The ranking row of one tally.
pub fn finish_tally(t: &Tally) -> (r: RankedProcess)
    ensures
        r == ranked_of(*t),
{
    let ms: u64 = if t.last.0 > t.first.0 {
        t.last.0 - t.first.0
    } else {
        0
    };
    RankedProcess {
        pid: t.pid,
        name: t.name.clone(),
        child_count: t.child_count,
        samples: t.count,
        cpu: if t.count == 0 {
            0
        } else {
            t.cpu / t.count
        },
        mem: if t.count == 0 {
            0
        } else {
            t.mem / t.count
        },
        read_rate: rate_exec(t.first.1, t.last.1, ms),
        write_rate: rate_exec(t.first.2, t.last.2, ms),
        rx_rate: rate_exec(t.first.3, t.last.3, ms),
        tx_rate: rate_exec(t.first.4, t.last.4, ms),
    }
}

fn key_exec(r: &RankedProcess, col: SortColumn) -> (k: u64)
    ensures
        k == sort_key(*r, col),
{
    match col {
        SortColumn::Cpu => r.cpu,
        SortColumn::Memory => r.mem,
        SortColumn::Read => r.read_rate,
        SortColumn::Write => r.write_rate,
        SortColumn::NetDown => r.rx_rate,
        SortColumn::NetUp => r.tx_rate,
    }
}

/// A copy of `r`.
pub fn copy_ranked(r: &RankedProcess) -> (c: RankedProcess)
    ensures
        c == *r,
{
    RankedProcess {
        pid: r.pid,
        name: r.name.clone(),
        child_count: r.child_count,
        samples: r.samples,
        cpu: r.cpu,
        mem: r.mem,
        read_rate: r.read_rate,
        write_rate: r.write_rate,
        rx_rate: r.rx_rate,
        tx_rate: r.tx_rate,
    }
}

proof fn lemma_insert_at(s: Seq<RankedProcess>, x: RankedProcess, col: SortColumn, p: int)
    requires
        0 <= p <= s.len(),
        forall|q: int| 0 <= q < p ==> sort_key(#[trigger] s[q], col) >= sort_key(x, col),
        p < s.len() ==> sort_key(s[p], col) < sort_key(x, col),
    ensures
        insert_desc(s, x, col) == s.insert(p, x),
    decreases s.len(),
{
    if p == 0 {
        assert(s.insert(0, x) =~= seq![x] + s);
    } else {
        let t = s.drop_first();
        assert forall|q: int| 0 <= q < p - 1 implies sort_key(#[trigger] t[q], col) >= sort_key(
            x,
            col,
        ) by {
            assert(t[q] == s[q + 1]);
        }
        lemma_insert_at(t, x, col, p - 1);
        assert(seq![s[0]] + t.insert(p - 1, x) =~= s.insert(p, x));
    }
}

/// Sorts rows by `col`, largest first, keeping the order of equal keys.
pub fn sort_ranked(items: &Vec<RankedProcess>, col: SortColumn) -> (r: Vec<RankedProcess>)
    ensures
        r@ == sort_desc(items@, col),
{
    let mut out: Vec<RankedProcess> = Vec::new();
    let mut i: usize = 0;
    assert(items@.take(0) =~= Seq::<RankedProcess>::empty());
    while i < items.len()
        invariant
            i <= items@.len(),
            out@ == sort_desc(items@.take(i as int), col),
        decreases items.len() - i,
    {
        let x = copy_ranked(&items[i]);
        let kx = key_exec(&x, col);
        let mut p: usize = 0;
        while p < out.len() && key_exec(&out[p], col) >= kx
            invariant
                p <= out@.len(),
                kx == sort_key(x, col),
                forall|q: int| 0 <= q < p ==> sort_key(#[trigger] out@[q], col) >= kx,
            decreases out.len() - p,
        {
            p = p + 1;
        }
        proof {
            lemma_insert_at(out@, x, col, p as int);
            assert(items@.take(i + 1).drop_last() =~= items@.take(i as int));
        }
        out.insert(p, x);
        i = i + 1;
    }
    assert(items@.take(items@.len() as int) =~= items@);
    out
}

/// The top rows of the window by `col`: one row per process seen in it,
/// CPU and memory averaged over its samples, counters as per-second rates
/// between its first and last sample, largest first.
pub fn compute_top_processes(history: &Vec<HistoryEntry>, col: SortColumn) -> (r: Vec<RankedProcess>)
    ensures
        r@ == ranking(history@, col),
{
    let ts = tally_history(history);
    let mut rows: Vec<RankedProcess> = Vec::new();
    let mut i: usize = 0;
    while i < ts.len()
        invariant
            i <= ts@.len(),
            rows@ == ts@.take(i as int).map_values(|t: Tally| ranked_of(t)),
        decreases ts.len() - i,
    {
        let row = finish_tally(&ts[i]);
        rows.push(row);
        assert(ts@.take(i + 1).map_values(|t: Tally| ranked_of(t)) =~= ts@.take(i as int).map_values(
            |t: Tally| ranked_of(t),
        ).push(row));
        i = i + 1;
    }
    assert(ts@.take(ts@.len() as int) =~= ts@);
    let mut sorted = sort_ranked(&rows, col);
    if sorted.len() > TOP_N {
        sorted.truncate(TOP_N);
    }
    sorted
}

proof fn lemma_insert_sorted(s: Seq<RankedProcess>, x: RankedProcess, col: SortColumn)
    requires
        sorted_desc(s, col),
    ensures
        sorted_desc(insert_desc(s, x, col), col),
        insert_desc(s, x, col).to_multiset() == s.to_multiset().insert(x),
    decreases s.len(),
{
    broadcast use vstd::seq_lib::group_to_multiset_ensures;
    if s.len() == 0 {
        assert(seq![x] =~= Seq::<RankedProcess>::empty().push(x));
    } else if sort_key(s[0], col) < sort_key(x, col) {
        let r = seq![x] + s;
        assert forall|a: int, b: int| 0 <= a < b < r.len() implies sort_key(r[a], col) >= sort_key(
            r[b],
            col,
        ) by {
            if a > 0 {
                assert(r[a] == s[a - 1]);
            }
            assert(r[b] == s[b - 1]);
        }
        vstd::seq_lib::lemma_multiset_commutative(seq![x], s);
        assert(seq![x] =~= Seq::<RankedProcess>::empty().push(x));
    } else {
        let t = s.drop_first();
        assert(sorted_desc(t, col));
        lemma_insert_sorted(t, x, col);
        let it = insert_desc(t, x, col);
        let r = seq![s[0]] + it;
        assert forall|b: int| 0 <= b < it.len() implies sort_key(s[0], col) >= sort_key(
            #[trigger] it[b],
            col,
        ) by {
            assert(it.to_multiset().count(it[b]) > 0);
            assert(t.to_multiset().insert(x).count(it[b]) > 0);
            if it[b] != x {
                assert(t.to_multiset().count(it[b]) > 0);
                assert(t.contains(it[b]));
                let q = choose|q: int| 0 <= q < t.len() && t[q] == it[b];
                assert(t[q] == s[q + 1]);
            }
        }
        assert forall|a: int, b: int| 0 <= a < b < r.len() implies sort_key(r[a], col) >= sort_key(
            r[b],
            col,
        ) by {
            assert(r[b] == it[b - 1]);
            if a > 0 {
                assert(r[a] == it[a - 1]);
            }
        }
        vstd::seq_lib::lemma_multiset_commutative(seq![s[0]], it);
        vstd::seq_lib::lemma_multiset_commutative(seq![s[0]], t);
        assert(seq![s[0]] + t =~= s);
    }
}

proof fn lemma_sort_sorted(s: Seq<RankedProcess>, col: SortColumn)
    ensures
        sorted_desc(sort_desc(s, col), col),
        sort_desc(s, col).to_multiset() == s.to_multiset(),
    decreases s.len(),
{
    broadcast use vstd::seq_lib::group_to_multiset_ensures;
    if s.len() > 0 {
        lemma_sort_sorted(s.drop_last(), col);
        lemma_insert_sorted(sort_desc(s.drop_last(), col), s.last(), col);
        assert(s.drop_last().push(s.last()) =~= s);
    }
}

/// The ranking lists its rows largest first by the chosen metric, at most
/// `TOP_N` of them, and the same window and metric always give the same
/// rows in the same order.
pub proof fn lemma_ranking_ordered(h1: Seq<HistoryEntry>, h2: Seq<HistoryEntry>, col: SortColumn)
    requires
        h1 == h2,
    ensures
        sorted_desc(ranking(h1, col), col),
        ranking(h1, col).len() <= TOP_N,
        ranking(h1, col) == ranking(h2, col),
{
    let rows = tallies(flat(h1)).map_values(|t: Tally| ranked_of(t));
    lemma_sort_sorted(rows, col);
}

} // verus!
