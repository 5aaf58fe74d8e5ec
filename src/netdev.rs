//! Interface byte counters, interface rates and the per-process network
//! estimate for platforms without per-process accounting.
use vstd::prelude::*;
use crate::text::{
    fields_spec, lines_spec, split_fields, split_lines, to_chars, trim_spec, trim_str, u64_or_zero,
    u64_or_zero_of, after_header, str_eq,
};
use crate::process::cap;
use crate::sockets::{
    SocketOwner, bump, inc, owner_of, owner_view, TCP_ESTABLISHED, lemma_bump_at, find_owner,
};

verus! {

/// The index of the first `c` in `s`.
pub open spec fn index_of(s: Seq<char>, c: char) -> Option<nat>
    decreases s.len(),
{
    if s.len() == 0 {
        None
    } else if s[0] == c {
        Some(0)
    } else {
        match index_of(s.drop_first(), c) {
            Some(k) => Some(k + 1),
            None => None,
        }
    }
}

pub proof fn lemma_index_of(s: Seq<char>, c: char, k: int)
    requires
        0 <= k <= s.len(),
        forall|q: int| 0 <= q < k ==> s[q] != c,
        k < s.len() ==> s[k] == c,
    ensures
        index_of(s, c) == if k < s.len() {
            Some(k as nat)
        } else {
            None::<nat>
        },
    decreases s.len(),
{
    if s.len() > 0 && k > 0 {
        let t = s.drop_first();
        assert forall|q: int| 0 <= q < k - 1 implies t[q] != c by {
            assert(t[q] == s[q + 1]);
        }
        lemma_index_of(t, c, k - 1);
    }
}

/// The interface and its received and sent byte counters from one line of
/// the interface table: `name: rx ... tx ...` with at least ten counters,
/// the first for received bytes and the ninth for sent ones. The loopback
/// interface is left out.
pub open spec fn net_line(l: Seq<char>) -> Option<(Seq<char>, u64, u64)> {
    let t = trim_spec(l);
    match index_of(t, ':') {
        Some(k) => {
            let iface = trim_spec(t.take(k as int));
            let cols = fields_spec(t.skip((k + 1) as int));
            if iface != "lo"@ && cols.len() >= 10 {
                Some((iface, u64_or_zero(cols[0]) as u64, u64_or_zero(cols[8]) as u64))
            } else {
                None
            }
        },
        None => None,
    }
}

pub open spec fn net_entries(ls: Seq<Seq<char>>) -> Seq<(Seq<char>, u64, u64)>
    decreases ls.len(),
{
    if ls.len() == 0 {
        Seq::empty()
    } else {
        match net_line(ls.last()) {
            Some(e) => net_entries(ls.drop_last()).push(e),
            None => net_entries(ls.drop_last()),
        }
    }
}

pub open spec fn iface_views(v: Seq<(String, u64, u64)>) -> Seq<(Seq<char>, u64, u64)> {
    v.map_values(|p: (String, u64, u64)| (p.0@, p.1, p.2))
}

fn net_line_exec(line: &str) -> (r: Option<(String, u64, u64)>)
    ensures
        match r {
            Some(e) => net_line(line@) == Some((e.0@, e.1, e.2)),
            None => net_line(line@) is None,
        },
{
    let t = trim_str(line);
    let c = to_chars(t);
    let mut k: usize = 0;
    while k < c.len() && c[k] != ':'
        invariant
            c@ == t@,
            k <= c@.len(),
            forall|q: int| 0 <= q < k ==> c@[q] != ':',
        decreases c.len() - k,
    {
        k = k + 1;
    }
    proof {
        lemma_index_of(t@, ':', k as int);
    }
    if k == c.len() {
        return None;
    }
    let n = c.len();
    let iface = trim_str(t.substring_char(0, k));
    let rest = t.substring_char(k + 1, n);
    assert(rest@ =~= t@.skip(k + 1));
    let cols = split_fields(rest);
    proof {
        reveal_strlit("lo");
    }
    if str_eq(iface, "lo") || cols.len() < 10 {
        return None;
    }
    let rx = u64_or_zero_of(cols[0].as_str());
    let tx = u64_or_zero_of(cols[8].as_str());
    Some((String::from_str(iface), rx, tx))
}

/// Reads the received and sent byte counters of each interface but the
/// loopback one from the kernel's interface table, after its two header
/// lines; malformed lines are skipped.
pub fn parse_net_dev(content: &str) -> (r: Vec<(String, u64, u64)>)
    ensures
        iface_views(r@) == net_entries(after_header(lines_spec(content@), 2)),
{
    let lines = split_lines(content);
    let ghost ls = lines_spec(content@);
    let mut r: Vec<(String, u64, u64)> = Vec::new();
    if lines.len() < 2 {
        assert(after_header(ls, 2) =~= Seq::<Seq<char>>::empty());
        assert(iface_views(r@) =~= Seq::<(Seq<char>, u64, u64)>::empty());
        return r;
    }
    let ghost body = ls.skip(2);
    let mut i: usize = 2;
    assert(body.take(0) =~= Seq::<Seq<char>>::empty());
    assert(iface_views(r@) =~= Seq::<(Seq<char>, u64, u64)>::empty());
    while i < lines.len()
        invariant
            2 <= i <= lines@.len(),
            lines@.len() == ls.len(),
            body == ls.skip(2),
            forall|q: int| 0 <= q < lines@.len() ==> #[trigger] lines@[q]@ == ls[q],
            iface_views(r@) == net_entries(body.take(i - 2)),
        decreases lines.len() - i,
    {
        assert(body.take(i - 1).drop_last() =~= body.take(i - 2));
        assert(body.take(i - 1).last() == lines@[i as int]@);
        match net_line_exec(lines[i].as_str()) {
            Some(e) => {
                let ghost before = r@;
                let ghost ev = (e.0@, e.1, e.2);
                r.push(e);
                assert(iface_views(r@) =~= iface_views(before).push(ev));
            },
            None => {},
        }
        i = i + 1;
    }
    assert(body.take(lines@.len() - 2) =~= body);
    r
}

/// The first counters recorded for interface `name`.
pub open spec fn iface_of(prev: Seq<(Seq<char>, u64, u64)>, name: Seq<char>) -> Option<(u64, u64)>
    decreases prev.len(),
{
    if prev.len() == 0 {
        None
    } else if prev[0].0 == name {
        Some((prev[0].1, prev[0].2))
    } else {
        iface_of(prev.drop_first(), name)
    }
}

pub fn iface_lookup(prev: &Vec<(String, u64, u64)>, name: &String) -> (r: Option<(u64, u64)>)
    ensures
        r == iface_of(iface_views(prev@), name@),
{
    let ghost pv = iface_views(prev@);
    let mut i: usize = 0;
    assert(pv.skip(0) =~= pv);
    while i < prev.len()
        invariant
            i <= prev@.len(),
            pv == iface_views(prev@),
            iface_of(pv, name@) == iface_of(pv.skip(i as int), name@),
        decreases prev.len() - i,
    {
        assert(pv.skip(i as int).drop_first() =~= pv.skip(i + 1));
        if prev[i].0 == *name {
            return Some((prev[i].1, prev[i].2));
        }
        i = i + 1;
    }
    None
}

pub open spec fn sat_sub(a: u64, b: u64) -> int {
    if a >= b {
        a - b
    } else {
        0
    }
}

/// Received and sent bytes since `prev` summed over the interfaces seen in
/// both readings, each sum held at `u64::MAX`.
pub open spec fn traffic_since(prev: Seq<(Seq<char>, u64, u64)>, cur: Seq<(Seq<char>, u64, u64)>) -> (
    int,
    int,
)
    decreases cur.len(),
{
    if cur.len() == 0 {
        (0, 0)
    } else {
        let s = traffic_since(prev, cur.drop_last());
        let e = cur.last();
        match iface_of(prev, e.0) {
            Some(p) => (cap(s.0 + sat_sub(e.1, p.0)), cap(s.1 + sat_sub(e.2, p.1))),
            None => s,
        }
    }
}

/// Bytes moved since the previous reading, over all interfaces.
pub fn traffic_delta(prev: &Vec<(String, u64, u64)>, cur: &Vec<(String, u64, u64)>) -> (r: (
    u64,
    u64,
))
    ensures
        (r.0 as int, r.1 as int) == traffic_since(iface_views(prev@), iface_views(cur@)),
{
    let ghost cv = iface_views(cur@);
    let mut rx: u64 = 0;
    let mut tx: u64 = 0;
    let mut i: usize = 0;
    while i < cur.len()
        invariant
            i <= cur@.len(),
            cv == iface_views(cur@),
            (rx as int, tx as int) == traffic_since(iface_views(prev@), cv.take(i as int)),
        decreases cur.len() - i,
    {
        assert(cv.take(i + 1).drop_last() =~= cv.take(i as int));
        match iface_lookup(prev, &cur[i].0) {
            Some((prx, ptx)) => {
                let (crx, ctx) = (cur[i].1, cur[i].2);
                rx = rx.saturating_add(if crx >= prx {
                    crx - prx
                } else {
                    0
                });
                tx = tx.saturating_add(if ctx >= ptx {
                    ctx - ptx
                } else {
                    0
                });
            },
            None => {},
        }
        i = i + 1;
    }
    assert(cv.take(cur@.len() as int) =~= cv);
    (rx, tx)
}

/// Per pid, the established connections whose socket it holds, in order
/// of first appearance.
pub open spec fn established_by_pid(es: Seq<(u64, u8)>, os: Seq<(u64, u32, Seq<char>)>) -> Seq<
    (u32, nat),
>
    decreases es.len(),
{
    if es.len() == 0 {
        Seq::empty()
    } else if es.last().1 == TCP_ESTABLISHED && owner_of(os, es.last().0) is Some {
        bump(established_by_pid(es.drop_last(), os), owner_of(os, es.last().0).unwrap().1)
    } else {
        established_by_pid(es.drop_last(), os)
    }
}

pub open spec fn pid_views(v: Seq<(u32, u64)>) -> Seq<(u32, nat)> {
    v.map_values(|p: (u32, u64)| (p.0, p.1 as nat))
}

fn pid_slot(t: &Vec<(u32, u64)>, pid: u32) -> (r: usize)
    ensures
        r <= t@.len(),
        forall|q: int| 0 <= q < r ==> (#[trigger] pid_views(t@)[q]).0 != pid,
        r < t@.len() ==> pid_views(t@)[r as int].0 == pid,
{
    let mut j: usize = 0;
    while j < t.len()
        invariant
            j <= t@.len(),
            forall|q: int| 0 <= q < j ==> (#[trigger] pid_views(t@)[q]).0 != pid,
        decreases t.len() - j,
    {
        if t[j].0 == pid {
            return j;
        }
        j = j + 1;
    }
    j
}

/// Counts, per pid, the established connections it holds.
pub fn count_established(entries: &Vec<(u64, u8)>, owners: &Vec<SocketOwner>) -> (r: Vec<(u32, u64)>)
    ensures
        pid_views(r@) == established_by_pid(
            entries@,
            owners@.map_values(|o: SocketOwner| owner_view(o)),
        ),
{
    let ghost ov = owners@.map_values(|o: SocketOwner| owner_view(o));
    let mut t: Vec<(u32, u64)> = Vec::new();
    let mut i: usize = 0;
    assert(pid_views(t@) =~= Seq::<(u32, nat)>::empty());
    while i < entries.len()
        invariant
            i <= entries@.len(),
            ov == owners@.map_values(|o: SocketOwner| owner_view(o)),
            pid_views(t@) == established_by_pid(entries@.take(i as int), ov),
        decreases entries.len() - i,
    {
        let (inode, st) = entries[i];
        assert(entries@.take(i + 1).drop_last() =~= entries@.take(i as int));
        if st == TCP_ESTABLISHED {
            match find_owner(owners, inode) {
                Some(j) => {
                    let pid = owners[j].pid;
                    let slot = pid_slot(&t, pid);
                    proof {
                        lemma_bump_at(pid_views(t@), pid, slot as int);
                    }
                    let ghost before = t@;
                    if slot < t.len() {
                        let c = t[slot].1;
                        t[slot].1 = c.saturating_add(1);
                        assert(pid_views(t@) =~= pid_views(before).update(
                            slot as int,
                            (pid, inc(c as nat)),
                        ));
                    } else {
                        t.push((pid, 1));
                        assert(pid_views(t@) =~= pid_views(before).push((pid, 1nat)));
                    }
                },
                None => {},
            }
        }
        i = i + 1;
    }
    assert(entries@.take(entries@.len() as int) =~= entries@);
    t
}

pub open spec fn total_count(t: Seq<(u32, nat)>) -> int
    decreases t.len(),
{
    if t.len() == 0 {
        0
    } else {
        cap(total_count(t.drop_last()) + t.last().1)
    }
}

/// `bytes` times the share `c / total`, rounded down.
pub open spec fn share(bytes: u64, c: nat, total: int) -> int {
    cap(bytes * c / total)
}

/// `cum` with `rx` and `tx` added to the running totals of `pid` (each
/// held at `u64::MAX`), or `pid` appended with them.
pub open spec fn credit(cum: Seq<(u32, u64, u64)>, pid: u32, rx: int, tx: int) -> Seq<(u32, u64, u64)>
    decreases cum.len(),
{
    if cum.len() == 0 {
        seq![(pid, rx as u64, tx as u64)]
    } else if cum[0].0 == pid {
        seq![(pid, cap(cum[0].1 + rx) as u64, cap(cum[0].2 + tx) as u64)] + cum.drop_first()
    } else {
        seq![cum[0]] + credit(cum.drop_first(), pid, rx, tx)
    }
}

/// `cum` after crediting each pid of `t` its share of the traffic.
pub open spec fn credit_all(
    cum: Seq<(u32, u64, u64)>,
    t: Seq<(u32, nat)>,
    total: int,
    drx: u64,
    dtx: u64,
) -> Seq<(u32, u64, u64)>
    decreases t.len(),
{
    if t.len() == 0 {
        cum
    } else {
        let e = t.last();
        credit(
            credit_all(cum, t.drop_last(), total, drx, dtx),
            e.0,
            share(drx, e.1, total),
            share(dtx, e.1, total),
        )
    }
}

/// The entries of `cum` whose pid is still alive.
pub open spec fn prune(cum: Seq<(u32, u64, u64)>, live: Seq<u32>) -> Seq<(u32, u64, u64)>
    decreases cum.len(),
{
    if cum.len() == 0 {
        Seq::empty()
    } else if live.contains(cum.last().0) {
        prune(cum.drop_last(), live).push(cum.last())
    } else {
        prune(cum.drop_last(), live)
    }
}

proof fn lemma_credit_at(cum: Seq<(u32, u64, u64)>, pid: u32, rx: int, tx: int, j: int)
    requires
        0 <= j <= cum.len(),
        forall|q: int| 0 <= q < j ==> (#[trigger] cum[q]).0 != pid,
        j < cum.len() ==> cum[j].0 == pid,
    ensures
        credit(cum, pid, rx, tx) == if j < cum.len() {
            cum.update(j, (pid, cap(cum[j].1 + rx) as u64, cap(cum[j].2 + tx) as u64))
        } else {
            cum.push((pid, rx as u64, tx as u64))
        },
    decreases cum.len(),
{
    if cum.len() == 0 {
        assert(cum.push((pid, rx as u64, tx as u64)) =~= seq![(pid, rx as u64, tx as u64)]);
    } else if j == 0 {
        assert(seq![(pid, cap(cum[0].1 + rx) as u64, cap(cum[0].2 + tx) as u64)] + cum.drop_first()
            =~= cum.update(0, (pid, cap(cum[0].1 + rx) as u64, cap(cum[0].2 + tx) as u64)));
    } else {
        let u = cum.drop_first();
        assert forall|q: int| 0 <= q < j - 1 implies (#[trigger] u[q]).0 != pid by {
            assert(u[q] == cum[q + 1]);
        }
        lemma_credit_at(u, pid, rx, tx, j - 1);
        if j < cum.len() {
            assert(seq![cum[0]] + u.update(
                j - 1,
                (pid, cap(cum[j].1 + rx) as u64, cap(cum[j].2 + tx) as u64),
            ) =~= cum.update(j, (pid, cap(cum[j].1 + rx) as u64, cap(cum[j].2 + tx) as u64)));
        } else {
            assert(seq![cum[0]] + u.push((pid, rx as u64, tx as u64)) =~= cum.push(
                (pid, rx as u64, tx as u64),
            ));
        }
    }
}

fn share_exec(bytes: u64, c: u64, total: u64) -> (r: u64)
    requires
        total > 0,
    ensures
        r == share(bytes, c as nat, total as int),
{
    assert((bytes as int) * (c as int) <= (u64::MAX as int) * (u64::MAX as int)) by (nonlinear_arith)
        requires
            bytes <= u64::MAX,
            c <= u64::MAX,
    ;
    let x: u128 = (bytes as u128) * (c as u128) / (total as u128);
    if x > u64::MAX as u128 {
        u64::MAX
    } else {
        x as u64
    }
}

fn credit_exec(cum: &mut Vec<(u32, u64, u64)>, pid: u32, rx: u64, tx: u64)
    ensures
        final(cum)@ == credit(old(cum)@, pid, rx as int, tx as int),
{
    let mut j: usize = 0;
    while j < cum.len() && cum[j].0 != pid
        invariant
            j <= cum@.len(),
            forall|q: int| 0 <= q < j ==> (#[trigger] cum@[q]).0 != pid,
        decreases cum.len() - j,
    {
        j = j + 1;
    }
    proof {
        lemma_credit_at(cum@, pid, rx as int, tx as int, j as int);
    }
    if j < cum.len() {
        let (p, a, b) = cum[j];
        cum[j] = (p, a.saturating_add(rx), b.saturating_add(tx));
    } else {
        cum.push((pid, rx, tx));
    }
}

/// The running per-process byte totals, estimated from interface traffic.
pub struct NetworkAttribution {
    pub prev_bytes: Vec<(String, u64, u64)>,
    pub prev_time_ms: Option<u64>,
    /// (pid, received, sent) totals so far.
    pub cumulative: Vec<(u32, u64, u64)>,
}

/// The totals after one reading: where time passed since an earlier reading
/// and interfaces were read, the traffic since then is split among the
/// pids holding established connections by their share of those
/// connections and added to their totals.
pub open spec fn credited(
    old_cum: Seq<(u32, u64, u64)>,
    prev: Seq<(Seq<char>, u64, u64)>,
    prev_time: Option<u64>,
    now_ms: u64,
    cur: Seq<(Seq<char>, u64, u64)>,
    conns: Seq<(u32, nat)>,
) -> Seq<(u32, u64, u64)> {
    match prev_time {
        Some(t) => {
            let d = traffic_since(prev, cur);
            if now_ms > t && cur.len() > 0 && (d.0 > 0 || d.1 > 0) && total_count(conns) > 0 {
                credit_all(old_cum, conns, total_count(conns), d.0 as u64, d.1 as u64)
            } else {
                old_cum
            }
        },
        None => old_cum,
    }
}

fn keep_live(cum: &Vec<(u32, u64, u64)>, live: &Vec<u32>) -> (r: Vec<(u32, u64, u64)>)
    ensures
        r@ == prune(cum@, live@),
{
    let mut r: Vec<(u32, u64, u64)> = Vec::new();
    let mut i: usize = 0;
    assert(cum@.take(0) =~= Seq::<(u32, u64, u64)>::empty());
    while i < cum.len()
        invariant
            i <= cum@.len(),
            r@ == prune(cum@.take(i as int), live@),
        decreases cum.len() - i,
    {
        assert(cum@.take(i + 1).drop_last() =~= cum@.take(i as int));
        let e = cum[i];
        let mut alive = false;
        let mut j: usize = 0;
        while j < live.len()
            invariant
                j <= live@.len(),
                alive == exists|q: int| 0 <= q < j && live@[q] == e.0,
            decreases live.len() - j,
        {
            if live[j] == e.0 {
                alive = true;
            }
            j = j + 1;
        }
        if alive {
            r.push(e);
        }
        i = i + 1;
    }
    assert(cum@.take(cum@.len() as int) =~= cum@);
    r
}

impl NetworkAttribution {
    /// No reading yet and no totals.
    pub fn new() -> (r: Self)
        ensures
            r.prev_bytes@.len() == 0,
            r.prev_time_ms is None,
            r.cumulative@.len() == 0,
    {
        NetworkAttribution { prev_bytes: Vec::new(), prev_time_ms: None, cumulative: Vec::new() }
    }

    /// Takes a reading of the interface counters at `now_ms`, credits the
    /// traffic since the previous reading to the processes by their share of
    /// established connections, drops the totals of processes not in `live`,
    /// and returns the (pid, received, sent) totals.
    pub fn update(
        &mut self,
        now_ms: u64,
        current: Vec<(String, u64, u64)>,
        entries: &Vec<(u64, u8)>,
        owners: &Vec<SocketOwner>,
        live: &Vec<u32>,
    ) -> (r: Vec<(u32, u64, u64)>)
        ensures
            final(self).cumulative@ == prune(
                credited(
                    old(self).cumulative@,
                    iface_views(old(self).prev_bytes@),
                    old(self).prev_time_ms,
                    now_ms,
                    iface_views(current@),
                    established_by_pid(entries@, owners@.map_values(|o: SocketOwner| owner_view(o))),
                ),
                live@,
            ),
            r@ == final(self).cumulative@,
            final(self).prev_bytes@ == current@,
            final(self).prev_time_ms == Some(now_ms),
    {
        let ghost conns_spec = established_by_pid(
            entries@,
            owners@.map_values(|o: SocketOwner| owner_view(o)),
        );
        let ghost old_cum = self.cumulative@;
        match self.prev_time_ms {
            Some(t) => {
                let (drx, dtx) = traffic_delta(&self.prev_bytes, &current);
                if now_ms > t && current.len() > 0 && (drx > 0 || dtx > 0) {
                    let conns = count_established(entries, owners);
                    let mut total: u64 = 0;
                    let mut i: usize = 0;
                    while i < conns.len()
                        invariant
                            i <= conns@.len(),
                            total as int == total_count(pid_views(conns@).take(i as int)),
                        decreases conns.len() - i,
                    {
                        assert(pid_views(conns@).take(i + 1).drop_last() =~= pid_views(
                            conns@,
                        ).take(i as int));
                        total = total.saturating_add(conns[i].1);
                        i = i + 1;
                    }
                    assert(pid_views(conns@).take(conns@.len() as int) =~= pid_views(conns@));
                    if total > 0 {
                        let ghost start = self.cumulative@;
                        let mut k: usize = 0;
                        assert(pid_views(conns@).take(0) =~= Seq::<(u32, nat)>::empty());
                        while k < conns.len()
                            invariant
                                k <= conns@.len(),
                                total > 0,
                                self.cumulative@ == credit_all(
                                    start,
                                    pid_views(conns@).take(k as int),
                                    total as int,
                                    drx,
                                    dtx,
                                ),
                            decreases conns.len() - k,
                        {
                            assert(pid_views(conns@).take(k + 1).drop_last() =~= pid_views(
                                conns@,
                            ).take(k as int));
                            let (pid, c) = conns[k];
                            let srx = share_exec(drx, c, total);
                            let stx = share_exec(dtx, c, total);
                            credit_exec(&mut self.cumulative, pid, srx, stx);
                            k = k + 1;
                        }
                    }
                }
            },
            None => {},
        }
        let kept = keep_live(&self.cumulative, live);
        self.cumulative = kept;
        self.prev_bytes = current;
        self.prev_time_ms = Some(now_ms);
        let mut out: Vec<(u32, u64, u64)> = Vec::new();
        let mut i: usize = 0;
        while i < self.cumulative.len()
            invariant
                i <= self.cumulative@.len(),
                out@ == self.cumulative@.take(i as int),
            decreases self.cumulative.len() - i,
        {
            out.push(self.cumulative[i]);
            assert(self.cumulative@.take(i + 1) =~= self.cumulative@.take(i as int).push(
                self.cumulative@[i as int],
            ));
            i = i + 1;
        }
        assert(self.cumulative@.take(self.cumulative@.len() as int) =~= self.cumulative@);
        out
    }
}

/// The running totals recorded for `pid`: the first entry for it.
pub open spec fn totals_of(cum: Seq<(u32, u64, u64)>, pid: u32) -> Option<(u64, u64)>
    decreases cum.len(),
{
    if cum.len() == 0 {
        None
    } else if cum[0].0 == pid {
        Some((cum[0].1, cum[0].2))
    } else {
        totals_of(cum.drop_first(), pid)
    }
}

/// `b` is at least `a` where `a` has totals for `pid`.
pub open spec fn no_less(a: Option<(u64, u64)>, b: Option<(u64, u64)>) -> bool {
    match a {
        Some((x, y)) => match b {
            Some((u, v)) => x <= u && y <= v,
            None => false,
        },
        None => true,
    }
}

proof fn lemma_credit_grows(cum: Seq<(u32, u64, u64)>, pid: u32, rx: int, tx: int, q: u32)
    requires
        0 <= rx <= u64::MAX,
        0 <= tx <= u64::MAX,
    ensures
        no_less(totals_of(cum, q), totals_of(credit(cum, pid, rx, tx), q)),
    decreases cum.len(),
{
    if cum.len() > 0 {
        let c = credit(cum, pid, rx, tx);
        if cum[0].0 == pid {
            assert(c[0] == (pid, cap(cum[0].1 + rx) as u64, cap(cum[0].2 + tx) as u64));
            assert(c.drop_first() =~= cum.drop_first());
        } else {
            lemma_credit_grows(cum.drop_first(), pid, rx, tx, q);
            assert(c[0] == cum[0]);
            assert(c.drop_first() =~= credit(cum.drop_first(), pid, rx, tx));
        }
    }
}

proof fn lemma_credit_all_grows(
    cum: Seq<(u32, u64, u64)>,
    t: Seq<(u32, nat)>,
    total: int,
    drx: u64,
    dtx: u64,
    q: u32,
)
    requires
        total > 0,
    ensures
        no_less(totals_of(cum, q), totals_of(credit_all(cum, t, total, drx, dtx), q)),
    decreases t.len(),
{
    if t.len() > 0 {
        lemma_credit_all_grows(cum, t.drop_last(), total, drx, dtx, q);
        let e = t.last();
        let mid = credit_all(cum, t.drop_last(), total, drx, dtx);
        assert(0 <= drx * e.1 / total) by (nonlinear_arith)
            requires
                total > 0,
        ;
        assert(0 <= dtx * e.1 / total) by (nonlinear_arith)
            requires
                total > 0,
        ;
        lemma_credit_grows(mid, e.0, share(drx, e.1, total), share(dtx, e.1, total), q);
    }
}

proof fn lemma_prune_keeps(cum: Seq<(u32, u64, u64)>, live: Seq<u32>, q: u32)
    requires
        live.contains(q),
    ensures
        totals_of(prune(cum, live), q) == totals_of(cum, q),
    decreases cum.len(),
{
    if cum.len() > 0 {
        lemma_prune_keeps(cum.drop_last(), live, q);
        let p = prune(cum.drop_last(), live);
        lemma_totals_of_push(cum.drop_last(), cum.last(), q);
        if live.contains(cum.last().0) {
            lemma_totals_of_push(p, cum.last(), q);
        } else {
            assert(cum.last().0 != q);
        }
        assert(cum.drop_last().push(cum.last()) =~= cum);
    }
}

proof fn lemma_totals_of_push(cum: Seq<(u32, u64, u64)>, e: (u32, u64, u64), q: u32)
    ensures
        totals_of(cum.push(e), q) == match totals_of(cum, q) {
            Some(v) => Some(v),
            None => if e.0 == q {
                Some((e.1, e.2))
            } else {
                None
            },
        },
    decreases cum.len(),
{
    if cum.len() > 0 {
        lemma_totals_of_push(cum.drop_first(), e, q);
        let ce = cum.push(e);
        assert(ce[0] == cum[0]);
        assert(ce.drop_first() =~= cum.drop_first().push(e));
        if cum[0].0 == q {
            assert(totals_of(ce, q) == Some((cum[0].1, cum[0].2)));
            assert(totals_of(cum, q) == Some((cum[0].1, cum[0].2)));
        } else {
            assert(totals_of(ce, q) == totals_of(ce.drop_first(), q));
            assert(totals_of(cum, q) == totals_of(cum.drop_first(), q));
        }
    } else {
        let ce = cum.push(e);
        assert(ce[0] == e);
        assert(ce.drop_first() =~= Seq::<(u32, u64, u64)>::empty());
        assert(totals_of(Seq::<(u32, u64, u64)>::empty(), q) is None);
        assert(totals_of(cum, q) is None);
        if e.0 != q {
            assert(totals_of(ce, q) == totals_of(ce.drop_first(), q));
        }
    }
}

/// The per-process totals never go down: a process still alive after a
/// reading has totals at least as large as before it.
pub proof fn lemma_totals_never_shrink(
    old_cum: Seq<(u32, u64, u64)>,
    prev: Seq<(Seq<char>, u64, u64)>,
    prev_time: Option<u64>,
    now_ms: u64,
    cur: Seq<(Seq<char>, u64, u64)>,
    conns: Seq<(u32, nat)>,
    live: Seq<u32>,
    pid: u32,
)
    requires
        live.contains(pid),
    ensures
        no_less(
            totals_of(old_cum, pid),
            totals_of(prune(credited(old_cum, prev, prev_time, now_ms, cur, conns), live), pid),
        ),
{
    let c = credited(old_cum, prev, prev_time, now_ms, cur, conns);
    lemma_prune_keeps(c, live, pid);
    match prev_time {
        Some(t) => {
            let d = traffic_since(prev, cur);
            if now_ms > t && cur.len() > 0 && (d.0 > 0 || d.1 > 0) && total_count(conns) > 0 {
                lemma_credit_all_grows(old_cum, conns, total_count(conns), d.0 as u64, d.1 as u64, pid);
            }
        },
        None => {},
    }
}

} // verus!
