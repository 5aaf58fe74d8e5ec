//! TCP connection tables, socket ownership and the per-process network
//! estimate built on them.
use vstd::prelude::*;
use crate::counts::{count_views, first_n, sort_counts, top_counts};
use crate::text::{
    fields_spec, lines_spec, split_fields, split_lines, starts_with, unsigned_spec,
    hex_u8_spec, u64_or_zero, after_header,
};

verus! {

/// Connection states of the kernel's TCP table.
pub const TCP_ESTABLISHED: u8 = 1;
pub const TCP_FIN_WAIT1: u8 = 4;
pub const TCP_FIN_WAIT2: u8 = 5;
pub const TCP_TIME_WAIT: u8 = 6;
pub const TCP_CLOSE_WAIT: u8 = 8;
pub const TCP_LISTEN: u8 = 10;

/// The (inode, state) of one line of a TCP table: field 4 is the state in
/// hexadecimal, field 10 the inode; a line with inode 0 or too few fields
/// gives nothing, an unreadable state reads as 0.
pub open spec fn tcp_line(l: Seq<char>) -> Option<(u64, u8)> {
    let f = fields_spec(l);
    if f.len() >= 10 && u64_or_zero(f[9]) > 0 {
        Some(
            (
                u64_or_zero(f[9]) as u64,
                match hex_u8_spec(f[3]) {
                    Some(v) => v as u8,
                    None => 0u8,
                },
            ),
        )
    } else {
        None
    }
}

/// The connections of the table's lines, in order.
pub open spec fn tcp_entries(ls: Seq<Seq<char>>) -> Seq<(u64, u8)>
    decreases ls.len(),
{
    if ls.len() == 0 {
        Seq::empty()
    } else {
        match tcp_line(ls.last()) {
            Some(e) => tcp_entries(ls.drop_last()).push(e),
            None => tcp_entries(ls.drop_last()),
        }
    }
}

/// Reads the (inode, state) pairs of a TCP table, skipping its header line
/// and malformed lines.
pub fn parse_tcp_table(content: &str) -> (r: Vec<(u64, u8)>)
    ensures
        r@ == tcp_entries(after_header(lines_spec(content@), 1)),
{
    let lines = split_lines(content);
    let ghost ls = lines_spec(content@);
    let mut r: Vec<(u64, u8)> = Vec::new();
    if lines.len() == 0 {
        assert(after_header(ls, 1) =~= Seq::<Seq<char>>::empty());
        return r;
    }
    let ghost body = ls.skip(1);
    let mut i: usize = 1;
    assert(body.take(0) =~= Seq::<Seq<char>>::empty());
    while i < lines.len()
        invariant
            1 <= i <= lines@.len(),
            lines@.len() == ls.len(),
            body == ls.skip(1),
            forall|q: int| 0 <= q < lines@.len() ==> #[trigger] lines@[q]@ == ls[q],
            r@ == tcp_entries(body.take(i - 1)),
        decreases lines.len() - i,
    {
        let f = split_fields(lines[i].as_str());
        assert(body.take(i as int).drop_last() =~= body.take(i - 1));
        assert(body.take(i as int).last() == lines@[i as int]@);
        if f.len() >= 10 {
            let inode = crate::text::u64_or_zero_of(f[9].as_str());
            if inode > 0 {
                let state: u8 = match crate::text::parse_hex_u8(f[3].as_str()) {
                    Some(v) => v,
                    None => 0,
                };
                r.push((inode, state));
            }
        }
        i = i + 1;
    }
    assert(body.take(lines@.len() - 1) =~= body);
    r
}

/// The inode of a descriptor link that reads `socket:[N]`.
pub open spec fn socket_link(t: Seq<char>) -> Option<u64> {
    if t.len() >= 9 && t.take(8) == "socket:["@ && t.last() == ']' && unsigned_spec(
        t.subrange(8, t.len() - 1),
        u64::MAX as nat,
    ) is Some {
        Some(unsigned_spec(t.subrange(8, t.len() - 1), u64::MAX as nat).unwrap() as u64)
    } else {
        None
    }
}

/// The socket inode a descriptor link points at, if it is a socket.
pub fn socket_inode(target: &str) -> (r: Option<u64>)
    ensures
        r == socket_link(target@),
{
    proof {
        reveal_strlit("socket:[");
    }
    let n = target.unicode_len();
    if n < 9 || !starts_with(target, "socket:[") {
        return None;
    }
    if target.get_char(n - 1) != ']' {
        return None;
    }
    let mid = target.substring_char(8, n - 1);
    match crate::text::parse_u64(mid) {
        Some(v) => Some(v),
        None => None,
    }
}

/// One process's descriptor links, as listed from its descriptor directory.
pub struct ProcessFds {
    pub pid: u32,
    pub name: String,
    pub links: Vec<String>,
}

/// A socket inode and the process that holds it.
pub struct SocketOwner {
    pub inode: u64,
    pub pid: u32,
    pub name: String,
}

pub open spec fn owner_view(o: SocketOwner) -> (u64, u32, Seq<char>) {
    (o.inode, o.pid, o.name@)
}

/// The socket inodes of one process's links, in order.
pub open spec fn owned_by(pid: u32, name: Seq<char>, links: Seq<String>) -> Seq<(u64, u32, Seq<char>)>
    decreases links.len(),
{
    if links.len() == 0 {
        Seq::empty()
    } else {
        match socket_link(links.last()@) {
            Some(i) => owned_by(pid, name, links.drop_last()).push((i, pid, name)),
            None => owned_by(pid, name, links.drop_last()),
        }
    }
}

/// The socket inodes of all processes, in scan order.
pub open spec fn owners_of(ps: Seq<ProcessFds>) -> Seq<(u64, u32, Seq<char>)>
    decreases ps.len(),
{
    if ps.len() == 0 {
        Seq::empty()
    } else {
        owners_of(ps.drop_last()) + owned_by(ps.last().pid, ps.last().name@, ps.last().links@)
    }
}

/// Lists each socket inode with the process holding it.
pub fn socket_owners(ps: &Vec<ProcessFds>) -> (r: Vec<SocketOwner>)
    ensures
        r@.map_values(|o: SocketOwner| owner_view(o)) == owners_of(ps@),
{
    let mut r: Vec<SocketOwner> = Vec::new();
    let mut i: usize = 0;
    assert(ps@.take(0) =~= Seq::<ProcessFds>::empty());
    while i < ps.len()
        invariant
            i <= ps@.len(),
            r@.map_values(|o: SocketOwner| owner_view(o)) == owners_of(ps@.take(i as int)),
        decreases ps.len() - i,
    {
        let p = &ps[i];
        let ghost base = owners_of(ps@.take(i as int));
        let mut j: usize = 0;
        assert(p.links@.take(0) =~= Seq::<String>::empty());
        assert(base + owned_by(p.pid, p.name@, p.links@.take(0)) =~= base);
        while j < p.links.len()
            invariant
                p == ps@[i as int],
                j <= p.links@.len(),
                r@.map_values(|o: SocketOwner| owner_view(o)) == base + owned_by(
                    p.pid,
                    p.name@,
                    p.links@.take(j as int),
                ),
            decreases p.links.len() - j,
        {
            assert(p.links@.take(j + 1).drop_last() =~= p.links@.take(j as int));
            match socket_inode(p.links[j].as_str()) {
                Some(inode) => {
                    let ghost before = r@;
                    r.push(SocketOwner { inode, pid: p.pid, name: p.name.clone() });
                    assert(r@.map_values(|o: SocketOwner| owner_view(o)) =~= before.map_values(
                        |o: SocketOwner| owner_view(o),
                    ).push((inode, p.pid, p.name@)));
                },
                None => {},
            }
            j = j + 1;
        }
        assert(ps@.take(i + 1).drop_last() =~= ps@.take(i as int));
        assert(p.links@.take(p.links@.len() as int) =~= p.links@);
        i = i + 1;
    }
    assert(ps@.take(ps@.len() as int) =~= ps@);
    r
}

/// The last entry for `inode`, as a map filled in scan order keeps it.
pub open spec fn owner_of(os: Seq<(u64, u32, Seq<char>)>, inode: u64) -> Option<(u64, u32, Seq<char>)>
    decreases os.len(),
{
    if os.len() == 0 {
        None
    } else if os.last().0 == inode {
        Some(os.last())
    } else {
        owner_of(os.drop_last(), inode)
    }
}

pub fn find_owner(os: &Vec<SocketOwner>, inode: u64) -> (r: Option<usize>)
    ensures
        match r {
            Some(j) => j < os@.len() && owner_of(os@.map_values(|o: SocketOwner| owner_view(o)), inode)
                == Some(owner_view(os@[j as int])),
            None => owner_of(os@.map_values(|o: SocketOwner| owner_view(o)), inode) is None,
        },
{
    let ghost ov = os@.map_values(|o: SocketOwner| owner_view(o));
    let mut k: usize = os.len();
    assert(ov.take(k as int) =~= ov);
    while k > 0
        invariant
            k <= os@.len(),
            ov == os@.map_values(|o: SocketOwner| owner_view(o)),
            owner_of(ov, inode) == owner_of(ov.take(k as int), inode),
        decreases k,
    {
        assert(ov.take(k as int).drop_last() =~= ov.take(k - 1));
        if os[k - 1].inode == inode {
            return Some(k - 1);
        }
        k = k - 1;
    }
    None
}

pub open spec fn inc(c: nat) -> nat {
    if c < u64::MAX {
        c + 1
    } else {
        c
    }
}

/// `t` with the count of `k` raised by one (held at `u64::MAX`), or `k`
/// appended with count 1.
pub open spec fn bump<K>(t: Seq<(K, nat)>, k: K) -> Seq<(K, nat)>
    decreases t.len(),
{
    if t.len() == 0 {
        seq![(k, 1nat)]
    } else if t[0].0 == k {
        seq![(t[0].0, inc(t[0].1))] + t.drop_first()
    } else {
        seq![t[0]] + bump(t.drop_first(), k)
    }
}

pub proof fn lemma_bump_at<K>(t: Seq<(K, nat)>, k: K, j: int)
    requires
        0 <= j <= t.len(),
        forall|q: int| 0 <= q < j ==> (#[trigger] t[q]).0 != k,
        j < t.len() ==> t[j].0 == k,
    ensures
        bump(t, k) == if j < t.len() {
            t.update(j, (k, inc(t[j].1)))
        } else {
            t.push((k, 1nat))
        },
    decreases t.len(),
{
    if t.len() == 0 {
        assert(t.push((k, 1nat)) =~= seq![(k, 1nat)]);
    } else if j == 0 {
        assert(seq![(t[0].0, inc(t[0].1))] + t.drop_first() =~= t.update(0, (k, inc(t[0].1))));
    } else {
        let u = t.drop_first();
        assert forall|q: int| 0 <= q < j - 1 implies (#[trigger] u[q]).0 != k by {
            assert(u[q] == t[q + 1]);
        }
        lemma_bump_at(u, k, j - 1);
        if j < t.len() {
            assert(seq![t[0]] + u.update(j - 1, (k, inc(t[j].1))) =~= t.update(j, (k, inc(t[j].1))));
        } else {
            assert(seq![t[0]] + u.push((k, 1nat)) =~= t.push((k, 1nat)));
        }
    }
}

/// Connection states that count towards a process's use: established,
/// close-wait and listening.
pub open spec fn triage_state(s: u8) -> bool {
    s == TCP_ESTABLISHED || s == TCP_CLOSE_WAIT || s == TCP_LISTEN
}

/// Per process name, the connections in triage states whose socket has an
/// owner; names in order of first appearance.
pub open spec fn conns_by_name(es: Seq<(u64, u8)>, os: Seq<(u64, u32, Seq<char>)>) -> Seq<(Seq<char>, nat)>
    decreases es.len(),
{
    if es.len() == 0 {
        Seq::empty()
    } else if triage_state(es.last().1) && owner_of(os, es.last().0) is Some {
        bump(conns_by_name(es.drop_last(), os), owner_of(os, es.last().0).unwrap().2)
    } else {
        conns_by_name(es.drop_last(), os)
    }
}

pub open spec fn count_state(es: Seq<(u64, u8)>, s: u8) -> nat
    decreases es.len(),
{
    if es.len() == 0 {
        0
    } else {
        count_state(es.drop_last(), s) + if es.last().1 == s {
            1nat
        } else {
            0nat
        }
    }
}

/// Connection counts by state, and the processes holding most connections.
#[derive(Default)]
pub struct SocketOverviewInfo {
    pub established: usize,
    pub listen: usize,
    pub time_wait: usize,
    pub close_wait: usize,
    pub fin_wait: usize,
    /// (process name, connections), largest first.
    pub top_processes: Vec<(String, u64)>,
}

/// Processes listed in the socket and descriptor tables.
pub const TOP_PROCESSES: usize = 5;

proof fn lemma_count_state_bound(es: Seq<(u64, u8)>, s: u8)
    ensures
        count_state(es, s) <= es.len(),
    decreases es.len(),
{
    if es.len() > 0 {
        lemma_count_state_bound(es.drop_last(), s);
    }
}

proof fn lemma_two_states_bound(es: Seq<(u64, u8)>, a: u8, b: u8)
    requires
        a != b,
    ensures
        count_state(es, a) + count_state(es, b) <= es.len(),
    decreases es.len(),
{
    if es.len() > 0 {
        lemma_two_states_bound(es.drop_last(), a, b);
    }
}

fn name_slot(t: &Vec<(String, u64)>, name: &String) -> (r: usize)
    ensures
        r <= t@.len(),
        forall|q: int| 0 <= q < r ==> (#[trigger] count_views(t@)[q]).0 != name@,
        r < t@.len() ==> count_views(t@)[r as int].0 == name@,
{
    let mut j: usize = 0;
    while j < t.len()
        invariant
            j <= t@.len(),
            forall|q: int| 0 <= q < j ==> (#[trigger] count_views(t@)[q]).0 != name@,
        decreases t.len() - j,
    {
        if t[j].0 == *name {
            return j;
        }
        j = j + 1;
    }
    j
}

/// Counts TCP connections by state and ranks processes by the connections
/// they hold in triage states.
pub fn socket_census(entries: &Vec<(u64, u8)>, owners: &Vec<SocketOwner>) -> (r: SocketOverviewInfo)
    ensures
        r.established == count_state(entries@, TCP_ESTABLISHED),
        r.listen == count_state(entries@, TCP_LISTEN),
        r.time_wait == count_state(entries@, TCP_TIME_WAIT),
        r.close_wait == count_state(entries@, TCP_CLOSE_WAIT),
        r.fin_wait == count_state(entries@, TCP_FIN_WAIT1) + count_state(entries@, TCP_FIN_WAIT2),
        count_views(r.top_processes@) == first_n(
            sort_counts(conns_by_name(entries@, owners@.map_values(|o: SocketOwner| owner_view(o)))),
            TOP_PROCESSES as nat,
        ),
{
    let ghost ov = owners@.map_values(|o: SocketOwner| owner_view(o));
    let mut est: usize = 0;
    let mut lis: usize = 0;
    let mut tw: usize = 0;
    let mut cw: usize = 0;
    let mut fw: usize = 0;
    let mut names: Vec<(String, u64)> = Vec::new();
    let mut i: usize = 0;
    assert(entries@.take(0) =~= Seq::<(u64, u8)>::empty());
    assert(count_views(names@) =~= Seq::<(Seq<char>, nat)>::empty());
    while i < entries.len()
        invariant
            i <= entries@.len(),
            ov == owners@.map_values(|o: SocketOwner| owner_view(o)),
            est == count_state(entries@.take(i as int), TCP_ESTABLISHED),
            lis == count_state(entries@.take(i as int), TCP_LISTEN),
            tw == count_state(entries@.take(i as int), TCP_TIME_WAIT),
            cw == count_state(entries@.take(i as int), TCP_CLOSE_WAIT),
            fw == count_state(entries@.take(i as int), TCP_FIN_WAIT1) + count_state(
                entries@.take(i as int),
                TCP_FIN_WAIT2,
            ),
            count_views(names@) == conns_by_name(entries@.take(i as int), ov),
        decreases entries.len() - i,
    {
        let (inode, st) = entries[i];
        let ghost pre = entries@.take(i as int);
        assert(entries@.take(i + 1).drop_last() =~= pre);
        proof {
            lemma_count_state_bound(pre, TCP_ESTABLISHED);
            lemma_count_state_bound(pre, TCP_LISTEN);
            lemma_count_state_bound(pre, TCP_TIME_WAIT);
            lemma_count_state_bound(pre, TCP_CLOSE_WAIT);
            lemma_two_states_bound(pre, TCP_FIN_WAIT1, TCP_FIN_WAIT2);
        }
        if st == TCP_ESTABLISHED {
            est = est + 1;
        } else if st == TCP_FIN_WAIT1 || st == TCP_FIN_WAIT2 {
            fw = fw + 1;
        } else if st == TCP_TIME_WAIT {
            tw = tw + 1;
        } else if st == TCP_CLOSE_WAIT {
            cw = cw + 1;
        } else if st == TCP_LISTEN {
            lis = lis + 1;
        }
        if st == TCP_ESTABLISHED || st == TCP_CLOSE_WAIT || st == TCP_LISTEN {
            match find_owner(owners, inode) {
                Some(j) => {
                    let name = owners[j].name.clone();
                    let slot = name_slot(&names, &name);
                    proof {
                        lemma_bump_at(count_views(names@), name@, slot as int);
                    }
                    let ghost before = names@;
                    if slot < names.len() {
                        let c = names[slot].1;
                        names[slot].1 = c.saturating_add(1);
                        assert(count_views(names@) =~= count_views(before).update(
                            slot as int,
                            (name@, inc(c as nat)),
                        ));
                    } else {
                        names.push((name, 1));
                        assert(count_views(names@) =~= count_views(before).push((name@, 1nat)));
                    }
                },
                None => {},
            }
        }
        i = i + 1;
    }
    assert(entries@.take(entries@.len() as int) =~= entries@);
    let top = top_counts(&names, TOP_PROCESSES);
    SocketOverviewInfo {
        established: est,
        listen: lis,
        time_wait: tw,
        close_wait: cw,
        fin_wait: fw,
        top_processes: top,
    }
}

/// Per process, its name and how many descriptors it holds.
pub open spec fn descriptor_counts(ps: Seq<ProcessFds>) -> Seq<(Seq<char>, nat)> {
    ps.map_values(|p: ProcessFds| (p.name@, p.links@.len()))
}

/// The descriptor count of each process, in order.
pub fn fd_counts(ps: &Vec<ProcessFds>) -> (r: Vec<(String, u64)>)
    ensures
        crate::counts::count_views(r@) == descriptor_counts(ps@),
{
    let mut r: Vec<(String, u64)> = Vec::new();
    let mut i: usize = 0;
    while i < ps.len()
        invariant
            i <= ps@.len(),
            crate::counts::count_views(r@) == descriptor_counts(ps@.take(i as int)),
        decreases ps.len() - i,
    {
        let n = ps[i].links.len();
        assert((n as u64) as nat == ps@[i as int].links@.len());
        let ghost before = r@;
        r.push((ps[i].name.clone(), n as u64));
        assert(ps@.take(i + 1) =~= ps@.take(i as int).push(ps@[i as int]));
        assert(crate::counts::count_views(r@) =~= crate::counts::count_views(before).push(
            (ps@[i as int].name@, ps@[i as int].links@.len()),
        ));
        assert(descriptor_counts(ps@.take(i + 1)) =~= descriptor_counts(ps@.take(i as int)).push(
            (ps@[i as int].name@, ps@[i as int].links@.len()),
        ));
        i = i + 1;
    }
    assert(ps@.take(ps@.len() as int) =~= ps@);
    r
}

} // verus!
