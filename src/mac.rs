//! Readings of the command-line tools that the collector runs on platforms
//! without a kernel pseudo-filesystem: connection states from the network
//! status tool, per-process bytes from the network top tool, and
//! per-process counts from the open-file and process listers.
use vstd::prelude::*;
use crate::counts::{count_views, first_n, sort_counts, top_counts};
use crate::diskstats::views;
use crate::sockets::{bump, inc, lemma_bump_at};
use crate::text::{
    after_header, fields_spec, has_run, lines_spec, split_fields, split_lines, split_on,
    split_spec, to_chars, contains_str, u64_or_zero, u64_or_zero_of, unsigned_spec, trim_spec,
    trim_str, push_all,
};

verus! {

/// Connection counts by state from the network status tool's output: each
/// line counts once, for the first of `ESTABLISHED`, `LISTEN`, `TIME_WAIT`,
/// `CLOSE_WAIT`, `FIN_WAIT` that it holds.
pub struct StateCounts {
    pub established: usize,
    pub listen: usize,
    pub time_wait: usize,
    pub close_wait: usize,
    pub fin_wait: usize,
}

/// The state a line counts for: 0 for none, else 1 to 5 in the order above.
pub open spec fn line_state(l: Seq<char>) -> int {
    if has_run(l, "ESTABLISHED"@) {
        1
    } else if has_run(l, "LISTEN"@) {
        2
    } else if has_run(l, "TIME_WAIT"@) {
        3
    } else if has_run(l, "CLOSE_WAIT"@) {
        4
    } else if has_run(l, "FIN_WAIT"@) {
        5
    } else {
        0
    }
}

pub open spec fn count_lines(ls: Seq<Seq<char>>, k: int) -> nat
    decreases ls.len(),
{
    if ls.len() == 0 {
        0
    } else {
        count_lines(ls.drop_last(), k) + if line_state(ls.last()) == k {
            1nat
        } else {
            0nat
        }
    }
}

proof fn lemma_count_lines_bound(ls: Seq<Seq<char>>, k: int)
    ensures
        count_lines(ls, k) <= ls.len(),
    decreases ls.len(),
{
    if ls.len() > 0 {
        lemma_count_lines_bound(ls.drop_last(), k);
    }
}

fn line_state_exec(line: &str) -> (r: u8)
    ensures
        r as int == line_state(line@),
{
    let c = to_chars(line);
    if contains_str(&c, &to_chars("ESTABLISHED")) {
        1
    } else if contains_str(&c, &to_chars("LISTEN")) {
        2
    } else if contains_str(&c, &to_chars("TIME_WAIT")) {
        3
    } else if contains_str(&c, &to_chars("CLOSE_WAIT")) {
        4
    } else if contains_str(&c, &to_chars("FIN_WAIT")) {
        5
    } else {
        0
    }
}

/// Counts the connection states of the network status tool's output.
pub fn count_netstat_states(text: &str) -> (r: StateCounts)
    ensures
        r.established == count_lines(lines_spec(text@), 1),
        r.listen == count_lines(lines_spec(text@), 2),
        r.time_wait == count_lines(lines_spec(text@), 3),
        r.close_wait == count_lines(lines_spec(text@), 4),
        r.fin_wait == count_lines(lines_spec(text@), 5),
{
    let lines = split_lines(text);
    let ghost ls = lines_spec(text@);
    let mut r = StateCounts { established: 0, listen: 0, time_wait: 0, close_wait: 0, fin_wait: 0 };
    let mut i: usize = 0;
    while i < lines.len()
        invariant
            i <= lines@.len(),
            lines@.len() == ls.len(),
            forall|q: int| 0 <= q < lines@.len() ==> #[trigger] lines@[q]@ == ls[q],
            r.established == count_lines(ls.take(i as int), 1),
            r.listen == count_lines(ls.take(i as int), 2),
            r.time_wait == count_lines(ls.take(i as int), 3),
            r.close_wait == count_lines(ls.take(i as int), 4),
            r.fin_wait == count_lines(ls.take(i as int), 5),
        decreases lines.len() - i,
    {
        let ghost pre = ls.take(i as int);
        assert(ls.take(i + 1).drop_last() =~= pre);
        assert(ls.take(i + 1).last() == lines@[i as int]@);
        proof {
            lemma_count_lines_bound(pre, 1);
            lemma_count_lines_bound(pre, 2);
            lemma_count_lines_bound(pre, 3);
            lemma_count_lines_bound(pre, 4);
            lemma_count_lines_bound(pre, 5);
        }
        let s = line_state_exec(lines[i].as_str());
        if s == 1 {
            r.established = r.established + 1;
        } else if s == 2 {
            r.listen = r.listen + 1;
        } else if s == 3 {
            r.time_wait = r.time_wait + 1;
        } else if s == 4 {
            r.close_wait = r.close_wait + 1;
        } else if s == 5 {
            r.fin_wait = r.fin_wait + 1;
        }
        i = i + 1;
    }
    assert(ls.take(lines@.len() as int) =~= ls);
    r
}

/// The lines of the open-file lister that hold a connection in a triage
/// state (established, close-wait, listening).
pub open spec fn triage_line(l: Seq<char>) -> bool {
    has_run(l, "ESTABLISHED"@) || has_run(l, "CLOSE_WAIT"@) || has_run(l, "LISTEN"@)
}

/// Per command name (the first field), the triage-state connection lines
/// of the open-file lister's output after its header; names in order of
/// first appearance.
pub open spec fn lsof_counts(ls: Seq<Seq<char>>) -> Seq<(Seq<char>, nat)>
    decreases ls.len(),
{
    if ls.len() == 0 {
        Seq::empty()
    } else {
        let prev = lsof_counts(ls.drop_last());
        let l = ls.last();
        if triage_line(l) && fields_spec(l).len() > 0 {
            bump(prev, fields_spec(l)[0])
        } else {
            prev
        }
    }
}

fn slot_of(t: &Vec<(String, u64)>, name: &String) -> (r: usize)
    ensures
        r <= t@.len(),
        forall|q: int| 0 <= q < r ==> (#[trigger] count_views(t@)[q]).0 != name@,
        r < t@.len() ==> count_views(t@)[r as int].0 == name@,
{
    let mut j: usize = 0;
    while j < t.len()
        invariant
            j <= t@.len(),
            forall|q: int| 0 <= q < j ==> (#[trigger] count_views(t@)[q]).0 != name@,
        decreases t.len() - j,
    {
        if t[j].0 == *name {
            return j;
        }
        j = j + 1;
    }
    j
}

fn bump_exec(t: &mut Vec<(String, u64)>, name: String)
    ensures
        count_views(final(t)@) == bump(count_views(old(t)@), name@),
{
    let slot = slot_of(t, &name);
    proof {
        lemma_bump_at(count_views(t@), name@, slot as int);
    }
    let ghost before = t@;
    if slot < t.len() {
        let c = t[slot].1;
        t[slot].1 = c.saturating_add(1);
        assert(count_views(t@) =~= count_views(before).update(slot as int, (name@, inc(c as nat))));
    } else {
        let ghost nv = name@;
        t.push((name, 1));
        assert(count_views(t@) =~= count_views(before).push((nv, 1nat)));
    }
}

fn is_triage_line(line: &str) -> (r: bool)
    ensures
        r == triage_line(line@),
{
    let c = to_chars(line);
    contains_str(&c, &to_chars("ESTABLISHED")) || contains_str(&c, &to_chars("CLOSE_WAIT"))
        || contains_str(&c, &to_chars("LISTEN"))
}

/// The five commands holding most triage-state connections, from the
/// open-file lister's network listing.
pub fn lsof_connection_top(text: &str) -> (r: Vec<(String, u64)>)
    ensures
        count_views(r@) == first_n(
            sort_counts(lsof_counts(after_header(lines_spec(text@), 1))),
            crate::sockets::TOP_PROCESSES as nat,
        ),
{
    let lines = split_lines(text);
    let ghost ls = lines_spec(text@);
    let ghost body = after_header(ls, 1);
    let mut t: Vec<(String, u64)> = Vec::new();
    assert(count_views(t@) =~= Seq::<(Seq<char>, nat)>::empty());
    if lines.len() == 0 {
        assert(body =~= Seq::<Seq<char>>::empty());
        return top_counts(&t, crate::sockets::TOP_PROCESSES);
    }
    let mut i: usize = 1;
    assert(body.take(0) =~= Seq::<Seq<char>>::empty());
    while i < lines.len()
        invariant
            1 <= i <= lines@.len(),
            lines@.len() == ls.len(),
            body == ls.skip(1),
            forall|q: int| 0 <= q < lines@.len() ==> #[trigger] lines@[q]@ == ls[q],
            count_views(t@) == lsof_counts(body.take(i - 1)),
        decreases lines.len() - i,
    {
        assert(body.take(i as int).drop_last() =~= body.take(i - 1));
        assert(body.take(i as int).last() == lines@[i as int]@);
        if is_triage_line(lines[i].as_str()) {
            let f = split_fields(lines[i].as_str());
            if f.len() > 0 {
                bump_exec(&mut t, f[0].clone());
            }
        }
        i = i + 1;
    }
    assert(body.take(lines@.len() - 1) =~= body);
    top_counts(&t, crate::sockets::TOP_PROCESSES)
}

/// One line of `count name` pairs, as a counting pipeline prints them.
pub open spec fn count_line(l: Seq<char>) -> Option<(Seq<char>, nat)> {
    let f = fields_spec(trim_spec(l));
    if f.len() >= 2 {
        Some((f[1], u64_or_zero(f[0])))
    } else {
        None
    }
}

pub open spec fn count_lines_of(ls: Seq<Seq<char>>) -> Seq<(Seq<char>, nat)>
    decreases ls.len(),
{
    if ls.len() == 0 {
        Seq::empty()
    } else {
        match count_line(ls.last()) {
            Some(e) => count_lines_of(ls.drop_last()).push(e),
            None => count_lines_of(ls.drop_last()),
        }
    }
}

/// The (name, count) pairs of a counting pipeline's output, in order.
pub fn parse_count_lines(text: &str) -> (r: Vec<(String, u64)>)
    ensures
        count_views(r@) == count_lines_of(lines_spec(text@)),
{
    let lines = split_lines(text);
    let ghost ls = lines_spec(text@);
    let mut r: Vec<(String, u64)> = Vec::new();
    let mut i: usize = 0;
    assert(count_views(r@) =~= Seq::<(Seq<char>, nat)>::empty());
    while i < lines.len()
        invariant
            i <= lines@.len(),
            lines@.len() == ls.len(),
            forall|q: int| 0 <= q < lines@.len() ==> #[trigger] lines@[q]@ == ls[q],
            count_views(r@) == count_lines_of(ls.take(i as int)),
        decreases lines.len() - i,
    {
        assert(ls.take(i + 1).drop_last() =~= ls.take(i as int));
        assert(ls.take(i + 1).last() == lines@[i as int]@);
        let f = split_fields(trim_str(lines[i].as_str()));
        if f.len() >= 2 {
            let c = u64_or_zero_of(f[0].as_str());
            let ghost before = r@;
            r.push((f[1].clone(), c));
            assert(count_views(r@) =~= count_views(before).push((f@[1]@, c as nat)));
        }
        i = i + 1;
    }
    assert(ls.take(lines@.len() as int) =~= ls);
    r
}

/// The pid of a `name.pid` field: the digits after its last `.`.
pub open spec fn pid_after_dot(s: Seq<char>) -> Option<u32> {
    match crate::swarm::last_index_of(s, '.') {
        Some(k) => match unsigned_spec(s.skip(k + 1), u32::MAX as nat) {
            Some(v) => Some(v as u32),
            None => None,
        },
        None => None,
    }
}

/// One line of the network top tool's CSV output: `time,name.pid,...,in,out`.
pub open spec fn nettop_line(l: Seq<char>) -> Option<(u32, u64, u64)> {
    let p = split_spec(l, ',');
    if p.len() >= 6 {
        match pid_after_dot(p[1]) {
            Some(pid) => Some((pid, u64_or_zero(p[4]) as u64, u64_or_zero(p[5]) as u64)),
            None => None,
        }
    } else {
        None
    }
}

/// `m` with the entry of `pid` replaced, or `pid` appended, as a map
/// insert does.
pub open spec fn put(m: Seq<(u32, u64, u64)>, e: (u32, u64, u64)) -> Seq<(u32, u64, u64)>
    decreases m.len(),
{
    if m.len() == 0 {
        seq![e]
    } else if m[0].0 == e.0 {
        seq![e] + m.drop_first()
    } else {
        seq![m[0]] + put(m.drop_first(), e)
    }
}

pub open spec fn nettop_entries(ls: Seq<Seq<char>>) -> Seq<(u32, u64, u64)>
    decreases ls.len(),
{
    if ls.len() == 0 {
        Seq::empty()
    } else {
        match nettop_line(ls.last()) {
            Some(e) => put(nettop_entries(ls.drop_last()), e),
            None => nettop_entries(ls.drop_last()),
        }
    }
}

proof fn lemma_put_at(m: Seq<(u32, u64, u64)>, e: (u32, u64, u64), j: int)
    requires
        0 <= j <= m.len(),
        forall|q: int| 0 <= q < j ==> (#[trigger] m[q]).0 != e.0,
        j < m.len() ==> m[j].0 == e.0,
    ensures
        put(m, e) == if j < m.len() {
            m.update(j, e)
        } else {
            m.push(e)
        },
    decreases m.len(),
{
    if m.len() == 0 {
        assert(m.push(e) =~= seq![e]);
    } else if j == 0 {
        assert(seq![e] + m.drop_first() =~= m.update(0, e));
    } else {
        let u = m.drop_first();
        assert forall|q: int| 0 <= q < j - 1 implies (#[trigger] u[q]).0 != e.0 by {
            assert(u[q] == m[q + 1]);
        }
        lemma_put_at(u, e, j - 1);
        if j < m.len() {
            assert(seq![m[0]] + u.update(j - 1, e) =~= m.update(j, e));
        } else {
            assert(seq![m[0]] + u.push(e) =~= m.push(e));
        }
    }
}

fn nettop_line_exec(line: &str) -> (r: Option<(u32, u64, u64)>)
    ensures
        r == nettop_line(line@),
{
    let p = split_on(line, ',');
    if p.len() < 6 {
        return None;
    }
    let c = to_chars(p[1].as_str());
    let mut k: usize = c.len();
    assert(c@.take(k as int) =~= c@);
    while k > 0 && c[k - 1] != '.'
        invariant
            c@ == p@[1]@,
            k <= c@.len(),
            crate::swarm::last_index_of(c@, '.') == crate::swarm::last_index_of(c@.take(k as int), '.'),
        decreases k,
    {
        assert(c@.take(k as int).drop_last() =~= c@.take(k - 1));
        k = k - 1;
    }
    if k == 0 {
        assert(c@.take(0) =~= Seq::<char>::empty());
        return None;
    }
    assert(c@.take(k as int).last() == '.');
    let n = c.len();
    let tail = p[1].as_str().substring_char(k, n);
    assert(tail@ =~= c@.skip(k as int));
    match crate::text::parse_u32(tail) {
        Some(pid) => {
            let bin = u64_or_zero_of(p[4].as_str());
            let bout = u64_or_zero_of(p[5].as_str());
            Some((pid, bin, bout))
        },
        None => None,
    }
}

/// The per-process (pid, received, sent) byte counts of the network top
/// tool's CSV output after its header; the last line for a pid counts.
pub fn parse_nettop(text: &str) -> (r: Vec<(u32, u64, u64)>)
    ensures
        r@ == nettop_entries(after_header(lines_spec(text@), 1)),
{
    let lines = split_lines(text);
    let ghost ls = lines_spec(text@);
    let ghost body = after_header(ls, 1);
    let mut m: Vec<(u32, u64, u64)> = Vec::new();
    if lines.len() == 0 {
        assert(body =~= Seq::<Seq<char>>::empty());
        return m;
    }
    let mut i: usize = 1;
    assert(body.take(0) =~= Seq::<Seq<char>>::empty());
    while i < lines.len()
        invariant
            1 <= i <= lines@.len(),
            lines@.len() == ls.len(),
            body == ls.skip(1),
            forall|q: int| 0 <= q < lines@.len() ==> #[trigger] lines@[q]@ == ls[q],
            m@ == nettop_entries(body.take(i - 1)),
        decreases lines.len() - i,
    {
        assert(body.take(i as int).drop_last() =~= body.take(i - 1));
        assert(body.take(i as int).last() == lines@[i as int]@);
        match nettop_line_exec(lines[i].as_str()) {
            Some(e) => {
                let mut j: usize = 0;
                while j < m.len() && m[j].0 != e.0
                    invariant
                        j <= m@.len(),
                        forall|q: int| 0 <= q < j ==> (#[trigger] m@[q]).0 != e.0,
                    decreases m.len() - j,
                {
                    j = j + 1;
                }
                proof {
                    lemma_put_at(m@, e, j as int);
                }
                if j < m.len() {
                    m[j] = e;
                } else {
                    m.push(e);
                }
            },
            None => {},
        }
        i = i + 1;
    }
    assert(body.take(lines@.len() - 1) =~= body);
    m
}

/// One line of the process lister's `command switches` output: the last
/// field as the count, the fields before it, joined by spaces, as the name.
pub open spec fn csw_line(l: Seq<char>) -> Option<(Seq<char>, nat)> {
    let f = fields_spec(trim_spec(l));
    if f.len() >= 2 && unsigned_spec(f.last(), u64::MAX as nat) is Some {
        Some((crate::swarm::joined(f.drop_last(), " "@), unsigned_spec(f.last(), u64::MAX as nat).unwrap()))
    } else {
        None
    }
}

pub open spec fn csw_lines(ls: Seq<Seq<char>>) -> Seq<(Seq<char>, nat)>
    decreases ls.len(),
{
    if ls.len() == 0 {
        Seq::empty()
    } else {
        match csw_line(ls.last()) {
            Some(e) => csw_lines(ls.drop_last()).push(e),
            None => csw_lines(ls.drop_last()),
        }
    }
}

/// Context switch counts per process from the process lister's output
/// after its header (the caller keeps the non-zero ones and totals them).
pub fn parse_ps_switches(text: &str) -> (r: Vec<(String, u64)>)
    ensures
        count_views(r@) == csw_lines(after_header(lines_spec(text@), 1)),
{
    let lines = split_lines(text);
    let ghost ls = lines_spec(text@);
    let ghost body = after_header(ls, 1);
    let mut r: Vec<(String, u64)> = Vec::new();
    assert(count_views(r@) =~= Seq::<(Seq<char>, nat)>::empty());
    if lines.len() == 0 {
        assert(body =~= Seq::<Seq<char>>::empty());
        return r;
    }
    let mut i: usize = 1;
    assert(body.take(0) =~= Seq::<Seq<char>>::empty());
    while i < lines.len()
        invariant
            1 <= i <= lines@.len(),
            lines@.len() == ls.len(),
            body == ls.skip(1),
            forall|q: int| 0 <= q < lines@.len() ==> #[trigger] lines@[q]@ == ls[q],
            count_views(r@) == csw_lines(body.take(i - 1)),
        decreases lines.len() - i,
    {
        assert(body.take(i as int).drop_last() =~= body.take(i - 1));
        assert(body.take(i as int).last() == lines@[i as int]@);
        let f = split_fields(trim_str(lines[i].as_str()));
        let n = f.len();
        assert(views(f@) =~= fields_spec(trim_spec(lines@[i as int]@)));
        if n >= 2 {
            match crate::text::parse_u64(f[n - 1].as_str()) {
                Some(c) => {
                    let mut name = String::new();
                    let mut k: usize = 0;
                    let ghost fv = views(f@);
                    let ghost head = fv.drop_last();
                    assert(head.take(0) =~= Seq::<Seq<char>>::empty());
                    while k < n - 1
                        invariant
                            n == f@.len(),
                            n >= 2,
                            fv == views(f@),
                            head == fv.drop_last(),
                            k <= n - 1,
                            name@ == crate::swarm::joined(head.take(k as int), " "@),
                        decreases n - 1 - k,
                    {
                        assert(head.take(k + 1).drop_last() =~= head.take(k as int));
                        assert(head[k as int] == f@[k as int]@);
                        if k > 0 {
                            push_all(&mut name, " ");
                        }
                        push_all(&mut name, f[k].as_str());
                        proof {
                            if k == 0 {
                                assert(head.take(1) =~= seq![head[0]]);
                            }
                        }
                        assert(name@ =~= crate::swarm::joined(head.take(k + 1), " "@));
                        k = k + 1;
                    }
                    assert(head.take(n - 1) =~= head);
                    let ghost before = r@;
                    let ghost nv = name@;
                    r.push((name, c));
                    assert(count_views(r@) =~= count_views(before).push((nv, c as nat)));
                },
                None => {},
            }
        }
        i = i + 1;
    }
    assert(body.take(lines@.len() - 1) =~= body);
    r
}

} // verus!
