//! Disk activity from the kernel's per-device I/O counters.
use vstd::prelude::*;
use crate::text::{
    fields_spec, has_char, lines_spec, split_fields, split_lines, starts_with, to_chars,
    unsigned_spec,
};

verus! {

pub open spec fn ascii_alpha(c: char) -> bool {
    ('a' <= c && c <= 'z') || ('A' <= c && c <= 'Z')
}

pub open spec fn has_prefix(s: Seq<char>, p: Seq<char>) -> bool {
    p.len() <= s.len() && s.take(p.len() as int) == p
}

/// Device names of whole disks rather than partitions: `sda`, `nvme0n1`,
/// `vda`, `xvda`, `mmcblk0` and device-mapper `dm-N`.
pub open spec fn whole_disk_name(n: Seq<char>) -> bool {
    ||| (has_prefix(n, "sd"@) && n.len() == 3 && ascii_alpha(n[2]))
    ||| (has_prefix(n, "nvme"@) && n.contains('n') && !n.contains('p'))
    ||| (has_prefix(n, "vd"@) && n.len() == 3 && ascii_alpha(n[2]))
    ||| (has_prefix(n, "xvd"@) && n.len() == 4 && ascii_alpha(n[3]))
    ||| (has_prefix(n, "mmcblk"@) && !n.contains('p'))
    ||| has_prefix(n, "dm-"@)
}

/// A block device is one the kernel lists under its block-device directory,
/// or, where that list lacks it, one whose name reads as a whole disk.
pub open spec fn block_device(n: Seq<char>, listed: Seq<Seq<char>>) -> bool {
    listed.contains(n) || whole_disk_name(n)
}

pub open spec fn views(v: Seq<String>) -> Seq<Seq<char>> {
    v.map_values(|s: String| s@)
}

fn listed_in(name: &str, listed: &Vec<String>) -> (r: bool)
    ensures
        r == views(listed@).contains(name@),
{
    let mut i: usize = 0;
    while i < listed.len()
        invariant
            i <= listed@.len(),
            forall|q: int| 0 <= q < i ==> listed@[q]@ != name@,
        decreases listed.len() - i,
    {
        if crate::text::str_eq(listed[i].as_str(), name) {
            assert(views(listed@)[i as int] == name@);
            return true;
        }
        i = i + 1;
    }
    proof {
        if views(listed@).contains(name@) {
            let q = choose|q: int| 0 <= q < views(listed@).len() && views(listed@)[q] == name@;
            assert(listed@[q]@ == name@);
        }
    }
    false
}

fn is_ascii_alpha(c: char) -> (r: bool)
    ensures
        r == ascii_alpha(c),
{
    ('a' <= c && c <= 'z') || ('A' <= c && c <= 'Z')
}

/// Whether `name` is a whole block device; `listed` holds the names the
/// kernel lists as block devices (empty where that list cannot be read).
pub fn is_block_device(name: &str, listed: &Vec<String>) -> (r: bool)
    ensures
        r == block_device(name@, views(listed@)),
{
    if listed_in(name, listed) {
        return true;
    }
    let c = to_chars(name);
    let n = c.len();
    proof {
        reveal_strlit("sd");
        reveal_strlit("nvme");
        reveal_strlit("vd");
        reveal_strlit("xvd");
        reveal_strlit("mmcblk");
        reveal_strlit("dm-");
    }
    if starts_with(name, "sd") && n == 3 && is_ascii_alpha(c[2]) {
        return true;
    }
    if starts_with(name, "nvme") && has_char(&c, 'n') && !has_char(&c, 'p') {
        return true;
    }
    if starts_with(name, "vd") && n == 3 && is_ascii_alpha(c[2]) {
        return true;
    }
    if starts_with(name, "xvd") && n == 4 && is_ascii_alpha(c[3]) {
        return true;
    }
    if starts_with(name, "mmcblk") && !has_char(&c, 'p') {
        return true;
    }
    starts_with(name, "dm-")
}

/// The device and its I/O time counter (milliseconds) from one line of the
/// disk statistics table: field 3 is the name, field 13 the counter.
pub open spec fn disk_line(l: Seq<char>, listed: Seq<Seq<char>>) -> Option<(Seq<char>, nat)> {
    let f = fields_spec(l);
    if f.len() >= 13 && block_device(f[2], listed) && unsigned_spec(f[12], u64::MAX as nat) is Some {
        Some((f[2], unsigned_spec(f[12], u64::MAX as nat).unwrap()))
    } else {
        None
    }
}

/// The block devices of the table's lines, in order.
pub open spec fn disk_entries(ls: Seq<Seq<char>>, listed: Seq<Seq<char>>) -> Seq<(Seq<char>, nat)>
    decreases ls.len(),
{
    if ls.len() == 0 {
        Seq::empty()
    } else {
        match disk_line(ls.last(), listed) {
            Some(d) => disk_entries(ls.drop_last(), listed).push(d),
            None => disk_entries(ls.drop_last(), listed),
        }
    }
}

pub open spec fn tick_views(v: Seq<(String, u64)>) -> Seq<(Seq<char>, nat)> {
    v.map_values(|p: (String, u64)| (p.0@, p.1 as nat))
}

/// Reads the per-device I/O time counters of whole block devices from the
/// kernel's disk statistics table; malformed lines are skipped.
pub fn parse_diskstats(content: &str, listed: &Vec<String>) -> (r: Vec<(String, u64)>)
    ensures
        tick_views(r@) == disk_entries(lines_spec(content@), views(listed@)),
{
    let lines = split_lines(content);
    let ghost ls = lines_spec(content@);
    let mut r: Vec<(String, u64)> = Vec::new();
    let mut i: usize = 0;
    while i < lines.len()
        invariant
            i <= lines@.len(),
            lines@.len() == ls.len(),
            forall|q: int| 0 <= q < lines@.len() ==> #[trigger] lines@[q]@ == ls[q],
            tick_views(r@) == disk_entries(ls.take(i as int), views(listed@)),
        decreases lines.len() - i,
    {
        let f = split_fields(lines[i].as_str());
        assert(ls.take(i + 1).drop_last() =~= ls.take(i as int));
        assert(ls.take(i + 1).last() == lines@[i as int]@);
        if f.len() >= 13 && is_block_device(f[2].as_str(), listed) {
            match crate::text::parse_u64(f[12].as_str()) {
                Some(ticks) => {
                    let name = f[2].clone();
                    r.push((name, ticks));
                    assert(tick_views(r@) =~= disk_entries(
                        ls.take(i as int),
                        views(listed@),
                    ).push((f@[2]@, ticks as nat)));
                },
                None => {},
            }
        }
        i = i + 1;
    }
    assert(ls.take(lines@.len() as int) =~= ls);
    r
}

/// The first counter recorded for device `name`.
pub open spec fn ticks_of(prev: Seq<(Seq<char>, nat)>, name: Seq<char>) -> Option<nat>
    decreases prev.len(),
{
    if prev.len() == 0 {
        None
    } else if prev[0].0 == name {
        Some(prev[0].1)
    } else {
        ticks_of(prev.drop_first(), name)
    }
}

/// Busy share of one device in hundredths of a percent over `elapsed`
/// milliseconds, held at 100%: 0 where it was not seen before.
pub open spec fn device_busy(prev: Seq<(Seq<char>, nat)>, d: (Seq<char>, nat), elapsed: nat) -> nat {
    match ticks_of(prev, d.0) {
        Some(p) => {
            let delta: nat = if d.1 >= p {
                (d.1 - p) as nat
            } else {
                0
            };
            let b = delta * 10000 / elapsed;
            if b > 10000 {
                10000
            } else {
                b
            }
        },
        None => 0,
    }
}

/// The busiest device's share.
pub open spec fn max_busy(prev: Seq<(Seq<char>, nat)>, cur: Seq<(Seq<char>, nat)>, elapsed: nat) -> nat
    decreases cur.len(),
{
    if cur.len() == 0 {
        0
    } else {
        let m = max_busy(prev, cur.drop_last(), elapsed);
        let b = device_busy(prev, cur.last(), elapsed);
        if b > m {
            b
        } else {
            m
        }
    }
}

/// The busy share never exceeds 100%.
pub proof fn lemma_busy_at_most_full(prev: Seq<(Seq<char>, nat)>, cur: Seq<(Seq<char>, nat)>, elapsed: nat)
    ensures
        max_busy(prev, cur, elapsed) <= 10000,
    decreases cur.len(),
{
    if cur.len() > 0 {
        lemma_busy_at_most_full(prev, cur.drop_last(), elapsed);
    }
}

/// Remembers the previous reading of the disk counters.
pub struct DiskBusyTracker {
    pub prev_ticks: Vec<(String, u64)>,
    pub prev_time_ms: Option<u64>,
}

fn ticks_lookup(prev: &Vec<(String, u64)>, name: &String) -> (r: Option<u64>)
    ensures
        match r {
            Some(v) => ticks_of(tick_views(prev@), name@) == Some(v as nat),
            None => ticks_of(tick_views(prev@), name@) is None,
        },
{
    let mut i: usize = 0;
    assert(tick_views(prev@).skip(0) =~= tick_views(prev@));
    while i < prev.len()
        invariant
            i <= prev@.len(),
            ticks_of(tick_views(prev@), name@) == ticks_of(tick_views(prev@).skip(i as int), name@),
        decreases prev.len() - i,
    {
        assert(tick_views(prev@).skip(i as int).drop_first() =~= tick_views(prev@).skip(i + 1));
        if prev[i].0 == *name {
            return Some(prev[i].1);
        }
        i = i + 1;
    }
    None
}

impl DiskBusyTracker {
    /// No reading yet.
    pub fn new() -> (r: Self)
        ensures
            r.prev_ticks@.len() == 0,
            r.prev_time_ms is None,
    {
        DiskBusyTracker { prev_ticks: Vec::new(), prev_time_ms: None }
    }

    /// Takes a new reading at `now_ms` and returns the busiest device's share
    /// of the time since the previous one, in hundredths of a percent held at
    /// 100%: 0 on the first reading, when no time passed, or when no device
    /// was read.
    pub fn sample(&mut self, now_ms: u64, current: Vec<(String, u64)>) -> (busy: u64)
        ensures
            busy == match old(self).prev_time_ms {
                None => 0,
                Some(t) => if now_ms <= t || current@.len() == 0 {
                    0
                } else {
                    max_busy(tick_views(old(self).prev_ticks@), tick_views(current@), (now_ms - t) as nat)
                },
            },
            final(self).prev_ticks@ == current@,
            final(self).prev_time_ms == Some(now_ms),
    {
        let mut result: u64 = 0;
        match self.prev_time_ms {
            Some(t) => {
                if now_ms > t && current.len() > 0 {
                    let elapsed = now_ms - t;
                    let ghost pv = tick_views(self.prev_ticks@);
                    let ghost cv = tick_views(current@);
                    let mut i: usize = 0;
                    while i < current.len()
                        invariant
                            i <= current@.len(),
                            cv == tick_views(current@),
                            pv == tick_views(self.prev_ticks@),
                            elapsed > 0,
                            result as nat == max_busy(pv, cv.take(i as int), elapsed as nat),
                            result <= 10000,
                        decreases current.len() - i,
                    {
                        assert(cv.take(i + 1).drop_last() =~= cv.take(i as int));
                        let b: u64 = match ticks_lookup(&self.prev_ticks, &current[i].0) {
                            Some(p) => {
                                let cur = current[i].1;
                                let delta: u64 = if cur >= p {
                                    cur - p
                                } else {
                                    0
                                };
                                let x: u128 = (delta as u128) * 10000 / (elapsed as u128);
                                if x > 10000 {
                                    10000
                                } else {
                                    x as u64
                                }
                            },
                            None => 0,
                        };
                        if b > result {
                            result = b;
                        }
                        i = i + 1;
                    }
                    assert(cv.take(current@.len() as int) =~= cv);
                }
            },
            None => {},
        }
        self.prev_ticks = current;
        self.prev_time_ms = Some(now_ms);
        result
    }
}

} // verus!
