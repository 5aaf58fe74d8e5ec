//! Container rows as the container list shows them: short ids, names,
//! uptimes, port mappings and addresses.
use vstd::prelude::*;
use crate::text::{dec_digits, push_all, push_decimal, push_char};

verus! {

/// Characters of an id shown.
pub const SHORT_ID_LEN: usize = 12;

/// The first twelve characters of a container id.
pub open spec fn short_id_spec(id: Seq<char>) -> Seq<char> {
    if id.len() > SHORT_ID_LEN {
        id.take(SHORT_ID_LEN as int)
    } else {
        id
    }
}

pub fn short_id(id: &str) -> (r: String)
    ensures
        r@ == short_id_spec(id@),
{
    let n = id.unicode_len();
    if n > SHORT_ID_LEN {
        String::from_str(id.substring_char(0, SHORT_ID_LEN))
    } else {
        String::from_str(id)
    }
}

/// `s` without its leading `/` characters.
pub open spec fn strip_slashes(s: Seq<char>) -> Seq<char>
    decreases s.len(),
{
    if s.len() > 0 && s[0] == '/' {
        strip_slashes(s.drop_first())
    } else {
        s
    }
}

/// The name shown: the first of the daemon's names without leading `/`,
/// else the short id.
pub open spec fn display_name(names: Seq<String>, short: Seq<char>) -> Seq<char> {
    if names.len() > 0 {
        strip_slashes(names[0]@)
    } else {
        short
    }
}

pub fn container_name(names: &Vec<String>, short: &str) -> (r: String)
    ensures
        r@ == display_name(names@, short@),
{
    if names.len() == 0 {
        return String::from_str(short);
    }
    let s = names[0].as_str();
    let n = s.unicode_len();
    let mut k: usize = 0;
    assert(s@.skip(0) =~= s@);
    while k < n && s.get_char(k) == '/'
        invariant
            n == s@.len(),
            k <= n,
            strip_slashes(s@) == strip_slashes(s@.skip(k as int)),
        decreases n - k,
    {
        assert(s@.skip(k as int).drop_first() =~= s@.skip(k + 1));
        k = k + 1;
    }
    let rest = s.substring_char(k, n);
    assert(rest@ =~= s@.skip(k as int));
    String::from_str(rest)
}

/// How long a container has run, from its creation time and now (seconds
/// since the epoch): seconds, minutes, hours and minutes, or days and
/// hours; `unknown` without a creation time.
pub open spec fn uptime_text(created: i64, now: i64) -> Seq<char> {
    if created == 0 {
        "unknown"@
    } else {
        let secs: nat = if now > created {
            (now - created) as nat
        } else {
            0
        };
        if secs < 60 {
            dec_digits(secs) + "s"@
        } else if secs < 3600 {
            dec_digits(secs / 60) + "m"@
        } else if secs < 86400 {
            dec_digits(secs / 3600) + "h "@ + dec_digits((secs % 3600) / 60) + "m"@
        } else {
            dec_digits(secs / 86400) + "d "@ + dec_digits((secs % 86400) / 3600) + "h"@
        }
    }
}

pub fn format_uptime(created: i64, now: i64) -> (r: String)
    ensures
        r@ == uptime_text(created, now),
{
    if created == 0 {
        return String::from_str("unknown");
    }
    let secs: u64 = if now > created {
        (now as i128 - created as i128) as u64
    } else {
        0
    };
    let mut r = String::new();
    if secs < 60 {
        push_decimal(&mut r, secs);
        push_all(&mut r, "s");
    } else if secs < 3600 {
        push_decimal(&mut r, secs / 60);
        push_all(&mut r, "m");
    } else if secs < 86400 {
        push_decimal(&mut r, secs / 3600);
        push_all(&mut r, "h ");
        push_decimal(&mut r, (secs % 3600) / 60);
        push_all(&mut r, "m");
    } else {
        push_decimal(&mut r, secs / 86400);
        push_all(&mut r, "d ");
        push_decimal(&mut r, (secs % 86400) / 3600);
        push_all(&mut r, "h");
    }
    assert(r@ =~= uptime_text(created, now));
    r
}

/// One published or internal port of a container.
pub struct PortMapping {
    pub private_port: u16,
    pub public_port: Option<u16>,
    pub ip: Option<String>,
    /// `tcp` where the daemon gives no protocol.
    pub proto: Option<String>,
}

pub open spec fn proto_text(p: PortMapping) -> Seq<char> {
    match p.proto {
        Some(t) => t@,
        None => "tcp"@,
    }
}

/// `ip:public->private/proto` for a published port, else `private/proto`.
pub open spec fn port_text(p: PortMapping) -> Seq<char> {
    match (p.ip, p.public_port) {
        (Some(ip), Some(pp)) => ip@ + seq![':'] + dec_digits(pp as nat) + "->"@ + dec_digits(
            p.private_port as nat,
        ) + seq!['/'] + proto_text(p),
        _ => dec_digits(p.private_port as nat) + seq!['/'] + proto_text(p),
    }
}

/// The ports, comma-separated.
pub open spec fn ports_text(ps: Seq<PortMapping>) -> Seq<char>
    decreases ps.len(),
{
    if ps.len() == 0 {
        Seq::empty()
    } else if ps.len() == 1 {
        port_text(ps[0])
    } else {
        ports_text(ps.drop_last()) + ", "@ + port_text(ps.last())
    }
}

fn push_port(s: &mut String, p: &PortMapping)
    ensures
        final(s)@ == old(s)@ + port_text(*p),
{
    let ghost start = s@;
    match (&p.ip, p.public_port) {
        (Some(ip), Some(pp)) => {
            push_all(s, ip.as_str());
            push_char(s, ':');
            push_decimal(s, pp as u64);
            push_all(s, "->");
            push_decimal(s, p.private_port as u64);
        },
        _ => {
            push_decimal(s, p.private_port as u64);
        },
    }
    push_char(s, '/');
    match &p.proto {
        Some(t) => push_all(s, t.as_str()),
        None => push_all(s, "tcp"),
    }
    assert(s@ =~= start + port_text(*p));
}

/// The container's ports as the list shows them.
pub fn format_ports(ports: &Vec<PortMapping>) -> (r: String)
    ensures
        r@ == ports_text(ports@),
{
    let mut r = String::new();
    let mut i: usize = 0;
    assert(ports@.take(0) =~= Seq::<PortMapping>::empty());
    while i < ports.len()
        invariant
            i <= ports@.len(),
            r@ == ports_text(ports@.take(i as int)),
        decreases ports.len() - i,
    {
        assert(ports@.take(i + 1).drop_last() =~= ports@.take(i as int));
        if i > 0 {
            push_all(&mut r, ", ");
        }
        push_port(&mut r, &ports[i]);
        proof {
            if i == 0 {
                assert(ports@.take(1) =~= seq![ports@[0]]);
            }
        }
        assert(r@ =~= ports_text(ports@.take(i + 1)));
        i = i + 1;
    }
    assert(ports@.take(ports@.len() as int) =~= ports@);
    r
}

/// The first non-empty address of the container's networks, else empty.
pub open spec fn first_address(ips: Seq<Option<String>>) -> Seq<char>
    decreases ips.len(),
{
    if ips.len() == 0 {
        Seq::empty()
    } else {
        match ips[0] {
            Some(ip) => if ip@.len() > 0 {
                ip@
            } else {
                first_address(ips.drop_first())
            },
            None => first_address(ips.drop_first()),
        }
    }
}

pub fn extract_ip(ips: &Vec<Option<String>>) -> (r: String)
    ensures
        r@ == first_address(ips@),
{
    let mut i: usize = 0;
    assert(ips@.skip(0) =~= ips@);
    while i < ips.len()
        invariant
            i <= ips@.len(),
            first_address(ips@) == first_address(ips@.skip(i as int)),
        decreases ips.len() - i,
    {
        assert(ips@.skip(i as int).drop_first() =~= ips@.skip(i + 1));
        match &ips[i] {
            Some(ip) => {
                if ip.as_str().unicode_len() > 0 {
                    return ip.clone();
                }
            },
            None => {},
        }
        i = i + 1;
    }
    assert(ips@.skip(ips@.len() as int) =~= Seq::<Option<String>>::empty());
    String::new()
}

} // verus!
