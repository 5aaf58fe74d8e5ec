//! Text shaping for display: truncation, byte rates, digit grouping and the
//! replica-count check of cluster services.
use vstd::prelude::*;
use vstd::utf8::is_char_boundary;
use vstd::string::*;
use crate::text::{
    dec_digits, digit_char, digit_to_char, push_all, push_char, push_decimal,
    split_on, split_spec, trim_spec, trim_str, parse_u32, unsigned_spec,
};

verus! {

/// The first `max_len` characters of `s` where it is longer, with the last
/// three of them replaced by `...`.
pub open spec fn truncated(s: Seq<char>, max_len: nat) -> Seq<char> {
    if s.len() <= max_len {
        s
    } else {
        let keep: nat = if max_len >= 3 {
            (max_len - 3) as nat
        } else {
            0
        };
        s.take(keep as int) + seq!['.', '.', '.']
    }
}

/// Truncates `s` to at most `max_len` characters, marking a cut with `...`.
pub fn truncate_str(s: &str, max_len: usize) -> (r: String)
    ensures
        r@ == truncated(s@, max_len as nat),
{
    let count = s.unicode_len();
    if count <= max_len {
        String::from_str(s)
    } else {
        let keep = max_len.saturating_sub(3);
        let head = s.substring_char(0, keep);
        let mut r = String::from_str(head);
        push_char(&mut r, '.');
        push_char(&mut r, '.');
        push_char(&mut r, '.');
        assert(r@ =~= truncated(s@, max_len as nat));
        r
    }
}

/// The largest char boundary of `b` that is no larger than `end`.
pub open spec fn boundary_at_most(b: Seq<u8>, end: int) -> int
    decreases end,
{
    if end <= 0 || is_char_boundary(b, end) {
        if end <= 0 { 0 } else { end }
    } else {
        boundary_at_most(b, end - 1)
    }
}

/// The bytes of `s` cut to at most `max_len`, backing off to the last char
/// boundary.
pub open spec fn safe_truncated(b: Seq<u8>, max_len: nat) -> Seq<u8> {
    if b.len() <= max_len {
        b
    } else {
        b.take(boundary_at_most(b, max_len as int))
    }
}

/// Cuts `s` to at most `max_len` bytes without splitting a character.
pub fn safe_truncate(s: &str, max_len: usize) -> (r: &str)
    ensures
        r.spec_bytes() == safe_truncated(s.spec_bytes(), max_len as nat),
{
    let n = s.as_bytes().len();
    if n <= max_len {
        return s;
    }
    let mut end = max_len;
    while end > 0 && !s.is_char_boundary(end)
        invariant
            end <= max_len,
            max_len < s.spec_bytes().len(),
            boundary_at_most(s.spec_bytes(), end as int) == boundary_at_most(
                s.spec_bytes(),
                max_len as int,
            ),
        decreases end,
    {
        end = end - 1;
    }
    if end == 0 {
        let empty = "";
        proof {
            reveal_strlit("");
            assert(empty.is_ascii());
        }
        assert(empty.spec_bytes() =~= safe_truncated(s.spec_bytes(), max_len as nat));
        return empty;
    }
    let (head, _tail) = s.split_at(end);
    assert(head.spec_bytes() =~= safe_truncated(s.spec_bytes(), max_len as nat));
    head
}

/// `n / d` rounded to the nearest integer, ties to the even one.
pub open spec fn round_div(n: nat, d: nat) -> nat {
    let q = n / d;
    let r = n % d;
    if 2 * r > d || (2 * r == d && q % 2 == 1) {
        q + 1
    } else {
        q
    }
}

/// Two-digit fraction of a hundredths count.
pub open spec fn two_places(h: nat) -> Seq<char> {
    dec_digits(h / 100) + seq!['.', digit_char((h % 100) / 10), digit_char(h % 10)]
}

/// A byte rate with its unit: `MB/s` above one MiB, `KB/s` above one KiB,
/// each with two decimals, else whole bytes.
pub open spec fn bytes_rate_text(bytes: nat) -> Seq<char> {
    if bytes > 1048576 {
        two_places(round_div(bytes * 100, 1048576)) + " MB/s"@
    } else if bytes > 1024 {
        two_places(round_div(bytes * 100, 1024)) + " KB/s"@
    } else {
        dec_digits(bytes) + " B/s"@
    }
}

fn round_div_exec(n: u128, d: u128) -> (r: u128)
    requires
        0 < d <= 1048576,
        n <= u64::MAX as u128 * 100,
    ensures
        r as nat == round_div(n as nat, d as nat),
{
    let q = n / d;
    let rem = n % d;
    if 2 * rem > d || (2 * rem == d && q % 2 == 1) {
        q + 1
    } else {
        q
    }
}

fn push_two_places(s: &mut String, h: u128)
    requires
        h <= u64::MAX as u128,
    ensures
        final(s)@ == old(s)@ + two_places(h as nat),
{
    push_decimal(s, (h / 100) as u64);
    push_char(s, '.');
    push_char(s, digit_to_char(((h % 100) / 10) as u64));
    push_char(s, digit_to_char((h % 10) as u64));
    assert(final(s)@ =~= old(s)@ + two_places(h as nat));
}

/// Formats a byte rate with a unit suited to its size.
pub fn format_bytes_rate(bytes: u64) -> (r: String)
    ensures
        r@ == bytes_rate_text(bytes as nat),
{
    let mut r = String::new();
    if bytes > 1_048_576 {
        let h = round_div_exec(bytes as u128 * 100, 1_048_576);
        assert(h <= u64::MAX as u128) by (nonlinear_arith)
            requires
                h as nat == round_div(bytes as nat * 100, 1048576),
                bytes <= u64::MAX,
        {
        }
        push_two_places(&mut r, h);
        push_all(&mut r, " MB/s");
    } else if bytes > 1024 {
        let h = round_div_exec(bytes as u128 * 100, 1024);
        assert(h <= u64::MAX as u128) by (nonlinear_arith)
            requires
                h as nat == round_div(bytes as nat * 100, 1024),
                bytes <= 1048576,
        {
        }
        push_two_places(&mut r, h);
        push_all(&mut r, " KB/s");
    } else {
        push_decimal(&mut r, bytes);
        push_all(&mut r, " B/s");
    }
    assert(r@ =~= bytes_rate_text(bytes as nat));
    r
}

/// Three digits of `n % 1000`, zeros in front.
pub open spec fn three_digits(n: nat) -> Seq<char> {
    seq![digit_char((n / 100) % 10), digit_char((n / 10) % 10), digit_char(n % 10)]
}

/// `n` in decimal with a comma between each group of three digits.
pub open spec fn grouped(n: nat) -> Seq<char>
    decreases n,
{
    if n < 1000 {
        dec_digits(n)
    } else {
        grouped(n / 1000) + seq![','] + three_digits(n % 1000)
    }
}

fn push_grouped(s: &mut String, n: u64)
    ensures
        final(s)@ == old(s)@ + grouped(n as nat),
    decreases n,
{
    if n < 1000 {
        push_decimal(s, n);
    } else {
        push_grouped(s, n / 1000);
        push_char(s, ',');
        let low = n % 1000;
        push_char(s, digit_to_char((low / 100) % 10));
        push_char(s, digit_to_char((low / 10) % 10));
        push_char(s, digit_to_char(low % 10));
        assert(final(s)@ =~= old(s)@ + grouped(n as nat));
    }
}

/// Formats `n` with thousands separators.
pub fn format_number(n: u64) -> (r: String)
    ensures
        r@ == grouped(n as nat),
{
    let mut r = String::new();
    push_grouped(&mut r, n);
    assert(r@ =~= grouped(n as nat));
    r
}

/// A replica count `current/desired` is degraded when it has exactly one
/// `/`, both sides read (after trimming) as `u32`, the desired count is
/// positive and the current one is below it.
pub open spec fn replica_degraded(s: Seq<char>) -> bool {
    let parts = split_spec(s, '/');
    parts.len() == 2 && match (
        unsigned_spec(trim_spec(parts[0]), u32::MAX as nat),
        unsigned_spec(trim_spec(parts[1]), u32::MAX as nat),
    ) {
        (Some(cur), Some(des)) => des > 0 && cur < des,
        _ => false,
    }
}

/// Whether a replica string such as `2/3` shows fewer running than desired.
pub fn is_replica_degraded(replicas: &str) -> (r: bool)
    ensures
        r == replica_degraded(replicas@),
{
    let parts = split_on(replicas, '/');
    if parts.len() == 2 {
        match (parse_u32(trim_str(parts[0].as_str())), parse_u32(trim_str(parts[1].as_str()))) {
            (Some(current), Some(desired)) => desired > 0 && current < desired,
            _ => false,
        }
    } else {
        false
    }
}

} // verus!
