//! Named counts ranked largest first, as used by the per-process tables.
use vstd::prelude::*;

verus! {

pub open spec fn count_views(v: Seq<(String, u64)>) -> Seq<(Seq<char>, nat)> {
    v.map_values(|p: (String, u64)| (p.0@, p.1 as nat))
}

/// `s` with `x` placed after every entry whose count is at least its own.
pub open spec fn insert_count(s: Seq<(Seq<char>, nat)>, x: (Seq<char>, nat)) -> Seq<(Seq<char>, nat)>
    decreases s.len(),
{
    if s.len() == 0 {
        seq![x]
    } else if s[0].1 < x.1 {
        seq![x] + s
    } else {
        seq![s[0]] + insert_count(s.drop_first(), x)
    }
}

/// `s` in non-increasing order of count; equal counts keep their order.
pub open spec fn sort_counts(s: Seq<(Seq<char>, nat)>) -> Seq<(Seq<char>, nat)>
    decreases s.len(),
{
    if s.len() == 0 {
        Seq::empty()
    } else {
        insert_count(sort_counts(s.drop_last()), s.last())
    }
}

/// The first `n` entries of `s`, or all of them.
pub open spec fn first_n<T>(s: Seq<T>, n: nat) -> Seq<T> {
    if s.len() > n {
        s.take(n as int)
    } else {
        s
    }
}

proof fn lemma_insert_count_at(s: Seq<(Seq<char>, nat)>, x: (Seq<char>, nat), p: int)
    requires
        0 <= p <= s.len(),
        forall|q: int| 0 <= q < p ==> (#[trigger] s[q]).1 >= x.1,
        p < s.len() ==> s[p].1 < x.1,
    ensures
        insert_count(s, x) == s.insert(p, x),
    decreases s.len(),
{
    if p == 0 {
        assert(s.insert(0, x) =~= seq![x] + s);
    } else {
        let t = s.drop_first();
        assert forall|q: int| 0 <= q < p - 1 implies (#[trigger] t[q]).1 >= x.1 by {
            assert(t[q] == s[q + 1]);
        }
        lemma_insert_count_at(t, x, p - 1);
        assert(seq![s[0]] + t.insert(p - 1, x) =~= s.insert(p, x));
    }
}

/// The `n` largest counts of `items`, largest first, equal counts in their
/// input order.
pub fn top_counts(items: &Vec<(String, u64)>, n: usize) -> (r: Vec<(String, u64)>)
    ensures
        count_views(r@) == first_n(sort_counts(count_views(items@)), n as nat),
{
    let ghost iv = count_views(items@);
    let mut out: Vec<(String, u64)> = Vec::new();
    let mut i: usize = 0;
    assert(iv.take(0) =~= Seq::<(Seq<char>, nat)>::empty());
    assert(count_views(out@) =~= Seq::<(Seq<char>, nat)>::empty());
    while i < items.len()
        invariant
            iv == count_views(items@),
            i <= items@.len(),
            count_views(out@) == sort_counts(iv.take(i as int)),
        decreases items.len() - i,
    {
        let name = items[i].0.clone();
        let c = items[i].1;
        let ghost x = (name@, c as nat);
        assert(iv[i as int] == x);
        let mut p: usize = 0;
        while p < out.len() && out[p].1 >= c
            invariant
                p <= out@.len(),
                forall|q: int| 0 <= q < p ==> (#[trigger] count_views(out@)[q]).1 >= c,
            decreases out.len() - p,
        {
            p = p + 1;
        }
        proof {
            lemma_insert_count_at(count_views(out@), x, p as int);
            assert(iv.take(i + 1).drop_last() =~= iv.take(i as int));
        }
        let ghost before = out@;
        out.insert(p, (name, c));
        assert(count_views(out@) =~= count_views(before).insert(p as int, x));
        i = i + 1;
    }
    assert(iv.take(items@.len() as int) =~= iv);
    let ghost whole = count_views(out@);
    if out.len() > n {
        out.truncate(n);
        assert(count_views(out@) =~= whole.take(n as int));
    }
    out
}

} // verus!
