use vstd::prelude::*;
use crate::tally::text_tally;

verus! {

/// The index of the first pair with the largest count.
pub open spec fn first_max<K>(s: Seq<(K, nat)>) -> int
    decreases s.len(),
{
    if s.len() <= 1 {
        0
    } else {
        let j = first_max(s.drop_last());
        if s.last().1 > s[j].1 {
            s.len() - 1
        } else {
            j
        }
    }
}

/// The `n` pairs with the largest counts, largest first; among equal counts
/// the one that comes first in `s` comes first.
pub open spec fn top_spec<K>(s: Seq<(K, nat)>, n: nat) -> Seq<(K, nat)>
    decreases n,
{
    if n == 0 || s.len() == 0 {
        Seq::empty()
    } else {
        let m = first_max(s);
        seq![s[m]] + top_spec(s.remove(m), (n - 1) as nat)
    }
}

/// What is left of `s` once its `n` largest pairs are taken out.
pub open spec fn top_rest<K>(s: Seq<(K, nat)>, n: nat) -> Seq<(K, nat)>
    decreases n,
{
    if n == 0 || s.len() == 0 {
        s
    } else {
        top_rest(s.remove(first_max(s)), (n - 1) as nat)
    }
}

/// Counts never increase along the sequence.
pub open spec fn non_increasing<K>(s: Seq<(K, nat)>) -> bool {
    forall|i: int, j: int| 0 <= i < j < s.len() ==> s[i].1 >= s[j].1
}

pub proof fn lemma_first_max<K>(s: Seq<(K, nat)>)
    requires
        s.len() > 0,
    ensures
        0 <= first_max(s) < s.len(),
        forall|k: int| 0 <= k < s.len() ==> #[trigger] s[k].1 <= s[first_max(s)].1,
    decreases s.len(),
{
    if s.len() > 1 {
        let d = s.drop_last();
        lemma_first_max(d);
        assert forall|k: int| 0 <= k < s.len() implies #[trigger] s[k].1 <= s[first_max(s)].1 by {
            if k < s.len() - 1 {
                assert(s[k] == d[k]);
                assert(s[first_max(d)] == d[first_max(d)]);
            }
        }
    }
}

/// Every count in the ranking is bounded by any bound of the counts of `s`,
/// and every pair of the ranking is a pair of `s`.
pub proof fn lemma_top_within<K>(s: Seq<(K, nat)>, n: nat, b: nat)
    requires
        forall|k: int| 0 <= k < s.len() ==> #[trigger] s[k].1 <= b,
    ensures
        forall|i: int| 0 <= i < top_spec(s, n).len() ==> #[trigger] top_spec(s, n)[i].1 <= b,
        forall|i: int| 0 <= i < top_spec(s, n).len() ==> s.contains(#[trigger] top_spec(s, n)[i]),
    decreases n,
{
    if n > 0 && s.len() > 0 {
        lemma_first_max(s);
        let m = first_max(s);
        let rest = s.remove(m);
        assert forall|k: int| 0 <= k < rest.len() implies rest[k].1 <= b by {
            if k < m { assert(rest[k] == s[k]); } else { assert(rest[k] == s[k + 1]); }
        }
        lemma_top_within(rest, (n - 1) as nat, b);
        let t = top_spec(s, n);
        assert forall|i: int| 0 <= i < t.len() implies s.contains(#[trigger] t[i]) by {
            if i == 0 {
                assert(t[0] == s[m]);
            } else {
                assert(t[i] == top_spec(rest, (n - 1) as nat)[i - 1]);
                let x = t[i];
                assert(rest.contains(x));
                let k = choose|k: int| 0 <= k < rest.len() && rest[k] == x;
                if k < m { assert(s[k] == x); } else { assert(s[k + 1] == x); }
            }
        }
    }
}

/// The ranking holds `min(n, |s|)` pairs, and its counts never increase.
pub proof fn lemma_top_shape<K>(s: Seq<(K, nat)>, n: nat)
    ensures
        top_spec(s, n).len() == if n < s.len() { n } else { s.len() },
        non_increasing(top_spec(s, n)),
    decreases n,
{
    if n > 0 && s.len() > 0 {
        lemma_first_max(s);
        let m = first_max(s);
        let rest = s.remove(m);
        lemma_top_shape(rest, (n - 1) as nat);
        assert forall|k: int| 0 <= k < rest.len() implies rest[k].1 <= s[m].1 by {
            if k < m { assert(rest[k] == s[k]); } else { assert(rest[k] == s[k + 1]); }
        }
        lemma_top_within(rest, (n - 1) as nat, s[m].1);
        let t = top_spec(s, n);
        let tr = top_spec(rest, (n - 1) as nat);
        assert forall|i: int, j: int| 0 <= i < j < t.len() implies t[i].1 >= t[j].1 by {
            assert(t[j] == tr[j - 1]);
            if i > 0 {
                assert(t[i] == tr[i - 1]);
            }
        }
    }
}

/// The ranking and what is left share out the pairs of `s`, and no count
/// left out exceeds a count in the ranking.
pub proof fn lemma_top_split<K>(s: Seq<(K, nat)>, n: nat)
    ensures
        top_spec(s, n).len() + top_rest(s, n).len() == s.len(),
        forall|k: int|
            0 <= k < s.len() ==> top_spec(s, n).contains(#[trigger] s[k]) || top_rest(
                s,
                n,
            ).contains(s[k]),
        forall|k: int| 0 <= k < top_rest(s, n).len() ==> s.contains(#[trigger] top_rest(s, n)[k]),
        forall|i: int, k: int|
            0 <= i < top_spec(s, n).len() && 0 <= k < top_rest(s, n).len() ==> (#[trigger] top_rest(
                s,
                n,
            )[k]).1 <= (#[trigger] top_spec(s, n)[i]).1,
    decreases n,
{
    if n > 0 && s.len() > 0 {
        lemma_first_max(s);
        let m = first_max(s);
        let r = s.remove(m);
        let n1 = (n - 1) as nat;
        lemma_top_split(r, n1);
        let t = top_spec(s, n);
        let tr = top_spec(r, n1);
        let rest = top_rest(s, n);
        assert(rest == top_rest(r, n1));
        assert forall|k: int| 0 <= k < s.len() implies t.contains(#[trigger] s[k]) || rest.contains(
            s[k],
        ) by {
            if k == m {
                assert(t[0] == s[m]);
            } else {
                let j = if k < m { k } else { k - 1 };
                assert(r[j] == s[k]);
                if tr.contains(r[j]) {
                    let i = choose|i: int| 0 <= i < tr.len() && tr[i] == r[j];
                    assert(t[i + 1] == tr[i]);
                }
            }
        }
        assert forall|k: int| 0 <= k < rest.len() implies s.contains(#[trigger] rest[k]) by {
            assert(r.contains(rest[k]));
            let j = choose|j: int| 0 <= j < r.len() && r[j] == rest[k];
            if j < m { assert(s[j] == r[j]); } else { assert(s[j + 1] == r[j]); }
        }
        assert forall|i: int, k: int| 0 <= i < t.len() && 0 <= k < rest.len() implies (
        #[trigger] rest[k]).1 <= (#[trigger] t[i]).1 by {
            if i == 0 {
                assert(s.contains(rest[k]));
            } else {
                assert(t[i] == tr[i - 1]);
            }
        }
    }
}

/// The index of the first pair with the largest count in a non-empty tally.
fn max_position(v: &Vec<(String, usize)>) -> (r: usize)
    requires
        v.len() > 0,
    ensures
        r as int == first_max(text_tally(v@)),
        r < v.len(),
{
    let ghost s = text_tally(v@);
    let mut best: usize = 0;
    let mut i: usize = 1;
    assert(s.subrange(0, 1).len() == 1);
    while i < v.len()
        invariant
            1 <= i <= v.len(),
            s == text_tally(v@),
            best < i,
            best as int == first_max(s.subrange(0, i as int)),
        decreases v.len() - i,
    {
        let ghost p = s.subrange(0, i as int + 1);
        assert(p.drop_last() =~= s.subrange(0, i as int));
        if v[i].1 > v[best].1 {
            best = i;
        }
        i = i + 1;
    }
    assert(s.subrange(0, v.len() as int) =~= s);
    proof { lemma_first_max(s); }
    best
}

/// A client address and how many counted requests came from it.
#[derive(Debug)]
pub struct TopIp {
    pub ip: String,
    pub count: usize,
}

/// The view of a ranking.
pub open spec fn ranking_view(v: Seq<TopIp>) -> Seq<(Seq<char>, nat)> {
    v.map_values(|t: TopIp| (t.ip@, t.count as nat))
}

/// The `n` addresses with the most requests, most first; among equal counts
/// the one seen first comes first.
pub fn top_entries(v: &Vec<(String, usize)>, n: usize) -> (r: Vec<TopIp>)
    ensures
        ranking_view(r@) == top_spec(text_tally(v@), n as nat),
{
    let mut work: Vec<(String, usize)> = Vec::new();
    let mut i: usize = 0;
    while i < v.len()
        invariant
            i <= v.len(),
            text_tally(work@) == text_tally(v@).subrange(0, i as int),
        decreases v.len() - i,
    {
        let key = v[i].0.clone();
        assert(key@ == v@[i as int].0@);
        let ghost w0 = work@;
        work.push((key, v[i].1));
        assert(work@ == w0.push((key, v@[i as int].1)));
        assert(text_tally(work@) =~= text_tally(w0).push((key@, v@[i as int].1 as nat)));
        i = i + 1;
        assert(text_tally(work@) =~= text_tally(v@).subrange(0, i as int));
    }
    assert(text_tally(v@).subrange(0, v.len() as int) =~= text_tally(v@));
    let mut out: Vec<TopIp> = Vec::new();
    let mut k: usize = 0;
    while k < n && work.len() > 0
        invariant
            k <= n,
            ranking_view(out@) + top_spec(text_tally(work@), (n - k) as nat)
                == top_spec(text_tally(v@), n as nat),
        decreases n - k,
    {
        let ghost before = text_tally(work@);
        let m = max_position(&work);
        let (ip, count) = work.remove(m);
        assert(text_tally(work@) =~= before.remove(m as int));
        let ghost prev = ranking_view(out@);
        out.push(TopIp { ip, count });
        assert(ranking_view(out@) =~= prev.push(before[m as int]));
        assert(top_spec(before, (n - k) as nat) == seq![before[m as int]] + top_spec(
            before.remove(m as int),
            (n - k - 1) as nat,
        ));
        assert(ranking_view(out@) + top_spec(text_tally(work@), (n - k - 1) as nat) =~= prev
            + top_spec(before, (n - k) as nat));
        k = k + 1;
    }
    assert(top_spec(text_tally(work@), (n - k) as nat) =~= Seq::<(Seq<char>, nat)>::empty());
    assert(ranking_view(out@) =~= ranking_view(out@) + Seq::<(Seq<char>, nat)>::empty());
    out
}

} // verus!
