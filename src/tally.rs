use vstd::prelude::*;

verus! {

/// The index of the first pair whose key is `k`, from index `i` on, or the
/// length where there is none.
pub open spec fn find_key<K>(s: Seq<(K, nat)>, k: K, i: int) -> int
    decreases s.len() - i,
{
    if i < 0 || i >= s.len() {
        s.len() as int
    } else if s[i].0 == k {
        i
    } else {
        find_key(s, k, i + 1)
    }
}

/// A tally after one more occurrence of `k`: its count goes up by one, or it
/// is added at the end with a count of one.
pub open spec fn bump<K>(s: Seq<(K, nat)>, k: K) -> Seq<(K, nat)> {
    let i = find_key(s, k, 0);
    if i < s.len() {
        s.update(i, (k, s[i].1 + 1))
    } else {
        s.push((k, 1nat))
    }
}

/// The sum of the counts of a tally.
pub open spec fn total<K>(s: Seq<(K, nat)>) -> nat
    decreases s.len(),
{
    if s.len() == 0 {
        0
    } else {
        total(s.drop_last()) + s.last().1
    }
}

/// No key stands twice.
pub open spec fn unique_keys<K>(s: Seq<(K, nat)>) -> bool {
    forall|i: int, j: int| 0 <= i < j < s.len() ==> s[i].0 != s[j].0
}

/// The view of a tally keyed by strings.
pub open spec fn text_tally(v: Seq<(String, usize)>) -> Seq<(Seq<char>, nat)> {
    v.map_values(|p: (String, usize)| (p.0@, p.1 as nat))
}

/// The view of a tally keyed by status codes.
pub open spec fn code_tally(v: Seq<(u16, usize)>) -> Seq<(u16, nat)> {
    v.map_values(|p: (u16, usize)| (p.0, p.1 as nat))
}

pub proof fn lemma_find_key<K>(s: Seq<(K, nat)>, k: K, i: int)
    requires
        0 <= i <= s.len(),
    ensures
        i <= find_key(s, k, i) <= s.len(),
        find_key(s, k, i) < s.len() ==> s[find_key(s, k, i)].0 == k,
        forall|j: int| i <= j < find_key(s, k, i) ==> s[j].0 != k,
    decreases s.len() - i,
{
    if i < s.len() && s[i].0 != k {
        lemma_find_key(s, k, i + 1);
    }
}

pub proof fn lemma_total_update<K>(s: Seq<(K, nat)>, i: int, p: (K, nat))
    requires
        0 <= i < s.len(),
    ensures
        total(s.update(i, p)) + s[i].1 == total(s) + p.1,
    decreases s.len(),
{
    let u = s.update(i, p);
    if i < s.len() - 1 {
        assert(u.drop_last() =~= s.drop_last().update(i, p));
        lemma_total_update(s.drop_last(), i, p);
    } else {
        assert(u.drop_last() =~= s.drop_last());
    }
}

/// One more occurrence adds one to the sum of the counts.
pub proof fn lemma_total_bump<K>(s: Seq<(K, nat)>, k: K)
    ensures
        total(bump(s, k)) == total(s) + 1,
{
    lemma_find_key(s, k, 0);
    let i = find_key(s, k, 0);
    if i < s.len() {
        lemma_total_update(s, i, (k, s[i].1 + 1));
    } else {
        assert(s.push((k, 1nat)).drop_last() =~= s);
    }
}

/// Keys stay unique under `bump`.
pub proof fn lemma_unique_bump<K>(s: Seq<(K, nat)>, k: K)
    requires
        unique_keys(s),
    ensures
        unique_keys(bump(s, k)),
{
    lemma_find_key(s, k, 0);
}

/// No count exceeds the sum.
pub proof fn lemma_count_le_total<K>(s: Seq<(K, nat)>, i: int)
    requires
        0 <= i < s.len(),
    ensures
        s[i].1 <= total(s),
    decreases s.len(),
{
    if i < s.len() - 1 {
        lemma_count_le_total(s.drop_last(), i);
    }
}

/// Counts one more occurrence of `k` in a tally keyed by strings.
pub fn bump_text(v: &mut Vec<(String, usize)>, k: String)
    requires
        total(text_tally(old(v)@)) < usize::MAX,
    ensures
        text_tally(final(v)@) == bump(text_tally(old(v)@), k@),
{
    let ghost s = text_tally(v@);
    proof { lemma_find_key(s, k@, 0); }
    let mut i: usize = 0;
    while i < v.len()
        invariant
            i <= v.len(),
            s == text_tally(v@),
            s == text_tally(old(v)@),
            total(s) < usize::MAX,
            find_key(s, k@, 0) == find_key(s, k@, i as int),
        decreases v.len() - i,
    {
        assert(s[i as int] == (v@[i as int].0@, v@[i as int].1 as nat));
        if v[i].0 == k {
            let c = v[i].1;
            proof { lemma_count_le_total(s, i as int); }
            assert(find_key(s, k@, i as int) == i);
            v.set(i, (k, c + 1));
            assert(text_tally(v@) =~= bump(s, k@));
            return;
        }
        i = i + 1;
    }
    v.push((k, 1));
    assert(text_tally(v@) =~= bump(s, k@));
}

/// Counts one more occurrence of `k` in a tally keyed by status codes.
pub fn bump_code(v: &mut Vec<(u16, usize)>, k: u16)
    requires
        total(code_tally(old(v)@)) < usize::MAX,
    ensures
        code_tally(final(v)@) == bump(code_tally(old(v)@), k),
{
    let ghost s = code_tally(v@);
    proof { lemma_find_key(s, k, 0); }
    let mut i: usize = 0;
    while i < v.len()
        invariant
            i <= v.len(),
            s == code_tally(v@),
            s == code_tally(old(v)@),
            total(s) < usize::MAX,
            find_key(s, k, 0) == find_key(s, k, i as int),
        decreases v.len() - i,
    {
        assert(s[i as int] == (v@[i as int].0, v@[i as int].1 as nat));
        if v[i].0 == k {
            let c = v[i].1;
            proof { lemma_count_le_total(s, i as int); }
            assert(find_key(s, k, i as int) == i);
            v.set(i, (k, c + 1));
            assert(code_tally(v@) =~= bump(s, k));
            return;
        }
        i = i + 1;
    }
    v.push((k, 1));
    assert(code_tally(v@) =~= bump(s, k));
}

} // verus!
