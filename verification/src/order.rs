//! Lexicographic order on strings, sorting and adjacent deduplication,
//! as the private-message recipient list is normalised before delivery.
use vstd::prelude::*;
use vstd::string::StrSliceExecFns;

use crate::text::strs_view;

verus! {

broadcast use vstd::seq_lib::group_seq_properties;

/// Code-point lexicographic order, the order `str` comparison gives.
pub open spec fn lex_le(a: Seq<char>, b: Seq<char>) -> bool
    decreases a.len(),
{
    if a.len() == 0 {
        true
    } else if b.len() == 0 {
        false
    } else if (a[0] as u32) < (b[0] as u32) {
        true
    } else if (a[0] as u32) > (b[0] as u32) {
        false
    } else {
        lex_le(a.drop_first(), b.drop_first())
    }
}

proof fn lemma_lex_le_skip(a: Seq<char>, b: Seq<char>, i: int)
    requires
        0 <= i <= a.len(),
        i <= b.len(),
        forall|k: int| 0 <= k < i ==> a[k] == b[k],
    ensures
        lex_le(a, b) == lex_le(a.skip(i), b.skip(i)),
    decreases i,
{
    if i > 0 {
        assert(a.len() > 0 && b.len() > 0 && a[0] == b[0]);
        let a1 = a.drop_first();
        let b1 = b.drop_first();
        lemma_lex_le_skip(a1, b1, i - 1);
        assert(a1.skip(i - 1) =~= a.skip(i));
        assert(b1.skip(i - 1) =~= b.skip(i));
    } else {
        assert(a.skip(0) =~= a);
        assert(b.skip(0) =~= b);
    }
}

/// Whether one string precedes another in code-point order.
pub fn str_le(a: &str, b: &str) -> (r: bool)
    ensures
        r == lex_le(a@, b@),
{
    let n = a.unicode_len();
    let m = b.unicode_len();
    let mut i: usize = 0;
    while i < n && i < m
        invariant
            n == a@.len(),
            m == b@.len(),
            0 <= i <= n,
            i <= m,
            forall|k: int| 0 <= k < i ==> a@[k] == b@[k],
        decreases n - i,
    {
        let ca = a.get_char(i);
        let cb = b.get_char(i);
        if (ca as u32) < (cb as u32) {
            proof {
                lemma_lex_le_skip(a@, b@, i as int);
                assert(a@.skip(i as int)[0] == ca);
                assert(b@.skip(i as int)[0] == cb);
            }
            return true;
        }
        if (ca as u32) > (cb as u32) {
            proof {
                lemma_lex_le_skip(a@, b@, i as int);
                assert(a@.skip(i as int)[0] == ca);
                assert(b@.skip(i as int)[0] == cb);
            }
            return false;
        }
        i = i + 1;
    }
    proof {
        lemma_lex_le_skip(a@, b@, i as int);
        if i == n {
            assert(a@.skip(i as int).len() == 0);
        } else {
            assert(b@.skip(i as int).len() == 0);
            assert(a@.skip(i as int).len() > 0);
        }
    }
    n <= m
}

/// Whether two strings are equal, character for character.
pub fn str_eq(a: &str, b: &str) -> (r: bool)
    ensures
        r == (a@ == b@),
{
    let n = a.unicode_len();
    let m = b.unicode_len();
    if n != m {
        return false;
    }
    let mut i: usize = 0;
    while i < n
        invariant
            n == a@.len(),
            n == b@.len(),
            0 <= i <= n,
            forall|k: int| 0 <= k < i ==> a@[k] == b@[k],
        decreases n - i,
    {
        if a.get_char(i) != b.get_char(i) {
            return false;
        }
        i = i + 1;
    }
    proof {
        assert(a@ =~= b@);
    }
    true
}

/// The given string placed in a sorted sequence, before any element it
/// does not follow.
pub open spec fn spec_insert_sorted(s: Seq<Seq<char>>, x: Seq<char>) -> Seq<Seq<char>>
    decreases s.len(),
{
    if s.len() == 0 {
        seq![x]
    } else if lex_le(s.last(), x) {
        s.push(x)
    } else {
        spec_insert_sorted(s.drop_last(), x).push(s.last())
    }
}

/// The given strings in sorted order, inserting one at a time.
pub open spec fn spec_sort(s: Seq<Seq<char>>) -> Seq<Seq<char>>
    decreases s.len(),
{
    if s.len() == 0 {
        s
    } else {
        spec_insert_sorted(spec_sort(s.drop_last()), s.last())
    }
}

/// A sorted sequence with adjacent duplicates removed.
pub open spec fn spec_dedup(s: Seq<Seq<char>>) -> Seq<Seq<char>>
    decreases s.len(),
{
    if s.len() <= 1 {
        s
    } else if s.last() == s[s.len() - 2] {
        spec_dedup(s.drop_last())
    } else {
        spec_dedup(s.drop_last()).push(s.last())
    }
}

pub proof fn lemma_insert_sorted_contains(s: Seq<Seq<char>>, x: Seq<char>, y: Seq<char>)
    ensures
        spec_insert_sorted(s, x).contains(y) <==> (s.contains(y) || y == x),
    decreases s.len(),
{
    if s.len() == 0 {
    } else if lex_le(s.last(), x) {
    } else {
        lemma_insert_sorted_contains(s.drop_last(), x, y);
        assert(s.contains(y) <==> (s.drop_last().contains(y) || y == s.last())) by {
            if s.contains(y) {
                let j = choose|j: int| 0 <= j < s.len() && s[j] == y;
                if j < s.len() - 1 {
                    assert(s.drop_last()[j] == y);
                }
            }
            if s.drop_last().contains(y) {
                let j = choose|j: int| 0 <= j < s.len() - 1 && s.drop_last()[j] == y;
                assert(s[j] == y);
            }
        }
        let t = spec_insert_sorted(s.drop_last(), x);
        assert(t.push(s.last()).contains(y) <==> (t.contains(y) || y == s.last())) by {
            if t.push(s.last()).contains(y) {
                let j = choose|j: int| 0 <= j < t.len() + 1 && t.push(s.last())[j] == y;
                if j < t.len() {
                    assert(t[j] == y);
                }
            }
            if t.contains(y) {
                let j = choose|j: int| 0 <= j < t.len() && t[j] == y;
                assert(t.push(s.last())[j] == y);
            }
            if y == s.last() {
                assert(t.push(s.last())[t.len() as int] == y);
            }
        }
    }
}

pub proof fn lemma_sort_contains(s: Seq<Seq<char>>, y: Seq<char>)
    ensures
        spec_sort(s).contains(y) <==> s.contains(y),
    decreases s.len(),
{
    if s.len() > 0 {
        lemma_sort_contains(s.drop_last(), y);
        lemma_insert_sorted_contains(spec_sort(s.drop_last()), s.last(), y);
        assert(s.contains(y) <==> (s.drop_last().contains(y) || y == s.last())) by {
            if s.contains(y) {
                let j = choose|j: int| 0 <= j < s.len() && s[j] == y;
                if j < s.len() - 1 {
                    assert(s.drop_last()[j] == y);
                }
            }
            if s.drop_last().contains(y) {
                let j = choose|j: int| 0 <= j < s.len() - 1 && s.drop_last()[j] == y;
                assert(s[j] == y);
            }
        }
    }
}

pub proof fn lemma_dedup_contains(s: Seq<Seq<char>>, y: Seq<char>)
    ensures
        spec_dedup(s).contains(y) <==> s.contains(y),
    decreases s.len(),
{
    if s.len() <= 1 {
    } else {
        lemma_dedup_contains(s.drop_last(), y);
        assert(s.contains(y) <==> (s.drop_last().contains(y) || y == s.last())) by {
            if s.contains(y) {
                let j = choose|j: int| 0 <= j < s.len() && s[j] == y;
                if j < s.len() - 1 {
                    assert(s.drop_last()[j] == y);
                }
            }
            if s.drop_last().contains(y) {
                let j = choose|j: int| 0 <= j < s.len() - 1 && s.drop_last()[j] == y;
                assert(s[j] == y);
            }
        }
        if s.last() == s[s.len() - 2] {
            assert(s.drop_last()[s.len() - 2] == s.last());
            assert(s.drop_last().contains(s.last()));
        } else {
            let t = spec_dedup(s.drop_last());
            assert(t.push(s.last()).contains(y) <==> (t.contains(y) || y == s.last())) by {
                if t.push(s.last()).contains(y) {
                    let j = choose|j: int| 0 <= j < t.len() + 1 && t.push(s.last())[j] == y;
                    if j < t.len() {
                        assert(t[j] == y);
                    }
                }
                if t.contains(y) {
                    let j = choose|j: int| 0 <= j < t.len() && t[j] == y;
                    assert(t.push(s.last())[j] == y);
                }
                if y == s.last() {
                    assert(t.push(s.last())[t.len() as int] == y);
                }
            }
        }
    }
}

proof fn lemma_insert_sorted_split(s: Seq<Seq<char>>, x: Seq<char>, i: int)
    requires
        0 <= i <= s.len(),
        forall|k: int| i <= k < s.len() ==> !lex_le(#[trigger] s[k], x),
        i > 0 ==> lex_le(s[i - 1], x),
    ensures
        spec_insert_sorted(s, x) =~= s.take(i).push(x) + s.skip(i),
    decreases s.len(),
{
    if i == s.len() {
        if s.len() == 0 {
            assert(spec_insert_sorted(s, x) =~= seq![x]);
        } else {
            assert(lex_le(s.last(), x));
            assert(s.take(i) =~= s);
        }
    } else {
        assert(!lex_le(s.last(), x));
        lemma_insert_sorted_split(s.drop_last(), x, i);
        assert(s.drop_last().take(i) =~= s.take(i));
        assert(s.drop_last().skip(i) =~= s.skip(i).drop_last());
    }
}

/// Place a string into a vector kept in sorted order.
fn insert_sorted(v: &mut Vec<String>, x: String)
    ensures
        strs_view(final(v)@) == spec_insert_sorted(strs_view(old(v)@), x@),
{
    let ghost s = strs_view(v@);
    let mut i: usize = v.len();
    while i > 0 && !str_le(v[i - 1].as_str(), x.as_str())
        invariant
            0 <= i <= v@.len(),
            s == strs_view(v@),
            forall|k: int| i <= k < s.len() ==> !lex_le(#[trigger] s[k], x@),
        decreases i,
    {
        proof {
            assert(s[i - 1] == v@[i - 1]@);
        }
        i = i - 1;
    }
    proof {
        if i > 0 {
            assert(s[i - 1] == v@[i - 1]@);
        }
        lemma_insert_sorted_split(s, x@, i as int);
    }
    v.insert(i, x);
    proof {
        assert(strs_view(v@) =~= s.take(i as int).push(x@) + s.skip(i as int));
    }
}

/// The given strings sorted in code-point order.
pub fn sort_strs(v: Vec<String>) -> (r: Vec<String>)
    ensures
        strs_view(r@) == spec_sort(strs_view(v@)),
{
    let ghost s = strs_view(v@);
    let mut out: Vec<String> = Vec::new();
    let mut j: usize = 0;
    proof {
        assert(strs_view(out@) =~= Seq::<Seq<char>>::empty());
        assert(s.take(0) =~= Seq::<Seq<char>>::empty());
        assert(spec_sort(s.take(0)) =~= Seq::<Seq<char>>::empty());
    }
    for j in 0..v.len()
        invariant
            s == strs_view(v@),
            s.len() == v@.len(),
            strs_view(out@) == spec_sort(s.take(j as int)),
    {
        insert_sorted(&mut out, v[j].clone());
        proof {
            assert(s.take(j + 1).drop_last() =~= s.take(j as int));
            assert(s.take(j + 1).last() == s[j as int]);
            assert(v@[j as int]@ == s[j as int]);
        }
    }
    proof {
        assert(s.take(s.len() as int) =~= s);
    }
    out
}

proof fn lemma_dedup_last(s: Seq<Seq<char>>)
    requires
        s.len() > 0,
    ensures
        spec_dedup(s).len() > 0,
        spec_dedup(s).last() == s.last(),
    decreases s.len(),
{
    if s.len() > 1 && s.last() == s[s.len() - 2] {
        lemma_dedup_last(s.drop_last());
    }
}

/// Remove adjacent duplicates, as on a sorted recipient list.
pub fn dedup_adjacent(v: Vec<String>) -> (r: Vec<String>)
    ensures
        strs_view(r@) == spec_dedup(strs_view(v@)),
{
    let ghost s = strs_view(v@);
    let mut out: Vec<String> = Vec::new();
    proof {
        assert(strs_view(out@) =~= Seq::<Seq<char>>::empty());
        assert(s.take(0) =~= Seq::<Seq<char>>::empty());
    }
    let mut j: usize = 0;
    while j < v.len()
        invariant
            s == strs_view(v@),
            s.len() == v@.len(),
            0 <= j <= s.len(),
            strs_view(out@) == spec_dedup(s.take(j as int)),
        decreases s.len() - j,
    {
        proof {
            assert(v@[j as int]@ == s[j as int]);
            assert(s.take(j + 1).drop_last() =~= s.take(j as int));
            assert(s.take(j + 1).last() == s[j as int]);
            if j > 0 {
                lemma_dedup_last(s.take(j as int));
                assert(s.take(j as int).last() == s[j - 1]);
            }
        }
        if out.len() == 0 {
            out.push(v[j].clone());
            proof {
                assert(strs_view(out@) =~= spec_dedup(s.take(j as int)).push(s[j as int]));
            }
        } else {
            let keep = !str_eq(out[out.len() - 1].as_str(), v[j].as_str());
            proof {
                assert(strs_view(out@).last() == out@[out@.len() - 1]@);
            }
            if keep {
                out.push(v[j].clone());
                proof {
                    assert(strs_view(out@) =~= spec_dedup(s.take(j as int)).push(s[j as int]));
                }
            }
        }
        j = j + 1;
    }
    proof {
        assert(s.take(s.len() as int) =~= s);
    }
    out
}

} // verus!
