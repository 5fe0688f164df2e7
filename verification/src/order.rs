//! The order of strings (`String`'s `Ord`: lexicographic by character, which
//! for UTF-8 is the same as by byte) and a stable sort by (due time, ID).
use crate::text::char_vec;
use vstd::prelude::*;

verus! {

broadcast use vstd::seq_lib::group_to_multiset_ensures;

/// Lexicographic order of texts: the first differing character decides, and
/// a proper prefix comes first.
pub open spec fn text_lt(a: Seq<char>, b: Seq<char>) -> bool
    decreases a.len(),
{
    if a.len() == 0 {
        b.len() > 0
    } else if b.len() == 0 {
        false
    } else if a[0] != b[0] {
        (a[0] as int) < (b[0] as int)
    } else {
        text_lt(a.drop_first(), b.drop_first())
    }
}

pub proof fn lemma_text_lt_irreflexive(a: Seq<char>)
    ensures
        !text_lt(a, a),
    decreases a.len(),
{
    if a.len() > 0 {
        lemma_text_lt_irreflexive(a.drop_first());
    }
}

pub proof fn lemma_text_lt_total(a: Seq<char>, b: Seq<char>)
    ensures
        a != b ==> text_lt(a, b) || text_lt(b, a),
        !(text_lt(a, b) && text_lt(b, a)),
    decreases a.len(),
{
    if a.len() > 0 && b.len() > 0 {
        if a[0] == b[0] {
            lemma_text_lt_total(a.drop_first(), b.drop_first());
            if a != b {
                if a.drop_first() == b.drop_first() {
                    assert(a =~= seq![a[0]] + a.drop_first());
                    assert(b =~= seq![b[0]] + b.drop_first());
                }
            }
        } else {
            assert(((a[0] as int) != (b[0] as int)));
        }
    } else if a.len() == 0 && b.len() == 0 {
        assert(a =~= b);
    }
}

pub proof fn lemma_text_lt_transitive(a: Seq<char>, b: Seq<char>, c: Seq<char>)
    requires
        text_lt(a, b),
        text_lt(b, c),
    ensures
        text_lt(a, c),
    decreases a.len(),
{
    if a.len() > 0 && b.len() > 0 && c.len() > 0 {
        if a[0] == b[0] && b[0] == c[0] {
            lemma_text_lt_transitive(a.drop_first(), b.drop_first(), c.drop_first());
        }
    }
}

proof fn lemma_text_lt_skip(a: Seq<char>, b: Seq<char>, i: int)
    requires
        0 <= i <= a.len(),
        i <= b.len(),
        forall|j: int| 0 <= j < i ==> a[j] == b[j],
    ensures
        text_lt(a, b) == text_lt(a.subrange(i, a.len() as int), b.subrange(i, b.len() as int)),
    decreases i,
{
    if i > 0 {
        lemma_text_lt_skip(a.drop_first(), b.drop_first(), i - 1);
        assert(a.drop_first().subrange(i - 1, a.drop_first().len() as int) =~= a.subrange(
            i,
            a.len() as int,
        ));
        assert(b.drop_first().subrange(i - 1, b.drop_first().len() as int) =~= b.subrange(
            i,
            b.len() as int,
        ));
    } else {
        assert(a.subrange(0, a.len() as int) =~= a);
        assert(b.subrange(0, b.len() as int) =~= b);
    }
}

/// `a < b` for strings.
pub fn text_less(a: &str, b: &str) -> (r: bool)
    ensures
        r == text_lt(a@, b@),
{
    let v = char_vec(a);
    let w = char_vec(b);
    let mut i: usize = 0;
    while i < v.len() && i < w.len()
        invariant
            v@ == a@,
            w@ == b@,
            i <= v.len(),
            i <= w.len(),
            forall|j: int| 0 <= j < i ==> v@[j] == w@[j],
        decreases v.len() - i,
    {
        if v[i] != w[i] {
            proof {
                lemma_text_lt_skip(a@, b@, i as int);
                let sa = a@.subrange(i as int, a@.len() as int);
                let sb = b@.subrange(i as int, b@.len() as int);
                assert(sa[0] == v@[i as int]);
                assert(sb[0] == w@[i as int]);
            }
            return v[i] < w[i];
        }
        i = i + 1;
    }
    proof {
        lemma_text_lt_skip(a@, b@, i as int);
    }
    i == v.len() && i < w.len()
}

// ---------------------------------------------------------------------------
/// The order of (due, ID) keys: earlier due first, then the ID.
pub open spec fn key_lt(a: (i64, Seq<char>), b: (i64, Seq<char>)) -> bool {
    a.0 < b.0 || (a.0 == b.0 && text_lt(a.1, b.1))
}

pub open spec fn key_view(k: (i64, String)) -> (i64, Seq<char>) {
    (k.0, k.1@)
}

pub open spec fn key_views(v: Seq<(i64, String)>) -> Seq<(i64, Seq<char>)> {
    v.map_values(|k: (i64, String)| key_view(k))
}

/// Non-decreasing: no later key sorts before an earlier one.
pub open spec fn sorted_keys(s: Seq<(i64, Seq<char>)>) -> bool {
    forall|i: int, j: int| 0 <= i < j < s.len() ==> !key_lt(#[trigger] s[j], #[trigger] s[i])
}

pub proof fn lemma_key_lt_facts(a: (i64, Seq<char>), b: (i64, Seq<char>), c: (i64, Seq<char>))
    ensures
        !key_lt(a, a),
        a != b ==> key_lt(a, b) || key_lt(b, a),
        !(key_lt(a, b) && key_lt(b, a)),
        key_lt(a, b) && key_lt(b, c) ==> key_lt(a, c),
        key_lt(a, b) && !key_lt(c, b) ==> key_lt(a, c),
        !key_lt(b, a) && key_lt(b, c) ==> key_lt(a, c),
{
    lemma_text_lt_irreflexive(a.1);
    lemma_text_lt_total(a.1, b.1);
    lemma_text_lt_total(b.1, c.1);
    lemma_text_lt_total(a.1, c.1);
    if key_lt(a, b) && key_lt(b, c) && a.0 == b.0 && b.0 == c.0 {
        lemma_text_lt_transitive(a.1, b.1, c.1);
    }
    if key_lt(a, b) && !key_lt(c, b) && a.0 == b.0 && b.0 == c.0 {
        if b.1 != c.1 {
            lemma_text_lt_transitive(a.1, b.1, c.1);
        }
    }
    if !key_lt(b, a) && key_lt(b, c) && a.0 == b.0 && b.0 == c.0 {
        if a.1 != b.1 {
            lemma_text_lt_transitive(a.1, b.1, c.1);
        }
    }
    if a != b {
        if a.0 == b.0 {
            assert(a.1 != b.1);
        }
    }
}

fn key_less(a: &(i64, String), b: &(i64, String)) -> (r: bool)
    ensures
        r == key_lt(key_view(*a), key_view(*b)),
{
    a.0 < b.0 || (a.0 == b.0 && text_less(a.1.as_str(), b.1.as_str()))
}

/// A stable sort by (due, ID).
pub fn sort_keys(v: Vec<(i64, String)>) -> (r: Vec<(i64, String)>)
    ensures
        sorted_keys(key_views(r@)),
        key_views(r@).to_multiset() == key_views(v@).to_multiset(),
        r@.len() == v@.len(),
{
    let mut out: Vec<(i64, String)> = Vec::new();
    let mut i: usize = 0;
    let n = v.len();
    let ghost orig = key_views(v@);
    while i < n
        invariant
            i <= n,
            n == orig.len(),
            n == v@.len(),
            orig == key_views(v@),
            sorted_keys(key_views(out@)),
            key_views(out@).to_multiset() == orig.take(i as int).to_multiset(),
            out@.len() == i,
        decreases n - i,
    {
        let x = (v[i].0, v[i].1.clone());
        assert(key_view(x) == orig[i as int]);
        let mut p: usize = 0;
        while p < out.len() && !key_less(&x, &out[p])
            invariant
                p <= out.len(),
                forall|j: int| 0 <= j < p ==> !key_lt(key_view(x), #[trigger] key_views(out@)[j]),
            decreases out.len() - p,
        {
            p = p + 1;
        }
        let ghost before = key_views(out@);
        out.insert(p, x);
        proof {
            let after = key_views(out@);
            assert(after =~= before.insert(p as int, key_view(x)));
            assert forall|a: int, b: int| 0 <= a < b < after.len() implies !key_lt(
                #[trigger] after[b],
                #[trigger] after[a],
            ) by {
                let kx = key_view(x);
                if a < p && b == p {
                    lemma_key_lt_facts(before[a], kx, kx);
                    lemma_key_lt_facts(kx, before[a], kx);
                } else if a < p && b > p {
                    assert(after[b] == before[b - 1]);
                } else if a == p && b > p {
                    assert(after[b] == before[b - 1]);
                    if (p as int) < before.len() {
                        assert(key_lt(kx, before[p as int]));
                        if b - 1 > p {
                            assert(!key_lt(before[b - 1], before[p as int]));
                        }
                        lemma_key_lt_facts(kx, before[p as int], before[b - 1]);
                        lemma_key_lt_facts(before[b - 1], kx, before[b - 1]);
                        lemma_key_lt_facts(before[b - 1], kx, before[p as int]);
                    }
                } else if a > p {
                    assert(after[a] == before[a - 1]);
                    assert(after[b] == before[b - 1]);
                }
            }
            assert(after.remove(p as int) =~= before);
            assert(after.to_multiset() =~= before.to_multiset().insert(kx_of(x)));
            assert(orig.take(i + 1) =~= orig.take(i as int).push(orig[i as int]));
        }
        i = i + 1;
    }
    assert(orig.take(n as int) =~= orig);
    out
}


pub open spec fn second_of(v: Seq<(i64, Seq<char>)>) -> Seq<Seq<char>> {
    v.map_values(|p: (i64, Seq<char>)| p.1)
}

/// Sort distinct IDs in string order.
pub fn sorted_ids(candidates: Vec<(i64, String)>) -> (r: Vec<String>)
    requires
        forall|j: int| 0 <= j < candidates@.len() ==> (#[trigger] candidates@[j]).0 == 0,
        second_of(key_views(candidates@)).no_duplicates(),
    ensures
        r@.map_values(|s: String| s@).to_set() == second_of(key_views(candidates@)).to_set(),
        r@.map_values(|s: String| s@).no_duplicates(),
        forall|i: int, j: int| 0 <= i < j < r@.len() ==> text_lt(r@[i]@, r@[j]@),
{
    let ghost c = key_views(candidates@);
    assert(c.no_duplicates()) by {
        assert forall|a: int, b: int| 0 <= a < c.len() && 0 <= b < c.len() && a != b implies c[a] != c[b] by {
            assert(second_of(c)[a] != second_of(c)[b]);
        }
    }
    let sorted = sort_keys(candidates);
    let ghost s = key_views(sorted@);
    proof {
        c.lemma_multiset_has_no_duplicates();
        assert forall|x: (i64, Seq<char>)| s.to_multiset().contains(x) implies s.to_multiset().count(x) == 1 by {}
        s.lemma_multiset_has_no_duplicates_conv();
        assert forall|j: int| 0 <= j < s.len() implies (#[trigger] s[j]).0 == 0 by {
            assert(s.to_multiset().count(s[j]) > 0);
            assert(c.contains(s[j]));
            let a = choose|a: int| 0 <= a < c.len() && c[a] == s[j];
            assert(candidates@[a].0 == 0);
        }
        assert forall|x: (i64, Seq<char>)| s.contains(x) <==> c.contains(x) by {
            assert(s.contains(x) <==> s.to_multiset().count(x) > 0);
            assert(c.contains(x) <==> c.to_multiset().count(x) > 0);
        }
    }
    let mut work: Vec<String> = Vec::new();
    let mut m: usize = 0;
    while m < sorted.len()
        invariant
            m <= sorted.len(),
            s == key_views(sorted@),
            work@.len() == m,
            forall|j: int| 0 <= j < m ==> (#[trigger] work@[j])@ == s[j].1,
        decreases sorted.len() - m,
    {
        work.push(sorted[m].1.clone());
        m = m + 1;
    }
    proof {
        let w = work@.map_values(|x: String| x@);
        assert(w =~= second_of(s));
        assert forall|a: int, b: int| 0 <= a < b < work@.len() implies text_lt(work@[a]@, work@[b]@) by {
            assert(!key_lt(s[b], s[a]));
            assert(s[a] != s[b]);
            lemma_key_lt_facts(s[a], s[b], s[b]);
            assert(s[a].0 == 0 && s[b].0 == 0);
        }
        assert forall|a: int, b: int| 0 <= a < w.len() && 0 <= b < w.len() && a != b implies w[a] != w[b] by {
            assert(s[a].0 == 0 && s[b].0 == 0);
            assert(s[a] != s[b]);
        }
        assert forall|x: Seq<char>| w.contains(x) <==> second_of(c).contains(x) by {
            if w.contains(x) {
                let a = choose|a: int| 0 <= a < w.len() && w[a] == x;
                assert(c.contains(s[a]));
                let b = choose|b: int| 0 <= b < c.len() && c[b] == s[a];
                assert(second_of(c)[b] == x);
            }
            if second_of(c).contains(x) {
                let b = choose|b: int| 0 <= b < c.len() && second_of(c)[b] == x;
                assert(s.contains(c[b]));
                let a = choose|a: int| 0 <= a < s.len() && s[a] == c[b];
                assert(w[a] == x);
            }
        }
        assert(w.to_set() =~= second_of(c).to_set());
    }
    work
}

spec fn kx_of(x: (i64, String)) -> (i64, Seq<char>) {
    key_view(x)
}

} // verus!
