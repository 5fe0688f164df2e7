//! First-match search over sequences, the shape of most lookups here.
use vstd::prelude::*;

verus! {

/// The index of the first element that satisfies `p`.
pub open spec fn first_index<T>(s: Seq<T>, p: spec_fn(T) -> bool) -> Option<int>
    decreases s.len(),
{
    if s.len() == 0 {
        None
    } else if p(s[0]) {
        Some(0)
    } else {
        match first_index(s.drop_first(), p) {
            Some(i) => Some(i + 1),
            None => None,
        }
    }
}

pub open spec fn is_first<T>(s: Seq<T>, p: spec_fn(T) -> bool, i: int) -> bool {
    0 <= i < s.len() && p(s[i]) && forall|j: int| 0 <= j < i ==> !p(#[trigger] s[j])
}

pub open spec fn none_match<T>(s: Seq<T>, p: spec_fn(T) -> bool) -> bool {
    forall|j: int| 0 <= j < s.len() ==> !p(#[trigger] s[j])
}

pub proof fn lemma_first_index<T>(s: Seq<T>, p: spec_fn(T) -> bool)
    ensures
        match first_index(s, p) {
            Some(i) => is_first(s, p, i),
            None => none_match(s, p),
        },
    decreases s.len(),
{
    if s.len() > 0 && !p(s[0]) {
        lemma_first_index(s.drop_first(), p);
        match first_index(s.drop_first(), p) {
            Some(i) => {
                assert forall|j: int| 0 <= j < i + 1 implies !p(#[trigger] s[j]) by {
                    if j > 0 {
                        assert(s[j] == s.drop_first()[j - 1]);
                    }
                }
            },
            None => {
                assert forall|j: int| 0 <= j < s.len() implies !p(#[trigger] s[j]) by {
                    if j > 0 {
                        assert(s[j] == s.drop_first()[j - 1]);
                    }
                }
            },
        }
    }
}

pub proof fn lemma_first_index_is<T>(s: Seq<T>, p: spec_fn(T) -> bool, i: int)
    requires
        is_first(s, p, i),
    ensures
        first_index(s, p) == Some(i),
{
    lemma_first_index(s, p);
    match first_index(s, p) {
        Some(k) => {
            if k < i {
                assert(!p(s[k]));
            }
            if k > i {
                assert(!p(s[i]));
            }
        },
        None => {
            assert(!p(s[i]));
        },
    }
}

pub proof fn lemma_first_index_none<T>(s: Seq<T>, p: spec_fn(T) -> bool)
    requires
        none_match(s, p),
    ensures
        first_index(s, p) is None,
{
    lemma_first_index(s, p);
    if let Some(k) = first_index(s, p) {
        assert(!p(s[k]));
    }
}

/// The elements that occur more than once, each listed once, in the order of
/// their second occurrence.
pub open spec fn dup_list<T>(s: Seq<T>) -> Seq<T>
    decreases s.len(),
{
    if s.len() == 0 {
        Seq::empty()
    } else {
        let d = dup_list(s.drop_last());
        if s.drop_last().contains(s.last()) && !d.contains(s.last()) {
            d.push(s.last())
        } else {
            d
        }
    }
}

/// An element is listed as a duplicate exactly when it occurs at two indices.
pub proof fn lemma_dup_list<T>(s: Seq<T>, x: T)
    ensures
        dup_list(s).contains(x) <==> exists|i: int, j: int|
            0 <= i < j < s.len() && s[i] == x && s[j] == x,
    decreases s.len(),
{
    if s.len() > 0 {
        let t = s.drop_last();
        lemma_dup_list(t, x);
        let d = dup_list(t);
        if dup_list(s).contains(x) {
            if !d.contains(x) {
                assert(dup_list(s) == d.push(s.last()));
                assert(x == s.last()) by {
                    let k = choose|k: int| 0 <= k < dup_list(s).len() && dup_list(s)[k] == x;
                    if k < d.len() {
                        assert(d[k] == x);
                    }
                }
                let i = choose|i: int| 0 <= i < t.len() && t[i] == x;
                assert(s[i] == x && s[s.len() - 1] == x);
            } else {
                let (i, j) = choose|i: int, j: int| 0 <= i < j < t.len() && t[i] == x && t[j] == x;
                assert(s[i] == x && s[j] == x);
            }
        } else {
            if exists|i: int, j: int| 0 <= i < j < s.len() && s[i] == x && s[j] == x {
                let (i, j) = choose|i: int, j: int| 0 <= i < j < s.len() && s[i] == x && s[j] == x;
                if j < s.len() - 1 {
                    assert(t[i] == x && t[j] == x);
                    assert(d.contains(x));
                    if !(t.contains(s.last()) && !d.contains(s.last())) {
                        assert(dup_list(s) == d);
                    } else {
                        assert(dup_list(s) == d.push(s.last()));
                        assert(dup_list(s)[d.len() as int] == s.last());
                        let k = choose|k: int| 0 <= k < d.len() && d[k] == x;
                        assert(dup_list(s)[k] == x);
                    }
                } else {
                    assert(t[i] == x);
                    assert(t.contains(s.last()));
                    if !d.contains(s.last()) {
                        assert(dup_list(s) == d.push(s.last()));
                        assert(dup_list(s)[d.len() as int] == x);
                    }
                }
            }
        }
    }
}

/// Inserting an element before every later element that `pred` keeps adds
/// it at the end of what `pred` keeps.
pub proof fn lemma_filter_insert<T>(s: Seq<T>, k: int, x: T, pred: spec_fn(T) -> bool)
    requires
        0 <= k <= s.len(),
        pred(x) ==> forall|j: int| k <= j < s.len() ==> !pred(#[trigger] s[j]),
    ensures
        s.insert(k, x).filter(pred) == (if pred(x) {
            s.filter(pred).push(x)
        } else {
            s.filter(pred)
        }),
{
    let a = s.take(k);
    let b = s.skip(k);
    assert(s =~= a + b);
    assert(s.insert(k, x) =~= a.push(x) + b);
    Seq::filter_distributes_over_add(a, b, pred);
    Seq::filter_distributes_over_add(a.push(x), b, pred);
    a.lemma_filter_push(x, pred);
    if pred(x) {
        assert(b.all(|y: T| !pred(y))) by {
            assert forall|j: int| 0 <= j < b.len() implies !pred(#[trigger] b[j]) by {
                assert(b[j] == s[k + j]);
            }
        }
        b.lemma_all_neg_filter_empty(pred);
        assert(b.filter(pred) =~= Seq::<T>::empty());
        assert(a.filter(pred).push(x) + b.filter(pred) =~= a.filter(pred).push(x));
        assert(s.filter(pred) =~= a.filter(pred) + b.filter(pred));
        assert(a.filter(pred) + b.filter(pred) =~= a.filter(pred));
    }
}

/// An element of a filtered sequence is an element of the sequence filtered.
pub proof fn lemma_filter_member<T>(s: Seq<T>, p: spec_fn(T) -> bool, k: int)
    requires
        0 <= k < s.filter(p).len(),
    ensures
        exists|i: int| 0 <= i < s.len() && s[i] == s.filter(p)[k] && p(s[i]),
{
    let x = s.filter(p)[k];
    s.lemma_filter_pred(p, k);
    assert(s.filter(p).contains(x));
    s.lemma_filter_contains_rev(p, x);
    let i = choose|i: int| 0 <= i < s.len() && s[i] == x;
    assert(p(s[i]));
}

} // verus!
