//! A small map keyed by project ID whose entries can be listed, so that the
//! scheduler's state can be written to disk and read back.
use crate::text::same_text;
use vstd::prelude::*;

verus! {

pub open spec fn keys_of<T>(s: Seq<(String, T)>) -> Seq<Seq<char>> {
    s.map_values(|e: (String, T)| e.0@)
}

/// The map an entry list stands for (later entries win, though keys are
/// kept distinct).
pub open spec fn map_of<T>(s: Seq<(String, T)>) -> Map<Seq<char>, T>
    decreases s.len(),
{
    if s.len() == 0 {
        Map::empty()
    } else {
        map_of(s.drop_last()).insert(s.last().0@, s.last().1)
    }
}

pub proof fn lemma_map_of_domain<T>(s: Seq<(String, T)>)
    ensures
        forall|k: Seq<char>| #[trigger] map_of(s).contains_key(k) <==> keys_of(s).contains(k),
        map_of(s).dom().finite(),
    decreases s.len(),
{
    if s.len() > 0 {
        lemma_map_of_domain(s.drop_last());
        assert forall|k: Seq<char>| #[trigger] map_of(s).contains_key(k) <==> keys_of(s).contains(
            k,
        ) by {
            if k == s.last().0@ {
                assert(keys_of(s)[s.len() - 1] == k);
            }
            if keys_of(s.drop_last()).contains(k) {
                let j = choose|j: int| 0 <= j < keys_of(s.drop_last()).len() && keys_of(s.drop_last())[j] == k;
                assert(keys_of(s)[j] == k);
            }
            if keys_of(s).contains(k) {
                let j = choose|j: int| 0 <= j < keys_of(s).len() && keys_of(s)[j] == k;
                if j < s.len() - 1 {
                    assert(keys_of(s.drop_last())[j] == k);
                }
            }
        }
    }
}

pub proof fn lemma_map_of_value<T>(s: Seq<(String, T)>, i: int)
    requires
        keys_of(s).no_duplicates(),
        0 <= i < s.len(),
    ensures
        map_of(s).contains_key(s[i].0@),
        map_of(s)[s[i].0@] == s[i].1,
    decreases s.len(),
{
    lemma_map_of_domain(s);
    if i < s.len() - 1 {
        assert(keys_of(s.drop_last()).no_duplicates()) by {
            assert forall|a: int, b: int|
                0 <= a < keys_of(s.drop_last()).len() && 0 <= b < keys_of(s.drop_last()).len() && a
                    != b implies keys_of(s.drop_last())[a] != keys_of(s.drop_last())[b] by {
                assert(keys_of(s)[a] != keys_of(s)[b]);
            }
        }
        lemma_map_of_value(s.drop_last(), i);
        assert(keys_of(s)[i] != keys_of(s)[s.len() - 1]);
    } else {
        assert(keys_of(s)[i] == s[i].0@);
    }
}

proof fn lemma_unique_prefix<T>(s: Seq<(String, T)>)
    requires
        keys_of(s).no_duplicates(),
        s.len() > 0,
    ensures
        keys_of(s.drop_last()).no_duplicates(),
        !keys_of(s.drop_last()).contains(s.last().0@),
{
    assert forall|a: int, b: int|
        0 <= a < keys_of(s.drop_last()).len() && 0 <= b < keys_of(s.drop_last()).len() && a
            != b implies keys_of(s.drop_last())[a] != keys_of(s.drop_last())[b] by {
        assert(keys_of(s)[a] != keys_of(s)[b]);
    }
    if keys_of(s.drop_last()).contains(s.last().0@) {
        let j = choose|j: int| 0 <= j < keys_of(s.drop_last()).len() && keys_of(s.drop_last())[j] == s.last().0@;
        assert(keys_of(s)[j] == keys_of(s)[s.len() - 1]);
    }
}

proof fn lemma_map_of_update<T>(s: Seq<(String, T)>, i: int, e: (String, T))
    requires
        keys_of(s).no_duplicates(),
        0 <= i < s.len(),
        e.0@ == s[i].0@,
    ensures
        map_of(s.update(i, e)) == map_of(s).insert(e.0@, e.1),
        keys_of(s.update(i, e)) == keys_of(s),
    decreases s.len(),
{
    assert(keys_of(s.update(i, e)) =~= keys_of(s));
    lemma_unique_prefix(s);
    let t = s.update(i, e);
    if i == s.len() - 1 {
        assert(t.drop_last() =~= s.drop_last());
        lemma_map_of_domain(s.drop_last());
        assert(map_of(t) =~= map_of(s).insert(e.0@, e.1));
    } else {
        assert(t.drop_last() =~= s.drop_last().update(i, e));
        lemma_map_of_update(s.drop_last(), i, e);
        assert(keys_of(s)[i] != keys_of(s)[s.len() - 1]);
        assert(map_of(t) =~= map_of(s).insert(e.0@, e.1));
    }
}

proof fn lemma_map_of_remove<T>(s: Seq<(String, T)>, i: int)
    requires
        keys_of(s).no_duplicates(),
        0 <= i < s.len(),
    ensures
        map_of(s.remove(i)) == map_of(s).remove(s[i].0@),
        keys_of(s.remove(i)).no_duplicates(),
    decreases s.len(),
{
    let t = s.remove(i);
    let k = s[i].0@;
    assert(keys_of(t) =~= keys_of(s).remove(i));
    assert forall|a: int, b: int| 0 <= a < keys_of(t).len() && 0 <= b < keys_of(t).len() && a != b implies keys_of(t)[a] != keys_of(t)[b] by {
        let a2 = if a < i { a } else { a + 1 };
        let b2 = if b < i { b } else { b + 1 };
        assert(keys_of(t)[a] == keys_of(s)[a2]);
        assert(keys_of(t)[b] == keys_of(s)[b2]);
    }
    lemma_unique_prefix(s);
    if i == s.len() - 1 {
        assert(t =~= s.drop_last());
        lemma_map_of_domain(s.drop_last());
        assert(map_of(t) =~= map_of(s).remove(k));
    } else {
        assert(t.drop_last() =~= s.drop_last().remove(i));
        assert(t.last() == s.last());
        lemma_map_of_remove(s.drop_last(), i);
        assert(keys_of(s)[i] != keys_of(s)[s.len() - 1]);
        assert(map_of(t) =~= map_of(s).remove(k));
    }
}

/// A map from project ID to `T`, held as a list of distinct keys.
pub struct IdMap<T> {
    entries: Vec<(String, T)>,
}

impl<T> View for IdMap<T> {
    type V = Map<Seq<char>, T>;

    closed spec fn view(&self) -> Map<Seq<char>, T> {
        map_of(self.entries@)
    }
}

impl<T> IdMap<T> {
    /// The entries are distinct by key.
    pub closed spec fn wf(&self) -> bool {
        keys_of(self.entries@).no_duplicates()
    }

    pub fn new() -> (r: Self)
        ensures
            r.wf(),
            r@ == Map::<Seq<char>, T>::empty(),
    {
        IdMap { entries: Vec::new() }
    }

    fn find(&self, key: &str) -> (r: Option<usize>)
        requires
            self.wf(),
        ensures
            match r {
                Some(i) => i < self.entries@.len() && self.entries@[i as int].0@ == key@,
                None => !keys_of(self.entries@).contains(key@),
            },
    {
        let mut i: usize = 0;
        while i < self.entries.len()
            invariant
                i <= self.entries.len(),
                forall|j: int| 0 <= j < i ==> keys_of(self.entries@)[j] != key@,
            decreases self.entries.len() - i,
        {
            if same_text(self.entries[i].0.as_str(), key) {
                return Some(i);
            }
            i = i + 1;
        }
        None
    }

    pub fn contains_key(&self, key: &str) -> (r: bool)
        requires
            self.wf(),
        ensures
            r == self@.contains_key(key@),
    {
        proof {
            lemma_map_of_domain(self.entries@);
        }
        match self.find(key) {
            Some(i) => {
                assert(keys_of(self.entries@)[i as int] == key@);
                true
            },
            None => false,
        }
    }

    pub fn get(&self, key: &str) -> (r: Option<&T>)
        requires
            self.wf(),
        ensures
            match r {
                Some(v) => self@.contains_key(key@) && *v == self@[key@],
                None => !self@.contains_key(key@),
            },
    {
        proof {
            lemma_map_of_domain(self.entries@);
        }
        match self.find(key) {
            Some(i) => {
                proof {
                    lemma_map_of_value(self.entries@, i as int);
                }
                Some(&self.entries[i].1)
            },
            None => None,
        }
    }

    /// The map of an entry list in which later entries win.
    pub fn from_entries(v: Vec<(String, T)>) -> (r: Self)
        ensures
            r.wf(),
            r@ == map_of(v@),
    {
        let mut m: IdMap<T> = IdMap::new();
        let ghost s = v@;
        let mut v = v;
        let mut i: usize = 0;
        let n = v.len();
        while i < n
            invariant
                i <= n,
                n == s.len(),
                v@ == s.skip(i as int),
                m.wf(),
                m@ == map_of(s.take(i as int)),
            decreases n - i,
        {
            let (k, x) = v.remove(0);
            proof {
                assert(s.skip(i as int)[0] == s[i as int]);
                assert(s.skip(i as int).subrange(1, (n - i) as int) =~= s.skip(i + 1));
                assert(s.take(i + 1).drop_last() =~= s.take(i as int));
                assert(s.take(i + 1).last() == s[i as int]);
            }
            m.insert(k, x);
            i = i + 1;
        }
        assert(s.take(n as int) =~= s);
        m
    }

    pub fn insert(&mut self, key: String, value: T)
        requires
            old(self).wf(),
        ensures
            final(self).wf(),
            final(self)@ == old(self)@.insert(key@, value),
    {
        match self.find(key.as_str()) {
            Some(i) => {
                let ghost s = self.entries@;
                proof {
                    lemma_map_of_update(s, i as int, (key, value));
                }
                self.entries.set(i, (key, value));
            },
            None => {
                let ghost s = self.entries@;
                self.entries.push((key, value));
                proof {
                    let t = self.entries@;
                    assert(t.drop_last() =~= s);
                    assert(keys_of(t) =~= keys_of(s).push(t.last().0@));
                    assert forall|a: int, b: int|
                        0 <= a < keys_of(t).len() && 0 <= b < keys_of(t).len() && a != b implies keys_of(t)[a]
                        != keys_of(t)[b] by {
                        if a < s.len() && b < s.len() {
                            assert(keys_of(s)[a] != keys_of(s)[b]);
                        } else if a < s.len() {
                            assert(keys_of(s).contains(keys_of(t)[a]));
                        } else {
                            assert(keys_of(s).contains(keys_of(t)[b]));
                        }
                    }
                }
            },
        }
    }

    pub fn remove(&mut self, key: &str) -> (r: Option<T>)
        requires
            old(self).wf(),
        ensures
            final(self).wf(),
            final(self)@ == old(self)@.remove(key@),
            match r {
                Some(v) => old(self)@.contains_key(key@) && v == old(self)@[key@],
                None => !old(self)@.contains_key(key@),
            },
    {
        proof {
            lemma_map_of_domain(self.entries@);
        }
        match self.find(key) {
            Some(i) => {
                let ghost s = self.entries@;
                proof {
                    lemma_map_of_remove(s, i as int);
                    lemma_map_of_value(s, i as int);
                }
                let (_, v) = self.entries.remove(i);
                Some(v)
            },
            None => {
                assert(self@ =~= self@.remove(key@));
                None
            },
        }
    }

    pub fn len(&self) -> (r: usize)
        requires
            self.wf(),
        ensures
            r == self@.len(),
    {
        proof {
            lemma_map_len(self.entries@);
        }
        self.entries.len()
    }

    /// The entries, in no particular order.
    pub fn entries(&self) -> (r: &Vec<(String, T)>)
        requires
            self.wf(),
        ensures
            map_of(r@) == self@,
            keys_of(r@).no_duplicates(),
    {
        &self.entries
    }
}

pub proof fn lemma_map_len<T>(s: Seq<(String, T)>)
    requires
        keys_of(s).no_duplicates(),
    ensures
        map_of(s).len() == s.len(),
    decreases s.len(),
{
    if s.len() > 0 {
        lemma_unique_prefix(s);
        lemma_map_len(s.drop_last());
        lemma_map_of_domain(s.drop_last());
    }
}

} // verus!
