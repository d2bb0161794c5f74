//! A small string-keyed map kept as a list of entries with distinct keys, viewed as a `Map` from
//! the key's characters to the value's model. Enough for the app's per-window and per-detached
//! window bookkeeping, which holds a handful of entries.

use vstd::prelude::*;
use crate::text::str_eq;

verus! {

/// A value that can be copied while keeping its model.
pub trait Duplicate: Sized + DeepView {
    fn duplicate(&self) -> (r: Self)
        ensures
            r.deep_view() == self.deep_view(),
    ;
}

impl Duplicate for String {
    fn duplicate(&self) -> (r: String) {
        self.clone()
    }
}

impl Duplicate for Option<String> {
    fn duplicate(&self) -> (r: Option<String>) {
        match self {
            Some(s) => Some(s.clone()),
            None => None,
        }
    }
}

/// The map an entry list denotes: each key mapped to its value's model, later entries winning.
pub open spec fn keyed_map<V: DeepView>(s: Seq<(String, V)>) -> Map<Seq<char>, V::V>
    decreases s.len(),
{
    if s.len() == 0 {
        Map::empty()
    } else {
        keyed_map(s.drop_last()).insert(s.last().0@, s.last().1.deep_view())
    }
}

/// No two entries share a key.
pub open spec fn keys_unique<V>(s: Seq<(String, V)>) -> bool {
    forall|i: int, j: int| 0 <= i < j < s.len() ==> (#[trigger] s[i]).0@ != (#[trigger] s[j]).0@
}

/// A key is in the map exactly when some entry has it.
pub proof fn lemma_keyed_dom<V: DeepView>(s: Seq<(String, V)>)
    ensures
        forall|k: Seq<char>| #[trigger] keyed_map(s).contains_key(k) <==> exists|i: int|
            0 <= i < s.len() && s[i].0@ == k,
    decreases s.len(),
{
    if s.len() > 0 {
        let d = s.drop_last();
        lemma_keyed_dom(d);
        assert forall|k: Seq<char>| #[trigger] keyed_map(s).contains_key(k) <==> exists|i: int|
            0 <= i < s.len() && s[i].0@ == k by {
            if keyed_map(s).contains_key(k) {
                if k == s.last().0@ {
                    assert(s[s.len() - 1].0@ == k);
                } else {
                    assert(keyed_map(d).contains_key(k));
                    let i = choose|i: int| 0 <= i < d.len() && d[i].0@ == k;
                    assert(s[i] == d[i]);
                }
            }
            if exists|i: int| 0 <= i < s.len() && s[i].0@ == k {
                let i = choose|i: int| 0 <= i < s.len() && s[i].0@ == k;
                if i < s.len() - 1 {
                    assert(d[i] == s[i]);
                    assert(keyed_map(d).contains_key(k));
                }
            }
        }
    }
}

/// With distinct keys, each entry's key maps to that entry's value.
pub proof fn lemma_keyed_at<V: DeepView>(s: Seq<(String, V)>, i: int)
    requires
        keys_unique(s),
        0 <= i < s.len(),
    ensures
        keyed_map(s).contains_key(s[i].0@),
        keyed_map(s)[s[i].0@] == s[i].1.deep_view(),
    decreases s.len(),
{
    if i < s.len() - 1 {
        let d = s.drop_last();
        assert(keys_unique(d)) by {
            assert forall|a: int, b: int| 0 <= a < b < d.len() implies (#[trigger] d[a]).0@ != (#[trigger] d[b]).0@ by {
                assert(d[a] == s[a] && d[b] == s[b]);
            }
        }
        assert(d[i] == s[i]);
        lemma_keyed_at(d, i);
        assert(s[i].0@ != s.last().0@);
    }
}

/// Replacing an entry's value (same key) updates that key in the map.
pub proof fn lemma_keyed_update<V: DeepView>(s: Seq<(String, V)>, i: int, e: (String, V))
    requires
        keys_unique(s),
        0 <= i < s.len(),
        e.0@ == s[i].0@,
    ensures
        keys_unique(s.update(i, e)),
        keyed_map(s.update(i, e)) == keyed_map(s).insert(e.0@, e.1.deep_view()),
    decreases s.len(),
{
    let u = s.update(i, e);
    assert(keys_unique(u)) by {
        assert forall|a: int, b: int| 0 <= a < b < u.len() implies (#[trigger] u[a]).0@ != (#[trigger] u[b]).0@ by {
            assert(u[a].0@ == s[a].0@ && u[b].0@ == s[b].0@);
        }
    }
    let d = s.drop_last();
    if i == s.len() - 1 {
        assert(u.drop_last() =~= d);
        assert(keyed_map(u) =~= keyed_map(s).insert(e.0@, e.1.deep_view()));
    } else {
        assert(keys_unique(d)) by {
            assert forall|a: int, b: int| 0 <= a < b < d.len() implies (#[trigger] d[a]).0@ != (#[trigger] d[b]).0@ by {
                assert(d[a] == s[a] && d[b] == s[b]);
            }
        }
        assert(u.drop_last() =~= d.update(i, e));
        lemma_keyed_update(d, i, e);
        assert(s[i].0@ != s.last().0@);
        assert(keyed_map(u) =~= keyed_map(s).insert(e.0@, e.1.deep_view()));
    }
}

/// Removing an entry removes its key from the map.
pub proof fn lemma_keyed_remove<V: DeepView>(s: Seq<(String, V)>, i: int)
    requires
        keys_unique(s),
        0 <= i < s.len(),
    ensures
        keys_unique(s.remove(i)),
        keyed_map(s.remove(i)) == keyed_map(s).remove(s[i].0@),
    decreases s.len(),
{
    let r = s.remove(i);
    assert(keys_unique(r)) by {
        assert forall|a: int, b: int| 0 <= a < b < r.len() implies (#[trigger] r[a]).0@ != (#[trigger] r[b]).0@ by {
            let sa = if a < i { a } else { a + 1 };
            let sb = if b < i { b } else { b + 1 };
            assert(r[a] == s[sa] && r[b] == s[sb]);
        }
    }
    let d = s.drop_last();
    assert(keys_unique(d)) by {
        assert forall|a: int, b: int| 0 <= a < b < d.len() implies (#[trigger] d[a]).0@ != (#[trigger] d[b]).0@ by {
            assert(d[a] == s[a] && d[b] == s[b]);
        }
    }
    let k = s[i].0@;
    if i == s.len() - 1 {
        assert(r =~= d);
        lemma_keyed_dom(d);
        assert(!keyed_map(d).contains_key(k)) by {
            if keyed_map(d).contains_key(k) {
                let j = choose|j: int| 0 <= j < d.len() && d[j].0@ == k;
                assert(s[j].0@ == k);
            }
        }
        assert(keyed_map(r) =~= keyed_map(s).remove(k));
    } else {
        assert(r.drop_last() =~= d.remove(i));
        assert(r.last() == s.last());
        lemma_keyed_remove(d, i);
        assert(d[i] == s[i]);
        assert(k != s.last().0@);
        assert(keyed_map(r) =~= keyed_map(s).remove(k));
    }
}

/// A string-keyed map with distinct keys.
pub struct StrMap<V> {
    entries: Vec<(String, V)>,
}

impl<V: DeepView> StrMap<V> {
    /// The entries, in insertion order.
    pub closed spec fn entries(&self) -> Seq<(String, V)> {
        self.entries@
    }

    /// The map the entries denote.
    pub closed spec fn model(&self) -> Map<Seq<char>, V::V> {
        keyed_map(self.entries@)
    }

    /// No two entries share a key.
    pub closed spec fn wf(&self) -> bool {
        keys_unique(self.entries@)
    }

    /// The model is exactly the entries' keys mapped to their values.
    pub proof fn lemma_model(&self)
        requires
            self.wf(),
        ensures
            keys_unique(self.entries()),
            forall|k: Seq<char>| #[trigger] self.model().contains_key(k) <==> exists|i: int|
                0 <= i < self.entries().len() && self.entries()[i].0@ == k,
            forall|i: int| 0 <= i < self.entries().len() ==> #[trigger] self.model()[self.entries()[i].0@]
                == self.entries()[i].1.deep_view(),
    {
        lemma_keyed_dom(self.entries@);
        assert forall|k: Seq<char>| #[trigger] self.model().contains_key(k) <==> exists|i: int|
            0 <= i < self.entries().len() && self.entries()[i].0@ == k by {
            assert(keyed_map(self.entries@).contains_key(k) <==> exists|i: int|
                0 <= i < self.entries@.len() && self.entries@[i].0@ == k);
            if self.model().contains_key(k) {
                let i = choose|i: int| 0 <= i < self.entries@.len() && self.entries@[i].0@ == k;
                assert(self.entries()[i].0@ == k);
            }
            if exists|i: int| 0 <= i < self.entries().len() && self.entries()[i].0@ == k {
                let i = choose|i: int| 0 <= i < self.entries().len() && self.entries()[i].0@ == k;
                assert(self.entries@[i].0@ == k);
            }
        }
        assert forall|i: int| 0 <= i < self.entries().len() implies #[trigger] self.model()[self.entries()[i].0@]
            == self.entries()[i].1.deep_view() by {
            lemma_keyed_at(self.entries@, i);
        }
    }

    /// The empty map.
    pub fn new() -> (m: Self)
        ensures
            m.wf(),
            m.model() == Map::<Seq<char>, V::V>::empty(),
            m.entries().len() == 0,
    {
        StrMap { entries: Vec::new() }
    }

    /// The number of entries.
    pub fn len(&self) -> (n: usize)
        ensures
            n == self.entries().len(),
    {
        self.entries.len()
    }

    /// The key of entry `i`.
    pub fn key_at(&self, i: usize) -> (k: &String)
        requires
            i < self.entries().len(),
        ensures
            *k == self.entries()[i as int].0,
    {
        &self.entries[i].0
    }

    /// The value of entry `i`.
    pub fn value_at(&self, i: usize) -> (v: &V)
        requires
            i < self.entries().len(),
        ensures
            *v == self.entries()[i as int].1,
    {
        &self.entries[i].1
    }

    /// The index of the entry with key `k`, if any.
    pub fn index_of(&self, k: &str) -> (r: Option<usize>)
        ensures
            match r {
                Some(i) => i < self.entries().len() && self.entries()[i as int].0@ == k@,
                None => forall|i: int| 0 <= i < self.entries().len() ==> self.entries()[i].0@ != k@,
            },
    {
        let mut i: usize = 0;
        while i < self.entries.len()
            invariant
                i <= self.entries@.len(),
                forall|j: int| 0 <= j < i ==> self.entries@[j].0@ != k@,
            decreases self.entries@.len() - i,
        {
            if str_eq(self.entries[i].0.as_str(), k) {
                return Some(i);
            }
            i += 1;
        }
        None
    }

    /// The value stored under `k`, if any.
    pub fn get(&self, k: &str) -> (r: Option<&V>)
        requires
            self.wf(),
        ensures
            match r {
                Some(v) => self.model().contains_key(k@) && self.model()[k@] == v.deep_view(),
                None => !self.model().contains_key(k@),
            },
    {
        proof { self.lemma_model(); }
        match self.index_of(k) {
            Some(i) => Some(&self.entries[i].1),
            None => None,
        }
    }

    /// Store `v` under `k`, replacing any previous value.
    pub fn insert(&mut self, k: String, v: V)
        requires
            old(self).wf(),
        ensures
            final(self).wf(),
            final(self).model() == old(self).model().insert(k@, v.deep_view()),
    {
        match self.index_of(k.as_str()) {
            Some(i) => {
                proof { lemma_keyed_update(self.entries@, i as int, (k, v)); }
                self.entries.set(i, (k, v));
            },
            None => {
                let ghost old_entries = self.entries@;
                let ghost kk = k@;
                assert forall|i: int| 0 <= i < old_entries.len() implies old_entries[i].0@ != kk by {
                    assert(old_entries[i] == self.entries()[i]);
                }
                self.entries.push((k, v));
                proof {
                    assert(self.entries@.drop_last() =~= old_entries);
                    assert forall|a: int, b: int| 0 <= a < b < self.entries@.len() implies (#[trigger] self.entries@[a]).0@
                        != (#[trigger] self.entries@[b]).0@ by {
                        if b == old_entries.len() {
                            assert(self.entries@[a] == old_entries[a]);
                            assert(self.entries@[b].0@ == kk);
                            assert(old_entries[a].0@ != kk);
                        } else {
                            assert(self.entries@[a] == old_entries[a] && self.entries@[b] == old_entries[b]);
                        }
                    }
                }
            },
        }
    }

    /// Remove the entry for `k`, if any, returning its value.
    pub fn remove(&mut self, k: &str) -> (r: Option<V>)
        requires
            old(self).wf(),
        ensures
            final(self).wf(),
            final(self).model() == old(self).model().remove(k@),
            match r {
                Some(v) => old(self).model().contains_key(k@) && old(self).model()[k@] == v.deep_view(),
                None => !old(self).model().contains_key(k@),
            },
    {
        proof { self.lemma_model(); }
        match self.index_of(k) {
            Some(i) => {
                proof { lemma_keyed_remove(self.entries@, i as int); }
                let (_, v) = self.entries.remove(i);
                Some(v)
            },
            None => {
                assert(self.model().remove(k@) =~= self.model());
                None
            },
        }
    }
}

} // verus!
