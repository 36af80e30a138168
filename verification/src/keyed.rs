//! A map from string keys to values, kept as a vector of entries with distinct
//! keys.
use vstd::prelude::*;

verus! {

/// Whether some entry of `s` has the key `k`.
pub open spec fn has_key<V>(s: Seq<(String, V)>, k: Seq<char>) -> bool {
    exists|i: int| 0 <= i < s.len() && (#[trigger] s[i]).0@ == k
}

/// Whether the entries of `s` have pairwise different keys.
pub open spec fn keys_distinct<V>(s: Seq<(String, V)>) -> bool {
    forall|i: int, j: int|
        0 <= i < s.len() && 0 <= j < s.len() && i != j ==> (#[trigger] s[i]).0@ != (#[trigger] s[j]).0@
}

/// The entries of `s` as a map.
pub open spec fn entries_map<V>(s: Seq<(String, V)>) -> Map<Seq<char>, V> {
    Map::new(
        |k: Seq<char>| has_key(s, k),
        |k: Seq<char>| s[choose|i: int| 0 <= i < s.len() && (#[trigger] s[i]).0@ == k].1,
    )
}

pub proof fn lemma_entries_map_at<V>(s: Seq<(String, V)>, i: int)
    requires
        keys_distinct(s),
        0 <= i < s.len(),
    ensures
        entries_map(s).contains_key(s[i].0@),
        entries_map(s)[s[i].0@] == s[i].1,
{
    let k = s[i].0@;
    assert(has_key(s, k));
    let j = choose|j: int| 0 <= j < s.len() && (#[trigger] s[j]).0@ == k;
    assert(j == i);
}

proof fn lemma_entries_map_push<V>(s: Seq<(String, V)>, k: String, v: V)
    requires
        keys_distinct(s),
        !has_key(s, k@),
    ensures
        keys_distinct(s.push((k, v))),
        entries_map(s.push((k, v))) == entries_map(s).insert(k@, v),
{
    let t = s.push((k, v));
    let n = s.len() as int;
    assert forall|i: int, j: int|
        0 <= i < t.len() && 0 <= j < t.len() && i != j implies (#[trigger] t[i]).0@ != (
        #[trigger] t[j]).0@ by {
        if i == n {
            assert(t[j] == s[j]);
        } else if j == n {
            assert(t[i] == s[i]);
        } else {
            assert(t[i] == s[i] && t[j] == s[j]);
        }
    }
    assert forall|m: Seq<char>| #[trigger] has_key(t, m) <==> has_key(s, m) || m == k@ by {
        if has_key(t, m) {
            let i = choose|i: int| 0 <= i < t.len() && (#[trigger] t[i]).0@ == m;
            if i != n {
                assert(s[i] == t[i]);
            }
        }
        if has_key(s, m) {
            let i = choose|i: int| 0 <= i < s.len() && (#[trigger] s[i]).0@ == m;
            assert(t[i] == s[i]);
        }
        if m == k@ {
            assert(t[n].0@ == m);
        }
    }
    assert forall|m: Seq<char>| #[trigger]
        entries_map(t).contains_key(m) implies entries_map(t)[m] == entries_map(s).insert(
        k@,
        v,
    )[m] by {
        let i = choose|i: int| 0 <= i < t.len() && (#[trigger] t[i]).0@ == m;
        lemma_entries_map_at(t, i);
        if i != n {
            assert(s[i] == t[i]);
            lemma_entries_map_at(s, i);
        }
    }
    assert(entries_map(t) =~= entries_map(s).insert(k@, v));
}

proof fn lemma_entries_map_remove<V>(s: Seq<(String, V)>, r: int)
    requires
        keys_distinct(s),
        0 <= r < s.len(),
    ensures
        keys_distinct(s.remove(r)),
        entries_map(s.remove(r)) == entries_map(s).remove(s[r].0@),
{
    let t = s.remove(r);
    let k = s[r].0@;
    assert forall|i: int| 0 <= i < t.len() implies #[trigger] t[i] == s[if i < r {
        i
    } else {
        i + 1
    }] by {}
    assert forall|i: int, j: int|
        0 <= i < t.len() && 0 <= j < t.len() && i != j implies (#[trigger] t[i]).0@ != (
        #[trigger] t[j]).0@ by {
        let i2 = if i < r {
            i
        } else {
            i + 1
        };
        let j2 = if j < r {
            j
        } else {
            j + 1
        };
        assert(t[i] == s[i2] && t[j] == s[j2]);
    }
    assert forall|m: Seq<char>| #[trigger] has_key(t, m) <==> has_key(s, m) && m != k by {
        if has_key(t, m) {
            let i = choose|i: int| 0 <= i < t.len() && (#[trigger] t[i]).0@ == m;
            let i2 = if i < r {
                i
            } else {
                i + 1
            };
            assert(t[i] == s[i2]);
            assert(s[i2].0@ == m);
        }
        if has_key(s, m) && m != k {
            let i = choose|i: int| 0 <= i < s.len() && (#[trigger] s[i]).0@ == m;
            assert(i != r);
            let i1 = if i < r {
                i
            } else {
                i - 1
            };
            assert(t[i1] == s[i]);
        }
    }
    assert forall|m: Seq<char>| #[trigger]
        entries_map(t).contains_key(m) implies entries_map(t)[m] == entries_map(s)[m] by {
        let i = choose|i: int| 0 <= i < t.len() && (#[trigger] t[i]).0@ == m;
        lemma_entries_map_at(t, i);
        let i2 = if i < r {
            i
        } else {
            i + 1
        };
        assert(t[i] == s[i2]);
        lemma_entries_map_at(s, i2);
    }
    assert(entries_map(t) =~= entries_map(s).remove(k));
}

/// A map from string keys to values.
pub struct KeyedVec<V> {
    entries: Vec<(String, V)>,
}

impl<V> View for KeyedVec<V> {
    type V = Map<Seq<char>, V>;

    closed spec fn view(&self) -> Map<Seq<char>, V> {
        entries_map(self.entries@)
    }
}

impl<V> KeyedVec<V> {
    /// Whether no two entries share a key.
    pub closed spec fn wf(&self) -> bool {
        keys_distinct(self.entries@)
    }

    /// The entries, in the order [`Self::entries`] gives them.
    pub closed spec fn entries_spec(&self) -> Seq<(String, V)> {
        self.entries@
    }

    /// An empty map.
    pub fn new() -> (r: Self)
        ensures
            r.wf(),
            r@ == Map::<Seq<char>, V>::empty(),
    {
        let r = KeyedVec { entries: Vec::new() };
        assert(r@ =~= Map::<Seq<char>, V>::empty());
        r
    }

    /// The index of the entry with key `k`, if any.
    fn position(&self, k: &str) -> (r: Option<usize>)
        ensures
            match r {
                Some(i) => i < self.entries@.len() && self.entries@[i as int].0@ == k@,
                None => !has_key(self.entries@, k@),
            },
    {
        let key = crate::text::owned(k);
        let mut i: usize = 0;
        while i < self.entries.len()
            invariant
                i <= self.entries@.len(),
                key@ == k@,
                forall|j: int| 0 <= j < i ==> (#[trigger] self.entries@[j]).0@ != k@,
            decreases self.entries.len() - i,
        {
            if self.entries[i].0 == key {
                return Some(i);
            }
            i = i + 1;
        }
        None
    }

    /// Binds `k` to `v`, replacing the value `k` had.
    pub fn insert(&mut self, k: String, v: V)
        requires
            old(self).wf(),
        ensures
            final(self).wf(),
            final(self)@ == old(self)@.insert(k@, v),
    {
        match self.position(k.as_str()) {
            Some(i) => {
                let ghost s0 = self.entries@;
                let _ = self.entries.remove(i);
                proof {
                    lemma_entries_map_remove(s0, i as int);
                    let s1 = s0.remove(i as int);
                    if has_key(s1, k@) {
                        let j = choose|j: int| 0 <= j < s1.len() && (#[trigger] s1[j]).0@ == k@;
                        lemma_entries_map_at(s1, j);
                    }
                    lemma_entries_map_push(s1, k, v);
                    assert(entries_map(s0).remove(k@).insert(k@, v) =~= entries_map(s0).insert(
                        k@,
                        v,
                    ));
                }
                self.entries.push((k, v));
            },
            None => {
                proof {
                    lemma_entries_map_push(self.entries@, k, v);
                }
                self.entries.push((k, v));
            },
        }
    }

    /// Removes the entry with key `k` and returns its value.
    pub fn remove(&mut self, k: &str) -> (r: Option<V>)
        requires
            old(self).wf(),
        ensures
            final(self).wf(),
            final(self)@ == old(self)@.remove(k@),
            match r {
                Some(v) => old(self)@.contains_key(k@) && v == old(self)@[k@],
                None => !old(self)@.contains_key(k@),
            },
    {
        match self.position(k) {
            Some(i) => {
                let ghost s0 = self.entries@;
                proof {
                    lemma_entries_map_at(s0, i as int);
                    lemma_entries_map_remove(s0, i as int);
                }
                let (_, v) = self.entries.remove(i);
                Some(v)
            },
            None => {
                assert(entries_map(self.entries@) =~= entries_map(self.entries@).remove(k@));
                None
            },
        }
    }

    /// The value bound to `k`, if any.
    pub fn get(&self, k: &str) -> (r: Option<&V>)
        requires
            self.wf(),
        ensures
            match r {
                Some(v) => self@.contains_key(k@) && *v == self@[k@],
                None => !self@.contains_key(k@),
            },
    {
        match self.position(k) {
            Some(i) => {
                proof {
                    lemma_entries_map_at(self.entries@, i as int);
                }
                Some(&self.entries[i].1)
            },
            None => None,
        }
    }

    /// Every entry, once each.
    pub fn entries(&self) -> (r: &Vec<(String, V)>)
        requires
            self.wf(),
        ensures
            r@ == self.entries_spec(),
            keys_distinct(r@),
            forall|i: int|
                0 <= i < r@.len() ==> self@.contains_key((#[trigger] r@[i]).0@) && self@[r@[i].0@]
                    == r@[i].1,
            forall|k: Seq<char>| #[trigger] self@.contains_key(k) ==> has_key(r@, k),
    {
        proof {
            assert forall|i: int| 0 <= i < self.entries@.len() implies self@.contains_key(
                (#[trigger] self.entries@[i]).0@,
            ) && self@[self.entries@[i].0@] == self.entries@[i].1 by {
                lemma_entries_map_at(self.entries@, i);
            }
        }
        &self.entries
    }
}

} // verus!
