//! A map keyed by strings, kept as a vector of entries with distinct keys.
//!
//! The store of the kernel, the metadata of a user record and the node table of
//! the workspace tree are all maps from a string id to a value. This type gives
//! them one verified implementation whose view is a `Map` from the key's
//! characters to the value, and which also exposes the order in which keys were
//! first inserted, so loops over the entries can be specified.

use vstd::prelude::*;

verus! {

/// Whether the keys of a sequence of entries are pairwise distinct.
pub open spec fn keys_distinct<V>(s: Seq<(String, V)>) -> bool {
    forall|i: int, j: int| 0 <= i < s.len() && 0 <= j < s.len() && i != j ==> s[i].0@ != s[j].0@
}

/// Whether some entry of `s` has key `k`.
pub open spec fn has_key<V>(s: Seq<(String, V)>, k: Seq<char>) -> bool {
    exists|i: int| 0 <= i < s.len() && s[i].0@ == k
}

/// The map that a sequence of entries denotes.
pub open spec fn entries_map<V>(s: Seq<(String, V)>) -> Map<Seq<char>, V> {
    Map::new(
        |k: Seq<char>| has_key(s, k),
        |k: Seq<char>| s[choose|i: int| 0 <= i < s.len() && s[i].0@ == k].1,
    )
}

/// The keys of a sequence of entries, in order.
pub open spec fn entries_keys<V>(s: Seq<(String, V)>) -> Seq<Seq<char>> {
    Seq::new(s.len(), |i: int| s[i].0@)
}

/// With distinct keys, the map holds each entry's value under its key.
pub proof fn lemma_entries_map_at<V>(s: Seq<(String, V)>, i: int)
    requires
        keys_distinct(s),
        0 <= i < s.len(),
    ensures
        entries_map(s).contains_key(s[i].0@),
        entries_map(s)[s[i].0@] == s[i].1,
{
    let k = s[i].0@;
    assert(has_key(s, k));
    let j = choose|j: int| 0 <= j < s.len() && s[j].0@ == k;
    assert(j == i);
}

/// The keys of distinct entries, read in order, describe the map's domain.
pub proof fn lemma_entries_keys<V>(s: Seq<(String, V)>)
    requires
        keys_distinct(s),
    ensures
        entries_keys(s).no_duplicates(),
        forall|k: Seq<char>| #[trigger] entries_map(s).contains_key(k) <==> entries_keys(s).contains(k),
        entries_map(s).dom() == entries_keys(s).to_set(),
        entries_map(s).dom().finite(),
        entries_map(s).dom().len() == entries_keys(s).len(),
{
    let ks = entries_keys(s);
    assert forall|k: Seq<char>| #[trigger] entries_map(s).contains_key(k) <==> ks.contains(k) by {
        if entries_map(s).contains_key(k) {
            let i = choose|i: int| 0 <= i < s.len() && s[i].0@ == k;
            assert(ks[i] == k);
        }
        if ks.contains(k) {
            let i = choose|i: int| 0 <= i < ks.len() && ks[i] == k;
            assert(s[i].0@ == k);
        }
    }
    assert(entries_map(s).dom() =~= ks.to_set());
    ks.unique_seq_to_set();
}

/// A map from strings to values.
#[derive(Debug)]
pub struct StrMap<V> {
    entries: Vec<(String, V)>,
}

impl<V> StrMap<V> {
    #[verifier::type_invariant]
    spec fn inv(self) -> bool {
        keys_distinct(self.entries@)
    }

    /// The contents, as a map from the key's characters to the value.
    pub closed spec fn view(&self) -> Map<Seq<char>, V> {
        entries_map(self.entries@)
    }

    /// The keys in the order in which they were first inserted.
    pub closed spec fn key_seq(&self) -> Seq<Seq<char>> {
        entries_keys(self.entries@)
    }

    /// An empty map.
    pub fn new() -> (m: Self)
        ensures
            m@ == Map::<Seq<char>, V>::empty(),
            m.key_seq() == Seq::<Seq<char>>::empty(),
    {
        let m = StrMap { entries: Vec::new() };
        assert(m@ =~= Map::<Seq<char>, V>::empty());
        assert(m.key_seq() =~= Seq::<Seq<char>>::empty());
        m
    }

    /// Number of entries; also the facts that relate the key order to the
    /// map's domain.
    pub fn len(&self) -> (n: usize)
        ensures
            n == self.key_seq().len(),
            n == self@.dom().len(),
            self.key_seq().no_duplicates(),
            forall|k: Seq<char>| #[trigger] self@.contains_key(k) <==> self.key_seq().contains(k),
            self@.dom() == self.key_seq().to_set(),
            self@.dom().finite(),
    {
        proof {
            use_type_invariant(self);
            lemma_entries_keys(self.entries@);
        }
        self.entries.len()
    }

    /// Whether the map has no entry.
    pub fn is_empty(&self) -> (b: bool)
        ensures
            b <==> self@.dom() == Set::<Seq<char>>::empty(),
            b <==> self.key_seq().len() == 0,
    {
        proof {
            use_type_invariant(self);
            lemma_entries_keys(self.entries@);
        }
        if self.entries.len() == 0 {
            assert(self@.dom() =~= Set::<Seq<char>>::empty());
            true
        } else {
            assert(self@.dom().contains(self.key_seq()[0]));
            false
        }
    }

    /// The `i`-th key in insertion order.
    pub fn key_at(&self, i: usize) -> (k: &String)
        requires
            i < self.key_seq().len(),
        ensures
            k@ == self.key_seq()[i as int],
            self@.contains_key(k@),
    {
        proof {
            use_type_invariant(self);
            lemma_entries_map_at(self.entries@, i as int);
        }
        &self.entries[i].0
    }

    /// The value under the `i`-th key in insertion order.
    pub fn value_at(&self, i: usize) -> (v: &V)
        requires
            i < self.key_seq().len(),
        ensures
            self@.contains_key(self.key_seq()[i as int]),
            *v == self@[self.key_seq()[i as int]],
    {
        proof {
            use_type_invariant(self);
            lemma_entries_map_at(self.entries@, i as int);
        }
        &self.entries[i].1
    }

    /// The position of `k` in insertion order, if present.
    pub fn position(&self, k: &str) -> (r: Option<usize>)
        ensures
            match r {
                Some(i) => i < self.key_seq().len() && self.key_seq()[i as int] == k@,
                None => !self@.contains_key(k@),
            },
    {
        proof {
            use_type_invariant(self);
        }
        let ks: String = k.to_owned();
        let mut i: usize = 0;
        while i < self.entries.len()
            invariant
                0 <= i <= self.entries@.len(),
                ks@ == k@,
                forall|j: int| 0 <= j < i ==> self.entries@[j].0@ != k@,
            decreases self.entries@.len() - i,
        {
            if self.entries[i].0 == ks {
                return Some(i);
            }
            i = i + 1;
        }
        proof {
            if self@.contains_key(k@) {
                let j = choose|j: int| 0 <= j < self.entries@.len() && self.entries@[j].0@ == k@;
                assert(self.entries@[j].0@ == k@);
            }
        }
        None
    }

    /// Whether `k` has an entry.
    pub fn contains_key(&self, k: &str) -> (b: bool)
        ensures
            b == self@.contains_key(k@),
    {
        match self.position(k) {
            Some(i) => {
                proof {
                    use_type_invariant(self);
                    lemma_entries_map_at(self.entries@, i as int);
                }
                true
            },
            None => false,
        }
    }

    /// The value under `k`, if any.
    pub fn get(&self, k: &str) -> (r: Option<&V>)
        ensures
            match r {
                Some(v) => self@.contains_key(k@) && *v == self@[k@],
                None => !self@.contains_key(k@),
            },
    {
        match self.position(k) {
            Some(i) => {
                proof {
                    use_type_invariant(self);
                    lemma_entries_map_at(self.entries@, i as int);
                }
                Some(&self.entries[i].1)
            },
            None => None,
        }
    }

    /// Put `v` under `k`, returning the value it replaces. A new key goes
    /// last in the key order; an existing key keeps its place.
    pub fn insert(&mut self, k: String, v: V) -> (r: Option<V>)
        ensures
            final(self)@ == old(self)@.insert(k@, v),
            r == (if old(self)@.contains_key(k@) {
                Some(old(self)@[k@])
            } else {
                None::<V>
            }),
            old(self)@.contains_key(k@) ==> final(self).key_seq() == old(self).key_seq(),
            !old(self)@.contains_key(k@) ==> final(self).key_seq() == old(self).key_seq().push(k@),
    {
        proof {
            use_type_invariant(&*self);
        }
        let pos = self.position(k.as_str());
        let mut entries: Vec<(String, V)> = Vec::new();
        std::mem::swap(&mut entries, &mut self.entries);
        let ghost s0 = entries@;
        let ghost kv = k@;
        let ghost value = v;
        match pos {
            Some(i) => {
                let removed = entries.remove(i);
                let (_, old_v) = removed;
                entries.insert(i, (k, v));
                let ghost s2 = entries@;
                proof {
                    assert(s2 =~= s0.update(i as int, s2[i as int]));
                    assert(s2[i as int].0@ == kv && s2[i as int].1 == value);
                    assert(s0[i as int].0@ == kv);
                    assert(keys_distinct(s2)) by {
                        assert forall|a: int, b: int|
                            0 <= a < s2.len() && 0 <= b < s2.len() && a != b implies s2[a].0@ != s2[b].0@ by {
                            assert(s2[a].0@ == s0[a].0@);
                            assert(s2[b].0@ == s0[b].0@);
                        }
                    }
                    lemma_entries_map_at(s0, i as int);
                    lemma_entries_map_at(s2, i as int);
                    assert forall|x: Seq<char>| #[trigger] has_key(s2, x) <==> has_key(s0, x) by {
                        if has_key(s2, x) {
                            let j = choose|j: int| 0 <= j < s2.len() && s2[j].0@ == x;
                            assert(s0[j].0@ == x);
                        }
                        if has_key(s0, x) {
                            let j = choose|j: int| 0 <= j < s0.len() && s0[j].0@ == x;
                            assert(s2[j].0@ == x);
                        }
                    }
                    assert forall|x: Seq<char>| #[trigger] entries_map(s2).contains_key(x) && x != kv implies entries_map(
                        s2,
                    )[x] == entries_map(s0)[x] by {
                        let j = choose|j: int| 0 <= j < s2.len() && s2[j].0@ == x;
                        assert(j != i);
                        assert(s2[j] == s0[j]);
                        lemma_entries_map_at(s0, j);
                        lemma_entries_map_at(s2, j);
                    }
                    assert(entries_map(s2) =~= entries_map(s0).insert(kv, value));
                    assert(entries_keys(s2) =~= entries_keys(s0)) by {
                        assert forall|j: int| 0 <= j < s2.len() implies entries_keys(s2)[j] == entries_keys(s0)[j] by {
                            assert(s2[j].0@ == s0[j].0@);
                        }
                    }
                }
                self.entries = entries;
                Some(old_v)
            },
            None => {
                entries.push((k, v));
                let ghost s2 = entries@;
                proof {
                    assert(s2 =~= s0.push(s2[s0.len() as int]));
                    assert(!has_key(s0, kv));
                    assert(keys_distinct(s2)) by {
                        assert forall|a: int, b: int|
                            0 <= a < s2.len() && 0 <= b < s2.len() && a != b implies s2[a].0@ != s2[b].0@ by {
                            if a == s0.len() {
                                assert(s0[b].0@ != kv);
                            } else if b == s0.len() {
                                assert(s0[a].0@ != kv);
                            } else {
                                assert(s2[a] == s0[a] && s2[b] == s0[b]);
                            }
                        }
                    }
                    lemma_entries_map_at(s2, s0.len() as int);
                    assert forall|x: Seq<char>| #[trigger] has_key(s2, x) <==> (has_key(s0, x) || x == kv) by {
                        if has_key(s2, x) {
                            let j = choose|j: int| 0 <= j < s2.len() && s2[j].0@ == x;
                            if j < s0.len() {
                                assert(s0[j].0@ == x);
                            }
                        }
                        if has_key(s0, x) {
                            let j = choose|j: int| 0 <= j < s0.len() && s0[j].0@ == x;
                            assert(s2[j].0@ == x);
                        }
                        if x == kv {
                            assert(s2[s0.len() as int].0@ == x);
                        }
                    }
                    assert forall|x: Seq<char>| #[trigger] entries_map(s2).contains_key(x) && x != kv implies entries_map(
                        s2,
                    )[x] == entries_map(s0)[x] by {
                        let j = choose|j: int| 0 <= j < s2.len() && s2[j].0@ == x;
                        assert(j < s0.len());
                        assert(s2[j] == s0[j]);
                        lemma_entries_map_at(s0, j);
                        lemma_entries_map_at(s2, j);
                    }
                    assert(entries_map(s2) =~= entries_map(s0).insert(kv, value));
                    assert(entries_keys(s2) =~= entries_keys(s0).push(kv));
                }
                self.entries = entries;
                None
            },
        }
    }

    /// Remove the entry under `k`, returning its value.
    pub fn remove(&mut self, k: &str) -> (r: Option<V>)
        ensures
            final(self)@ == old(self)@.remove(k@),
            r == (if old(self)@.contains_key(k@) {
                Some(old(self)@[k@])
            } else {
                None::<V>
            }),
    {
        proof {
            use_type_invariant(&*self);
        }
        match self.position(k) {
            Some(i) => {
                let mut entries: Vec<(String, V)> = Vec::new();
                std::mem::swap(&mut entries, &mut self.entries);
                let ghost s0 = entries@;
                let ghost kv = k@;
                let removed = entries.remove(i);
                let (_, old_v) = removed;
                let ghost s2 = entries@;
                proof {
                    assert(s2 =~= s0.remove(i as int));
                    assert(s0[i as int].0@ == kv);
                    assert(keys_distinct(s2)) by {
                        assert forall|a: int, b: int|
                            0 <= a < s2.len() && 0 <= b < s2.len() && a != b implies s2[a].0@ != s2[b].0@ by {
                            let a0 = if a < i { a } else { a + 1 };
                            let b0 = if b < i { b } else { b + 1 };
                            assert(s2[a] == s0[a0] && s2[b] == s0[b0]);
                        }
                    }
                    lemma_entries_map_at(s0, i as int);
                    assert forall|x: Seq<char>| #[trigger] has_key(s2, x) <==> (has_key(s0, x) && x != kv) by {
                        if has_key(s2, x) {
                            let j = choose|j: int| 0 <= j < s2.len() && s2[j].0@ == x;
                            let j0 = if j < i { j } else { j + 1 };
                            assert(s2[j] == s0[j0]);
                            assert(j0 != i);
                        }
                        if has_key(s0, x) && x != kv {
                            let j = choose|j: int| 0 <= j < s0.len() && s0[j].0@ == x;
                            assert(j != i);
                            if j < i {
                                assert(s2[j] == s0[j]);
                            } else {
                                assert(s2[j - 1] == s0[j]);
                            }
                        }
                    }
                    assert forall|x: Seq<char>| #[trigger] entries_map(s2).contains_key(x) implies entries_map(s2)[x]
                        == entries_map(s0)[x] by {
                        let j = choose|j: int| 0 <= j < s2.len() && s2[j].0@ == x;
                        let j0 = if j < i { j } else { j + 1 };
                        assert(s2[j] == s0[j0]);
                        lemma_entries_map_at(s0, j0);
                        lemma_entries_map_at(s2, j);
                    }
                    assert(entries_map(s2) =~= entries_map(s0).remove(kv));
                }
                self.entries = entries;
                Some(old_v)
            },
            None => {
                assert(old(self)@.remove(k@) =~= old(self)@);
                None
            },
        }
    }
}

impl<V: Clone> Clone for StrMap<V> {
    /// A copy with the same keys, in the same order, each value cloned.
    fn clone(&self) -> (r: Self)
        ensures
            r.key_seq() == self.key_seq(),
            r@.dom() == self@.dom(),
            forall|k: Seq<char>| #[trigger] r@.contains_key(k) ==> cloned::<V>(self@[k], r@[k]),
    {
        proof {
            use_type_invariant(self);
        }
        let mut entries: Vec<(String, V)> = Vec::new();
        let mut i: usize = 0;
        while i < self.entries.len()
            invariant
                0 <= i <= self.entries@.len(),
                keys_distinct(self.entries@),
                entries@.len() == i,
                forall|j: int|
                    0 <= j < i ==> (#[trigger] entries@[j]).0 == self.entries@[j].0 && cloned::<V>(
                        self.entries@[j].1,
                        entries@[j].1,
                    ),
            decreases self.entries@.len() - i,
        {
            let entry = &self.entries[i];
            let key = entry.0.clone();
            let value = entry.1.clone();
            entries.push((key, value));
            i = i + 1;
        }
        let ghost s = self.entries@;
        let ghost t = entries@;
        proof {
            assert(keys_distinct(t)) by {
                assert forall|a: int, b: int| 0 <= a < t.len() && 0 <= b < t.len() && a != b implies t[a].0@
                    != t[b].0@ by {
                    assert(t[a].0 == s[a].0);
                    assert(t[b].0 == s[b].0);
                }
            }
            assert(entries_keys(t) =~= entries_keys(s)) by {
                assert forall|j: int| 0 <= j < t.len() implies entries_keys(t)[j] == entries_keys(s)[j] by {
                    assert(t[j].0 == s[j].0);
                }
            }
            lemma_entries_keys(s);
            lemma_entries_keys(t);
            assert(entries_map(t).dom() =~= entries_map(s).dom());
            assert forall|k: Seq<char>| #[trigger] entries_map(t).contains_key(k) implies cloned::<V>(
                entries_map(s)[k],
                entries_map(t)[k],
            ) by {
                let j = choose|j: int| 0 <= j < entries_keys(t).len() && entries_keys(t)[j] == k;
                assert(t[j].0 == s[j].0);
                lemma_entries_map_at(s, j);
                lemma_entries_map_at(t, j);
            }
        }
        StrMap { entries }
    }
}

} // verus!
