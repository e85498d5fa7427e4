//! A map keyed by strings, held as a list of entries whose keys are distinct.

use vstd::prelude::*;

verus! {

/// A finite map from strings to values. Its entries have pairwise distinct keys;
/// their order carries no meaning.
pub struct StrMap<V> {
    entries: Vec<(String, V)>,
}

impl<V> View for StrMap<V> {
    type V = Map<Seq<char>, V>;

    /// The map from each key to the value stored with it.
    closed spec fn view(&self) -> Map<Seq<char>, V> {
        Map::new(
            |k: Seq<char>| self.has_key_at(k),
            |k: Seq<char>| self.entries@[self.index_of(k)].1,
        )
    }
}

impl<V> StrMap<V> {
    #[verifier::type_invariant]
    spec fn keys_distinct(self) -> bool {
        forall|i: int, j: int|
            0 <= i < j < self.entries@.len() ==> self.entries@[i].0@ != self.entries@[j].0@
    }

    spec fn has_key_at(self, k: Seq<char>) -> bool {
        exists|i: int| 0 <= i < self.entries@.len() && self.entries@[i].0@ == k
    }

    spec fn index_of(self, k: Seq<char>) -> int {
        choose|i: int| 0 <= i < self.entries@.len() && self.entries@[i].0@ == k
    }

    /// With distinct keys, entry `i` is what the view holds for its key.
    proof fn lemma_entry(self, i: int)
        requires
            self.keys_distinct(),
            0 <= i < self.entries@.len(),
        ensures
            self@.contains_key(self.entries@[i].0@),
            self@[self.entries@[i].0@] == self.entries@[i].1,
    {
        let k = self.entries@[i].0@;
        assert(self.has_key_at(k));
        let j = self.index_of(k);
        assert(j == i);
    }

    /// The empty map.
    pub fn new() -> (m: Self)
        ensures
            m@ == Map::<Seq<char>, V>::empty(),
    {
        let m = StrMap { entries: Vec::new() };
        assert(m@ =~= Map::<Seq<char>, V>::empty());
        m
    }

    /// The number of keys.
    pub fn len(&self) -> (n: usize)
        ensures
            n == self@.len(),
    {
        proof {
            use_type_invariant(self);
            self.lemma_len();
        }
        self.entries.len()
    }

    proof fn lemma_len(self)
        requires
            self.keys_distinct(),
        ensures
            self@.dom().finite(),
            self@.len() == self.entries@.len(),
        decreases self.entries@.len(),
    {
        let keys = self.entries@.map_values(|e: (String, V)| e.0@);
        assert(keys.no_duplicates()) by {
            assert forall|i: int, j: int| 0 <= i < keys.len() && 0 <= j < keys.len() && i != j
                implies keys[i] != keys[j] by {
                if i < j {
                } else {
                }
            }
        }
        assert(self@.dom() =~= keys.to_set()) by {
            assert forall|k: Seq<char>| self@.dom().contains(k) implies keys.to_set().contains(k) by {
                let i = self.index_of(k);
                assert(keys[i] == k);
            }
            assert forall|k: Seq<char>| keys.to_set().contains(k) implies self@.dom().contains(k) by {
                let i = choose|i: int| 0 <= i < keys.len() && keys[i] == k;
                assert(self.entries@[i].0@ == k);
            }
        }
        keys.unique_seq_to_set();
    }

    /// The position of the entry for `k`, if any.
    fn find(&self, k: &String) -> (r: Option<usize>)
        ensures
            r matches Some(i) ==> i < self.entries@.len() && self.entries@[i as int].0@ == k@,
            r is None ==> !self.has_key_at(k@),
    {
        let n = self.entries.len();
        let mut i: usize = 0;
        while i < n
            invariant
                n == self.entries@.len(),
                i <= n,
                forall|j: int| 0 <= j < i ==> self.entries@[j].0@ != k@,
            decreases n - i,
        {
            if self.entries[i].0 == *k {
                return Some(i);
            }
            i += 1;
        }
        None
    }

    /// Whether `k` has a value.
    pub fn contains_key(&self, k: &String) -> (b: bool)
        ensures
            b == self@.contains_key(k@),
    {
        proof {
            use_type_invariant(self);
        }
        match self.find(k) {
            Some(i) => {
                proof {
                    self.lemma_entry(i as int);
                }
                true
            },
            None => false,
        }
    }

    /// The value of `k`, if any.
    pub fn get(&self, k: &String) -> (r: Option<&V>)
        ensures
            r == (if self@.contains_key(k@) {
                Some(&self@[k@])
            } else {
                None
            }),
    {
        proof {
            use_type_invariant(self);
        }
        match self.find(k) {
            Some(i) => {
                proof {
                    self.lemma_entry(i as int);
                }
                Some(&self.entries[i].1)
            },
            None => None,
        }
    }

    /// Gives `k` the value `v`, replacing any value it had.
    pub fn insert(&mut self, k: String, v: V)
        ensures
            final(self)@ == old(self)@.insert(k@, v),
    {
        proof {
            use_type_invariant(&*self);
        }
        let ghost old_map = *self;
        let ghost kv = k@;
        let found = self.find(&k);
        let mut entries: Vec<(String, V)> = Vec::new();
        std::mem::swap(&mut entries, &mut self.entries);
        match found {
            Some(i) => {
                entries.set(i, (k, v));
                self.entries = entries;
                proof {
                    let new_map = *self;
                    assert(new_map.keys_distinct());
                    assert forall|key: Seq<char>| #[trigger] new_map.has_key_at(key)
                        == old_map@.insert(kv, v).contains_key(key) by {
                        if old_map.has_key_at(key) {
                            let j = old_map.index_of(key);
                            assert(new_map.entries@[j].0@ == key);
                        }
                        if new_map.has_key_at(key) {
                            let j = new_map.index_of(key);
                            if j != i {
                                assert(old_map.entries@[j].0@ == key);
                            }
                        }
                    }
                    assert forall|key: Seq<char>| #[trigger] new_map@.contains_key(key) implies new_map@[key]
                        == old_map@.insert(kv, v)[key] by {
                        let j = new_map.index_of(key);
                        new_map.lemma_entry(j);
                        if j != i {
                            old_map.lemma_entry(j);
                        }
                    }
                    assert(new_map@ =~= old_map@.insert(kv, v));
                }
            },
            None => {
                entries.push((k, v));
                self.entries = entries;
                proof {
                    let new_map = *self;
                    let n = old_map.entries@.len();
                    assert(new_map.keys_distinct()) by {
                        assert forall|a: int, b: int|
                            0 <= a < b < new_map.entries@.len() implies new_map.entries@[a].0@
                            != new_map.entries@[b].0@ by {
                            if b == n {
                                assert(old_map.entries@[a].0@ == new_map.entries@[a].0@);
                            } else {
                                assert(old_map.entries@[a] == new_map.entries@[a]);
                                assert(old_map.entries@[b] == new_map.entries@[b]);
                            }
                        }
                    }
                    assert forall|key: Seq<char>| #[trigger] new_map.has_key_at(key)
                        == old_map@.insert(kv, v).contains_key(key) by {
                        if old_map.has_key_at(key) {
                            let j = old_map.index_of(key);
                            assert(new_map.entries@[j] == old_map.entries@[j]);
                        }
                        if key == kv {
                            assert(new_map.entries@[n as int].0@ == kv);
                        }
                        if new_map.has_key_at(key) {
                            let j = new_map.index_of(key);
                            if j != n {
                                assert(old_map.entries@[j] == new_map.entries@[j]);
                            }
                        }
                    }
                    assert forall|key: Seq<char>| #[trigger] new_map@.contains_key(key) implies new_map@[key]
                        == old_map@.insert(kv, v)[key] by {
                        let j = new_map.index_of(key);
                        new_map.lemma_entry(j);
                        if j != n {
                            assert(old_map.entries@[j] == new_map.entries@[j]);
                            old_map.lemma_entry(j);
                        }
                    }
                    assert(new_map@ =~= old_map@.insert(kv, v));
                }
            },
        }
    }

    /// Takes the value of `k` out of the map, if it has one.
    pub fn remove(&mut self, k: &String) -> (r: Option<V>)
        ensures
            r == (if old(self)@.contains_key(k@) {
                Some(old(self)@[k@])
            } else {
                None
            }),
            final(self)@ == old(self)@.remove(k@),
    {
        proof {
            use_type_invariant(&*self);
        }
        let ghost old_map = *self;
        let ghost kv = k@;
        match self.find(k) {
            Some(i) => {
                proof {
                    old_map.lemma_entry(i as int);
                }
                let mut entries: Vec<(String, V)> = Vec::new();
                std::mem::swap(&mut entries, &mut self.entries);
                let (_, v) = entries.remove(i);
                self.entries = entries;
                proof {
                    let new_map = *self;
                    let ne = new_map.entries@;
                    let oe = old_map.entries@;
                    assert forall|j: int| 0 <= j < ne.len() implies #[trigger] ne[j] == oe[if j < i {
                        j
                    } else {
                        j + 1
                    }] by {}
                    assert(new_map.keys_distinct()) by {
                        assert forall|a: int, b: int| 0 <= a < b < ne.len() implies ne[a].0@
                            != ne[b].0@ by {
                            assert(ne[a] == oe[if a < i { a } else { a + 1 }]);
                            assert(ne[b] == oe[if b < i { b } else { b + 1 }]);
                        }
                    }
                    assert forall|key: Seq<char>| #[trigger] new_map.has_key_at(key)
                        == old_map@.remove(kv).contains_key(key) by {
                        if new_map.has_key_at(key) {
                            let j = new_map.index_of(key);
                            let oj = if j < i { j } else { j + 1 };
                            assert(ne[j] == oe[oj]);
                            assert(oj != i);
                        }
                        if old_map.has_key_at(key) && key != kv {
                            let oj = old_map.index_of(key);
                            assert(oj != i);
                            let j = if oj < i { oj } else { oj - 1 };
                            assert(ne[j] == oe[oj]);
                        }
                    }
                    assert forall|key: Seq<char>| #[trigger] new_map@.contains_key(key) implies new_map@[key]
                        == old_map@.remove(kv)[key] by {
                        let j = new_map.index_of(key);
                        new_map.lemma_entry(j);
                        let oj = if j < i { j } else { j + 1 };
                        assert(ne[j] == oe[oj]);
                        old_map.lemma_entry(oj);
                    }
                    assert(new_map@ =~= old_map@.remove(kv));
                }
                Some(v)
            },
            None => {
                proof {
                    assert(old_map@ =~= old_map@.remove(kv));
                }
                None
            },
        }
    }

    /// The keys, each once, in no particular order.
    pub fn keys(&self) -> (ks: Vec<String>)
        ensures
            forall|i: int, j: int| 0 <= i < j < ks@.len() ==> ks@[i]@ != ks@[j]@,
            forall|i: int| 0 <= i < ks@.len() ==> #[trigger] self@.contains_key(ks@[i]@),
            forall|k: Seq<char>|
                #[trigger] self@.contains_key(k) ==> exists|i: int| 0 <= i < ks@.len() && ks@[i]@ == k,
    {
        proof {
            use_type_invariant(self);
        }
        let mut ks: Vec<String> = Vec::new();
        let n = self.entries.len();
        for i in 0..n
            invariant
                n == self.entries@.len(),
                self.keys_distinct(),
                ks@.len() == i,
                forall|j: int| 0 <= j < i ==> #[trigger] ks@[j]@ == self.entries@[j].0@,
        {
            ks.push(self.entries[i].0.clone());
        }
        proof {
            assert forall|i: int| 0 <= i < ks@.len() implies #[trigger] self@.contains_key(ks@[i]@) by {
                self.lemma_entry(i);
            }
            assert forall|k: Seq<char>| #[trigger] self@.contains_key(k) implies exists|i: int|
                0 <= i < ks@.len() && ks@[i]@ == k by {
                let i = self.index_of(k);
                assert(ks@[i]@ == k);
            }
        }
        ks
    }

    /// The entries, each key with its value, in no particular order.
    pub fn into_entries(self) -> (es: Vec<(String, V)>)
        ensures
            forall|i: int, j: int| 0 <= i < j < es@.len() ==> es@[i].0@ != es@[j].0@,
            forall|i: int|
                0 <= i < es@.len() ==> #[trigger] self@.contains_key(es@[i].0@) && self@[es@[i].0@]
                    == es@[i].1,
            forall|k: Seq<char>|
                #[trigger] self@.contains_key(k) ==> exists|i: int|
                    0 <= i < es@.len() && es@[i].0@ == k,
    {
        proof {
            use_type_invariant(&self);
            assert forall|i: int| 0 <= i < self.entries@.len() implies #[trigger] self@.contains_key(
                self.entries@[i].0@,
            ) && self@[self.entries@[i].0@] == self.entries@[i].1 by {
                self.lemma_entry(i);
            }
        }
        self.entries
    }
}

} // verus!
