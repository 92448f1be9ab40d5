use vstd::prelude::*;

verus! {

/// A table of named settings: each name occurs at most once, and setting a
/// name again replaces its value.
pub struct OptionTable<V> {
    entries: Vec<(String, V)>,
}

/// The values of a table of strings, each taken by its characters.
pub open spec fn text_values(m: Map<Seq<char>, String>) -> Map<Seq<char>, Seq<char>> {
    Map::new(|k: Seq<char>| m.contains_key(k), |k: Seq<char>| m[k]@)
}

impl<V> OptionTable<V> {
    #[verifier::type_invariant]
    spec fn names_distinct(self) -> bool {
        forall|i: int, j: int|
            0 <= i < self.entries@.len() && 0 <= j < self.entries@.len() && i != j
                ==> #[trigger] self.entries@[i].0@ != #[trigger] self.entries@[j].0@
    }

    spec fn has_name_at(self, k: Seq<char>, i: int) -> bool {
        0 <= i < self.entries@.len() && self.entries@[i].0@ == k
    }
}

impl<V> View for OptionTable<V> {
    type V = Map<Seq<char>, V>;

    closed spec fn view(&self) -> Map<Seq<char>, V> {
        Map::new(
            |k: Seq<char>| exists|i: int| #[trigger] self.has_name_at(k, i),
            |k: Seq<char>| self.entries@[choose|i: int| #[trigger] self.has_name_at(k, i)].1,
        )
    }
}

impl<V> OptionTable<V> {
    /// An empty table.
    pub fn new() -> (t: Self)
        ensures
            t@ == Map::<Seq<char>, V>::empty(),
    {
        let t = OptionTable { entries: Vec::new() };
        assert(t@ =~= Map::<Seq<char>, V>::empty());
        t
    }

    /// An empty table with room reserved for `capacity` names.
    pub fn with_capacity(capacity: usize) -> (t: Self)
        ensures
            t@ == Map::<Seq<char>, V>::empty(),
    {
        let t = OptionTable { entries: Vec::with_capacity(capacity) };
        assert(t@ =~= Map::<Seq<char>, V>::empty());
        t
    }

    /// Number of names in the table.
    pub fn len(&self) -> (n: usize)
        ensures
            n == self@.len(),
    {
        proof {
            use_type_invariant(self);
            self.lemma_len();
        }
        self.entries.len()
    }

    proof fn lemma_len(&self)
        requires
            self.names_distinct(),
        ensures
            self@.dom().finite(),
            self@.len() == self.entries@.len(),
    {
        let names = self.entries@.map_values(|e: (String, V)| e.0@);
        assert(names.no_duplicates()) by {
            assert forall|i: int, j: int|
                0 <= i < names.len() && 0 <= j < names.len() && i != j implies names[i]
                != names[j] by {
                assert(self.entries@[i].0@ != self.entries@[j].0@);
            }
        }
        assert(self@.dom() =~= names.to_set()) by {
            assert forall|k: Seq<char>| self@.dom().contains(k) implies names.to_set().contains(
                k,
            ) by {
                let i = choose|i: int| #[trigger] self.has_name_at(k, i);
                assert(names[i] == k);
            }
            assert forall|k: Seq<char>| names.to_set().contains(k) implies self@.dom().contains(
                k,
            ) by {
                let i = choose|i: int| 0 <= i < names.len() && names[i] == k;
                assert(self.has_name_at(k, i));
            }
        }
        names.unique_seq_to_set();
    }

    /// Index of the entry named `k`, when there is one.
    fn find(&self, k: &str) -> (r: Option<usize>)
        ensures
            match r {
                Some(i) => self.has_name_at(k@, i as int),
                None => forall|i: int| !#[trigger] self.has_name_at(k@, i),
            },
    {
        let key = String::from_str(k);
        let mut i: usize = 0;
        while i < self.entries.len()
            invariant
                i <= self.entries@.len(),
                key@ == k@,
                forall|j: int| 0 <= j < i ==> !#[trigger] self.has_name_at(k@, j),
            decreases self.entries@.len() - i,
        {
            if self.entries[i].0 == key {
                return Some(i);
            }
            i = i + 1;
        }
        None
    }

    proof fn lemma_value_at(&self, i: int)
        requires
            self.names_distinct(),
            0 <= i < self.entries@.len(),
        ensures
            self@.contains_key(self.entries@[i].0@),
            self@[self.entries@[i].0@] == self.entries@[i].1,
    {
        let k = self.entries@[i].0@;
        assert(self.has_name_at(k, i));
        let j = choose|j: int| #[trigger] self.has_name_at(k, j);
        assert(i == j);
    }

    /// The value set under the name `k`, if any.
    pub fn get(&self, k: &str) -> (r: Option<&V>)
        ensures
            r == (if self@.contains_key(k@) {
                Some(&self@[k@])
            } else {
                None
            }),
    {
        proof {
            use_type_invariant(self);
        }
        match self.find(k) {
            Some(i) => {
                proof {
                    self.lemma_value_at(i as int);
                }
                Some(&self.entries[i].1)
            },
            None => None,
        }
    }

    /// Whether a value is set under the name `k`.
    pub fn contains_key(&self, k: &str) -> (b: bool)
        ensures
            b == self@.contains_key(k@),
    {
        self.find(k).is_some()
    }

    /// Sets the value under `k`, replacing any value it had.
    pub fn insert(&mut self, k: String, value: V)
        ensures
            final(self)@ == old(self)@.insert(k@, value),
    {
        proof {
            use_type_invariant(&*self);
        }
        let ghost old_entries = self.entries@;
        let ghost pre = *self;
        match self.find(k.as_str()) {
            Some(i) => {
                let mut entries = Vec::new();
                std::mem::swap(&mut entries, &mut self.entries);
                entries.set(i, (k, value));
                self.entries = entries;
                proof {
                    assert forall|key: Seq<char>| #![trigger self@.contains_key(key)]
                        self@.contains_key(key) == pre@.insert(k@, value).contains_key(key) by {
                        if key != k@ {
                            if pre@.contains_key(key) {
                                let j = choose|j: int| #[trigger] pre.has_name_at(key, j);
                                assert(self.has_name_at(key, j));
                            }
                            if self@.contains_key(key) {
                                let j = choose|j: int| #[trigger] self.has_name_at(key, j);
                                assert(pre.has_name_at(key, j));
                            }
                        } else {
                            assert(self.has_name_at(key, i as int));
                        }
                    }
                    assert forall|key: Seq<char>| #[trigger]
                        self@.contains_key(key) implies self@[key] == pre@.insert(
                        k@,
                        value,
                    )[key] by {
                        let j = choose|j: int| #[trigger] self.has_name_at(key, j);
                        self.lemma_value_at(j);
                        if j != i {
                            assert(pre.has_name_at(key, j));
                            pre.lemma_value_at(j);
                        }
                    }
                    assert(self@ =~= pre@.insert(k@, value));
                }
            },
            None => {
                let ghost kv = k@;
                let mut entries = Vec::new();
                std::mem::swap(&mut entries, &mut self.entries);
                entries.push((k, value));
                proof {
                    assert forall|a: int, b: int|
                        0 <= a < entries@.len() && 0 <= b < entries@.len() && a != b implies
                        #[trigger] entries@[a].0@ != #[trigger] entries@[b].0@ by {
                        let n = old_entries.len() as int;
                        if a < n && b < n {
                            assert(old_entries[a].0@ != old_entries[b].0@);
                        } else if a == n {
                            assert(!pre.has_name_at(kv, b));
                        } else {
                            assert(!pre.has_name_at(kv, a));
                        }
                    }
                }
                self.entries = entries;
                proof {
                    let n = old_entries.len() as int;
                    assert forall|key: Seq<char>| #![trigger self@.contains_key(key)]
                        self@.contains_key(key) == pre@.insert(kv, value).contains_key(key) by {
                        if key != kv {
                            if pre@.contains_key(key) {
                                let j = choose|j: int| #[trigger] pre.has_name_at(key, j);
                                assert(self.has_name_at(key, j));
                            }
                            if self@.contains_key(key) {
                                let j = choose|j: int| #[trigger] self.has_name_at(key, j);
                                assert(pre.has_name_at(key, j));
                            }
                        } else {
                            assert(self.has_name_at(key, n));
                        }
                    }
                    assert forall|key: Seq<char>| #[trigger]
                        self@.contains_key(key) implies self@[key] == pre@.insert(
                        kv,
                        value,
                    )[key] by {
                        let j = choose|j: int| #[trigger] self.has_name_at(key, j);
                        self.lemma_value_at(j);
                        if j != n {
                            assert(pre.has_name_at(key, j));
                            pre.lemma_value_at(j);
                        }
                    }
                    assert(self@ =~= pre@.insert(kv, value));
                }
            },
        }
    }
}

} // verus!
