//! A small map from names to values, kept as two parallel vectors.

use vstd::prelude::*;

verus! {

/// Values keyed by name; no name occurs twice.
pub struct Table<V> {
    keys: Vec<String>,
    values: Vec<V>,
}

impl<V> Table<V> {
    pub closed spec fn wf(&self) -> bool {
        &&& self.keys.len() == self.values.len()
        &&& forall|i: int, j: int|
            #![trigger self.keys@[i], self.keys@[j]]
            0 <= i < j < self.keys.len() ==> self.keys@[i]@ != self.keys@[j]@
    }

    spec fn has_at(&self, k: Seq<char>, i: int) -> bool {
        0 <= i < self.keys.len() && self.keys@[i]@ == k
    }

    spec fn index_of(&self, k: Seq<char>) -> int {
        choose|i: int| self.has_at(k, i)
    }

    /// The table as a map from names to values.
    pub closed spec fn map(&self) -> Map<Seq<char>, V> {
        Map::new(
            |k: Seq<char>| exists|i: int| self.has_at(k, i),
            |k: Seq<char>| self.values@[self.index_of(k)],
        )
    }

    proof fn lemma_at(&self, k: Seq<char>, i: int)
        requires
            self.wf(),
            self.has_at(k, i),
        ensures
            self.map().contains_key(k),
            self.index_of(k) == i,
            self.map()[k] == self.values@[i],
    {
        let j = self.index_of(k);
        assert(self.has_at(k, j));
        if i < j {
            assert(self.keys@[i]@ != self.keys@[j]@);
        } else if j < i {
            assert(self.keys@[j]@ != self.keys@[i]@);
        }
    }

    /// Creates an empty table.
    pub fn new() -> (r: Table<V>)
        ensures
            r.wf(),
            r.map() == Map::<Seq<char>, V>::empty(),
    {
        let r = Table { keys: Vec::new(), values: Vec::new() };
        assert(r.map() =~= Map::<Seq<char>, V>::empty());
        r
    }

    /// The place of `key` in the table, if it is there.
    fn find(&self, key: &str) -> (r: Option<usize>)
        requires
            self.wf(),
        ensures
            match r {
                Some(i) => self.has_at(key@, i as int) && self.map().contains_key(key@)
                    && self.map()[key@] == self.values@[i as int],
                None => !self.map().contains_key(key@),
            },
    {
        let wanted = String::from_str(key);
        let mut i: usize = 0;
        while i < self.keys.len()
            invariant
                self.wf(),
                i <= self.keys.len(),
                wanted@ == key@,
                forall|j: int| 0 <= j < i ==> self.keys@[j]@ != key@,
            decreases self.keys.len() - i,
        {
            if self.keys[i] == wanted {
                proof {
                    self.lemma_at(key@, i as int);
                }
                return Some(i);
            }
            i = i + 1;
        }
        None
    }

    /// Whether `key` is in the table.
    pub fn contains(&self, key: &str) -> (r: bool)
        requires
            self.wf(),
        ensures
            r == self.map().contains_key(key@),
    {
        self.find(key).is_some()
    }

    /// The value of `key`, if it is there.
    pub fn get(&self, key: &str) -> (r: Option<&V>)
        requires
            self.wf(),
        ensures
            match r {
                Some(v) => self.map().contains_key(key@) && *v == self.map()[key@],
                None => !self.map().contains_key(key@),
            },
    {
        match self.find(key) {
            Some(i) => Some(&self.values[i]),
            None => None,
        }
    }

    /// The number of entries.
    pub fn len(&self) -> (r: usize)
        requires
            self.wf(),
        ensures
            r == self.map().dom().len(),
    {
        proof {
            self.lemma_len();
        }
        self.keys.len()
    }

    proof fn lemma_len(&self)
        requires
            self.wf(),
        ensures
            self.map().dom().len() == self.keys.len(),
            self.map().dom().finite(),
    {
        let names = self.keys@.map_values(|s: String| s@);
        assert forall|i: int, j: int| 0 <= i < j < names.len() implies names[i] != names[j] by {
            assert(self.keys@[i]@ != self.keys@[j]@);
        }
        names.unique_seq_to_set();
        assert(self.map().dom() =~= names.to_set()) by {
            assert forall|k: Seq<char>| self.map().dom().contains(k) implies names.to_set().contains(k) by {
                let i = choose|i: int| self.has_at(k, i);
                assert(names[i] == k);
            }
            assert forall|k: Seq<char>| names.to_set().contains(k) implies self.map().dom().contains(k) by {
                let i = choose|i: int| 0 <= i < names.len() && names[i] == k;
                assert(self.has_at(k, i));
            }
        }
    }

    /// Sets the value of `key`, in place of any it had.
    pub fn insert(&mut self, key: String, value: V)
        requires
            old(self).wf(),
        ensures
            final(self).wf(),
            final(self).map() == old(self).map().insert(key@, value),
    {
        let ghost k = key@;
        let ghost m0 = self.map();
        match self.find(key.as_str()) {
            Some(i) => {
                self.values.set(i, value);
                proof {
                    assert forall|x: Seq<char>| #[trigger] self.map().contains_key(x) == m0.insert(
                        k,
                        value,
                    ).contains_key(x) by {
                        if exists|j: int| old(self).has_at(x, j) {
                            let j = choose|j: int| old(self).has_at(x, j);
                            assert(self.has_at(x, j));
                        }
                        if exists|j: int| self.has_at(x, j) {
                            let j = choose|j: int| self.has_at(x, j);
                            assert(old(self).has_at(x, j));
                        }
                    }
                    assert forall|x: Seq<char>| #[trigger] self.map().contains_key(x) implies self.map()[x]
                        == m0.insert(k, value)[x] by {
                        let j = choose|j: int| self.has_at(x, j);
                        self.lemma_at(x, j);
                        old(self).lemma_at(x, j);
                    }
                    assert(self.map() =~= m0.insert(k, value));
                }
            },
            None => {
                self.keys.push(key);
                self.values.push(value);
                proof {
                    let n = self.keys.len() - 1;
                    assert forall|i: int, j: int|
                        #![trigger self.keys@[i], self.keys@[j]]
                        0 <= i < j < self.keys.len() implies self.keys@[i]@ != self.keys@[j]@ by {
                        if j == n {
                            assert(old(self).has_at(self.keys@[i]@, i));
                        } else {
                            assert(old(self).keys@[i] == self.keys@[i]);
                            assert(old(self).keys@[j] == self.keys@[j]);
                        }
                    }
                    assert forall|x: Seq<char>| #[trigger] self.map().contains_key(x) == m0.insert(
                        k,
                        value,
                    ).contains_key(x) by {
                        if exists|j: int| old(self).has_at(x, j) {
                            let j = choose|j: int| old(self).has_at(x, j);
                            assert(self.has_at(x, j));
                        }
                        if x == k {
                            assert(self.has_at(x, n));
                        }
                        if exists|j: int| self.has_at(x, j) {
                            let j = choose|j: int| self.has_at(x, j);
                            if j < n {
                                assert(old(self).has_at(x, j));
                            }
                        }
                    }
                    assert forall|x: Seq<char>| #[trigger] self.map().contains_key(x) implies self.map()[x]
                        == m0.insert(k, value)[x] by {
                        let j = choose|j: int| self.has_at(x, j);
                        self.lemma_at(x, j);
                        if j < n {
                            old(self).lemma_at(x, j);
                        }
                    }
                    assert(self.map() =~= m0.insert(k, value));
                }
            },
        }
    }

    /// `u` is `t` with the value at place `i` replaced.
    proof fn lemma_replaced(t: Table<V>, u: Table<V>, k: Seq<char>, i: int)
        requires
            t.wf(),
            t.has_at(k, i),
            u.keys@ == t.keys@,
            u.values@ == t.values@.update(i, u.values@[i]),
        ensures
            u.wf(),
            u.map() == t.map().insert(k, u.values@[i]),
    {
        let m = t.map().insert(k, u.values@[i]);
        assert forall|x: Seq<char>| #[trigger] u.map().contains_key(x) == m.contains_key(x) by {
            if exists|j: int| t.has_at(x, j) {
                let j = choose|j: int| t.has_at(x, j);
                assert(u.has_at(x, j));
            }
            if exists|j: int| u.has_at(x, j) {
                let j = choose|j: int| u.has_at(x, j);
                assert(t.has_at(x, j));
            }
        }
        assert forall|x: Seq<char>| #[trigger] u.map().contains_key(x) implies u.map()[x] == m[x] by {
            let j = choose|j: int| u.has_at(x, j);
            u.lemma_at(x, j);
            t.lemma_at(x, j);
        }
        assert(u.map() =~= m);
    }

    /// A mutable reference to the value of `key`, if it is there.
    pub fn get_mut(&mut self, key: &str) -> (r: Option<&mut V>)
        requires
            old(self).wf(),
        ensures
            match r {
                Some(v) => {
                    &&& old(self).map().contains_key(key@)
                    &&& *v == old(self).map()[key@]
                    &&& final(self).wf()
                    &&& final(self).map() == old(self).map().insert(key@, *final(v))
                },
                None => {
                    &&& !old(self).map().contains_key(key@)
                    &&& *final(self) == *old(self)
                },
            },
    {
        match self.find(key) {
            Some(i) => {
                proof {
                    let t = *self;
                    assert forall|u: Table<V>|
                        u.keys@ == t.keys@ && u.values@ == t.values@.update(
                            i as int,
                            u.values@[i as int],
                        ) implies #[trigger] u.wf() && u.map() == t.map().insert(
                        key@,
                        u.values@[i as int],
                    ) by {
                        Self::lemma_replaced(t, u, key@, i as int);
                    }
                }
                let v = &mut self.values[i];
                Some(v)
            },
            None => None,
        }
    }
}

} // verus!
