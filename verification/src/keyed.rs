use vstd::prelude::*;

use crate::text::str_equal;

verus! {

/// The keys of an association list, in order.
pub open spec fn keys_of<V>(entries: Seq<(String, V)>) -> Seq<Seq<char>> {
    entries.map_values(|e: (String, V)| e.0@)
}

/// A map from text keys to values that keeps the order in which keys were
/// first inserted. No key occurs twice.
#[derive(Debug)]
pub struct KeyedList<V> {
    entries: Vec<(String, V)>,
}

impl<V> KeyedList<V> {
    /// Well-formedness: no key occurs twice.
    pub open spec fn wf(self) -> bool {
        self.keys().no_duplicates()
    }

    /// The entries, in order.
    pub closed spec fn entries(self) -> Seq<(String, V)> {
        self.entries@
    }

    /// The keys, in order.
    pub open spec fn keys(self) -> Seq<Seq<char>> {
        keys_of(self.entries())
    }

    /// The list as a map from keys to values.
    pub open spec fn as_map(self) -> Map<Seq<char>, V> {
        Map::new(
            |k: Seq<char>| self.keys().contains(k),
            |k: Seq<char>| self.entries()[self.keys().index_of(k)].1,
        )
    }

    /// Position of key `k`, where it occurs.
    pub open spec fn position(self, k: Seq<char>) -> int {
        self.keys().index_of(k)
    }

    /// The position of a present key is where it stands.
    pub proof fn lemma_position(self, i: int)
        requires
            self.wf(),
            0 <= i < self.entries().len(),
        ensures
            self.keys().contains(self.entries()[i].0@),
            self.position(self.entries()[i].0@) == i,
            self.as_map().contains_key(self.entries()[i].0@),
            self.as_map()[self.entries()[i].0@] == self.entries()[i].1,
    {
        let k = self.entries()[i].0@;
        assert(self.keys()[i] == k);
        let j = self.keys().index_of(k);
        assert(self.keys()[j] == k);
    }

    pub fn new() -> (r: Self)
        ensures
            r.wf(),
            r.entries() == Seq::<(String, V)>::empty(),
            r.as_map() == Map::<Seq<char>, V>::empty(),
    {
        let r = KeyedList { entries: Vec::new() };
        assert(r.as_map() =~= Map::<Seq<char>, V>::empty());
        r
    }

    pub fn len(&self) -> (r: usize)
        ensures
            r == self.entries().len(),
    {
        self.entries.len()
    }

    /// Entry at an index.
    pub fn entry(&self, i: usize) -> (r: &(String, V))
        requires
            i < self.entries().len(),
        ensures
            *r == self.entries()[i as int],
    {
        &self.entries[i]
    }

    /// Index of the entry with key `k`, if there is one.
    pub fn find(&self, k: &str) -> (r: Option<usize>)
        requires
            self.wf(),
        ensures
            r is None <==> !self.keys().contains(k@),
            r matches Some(i) ==> i < self.entries().len() && self.entries()[i as int].0@ == k@
                && i == self.position(k@),
    {
        let mut i: usize = 0;
        while i < self.entries.len()
            invariant
                self.wf(),
                i <= self.entries@.len(),
                forall|j: int| 0 <= j < i ==> #[trigger] self.entries@[j].0@ != k@,
            decreases self.entries@.len() - i,
        {
            if str_equal(self.entries[i].0.as_str(), k) {
                proof {
                    self.lemma_position(i as int);
                }
                return Some(i);
            }
            i = i + 1;
        }
        assert forall|j: int| 0 <= j < self.keys().len() implies self.keys()[j] != k@ by {
            assert(self.keys()[j] == self.entries@[j].0@);
        }
        None
    }

    /// The value stored under `k`.
    pub fn get(&self, k: &str) -> (r: Option<&V>)
        requires
            self.wf(),
        ensures
            r is None <==> !self.as_map().contains_key(k@),
            r matches Some(v) ==> *v == self.as_map()[k@],
    {
        match self.find(k) {
            Some(i) => Some(&self.entries[i].1),
            None => None,
        }
    }

    /// Mutable access to the value at an index; the key stays.
    pub fn value_mut(&mut self, i: usize) -> (r: &mut V)
        requires
            old(self).wf(),
            i < old(self).entries().len(),
        ensures
            *r == old(self).entries()[i as int].1,
            final(self).entries() == old(self).entries().update(
                i as int,
                (old(self).entries()[i as int].0, *final(r)),
            ),
            final(self).wf(),
            final(self).keys() == old(self).keys(),
            final(self).as_map() == old(self).as_map().insert(
                old(self).entries()[i as int].0@,
                *final(r),
            ),
        no_unwind
    {
        proof {
            self.lemma_update_any(i as int);
        }
        &mut self.entries[i].1
    }

    /// Replacing the value at an index keeps the keys and well-formedness,
    /// and updates the map at that key.
    pub proof fn lemma_update_value(self, other: Self, i: int, v: V)
        requires
            self.wf(),
            0 <= i < self.entries().len(),
            other.entries() == self.entries().update(i, (self.entries()[i].0, v)),
        ensures
            other.wf(),
            other.keys() == self.keys(),
            other.as_map() == self.as_map().insert(self.entries()[i].0@, v),
    {
        assert(other.keys() =~= self.keys());
        let k = self.entries()[i].0@;
        other.lemma_position(i);
        assert forall|key: Seq<char>| #[trigger] other.as_map().contains_key(key) implies other.as_map()[key]
            == self.as_map().insert(k, v)[key] by {
            let j = other.keys().index_of(key);
            other.lemma_position(j);
            if key != k {
                self.lemma_position(j);
            }
        }
        assert(other.as_map() =~= self.as_map().insert(k, v));
    }

    /// `lemma_update_value` for every replacement value at once.
    pub proof fn lemma_update_any(self, i: int)
        requires
            self.wf(),
            0 <= i < self.entries().len(),
        ensures
            forall|other: Self, v: V|
                #![trigger other.entries(), self.entries().update(i, (self.entries()[i].0, v))]
                other.entries() == self.entries().update(i, (self.entries()[i].0, v)) ==> {
                    &&& other.wf()
                    &&& other.keys() == self.keys()
                    &&& other.as_map() == self.as_map().insert(self.entries()[i].0@, v)
                },
    {
        assert forall|other: Self, v: V|
            #![trigger other.entries(), self.entries().update(i, (self.entries()[i].0, v))]
            other.entries() == self.entries().update(i, (self.entries()[i].0, v)) implies {
                &&& other.wf()
                &&& other.keys() == self.keys()
                &&& other.as_map() == self.as_map().insert(self.entries()[i].0@, v)
            } by {
            self.lemma_update_value(other, i, v);
        }
    }

    /// Removes and returns the entry at an index.
    pub fn remove_at(&mut self, i: usize) -> (r: (String, V))
        requires
            old(self).wf(),
            i < old(self).entries().len(),
        ensures
            final(self).wf(),
            r == old(self).entries()[i as int],
            final(self).entries() == old(self).entries().remove(i as int),
            final(self).keys() == old(self).keys().remove(i as int),
            final(self).as_map() == old(self).as_map().remove(r.0@),
    {
        let ghost before = *self;
        proof {
            before.lemma_position(i as int);
        }
        let r = self.entries.remove(i);
        proof {
            let ok = before.keys();
            let nk = self.keys();
            assert(nk =~= ok.remove(i as int));
            assert forall|a: int, b: int| 0 <= a < b < nk.len() implies nk[a] != nk[b] by {
                let oa = if a < i { a } else { a + 1 };
                let ob = if b < i { b } else { b + 1 };
                assert(nk[a] == ok[oa]);
                assert(nk[b] == ok[ob]);
            }
            assert forall|key: Seq<char>| #[trigger] self.as_map().contains_key(key) == before.as_map().remove(r.0@).contains_key(key) by {
                if nk.contains(key) {
                    let j = choose|j: int| 0 <= j < nk.len() && nk[j] == key;
                    let oj = if j < i { j } else { j + 1 };
                    assert(ok[oj] == key);
                    assert(oj != i);
                    assert(key != r.0@);
                }
                if ok.contains(key) && key != r.0@ {
                    let oj = choose|oj: int| 0 <= oj < ok.len() && ok[oj] == key;
                    assert(oj != i);
                    let j = if oj < i { oj } else { oj - 1 };
                    assert(nk[j] == key);
                }
            }
            assert forall|key: Seq<char>| #[trigger] self.as_map().contains_key(key) implies self.as_map()[key]
                == before.as_map()[key] by {
                let j = nk.index_of(key);
                self.lemma_position(j);
                let oj = if j < i { j } else { j + 1 };
                assert(self.entries()[j] == before.entries()[oj]);
                before.lemma_position(oj);
            }
            assert(self.as_map() =~= before.as_map().remove(r.0@));
        }
        r
    }

    /// Inserts an entry with a new key at an index.
    pub fn insert_at(&mut self, i: usize, e: (String, V))
        requires
            old(self).wf(),
            i <= old(self).entries().len(),
            !old(self).keys().contains(e.0@),
        ensures
            final(self).wf(),
            final(self).entries() == old(self).entries().insert(i as int, e),
            final(self).as_map() == old(self).as_map().insert(e.0@, e.1),
    {
        let ghost before = *self;
        self.entries.insert(i, e);
        proof {
            let ok = before.keys();
            let nk = self.keys();
            assert(nk =~= ok.insert(i as int, e.0@));
            assert forall|a: int, b: int| 0 <= a < b < nk.len() implies nk[a] != nk[b] by {
                if a != i && b != i {
                    let oa = if a < i { a } else { a - 1 };
                    let ob = if b < i { b } else { b - 1 };
                    assert(nk[a] == ok[oa]);
                    assert(nk[b] == ok[ob]);
                } else if a == i {
                    let ob = b - 1;
                    assert(nk[b] == ok[ob]);
                } else {
                    assert(nk[a] == ok[a]);
                }
            }
            assert forall|key: Seq<char>| #[trigger] self.as_map().contains_key(key) == before.as_map().insert(e.0@, e.1).contains_key(key) by {
                if nk.contains(key) && key != e.0@ {
                    let j = choose|j: int| 0 <= j < nk.len() && nk[j] == key;
                    assert(j != i);
                    let oj = if j < i { j } else { j - 1 };
                    assert(ok[oj] == key);
                }
                if ok.contains(key) {
                    let oj = choose|oj: int| 0 <= oj < ok.len() && ok[oj] == key;
                    let j = if oj < i { oj } else { oj + 1 };
                    assert(nk[j] == key);
                }
                if key == e.0@ {
                    assert(nk[i as int] == key);
                }
            }
            assert forall|key: Seq<char>| #[trigger] self.as_map().contains_key(key) implies self.as_map()[key]
                == before.as_map().insert(e.0@, e.1)[key] by {
                let j = nk.index_of(key);
                self.lemma_position(j);
                if j != i {
                    let oj = if j < i { j } else { j - 1 };
                    assert(self.entries()[j] == before.entries()[oj]);
                    before.lemma_position(oj);
                } else {
                    assert(self.entries()[j] == e);
                }
            }
            assert(self.as_map() =~= before.as_map().insert(e.0@, e.1));
        }
    }

    /// Whether `k` is present.
    pub fn contains_key(&self, k: &str) -> (r: bool)
        requires
            self.wf(),
        ensures
            r == self.as_map().contains_key(k@),
    {
        self.find(k).is_some()
    }

    /// Stores `v` under `k`: replaces the value of a present key in place,
    /// or appends a new entry.
    pub fn insert(&mut self, k: String, v: V)
        requires
            old(self).wf(),
        ensures
            final(self).wf(),
            final(self).as_map() == old(self).as_map().insert(k@, v),
            old(self).keys().contains(k@) ==> final(self).keys() == old(self).keys(),
            !old(self).keys().contains(k@) ==> final(self).keys() == old(self).keys().push(k@),
            old(self).keys().contains(k@) ==> final(self).entries() == old(self).entries().update(
                old(self).position(k@),
                (k, v),
            ),
            !old(self).keys().contains(k@) ==> final(self).entries() == old(self).entries().push(
                (k, v),
            ),
    {
        let ghost old_entries = self.entries@;
        match self.find(k.as_str()) {
            Some(i) => {
                let _ = self.entries.remove(i);
                self.entries.insert(i, (k, v));
                proof {
                    assert(self.entries@ =~= old_entries.update(i as int, (k, v)));
                    assert(keys_of(self.entries@) =~= keys_of(old_entries));
                }
            },
            None => {
                self.entries.push((k, v));
                proof {
                    let ok = keys_of(old_entries);
                    assert(keys_of(self.entries@) =~= ok.push(k@));
                    assert forall|a: int, b: int|
                        0 <= a < b < ok.push(k@).len() implies ok.push(k@)[a] != ok.push(k@)[b] by {
                        if b == ok.len() {
                            assert(ok[a] == ok.push(k@)[a]);
                        }
                    }
                    assert forall|key: Seq<char>| #[trigger] ok.push(k@).contains(key) <==> (
                    ok.contains(key) || key == k@) by {
                        if ok.contains(key) {
                            let j = choose|j: int| 0 <= j < ok.len() && ok[j] == key;
                            assert(ok.push(k@)[j] == key);
                        }
                        if key == k@ {
                            assert(ok.push(k@)[ok.len() as int] == key);
                        }
                    }
                }
            },
        }
        proof {
            let new_map = self.as_map();
            let want = old(self).as_map().insert(k@, v);
            assert forall|key: Seq<char>| new_map.contains_key(key) == want.contains_key(key) by {}
            assert forall|key: Seq<char>| #[trigger] new_map.contains_key(key) implies new_map[key]
                == want[key] by {
                let j = self.keys().index_of(key);
                self.lemma_position(j);
                if key != k@ {
                    assert(old(self).keys().contains(key));
                    let oj = old(self).keys().index_of(key);
                    old(self).lemma_position(oj);
                    assert(self.entries@[oj].0@ == key);
                    self.lemma_position(oj);
                }
            }
            assert(new_map =~= want);
        }
    }
}

} // verus!
