//! A map that keeps its entries in the order of their first insertion.
use vstd::prelude::*;

verus! {

/// A key whose executable comparison agrees with equality of views.
pub trait TableKey: View {
    fn same(&self, other: &Self) -> (r: bool)
        ensures
            r == (self@ == other@),
    ;
}

/// Key-value pairs without repeated keys. The view is the map; `keys` is the
/// order in which the entries are visited.
#[derive(Debug, Clone)]
pub struct Table<K, T> {
    entries: Vec<(K, T)>,
}

impl<K: View, T: View> View for Table<K, T> {
    type V = Map<K::V, T::V>;

    closed spec fn view(&self) -> Map<K::V, T::V> {
        Map::new(
            |k: K::V| self.keys().contains(k),
            |k: K::V| self.entries@[self.keys().index_of(k)].1@,
        )
    }
}

impl<K: View, T: View> Table<K, T> {
    /// The keys, in the order in which entries are visited.
    pub closed spec fn keys(&self) -> Seq<K::V> {
        Seq::new(self.entries@.len(), |i: int| self.entries@[i].0@)
    }

    pub closed spec fn wf(&self) -> bool {
        self.keys().no_duplicates()
    }

    /// The keys are exactly the domain of the view, each once.
    pub broadcast proof fn lemma_keys(&self)
        requires
            #[trigger] self.wf(),
        ensures
            self.keys().no_duplicates(),
            forall|k: K::V| #[trigger] self.keys().contains(k) <==> self@.contains_key(k),
            forall|i: int| 0 <= i < self.keys().len() ==> self@.contains_key(#[trigger] self.keys()[i]),
            self@.dom() == self.keys().to_set(),
            self@.dom().finite(),
            self@.dom().len() == self.keys().len(),
    {
        assert forall|i: int| 0 <= i < self.keys().len() implies self@.contains_key(
            #[trigger] self.keys()[i],
        ) by {
            assert(self.keys().contains(self.keys()[i]));
        }
        assert(self@.dom() =~= self.keys().to_set());
        self.keys().unique_seq_to_set();
    }

    proof fn lemma_at(&self, i: int)
        requires
            self.wf(),
            0 <= i < self.entries@.len(),
        ensures
            self.keys()[i] == self.entries@[i].0@,
            self@.contains_key(self.entries@[i].0@),
            self@[self.entries@[i].0@] == self.entries@[i].1@,
    {
        let k = self.entries@[i].0@;
        assert(self.keys()[i] == k);
        assert(self.keys().contains(k));
        let j = self.keys().index_of(k);
        assert(self.keys()[j] == k);
        assert(i == j);
    }
}

impl<K: TableKey, T: View> Table<K, T> {
    pub fn new() -> (r: Self)
        ensures
            r.wf(),
            r@ == Map::<K::V, T::V>::empty(),
            r.keys() == Seq::<K::V>::empty(),
    {
        let r = Table { entries: Vec::new() };
        assert(r@ =~= Map::<K::V, T::V>::empty());
        assert(r.keys() =~= Seq::<K::V>::empty());
        r
    }

    pub fn len(&self) -> (r: usize)
        requires
            self.wf(),
        ensures
            r == self@.dom().len(),
            r == self.keys().len(),
    {
        proof {
            self.lemma_keys();
        }
        self.entries.len()
    }

    pub fn is_empty(&self) -> (r: bool)
        requires
            self.wf(),
        ensures
            r == (self.keys().len() == 0),
            r == (self@ == Map::<K::V, T::V>::empty()),
    {
        proof {
            self.lemma_keys();
            if self.keys().len() == 0 {
                assert(self@ =~= Map::<K::V, T::V>::empty());
            } else {
                assert(self@.contains_key(self.keys()[0]));
            }
        }
        self.entries.len() == 0
    }

    fn position(&self, key: &K) -> (r: Option<usize>)
        requires
            self.wf(),
        ensures
            match r {
                Some(i) => {
                    &&& i < self.entries@.len()
                    &&& self.entries@[i as int].0@ == key@
                    &&& self@.contains_key(key@)
                    &&& self@[key@] == self.entries@[i as int].1@
                },
                None => !self@.contains_key(key@),
            },
    {
        let mut i: usize = 0;
        while i < self.entries.len()
            invariant
                i <= self.entries@.len(),
                self.wf(),
                forall|j: int| 0 <= j < i ==> self.entries@[j].0@ != key@,
            decreases self.entries@.len() - i,
        {
            if self.entries[i].0.same(key) {
                proof {
                    self.lemma_at(i as int);
                }
                return Some(i);
            }
            i += 1;
        }
        proof {
            if self.keys().contains(key@) {
                let j = choose|j: int| 0 <= j < self.keys().len() && self.keys()[j] == key@;
                assert(self.entries@[j].0@ == key@);
            }
        }
        None
    }

    pub fn get(&self, key: &K) -> (r: Option<&T>)
        requires
            self.wf(),
        ensures
            match r {
                Some(value) => self@.contains_key(key@) && value@ == self@[key@],
                None => !self@.contains_key(key@),
            },
    {
        match self.position(key) {
            Some(i) => Some(&self.entries[i].1),
            None => None,
        }
    }

    pub fn contains_key(&self, key: &K) -> (r: bool)
        requires
            self.wf(),
        ensures
            r == self@.contains_key(key@),
    {
        self.position(key).is_some()
    }

    /// The entry in place `i` of the visiting order.
    pub fn entry_at(&self, i: usize) -> (r: (&K, &T))
        requires
            self.wf(),
            i < self.keys().len(),
        ensures
            r.0@ == self.keys()[i as int],
            self@.contains_key(r.0@),
            r.1@ == self@[r.0@],
    {
        proof {
            self.lemma_at(i as int);
        }
        let entry = &self.entries[i];
        (&entry.0, &entry.1)
    }

    proof fn lemma_replaced(&self, old: &Self, i: int)
        requires
            old.wf(),
            0 <= i < old.entries@.len(),
            self.entries@.len() == old.entries@.len(),
            forall|j: int| 0 <= j < old.entries@.len() ==> (#[trigger] self.entries@[j]).0@ == old.entries@[j].0@,
            forall|j: int| 0 <= j < old.entries@.len() && j != i ==> (#[trigger] self.entries@[j]).1@ == old.entries@[j].1@,
        ensures
            self.wf(),
            self.keys() == old.keys(),
            self@ == old@.insert(old.entries@[i].0@, self.entries@[i].1@),
    {
        assert(self.keys() =~= old.keys());
        let k0 = old.entries@[i].0@;
        old.lemma_at(i);
        assert forall|k: K::V| self@.contains_key(k) implies self@[k] == old@.insert(
            k0,
            self.entries@[i].1@,
        )[k] by {
            let j = self.keys().index_of(k);
            assert(self.keys().contains(k));
            assert(self.keys()[j] == k);
            assert(self.entries@[j].0@ == k);
            assert(old.entries@[j].0@ == k);
            if k == k0 {
                assert(self.keys()[i] == k0);
                assert(j == i);
            }
        }
        assert(self@ =~= old@.insert(k0, self.entries@[i].1@));
    }

    /// Access to the value under `key`, to change it in place.
    pub fn get_mut(&mut self, key: &K) -> (r: Option<&mut T>)
        requires
            old(self).wf(),
        ensures
            final(self).wf(),
            final(self).keys() == old(self).keys(),
            match r {
                Some(value) => {
                    &&& old(self)@.contains_key(key@)
                    &&& value@ == old(self)@[key@]
                    &&& final(self)@ == old(self)@.insert(key@, final(value)@)
                },
                None => !old(self)@.contains_key(key@) && final(self)@ == old(self)@,
            },
    {
        match self.position(key) {
            Some(i) => {
                proof {
                    let before = *self;
                    assert forall|after: Self|
                        after.entries@.len() == before.entries@.len() && (#[trigger] after.entries@)[i as int].0
                            == before.entries@[i as int].0 && (forall|j: int|
                            0 <= j < before.entries@.len() && j != i ==> after.entries@[j]
                                == before.entries@[j]) implies after.wf() && after.keys() == before.keys()
                        && after@ == before@.insert(key@, after.entries@[i as int].1@) by {
                        after.lemma_replaced(&before, i as int);
                    }
                }
                Some(&mut self.entries[i].1)
            },
            None => None,
        }
    }

    /// Sets the value under `key`; a new key goes last in the visiting order.
    pub fn insert(&mut self, key: K, value: T) -> (r: Option<T>)
        requires
            old(self).wf(),
        ensures
            final(self).wf(),
            final(self)@ == old(self)@.insert(key@, value@),
            match r {
                Some(previous) => {
                    &&& old(self)@.contains_key(key@)
                    &&& previous@ == old(self)@[key@]
                    &&& final(self).keys() == old(self).keys()
                },
                None => {
                    &&& !old(self)@.contains_key(key@)
                    &&& final(self).keys() == old(self).keys().push(key@)
                },
            },
    {
        match self.position(&key) {
            Some(i) => {
                let ghost before = *self;
                let mut slot = (key, value);
                std::mem::swap(&mut self.entries[i], &mut slot);
                proof {
                    self.lemma_replaced(&before, i as int);
                }
                Some(slot.1)
            },
            None => {
                let ghost before = *self;
                self.entries.push((key, value));
                proof {
                    before.lemma_keys();
                    assert(self.keys() =~= before.keys().push(key@));
                    assert forall|i: int, j: int|
                        0 <= i < self.keys().len() && 0 <= j < self.keys().len() && i != j implies self.keys()[i]
                        != self.keys()[j] by {
                        if i < before.keys().len() {
                            assert(before.keys().contains(before.keys()[i]));
                        }
                        if j < before.keys().len() {
                            assert(before.keys().contains(before.keys()[j]));
                        }
                    }
                    assert forall|k: K::V| self@.contains_key(k) == before@.insert(key@, value@).contains_key(k) by {
                        if before.keys().contains(k) {
                            let j = before.keys().index_of(k);
                            assert(self.keys()[j] == k);
                        }
                        if k == key@ {
                            assert(self.keys()[before.keys().len() as int] == k);
                        }
                        if self.keys().contains(k) {
                            let j = self.keys().index_of(k);
                            if j < before.keys().len() {
                                assert(before.keys()[j] == k);
                            }
                        }
                    }
                    assert forall|k: K::V| self@.contains_key(k) implies self@[k] == before@.insert(
                        key@,
                        value@,
                    )[k] by {
                        let j = self.keys().index_of(k);
                        assert(self.keys().contains(k));
                        assert(self.keys()[j] == k);
                        if j < before.keys().len() {
                            assert(before.keys()[j] == k);
                            before.lemma_at(j);
                            assert(self.entries@[j] == before.entries@[j]);
                        }
                    }
                    assert(self@ =~= before@.insert(key@, value@));
                }
                None
            },
        }
    }

    /// Removes the entry under `key`; the others keep their order.
    pub fn remove(&mut self, key: &K) -> (r: Option<T>)
        requires
            old(self).wf(),
        ensures
            final(self).wf(),
            final(self)@ == old(self)@.remove(key@),
            match r {
                Some(value) => {
                    &&& old(self)@.contains_key(key@)
                    &&& value@ == old(self)@[key@]
                    &&& exists|i: int|
                        0 <= i < old(self).keys().len() && old(self).keys()[i] == key@
                            && final(self).keys() == #[trigger] old(self).keys().remove(i)
                },
                None => !old(self)@.contains_key(key@) && final(self).keys() == old(self).keys(),
            },
    {
        match self.position(key) {
            Some(i) => {
                let ghost before = *self;
                let entry = self.entries.remove(i);
                proof {
                    before.lemma_keys();
                    before.lemma_at(i as int);
                    assert(self.keys() =~= before.keys().remove(i as int));
                    assert forall|k: K::V| self@.contains_key(k) == before@.remove(key@).contains_key(k) by {
                        if before.keys().contains(k) && k != key@ {
                            let j = before.keys().index_of(k);
                            assert(before.keys()[j] == k);
                            if j < i {
                                assert(self.keys()[j] == k);
                            } else {
                                assert(self.keys()[j - 1] == k);
                            }
                        }
                        if self.keys().contains(k) {
                            let j = self.keys().index_of(k);
                            assert(self.keys()[j] == k);
                            if j < i {
                                assert(before.keys()[j] == k);
                            } else {
                                assert(before.keys()[j + 1] == k);
                            }
                        }
                    }
                    assert forall|k: K::V| self@.contains_key(k) implies self@[k] == before@[k] by {
                        let j = self.keys().index_of(k);
                        assert(self.keys().contains(k));
                        assert(self.keys()[j] == k);
                        if j < i {
                            before.lemma_at(j);
                            assert(before.keys()[j] == k);
                        } else {
                            before.lemma_at(j + 1);
                            assert(before.keys()[j + 1] == k);
                        }
                    }
                    assert(self@ =~= before@.remove(key@));
                }
                Some(entry.1)
            },
            None => {
                assert(self@ =~= self@.remove(key@));
                None
            },
        }
    }
}

} // verus!
