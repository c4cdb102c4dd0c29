use vstd::prelude::*;

verus! {

/// A chunk coordinate (or any integer grid position) in the world.
pub type Position = (i64, i64, i64);

/// A finite map keyed by grid positions, kept as a list of entries in which
/// no position occurs twice.
pub struct PositionMap<V> {
    entries: Vec<(Position, V)>,
}

impl<V> PositionMap<V> {
    /// The index of the entry that holds `k`, where there is one.
    pub closed spec fn index_of(&self, k: Position) -> int {
        choose|i: int| 0 <= i < self.entries@.len() && self.entries@[i].0 == k
    }

    pub closed spec fn has(&self, k: Position) -> bool {
        exists|i: int| 0 <= i < self.entries@.len() && self.entries@[i].0 == k
    }

    /// The map from positions to values.
    pub closed spec fn view(&self) -> Map<Position, V> {
        Map::new(|k: Position| self.has(k), |k: Position| self.entries@[self.index_of(k)].1)
    }

    /// No position occurs in two entries.
    pub closed spec fn wf(&self) -> bool {
        forall|i: int, j: int|
            0 <= i < self.entries@.len() && 0 <= j < self.entries@.len() && i != j
                ==> #[trigger] self.entries@[i].0 != #[trigger] self.entries@[j].0
    }

    /// The positions in the order in which they were first inserted.
    pub closed spec fn key_list(&self) -> Seq<Position> {
        self.entries@.map_values(|e: (Position, V)| e.0)
    }

    proof fn lemma_index(&self, i: int)
        requires
            self.wf(),
            0 <= i < self.entries@.len(),
        ensures
            self.has(self.entries@[i].0),
            self.index_of(self.entries@[i].0) == i,
            self@.contains_key(self.entries@[i].0),
            self@[self.entries@[i].0] == self.entries@[i].1,
    {
        let k = self.entries@[i].0;
        assert(self.has(k));
        let j = self.index_of(k);
        assert(0 <= j < self.entries@.len() && self.entries@[j].0 == k);
    }

    /// An empty map.
    pub fn new() -> (m: Self)
        ensures
            m.wf(),
            m@ == Map::<Position, V>::empty(),
            m.key_list() == Seq::<Position>::empty(),
    {
        let m = PositionMap { entries: Vec::new() };
        assert(m@ =~= Map::<Position, V>::empty());
        assert(m.key_list() =~= Seq::<Position>::empty());
        m
    }

    /// The number of positions in the map.
    pub fn len(&self) -> (n: usize)
        requires
            self.wf(),
        ensures
            n == self@.len(),
            n == self.key_list().len(),
    {
        proof { self.lemma_len(); }
        self.entries.len()
    }

    proof fn lemma_len(&self)
        requires
            self.wf(),
        ensures
            self@.dom().finite(),
            self@.len() == self.entries@.len(),
    {
        let keys = self.key_list();
        assert forall|i: int, j: int| 0 <= i < keys.len() && 0 <= j < keys.len() && i != j
            implies keys[i] != keys[j] by {
            assert(self.entries@[i].0 != self.entries@[j].0);
        }
        assert(keys.no_duplicates());
        assert forall|k: Position| self@.dom().contains(k) <==> keys.to_set().contains(k) by {
            if self@.dom().contains(k) {
                let i = self.index_of(k);
                assert(keys[i] == k);
            }
            if keys.to_set().contains(k) {
                let i = choose|i: int| 0 <= i < keys.len() && keys[i] == k;
                assert(self.entries@[i].0 == k);
            }
        }
        assert(self@.dom() =~= keys.to_set());
        keys.unique_seq_to_set();
    }

    /// Where `k` is in the map, the index of its entry.
    fn find(&self, k: &Position) -> (r: Option<usize>)
        requires
            self.wf(),
        ensures
            match r {
                Some(i) => i < self.entries@.len() && self.entries@[i as int].0 == *k
                    && self.index_of(*k) == i && self.has(*k),
                None => !self.has(*k),
            },
    {
        let mut i: usize = 0;
        while i < self.entries.len()
            invariant
                self.wf(),
                i <= self.entries@.len(),
                forall|j: int| 0 <= j < i ==> self.entries@[j].0 != *k,
            decreases self.entries@.len() - i,
        {
            let e = &self.entries[i].0;
            if e.0 == k.0 && e.1 == k.1 && e.2 == k.2 {
                proof { self.lemma_index(i as int); }
                return Some(i);
            }
            i = i + 1;
        }
        None
    }

    /// Whether `k` is in the map.
    pub fn contains_key(&self, k: &Position) -> (b: bool)
        requires
            self.wf(),
        ensures
            b == self@.contains_key(*k),
    {
        self.find(k).is_some()
    }

    /// The value at `k`, where there is one.
    pub fn get(&self, k: &Position) -> (r: Option<&V>)
        requires
            self.wf(),
        ensures
            match r {
                Some(v) => self@.contains_key(*k) && *v == self@[*k],
                None => !self@.contains_key(*k),
            },
    {
        match self.find(k) {
            Some(i) => Some(&self.entries[i].1),
            None => None,
        }
    }

    /// Puts `v` at `k`, replacing the value that was there.
    pub fn insert(&mut self, k: Position, v: V)
        requires
            old(self).wf(),
        ensures
            final(self).wf(),
            final(self)@ == old(self)@.insert(k, v),
            old(self)@.contains_key(k) ==> final(self).key_list() == old(self).key_list(),
            !old(self)@.contains_key(k) ==> final(self).key_list() == old(self).key_list().push(k),
    {
        let ghost old_self = *self;
        match self.find(&k) {
            Some(i) => {
                self.entries.set(i, (k, v));
                proof {
                    assert(self.wf());
                    self.lemma_index(i as int);
                    assert forall|q: Position| #![auto] self@.contains_key(q) <==> old_self@.insert(k, v).contains_key(q) by {
                        if q != k && old_self.has(q) {
                            let j = old_self.index_of(q);
                            assert(self.entries@[j].0 == q);
                        }
                        if q != k && self.has(q) {
                            let j = self.index_of(q);
                            assert(old_self.entries@[j].0 == q);
                        }
                    }
                    assert forall|q: Position| #![auto] self@.contains_key(q) implies self@[q] == old_self@.insert(k, v)[q] by {
                        if q != k {
                            let j = old_self.index_of(q);
                            old_self.lemma_index(j);
                            self.lemma_index(j);
                        }
                    }
                    assert(self@ =~= old_self@.insert(k, v));
                    assert(self.key_list() =~= old_self.key_list());
                }
            },
            None => {
                self.entries.push((k, v));
                proof {
                    let n = old_self.entries@.len() as int;
                    assert(self.wf());
                    self.lemma_index(n);
                    assert forall|q: Position| #![auto] self@.contains_key(q) <==> old_self@.insert(k, v).contains_key(q) by {
                        if q != k && old_self.has(q) {
                            let j = old_self.index_of(q);
                            assert(self.entries@[j].0 == q);
                        }
                        if q != k && self.has(q) {
                            let j = self.index_of(q);
                            assert(j != n);
                            assert(old_self.entries@[j].0 == q);
                        }
                    }
                    assert forall|q: Position| #![auto] self@.contains_key(q) implies self@[q] == old_self@.insert(k, v)[q] by {
                        if q != k {
                            let j = old_self.index_of(q);
                            old_self.lemma_index(j);
                            self.lemma_index(j);
                        }
                    }
                    assert(self@ =~= old_self@.insert(k, v));
                    assert(self.key_list() =~= old_self.key_list().push(k));
                }
            },
        }
    }

    /// Takes out the entry of the position inserted first, if any.
    pub fn pop_first(&mut self) -> (r: Option<(Position, V)>)
        requires
            old(self).wf(),
        ensures
            final(self).wf(),
            match r {
                Some((k, v)) => {
                    &&& old(self).key_list().len() > 0
                    &&& k == old(self).key_list()[0]
                    &&& old(self)@.contains_key(k)
                    &&& old(self)@[k] == v
                    &&& final(self)@ == old(self)@.remove(k)
                    &&& final(self).key_list() == old(self).key_list().drop_first()
                },
                None => {
                    &&& old(self)@ == Map::<Position, V>::empty()
                    &&& old(self).key_list().len() == 0
                    &&& final(self)@ == old(self)@
                },
            },
    {
        let ghost old_self = *self;
        if self.entries.len() == 0 {
            proof {
                assert(old_self@ =~= Map::<Position, V>::empty());
            }
            return None;
        }
        let (k, v) = self.entries.remove(0);
        proof {
            old_self.lemma_index(0);
            assert(self.entries@ =~= old_self.entries@.subrange(1, old_self.entries@.len() as int));
            assert forall|i: int, j: int|
                0 <= i < self.entries@.len() && 0 <= j < self.entries@.len() && i != j
                    implies #[trigger] self.entries@[i].0 != #[trigger] self.entries@[j].0 by {
                assert(self.entries@[i] == old_self.entries@[i + 1]);
                assert(self.entries@[j] == old_self.entries@[j + 1]);
            }
            assert(self.wf());
            assert forall|q: Position| #![auto] self@.contains_key(q) <==> old_self@.remove(k).contains_key(q) by {
                if self.has(q) {
                    let j = self.index_of(q);
                    assert(old_self.entries@[j + 1].0 == q);
                    assert(old_self.entries@[0].0 != old_self.entries@[j + 1].0);
                }
                if q != k && old_self.has(q) {
                    let j = old_self.index_of(q);
                    assert(j != 0);
                    assert(self.entries@[j - 1].0 == q);
                }
            }
            assert forall|q: Position| #![auto] self@.contains_key(q) implies self@[q] == old_self@.remove(k)[q] by {
                let j = self.index_of(q);
                self.lemma_index(j);
                old_self.lemma_index(j + 1);
                assert(old_self.entries@[j + 1] == self.entries@[j]);
            }
            assert(self@ =~= old_self@.remove(k));
            assert(self.key_list() =~= old_self.key_list().drop_first());
        }
        Some((k, v))
    }
}

} // verus!
