//! Finite maps keyed by names, kept as association lists without repeated keys.
use vstd::prelude::*;

verus! {

/// A finite map from names to values. Each name occurs at most once.
#[derive(Debug)]
pub struct NameMap<V> {
    entries: Vec<(String, V)>,
}

impl<V> NameMap<V> {
    /// The names, in storage order.
    pub closed spec fn keys(&self) -> Seq<Seq<char>> {
        Seq::new(self.entries@.len(), |i: int| self.entries@[i].0@)
    }

    /// The values, in storage order (aligned with `keys`).
    pub closed spec fn vals(&self) -> Seq<V> {
        Seq::new(self.entries@.len(), |i: int| self.entries@[i].1)
    }

    #[verifier::type_invariant]
    closed spec fn inv(&self) -> bool {
        self.keys().no_duplicates()
    }

    /// The mapping that the association list stands for.
    pub open spec fn map(&self) -> Map<Seq<char>, V> {
        Map::new(
            |k: Seq<char>| self.keys().contains(k),
            |k: Seq<char>| self.vals()[self.keys().index_of(k)],
        )
    }

    /// Whether the stored names are pairwise distinct (always true; see `count`).
    pub open spec fn distinct(&self) -> bool {
        &&& self.keys().no_duplicates()
        &&& self.keys().len() == self.vals().len()
    }

    /// The map has finitely many bindings.
    pub proof fn lemma_finite(&self)
        ensures
            self.map().dom().finite(),
    {
        assert(self.map().dom() =~= self.keys().to_set());
        vstd::seq_lib::seq_to_set_is_finite(self.keys());
    }

    /// The `i`-th binding is the one the map holds for its name.
    pub proof fn lemma_index(&self, i: int)
        requires
            self.distinct(),
            0 <= i < self.keys().len(),
        ensures
            self.map().contains_key(self.keys()[i]),
            self.map()[self.keys()[i]] == self.vals()[i],
            self.keys().index_of(self.keys()[i]) == i,
    {
        assert(self.keys().contains(self.keys()[i]));
        let j = self.keys().index_of(self.keys()[i]);
        assert(0 <= j < self.keys().len() && self.keys()[j] == self.keys()[i]);
    }

    /// The map's domain is the set of stored names and has one element per entry.
    pub proof fn lemma_dom(&self)
        requires
            self.distinct(),
        ensures
            self.map().dom() == self.keys().to_set(),
            self.map().dom().finite(),
            self.map().len() == self.keys().len(),
    {
        assert(self.map().dom() =~= self.keys().to_set());
        self.keys().unique_seq_to_set();
    }


    /// The bindings among the first `i` entries.
    pub open spec fn prefix(&self, i: int) -> Map<Seq<char>, V> {
        Map::new(
            |k: Seq<char>| self.keys().take(i).contains(k),
            |k: Seq<char>| self.vals()[self.keys().index_of(k)],
        )
    }

    pub proof fn lemma_prefix_step(&self, i: int)
        requires
            self.distinct(),
            0 <= i < self.keys().len(),
        ensures
            self.prefix(i + 1) == self.prefix(i).insert(self.keys()[i], self.vals()[i]),
    {
        self.lemma_index(i);
        let a = self.prefix(i + 1);
        let b = self.prefix(i).insert(self.keys()[i], self.vals()[i]);
        assert forall|k: Seq<char>| #[trigger] a.contains_key(k) <==> b.contains_key(k) by {
            if self.keys().take(i + 1).contains(k) {
                let j = choose|j: int| 0 <= j < i + 1 && #[trigger] self.keys().take(i + 1)[j] == k;
                if j < i {
                    assert(self.keys().take(i)[j] == k);
                }
            }
            if self.keys().take(i).contains(k) {
                let j = choose|j: int| 0 <= j < i && #[trigger] self.keys().take(i)[j] == k;
                assert(self.keys().take(i + 1)[j] == k);
            }
            if k == self.keys()[i] {
                assert(self.keys().take(i + 1)[i] == k);
            }
        }
        assert(a =~= b);
    }

    pub proof fn lemma_prefix_ends(&self)
        requires
            self.distinct(),
        ensures
            self.prefix(0) == Map::<Seq<char>, V>::empty(),
            self.prefix(self.keys().len() as int) == self.map(),
    {
        assert(self.prefix(0) =~= Map::<Seq<char>, V>::empty());
        assert(self.keys().take(self.keys().len() as int) =~= self.keys());
        assert(self.prefix(self.keys().len() as int) =~= self.map());
    }

    pub fn new() -> (m: Self)
        ensures
            m.map() == Map::<Seq<char>, V>::empty(),
            m.keys().len() == 0,
    {
        let m = NameMap { entries: Vec::new() };
        assert(m.map() =~= Map::<Seq<char>, V>::empty());
        m
    }

    /// Number of stored bindings; also makes the distinctness of names available.
    pub fn count(&self) -> (n: usize)
        ensures
            n == self.keys().len(),
            n == self.vals().len(),
            self.distinct(),
    {
        proof {
            use_type_invariant(self);
        }
        self.entries.len()
    }

    /// Number of bindings.
    pub fn len(&self) -> (n: usize)
        ensures
            n == self.map().len(),
            self.map().dom().finite(),
    {
        let n = self.count();
        proof {
            self.lemma_dom();
        }
        n
    }

    pub fn is_empty(&self) -> (b: bool)
        ensures
            b <==> self.map().dom() == Set::<Seq<char>>::empty(),
            self.map().dom().finite(),
    {
        let n = self.count();
        proof {
            self.lemma_dom();
            if n > 0 {
                self.lemma_index(0);
            } else {
                assert(self.map().dom() =~= Set::<Seq<char>>::empty());
            }
        }
        n == 0
    }

    /// Position of `name` among the entries, if present.
    fn find(&self, name: &str) -> (r: Option<usize>)
        ensures
            match r {
                Some(i) => i < self.keys().len() && self.keys()[i as int] == name@,
                None => !self.keys().contains(name@),
            },
    {
        let target = name.to_owned();
        let n = self.entries.len();
        let mut i: usize = 0;
        while i < n
            invariant
                n == self.entries@.len(),
                i <= n,
                target@ == name@,
                forall|j: int| 0 <= j < i ==> self.keys()[j] != name@,
            decreases n - i,
        {
            if self.entries[i].0 == target {
                return Some(i);
            }
            i = i + 1;
        }
        None
    }

    /// The name stored at position `i`.
    pub fn key_at(&self, i: usize) -> (k: &String)
        requires
            i < self.keys().len(),
        ensures
            k@ == self.keys()[i as int],
    {
        &self.entries[i].0
    }

    /// The value stored at position `i`.
    pub fn value_at(&self, i: usize) -> (v: &V)
        requires
            i < self.keys().len(),
        ensures
            *v == self.vals()[i as int],
    {
        &self.entries[i].1
    }

    pub fn contains_key(&self, name: &str) -> (b: bool)
        ensures
            b <==> self.map().contains_key(name@),
    {
        self.find(name).is_some()
    }

    pub fn get(&self, name: &str) -> (r: Option<&V>)
        ensures
            match r {
                Some(v) => self.map().contains_key(name@) && self.map()[name@] == *v,
                None => !self.map().contains_key(name@),
            },
    {
        proof {
            use_type_invariant(self);
        }
        match self.find(name) {
            Some(i) => {
                proof {
                    self.lemma_index(i as int);
                }
                Some(&self.entries[i].1)
            },
            None => None,
        }
    }

    /// Bind `name` to `value`, replacing an earlier binding of the same name.
    pub fn insert(&mut self, name: String, value: V)
        ensures
            final(self).map() == old(self).map().insert(name@, value),
    {
        proof {
            use_type_invariant(&*self);
        }
        let ghost old_keys = self.keys();
        let ghost old_vals = self.vals();
        let ghost old_map = self.map();
        match self.find(name.as_str()) {
            Some(i) => {
                proof {
                    self.lemma_index(i as int);
                }
                let ghost nm = name@;
                let mut es: Vec<(String, V)> = Vec::new();
                std::mem::swap(&mut es, &mut self.entries);
                es.set(i, (name, value));
                proof {
                    assert(Seq::new(es@.len(), |j: int| es@[j].0@) =~= old_keys.update(i as int, nm));
                }
                self.entries = es;
                proof {
                    assert(self.keys() =~= old_keys.update(i as int, nm));
                    assert(self.vals() =~= old_vals.update(i as int, value));
                    assert forall|a: int, b: int|
                        0 <= a < self.keys().len() && 0 <= b < self.keys().len() && a != b
                        implies self.keys()[a] != self.keys()[b] by {
                    }
                    assert forall|k: Seq<char>| #[trigger] self.map().contains_key(k)
                        <==> old_map.insert(nm, value).contains_key(k) by {
                        if old_map.contains_key(k) && k != nm {
                            let j = old_keys.index_of(k);
                            assert(self.keys()[j] == k);
                        }
                        if self.keys().contains(k) && k != nm {
                            let j = self.keys().index_of(k);
                            assert(old_keys[j] == k);
                        }
                        if k == nm {
                            assert(self.keys()[i as int] == nm);
                        }
                    }
                    assert forall|k: Seq<char>| #[trigger] self.map().contains_key(k)
                        implies self.map()[k] == old_map.insert(nm, value)[k] by {
                        let j = self.keys().index_of(k);
                        self.lemma_index(j);
                        if k != nm {
                            self.lemma_index_old(old_keys, old_vals, j);
                            assert(old_keys[j] == k);
                            assert(old_keys.index_of(k) == j);
                        }
                    }
                    assert(self.map() =~= old_map.insert(nm, value));
                }
            },
            None => {
                let ghost nm = name@;
                let mut es: Vec<(String, V)> = Vec::new();
                std::mem::swap(&mut es, &mut self.entries);
                es.push((name, value));
                proof {
                    assert(Seq::new(es@.len(), |j: int| es@[j].0@) =~= old_keys.push(nm));
                }
                self.entries = es;
                proof {
                    assert(self.keys() =~= old_keys.push(nm));
                    assert(self.vals() =~= old_vals.push(value));
                    assert forall|k: Seq<char>| #[trigger] self.map().contains_key(k)
                        <==> old_map.insert(nm, value).contains_key(k) by {
                        if old_map.contains_key(k) {
                            let j = old_keys.index_of(k);
                            assert(self.keys()[j] == k);
                        }
                        if self.keys().contains(k) && k != nm {
                            let j = self.keys().index_of(k);
                            assert(j != old_keys.len());
                            assert(old_keys[j] == k);
                            assert(old_keys.contains(k));
                        }
                        if k == nm {
                            assert(self.keys()[old_keys.len() as int] == nm);
                        }
                    }
                    assert forall|k: Seq<char>| #[trigger] self.map().contains_key(k)
                        implies self.map()[k] == old_map.insert(nm, value)[k] by {
                        let j = self.keys().index_of(k);
                        self.lemma_index(j);
                        if k != nm {
                            assert(old_keys[j] == k);
                            self.lemma_index_old(old_keys, old_vals, j);
                        }
                    }
                    assert(self.map() =~= old_map.insert(nm, value));
                }
            },
        }
    }

    proof fn lemma_index_old(&self, ks: Seq<Seq<char>>, vs: Seq<V>, j: int)
        requires
            ks.no_duplicates(),
            0 <= j < ks.len(),
            ks.len() == vs.len(),
        ensures
            ks.index_of(ks[j]) == j,
    {
        assert(ks.contains(ks[j]));
    }

    /// Drop the binding of `name`, if any.
    pub fn remove(&mut self, name: &str)
        ensures
            final(self).map() == old(self).map().remove(name@),
    {
        proof {
            use_type_invariant(&*self);
        }
        let ghost old_keys = self.keys();
        let ghost old_vals = self.vals();
        let ghost old_map = self.map();
        match self.find(name) {
            Some(i) => {
                let mut es: Vec<(String, V)> = Vec::new();
                std::mem::swap(&mut es, &mut self.entries);
                es.remove(i);
                proof {
                    assert(Seq::new(es@.len(), |j: int| es@[j].0@) =~= old_keys.remove(i as int));
                }
                self.entries = es;
                proof {
                    assert(self.keys() =~= old_keys.remove(i as int));
                    assert(self.vals() =~= old_vals.remove(i as int));
                    assert forall|k: Seq<char>| #[trigger] self.map().contains_key(k)
                        <==> old_map.remove(name@).contains_key(k) by {
                        if old_map.contains_key(k) && k != name@ {
                            let j = old_keys.index_of(k);
                            if j < i {
                                assert(self.keys()[j] == k);
                            } else {
                                assert(j != i);
                                assert(self.keys()[j - 1] == k);
                            }
                        }
                        if self.keys().contains(k) {
                            let j = self.keys().index_of(k);
                            if j < i {
                                assert(old_keys[j] == k);
                            } else {
                                assert(old_keys[j + 1] == k);
                            }
                        }
                    }
                    assert forall|k: Seq<char>| #[trigger] self.map().contains_key(k)
                        implies self.map()[k] == old_map.remove(name@)[k] by {
                        let j = self.keys().index_of(k);
                        self.lemma_index(j);
                        if j < i {
                            assert(old_keys[j] == k);
                            self.lemma_index_old(old_keys, old_vals, j);
                        } else {
                            assert(old_keys[j + 1] == k);
                            self.lemma_index_old(old_keys, old_vals, j + 1);
                        }
                    }
                    assert(self.map() =~= old_map.remove(name@));
                }
            },
            None => {
                proof {
                    assert(self.map() =~= old_map.remove(name@));
                }
            },
        }
    }

    /// Build a map from bindings given in order; a later binding of a name
    /// replaces an earlier one.
    pub fn from_pairs(pairs: Vec<(String, V)>) -> (m: Self)
        ensures
            m.map() == pairs_map(pairs@),
    {
        let mut m = NameMap::new();
        let mut rest = pairs;
        let ghost all = rest@;
        while rest.len() > 0
            invariant
                pairs_map(all) == pairs_map(rest@).union_prefer_right(m.map()),
            decreases rest.len(),
        {
            let ghost before = rest@;
            let (k, v) = rest.pop().unwrap();
            proof {
                assert(rest@ =~= before.drop_last());
            }
            if !m.contains_key(k.as_str()) {
                let ghost mm = m.map();
                m.insert(k, v);
                proof {
                    assert(pairs_map(before) == pairs_map(rest@).insert(before.last().0@, before.last().1));
                    assert(pairs_map(before).union_prefer_right(mm) =~= pairs_map(rest@).union_prefer_right(m.map()));
                }
            } else {
                proof {
                    assert(pairs_map(before).union_prefer_right(m.map()) =~= pairs_map(rest@).union_prefer_right(m.map()));
                }
            }
        }
        proof {
            assert(pairs_map(rest@) =~= Map::<Seq<char>, V>::empty());
            assert(pairs_map(all) =~= m.map());
        }
        m
    }
}

/// The mapping described by a list of bindings, later ones taking precedence.
pub open spec fn pairs_map<V>(pairs: Seq<(String, V)>) -> Map<Seq<char>, V>
    decreases pairs.len(),
{
    if pairs.len() == 0 {
        Map::empty()
    } else {
        pairs_map(pairs.drop_last()).insert(pairs.last().0@, pairs.last().1)
    }
}

} // verus!
