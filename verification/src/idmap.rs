//! A table of values keyed by integer id: a hash map from id to value,
//! with the ids also listed in the order in which they were first stored,
//! so that the rows can be walked by position.

use vstd::prelude::*;
use std::collections::HashMap;

verus! {

broadcast use vstd::std_specs::hash::group_hash_axioms;

/// Rows with distinct ids.
pub open spec fn distinct_keys<V>(s: Seq<(usize, V)>) -> bool {
    forall|i: int, j: int| 0 <= i < s.len() && 0 <= j < s.len() && i != j ==> s[i].0 != s[j].0
}

/// Whether some row has id `k`.
pub open spec fn has_key<V>(s: Seq<(usize, V)>, k: usize) -> bool {
    exists|i: int| 0 <= i < s.len() && s[i].0 == k
}

/// Values keyed by distinct integer ids.
pub struct IdMap<V> {
    map: HashMap<usize, V>,
    order: Vec<usize>,
}

impl<V> IdMap<V> {
    /// Each id is listed once, and the listed ids are those of the map.
    pub closed spec fn wf(&self) -> bool {
        &&& self.order@.no_duplicates()
        &&& self.order@.to_set() == self.map@.dom()
    }

    /// The rows, in the order their ids were first stored.
    pub closed spec fn entries(&self) -> Seq<(usize, V)> {
        self.order@.map_values(|k: usize| (k, self.map@[k]))
    }

    /// The map from id to value.
    pub closed spec fn view(&self) -> Map<usize, V> {
        self.map@
    }

    /// Rows and map agree: each row is an entry of the map and each key of
    /// the map has a row; ids are distinct.
    pub proof fn lemma_entries(&self)
        requires
            self.wf(),
        ensures
            distinct_keys(self.entries()),
            forall|i: int| 0 <= i < self.entries().len() ==> #[trigger] self.view().dom().contains(self.entries()[i].0)
                && self.view()[self.entries()[i].0] == self.entries()[i].1,
            forall|k: usize| #[trigger] self.view().dom().contains(k) ==> has_key(self.entries(), k),
    {
        let e = self.entries();
        assert forall|i: int| 0 <= i < e.len() implies #[trigger] self.view().dom().contains(e[i].0)
            && self.view()[e[i].0] == e[i].1 by {
            assert(e[i].0 == self.order@[i]);
            assert(self.order@.to_set().contains(self.order@[i]));
        }
        assert forall|i: int, j: int| 0 <= i < e.len() && 0 <= j < e.len() && i != j implies e[i].0 != e[j].0 by {
            assert(e[i].0 == self.order@[i]);
            assert(e[j].0 == self.order@[j]);
        }
        assert forall|k: usize| #[trigger] self.view().dom().contains(k) implies has_key(e, k) by {
            assert(self.order@.to_set().contains(k));
            let i = choose|i: int| 0 <= i < self.order@.len() && self.order@[i] == k;
            assert(e[i].0 == k);
        }
    }

    pub fn new() -> (r: Self)
        ensures
            r.wf(),
            r@ == Map::<usize, V>::empty(),
            r.entries().len() == 0,
    {
        let r = IdMap { map: HashMap::new(), order: Vec::new() };
        assert(r.order@.to_set() =~= Set::<usize>::empty());
        r
    }

    /// Number of rows.
    pub fn len(&self) -> (n: usize)
        ensures
            n == self.entries().len(),
    {
        self.order.len()
    }

    /// The id of row `i`.
    pub fn key_at(&self, i: usize) -> (k: usize)
        requires
            i < self.entries().len(),
        ensures
            k == self.entries()[i as int].0,
    {
        self.order[i]
    }

    /// The value of row `i`.
    pub fn value_at(&self, i: usize) -> (v: &V)
        requires
            self.wf(),
            i < self.entries().len(),
        ensures
            *v == self.entries()[i as int].1,
    {
        let k = self.order[i];
        proof {
            assert(self.order@.to_set().contains(self.order@[i as int]));
        }
        self.map.get(&k).unwrap()
    }

    /// Whether `k` has a value.
    pub fn contains(&self, k: usize) -> (b: bool)
        ensures
            b == self@.dom().contains(k),
    {
        self.map.contains_key(&k)
    }

    /// The value stored under `k`.
    pub fn get(&self, k: usize) -> (r: Option<&V>)
        requires
            self.wf(),
        ensures
            match r {
                Some(v) => self@.dom().contains(k) && *v == self@[k],
                None => !self@.dom().contains(k),
            },
    {
        self.map.get(&k)
    }

    /// Stores `v` under `k`, replacing any value there.
    pub fn insert(&mut self, k: usize, v: V)
        requires
            old(self).wf(),
        ensures
            final(self).wf(),
            final(self)@ == old(self)@.insert(k, v),
    {
        if !self.map.contains_key(&k) {
            let ghost before = self.order@;
            self.order.push(k);
            proof {
                assert(!before.contains(k)) by {
                    if before.contains(k) {
                        let j = choose|j: int| 0 <= j < before.len() && before[j] == k;
                        assert(before.to_set().contains(k));
                    }
                }
                assert forall|a: int, b: int| 0 <= a < self.order@.len() && 0 <= b < self.order@.len() && a != b
                    implies self.order@[a] != self.order@[b] by {
                    if a == before.len() {
                        assert(self.order@[b] == before[b]);
                        assert(self.order@[a] == k);
                    } else if b == before.len() {
                        assert(self.order@[a] == before[a]);
                        assert(self.order@[b] == k);
                    } else {
                        assert(self.order@[a] == before[a]);
                        assert(self.order@[b] == before[b]);
                    }
                }
                assert forall|x: usize| #[trigger] self.order@.to_set().contains(x) == (before.to_set().contains(x) || x == k) by {
                    if self.order@.contains(x) {
                        let j = choose|j: int| 0 <= j < self.order@.len() && self.order@[j] == x;
                        if j < before.len() {
                            assert(before[j] == x);
                        }
                    }
                    if before.contains(x) {
                        let j = choose|j: int| 0 <= j < before.len() && before[j] == x;
                        assert(self.order@[j] == x);
                    }
                    if x == k {
                        assert(self.order@[before.len() as int] == k);
                    }
                }
                assert(self.order@.to_set() =~= before.to_set().insert(k));
            }
        }
        let _ = self.map.insert(k, v);
        proof {
            assert(self.order@.to_set() =~= self.map@.dom());
        }
    }

    /// Removes the value under `k`, returning it.
    pub fn remove(&mut self, k: usize) -> (r: Option<V>)
        requires
            old(self).wf(),
        ensures
            final(self).wf(),
            final(self)@ == old(self)@.remove(k),
            match r {
                Some(v) => old(self)@.dom().contains(k) && v == old(self)@[k],
                None => !old(self)@.dom().contains(k),
            },
    {
        let r = self.map.remove(&k);
        if r.is_some() {
            let ghost before = self.order@;
            let mut i: usize = 0;
            while i < self.order.len() && self.order[i] != k
                invariant
                    self.order@ == before,
                    before.to_set().contains(k),
                    i <= before.len(),
                    forall|j: int| 0 <= j < i ==> before[j] != k,
                decreases before.len() - i,
            {
                i = i + 1;
            }
            if i >= self.order.len() {
                proof {
                    let j = choose|j: int| 0 <= j < before.len() && before[j] == k;
                    assert(before[j] != k);
                }
                return r;
            }
            self.order.remove(i);
            proof {
                assert forall|a: int, b: int| 0 <= a < self.order@.len() && 0 <= b < self.order@.len() && a != b
                    implies self.order@[a] != self.order@[b] by {
                    let a2 = if a < i { a } else { a + 1 };
                    let b2 = if b < i { b } else { b + 1 };
                    assert(self.order@[a] == before[a2]);
                    assert(self.order@[b] == before[b2]);
                }
                assert forall|x: usize| #[trigger] self.order@.to_set().contains(x) == (before.to_set().contains(x) && x != k) by {
                    if self.order@.contains(x) {
                        let j = choose|j: int| 0 <= j < self.order@.len() && self.order@[j] == x;
                        let j2 = if j < i { j } else { j + 1 };
                        assert(before[j2] == x);
                        assert(j2 != i);
                    }
                    if before.contains(x) && x != k {
                        let j = choose|j: int| 0 <= j < before.len() && before[j] == x;
                        assert(j != i);
                        let j2 = if j < i { j } else { j - 1 };
                        assert(self.order@[j2] == x);
                    }
                }
                assert(self.order@.to_set() =~= self.map@.dom());
            }
        } else {
            assert(self.map@ =~= old(self).map@);
        }
        r
    }

    /// Removes every value.
    pub fn clear(&mut self)
        ensures
            final(self).wf(),
            final(self)@ == Map::<usize, V>::empty(),
    {
        self.map = HashMap::new();
        self.order = Vec::new();
        assert(self.order@.to_set() =~= Set::<usize>::empty());
    }

    /// The ids, each once.
    pub fn keys(&self) -> (r: Vec<usize>)
        requires
            self.wf(),
        ensures
            r@.to_set() == self@.dom(),
            r@.no_duplicates(),
    {
        let mut r: Vec<usize> = Vec::new();
        let mut i: usize = 0;
        while i < self.order.len()
            invariant
                i <= self.order@.len(),
                r@ == self.order@.take(i as int),
            decreases self.order@.len() - i,
        {
            r.push(self.order[i]);
            i = i + 1;
            assert(r@ =~= self.order@.take(i as int));
        }
        assert(r@ =~= self.order@);
        r
    }
}

} // verus!
