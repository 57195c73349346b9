//! The tables the database keeps in memory besides its id-keyed ones: the
//! relationships, indexed by tag and by file; the parent relations; and the
//! name-keyed settings.

use vstd::prelude::*;
use std::collections::HashMap;
use crate::sharedtypes::{DbParentsObj, DbRelationshipObj, DbSettingObj};

verus! {

broadcast use vstd::std_specs::hash::group_hash_axioms;

/// The position of `x` in `v`, if it is there.
fn position_of(v: &Vec<usize>, x: usize) -> (r: Option<usize>)
    ensures
        match r {
            Some(i) => i < v@.len() && v@[i as int] == x,
            None => !v@.contains(x),
        },
{
    let mut i: usize = 0;
    while i < v.len()
        invariant
            i <= v@.len(),
            forall|j: int| 0 <= j < i ==> v@[j] != x,
        decreases v@.len() - i,
    {
        if v[i] == x {
            return Some(i);
        }
        i = i + 1;
    }
    None
}

/// Pairs of ids, kept as a hash map from the first id to the list of the
/// second ids that go with it (never empty, each once).
pub struct PairIndex {
    map: HashMap<usize, Vec<usize>>,
}

impl PairIndex {
    pub closed spec fn wf(&self) -> bool {
        forall|k: usize| #[trigger] self.map@.dom().contains(k) ==> self.map@[k]@.no_duplicates() && self.map@[k]@.len() > 0
    }

    /// The pairs.
    pub closed spec fn view(&self) -> Set<(usize, usize)> {
        Set::new(|p: (usize, usize)| self.map@.dom().contains(p.0) && self.map@[p.0]@.contains(p.1))
    }

    pub fn new() -> (r: Self)
        ensures
            r.wf(),
            r@ == Set::<(usize, usize)>::empty(),
    {
        let r = PairIndex { map: HashMap::new() };
        assert(r@ =~= Set::<(usize, usize)>::empty());
        r
    }

    /// Whether the pair `(k, x)` is there.
    pub fn contains(&self, k: usize, x: usize) -> (b: bool)
        ensures
            b == self@.contains((k, x)),
    {
        match self.map.get(&k) {
            Some(l) => position_of(l, x).is_some(),
            None => false,
        }
    }

    /// The second ids that go with `k`, each once.
    pub fn get(&self, k: usize) -> (r: Vec<usize>)
        requires
            self.wf(),
        ensures
            r@.no_duplicates(),
            r@.to_set() == Set::new(|x: usize| self@.contains((k, x))),
    {
        match self.map.get(&k) {
            Some(l) => {
                let r = l.clone();
                assert(r@.to_set() =~= Set::new(|x: usize| self@.contains((k, x))));
                r
            },
            None => {
                let r: Vec<usize> = Vec::new();
                assert(r@.to_set() =~= Set::new(|x: usize| self@.contains((k, x))));
                r
            },
        }
    }

    /// Adds the pair `(k, x)`.
    pub fn insert(&mut self, k: usize, x: usize)
        requires
            old(self).wf(),
        ensures
            final(self).wf(),
            final(self)@ == old(self)@.insert((k, x)),
    {
        let ghost m0 = self.map@;
        match self.map.remove(&k) {
            Some(l) => {
                let mut l = l;
                let ghost l0 = l@;
                match position_of(&l, x) {
                    Some(i) => {
                        assert(l@[i as int] == x);
                    },
                    None => {
                        l.push(x);
                        proof {
                            assert forall|a: int, b: int| 0 <= a < l@.len() && 0 <= b < l@.len() && a != b implies l@[a] != l@[b] by {
                                if a < l0.len() && b < l0.len() {
                                    assert(l@[a] == l0[a] && l@[b] == l0[b]);
                                } else if a == l0.len() {
                                    assert(l@[b] == l0[b]);
                                } else {
                                    assert(l@[a] == l0[a]);
                                }
                            }
                            assert(l@[l0.len() as int] == x);
                            assert forall|y: usize| #[trigger] l@.contains(y) <==> (l0.contains(y) || y == x) by {
                                if l@.contains(y) {
                                    let j = choose|j: int| 0 <= j < l@.len() && l@[j] == y;
                                    if j < l0.len() {
                                        assert(l0[j] == y);
                                    }
                                }
                                if l0.contains(y) {
                                    let j = choose|j: int| 0 <= j < l0.len() && l0[j] == y;
                                    assert(l@[j] == y);
                                }
                            }
                        }
                    },
                }
                assert(l@.contains(x));
                assert(forall|y: usize| #[trigger] l@.contains(y) <==> (l0.contains(y) || y == x));
                self.map.insert(k, l);
            },
            None => {
                let l = vec![x];
                assert(l@.no_duplicates());
                assert(forall|y: usize| l@.contains(y) <==> y == x);
                self.map.insert(k, l);
            },
        }
        proof {
            assert(self.map@.dom() =~= m0.dom().insert(k));
            assert(self@ =~= old(self)@.insert((k, x)));
        }
    }

    /// Takes the pair `(k, x)` out.
    pub fn remove(&mut self, k: usize, x: usize)
        requires
            old(self).wf(),
        ensures
            final(self).wf(),
            final(self)@ == old(self)@.remove((k, x)),
    {
        let ghost m0 = self.map@;
        match self.map.remove(&k) {
            Some(l) => {
                let mut l = l;
                let ghost l0 = l@;
                match position_of(&l, x) {
                    Some(i) => {
                        l.remove(i);
                        proof {
                            assert forall|a: int, b: int| 0 <= a < l@.len() && 0 <= b < l@.len() && a != b implies l@[a] != l@[b] by {
                                let a2 = if a < i { a } else { a + 1 };
                                let b2 = if b < i { b } else { b + 1 };
                                assert(l@[a] == l0[a2]);
                                assert(l@[b] == l0[b2]);
                            }
                            assert forall|y: usize| #[trigger] l@.contains(y) <==> (l0.contains(y) && y != x) by {
                                if l@.contains(y) {
                                    let j = choose|j: int| 0 <= j < l@.len() && l@[j] == y;
                                    let j2 = if j < i { j } else { j + 1 };
                                    assert(l0[j2] == y);
                                    assert(j2 != i);
                                }
                                if l0.contains(y) && y != x {
                                    let j = choose|j: int| 0 <= j < l0.len() && l0[j] == y;
                                    let j2 = if j < i { j } else { j - 1 };
                                    assert(l@[j2] == y);
                                }
                            }
                        }
                    },
                    None => {},
                }
                if l.len() > 0 {
                    self.map.insert(k, l);
                    proof {
                        assert(self@ =~= old(self)@.remove((k, x)));
                    }
                } else {
                    proof {
                        assert forall|y: usize| !l0.contains(y) || y == x by {
                            if l0.contains(y) && y != x {
                                assert(l@.contains(y));
                            }
                        }
                        assert(self@ =~= old(self)@.remove((k, x)));
                    }
                }
            },
            None => {
                assert(self@ =~= old(self)@.remove((k, x)));
            },
        }
    }

    pub fn clear(&mut self)
        ensures
            final(self).wf(),
            final(self)@ == Set::<(usize, usize)>::empty(),
    {
        self.map = HashMap::new();
        assert(self@ =~= Set::<(usize, usize)>::empty());
    }
}

/// Rows whose equality can be decided at run time as it is in specs.
pub trait SameAs: Sized + Copy {
    fn same(&self, other: &Self) -> (b: bool)
        ensures
            b == (*self == *other);
}

impl SameAs for DbParentsObj {
    fn same(&self, other: &Self) -> (b: bool) {
        self.tag_namespace_id == other.tag_namespace_id && self.tag_id == other.tag_id
            && self.relate_tag_id == other.relate_tag_id
            && self.relate_namespace_id == other.relate_namespace_id
    }
}

/// The relationships between files and tags, found by tag and by file.
pub struct RelTable {
    by_tag: PairIndex,
    by_file: PairIndex,
}

impl RelTable {
    /// Both indexes are well formed and hold the same pairs.
    pub closed spec fn wf(&self) -> bool {
        &&& self.by_tag.wf()
        &&& self.by_file.wf()
        &&& forall|t: usize, f: usize| #[trigger] self.by_tag@.contains((t, f)) <==> self.by_file@.contains((f, t))
    }

    pub closed spec fn view(&self) -> Set<DbRelationshipObj> {
        Set::new(|r: DbRelationshipObj| self.by_tag@.contains((r.tagid, r.fileid)))
    }

    pub fn new() -> (r: Self)
        ensures
            r.wf(),
            r@ == Set::<DbRelationshipObj>::empty(),
    {
        let r = RelTable { by_tag: PairIndex::new(), by_file: PairIndex::new() };
        assert(r@ =~= Set::<DbRelationshipObj>::empty());
        r
    }

    pub fn contains(&self, x: &DbRelationshipObj) -> (b: bool)
        ensures
            b == self@.contains(*x),
    {
        self.by_tag.contains(x.tagid, x.fileid)
    }

    /// Adds `x`; returns whether it was absent.
    pub fn insert(&mut self, x: DbRelationshipObj) -> (added: bool)
        requires
            old(self).wf(),
        ensures
            final(self).wf(),
            final(self)@ == old(self)@.insert(x),
            added == !old(self)@.contains(x),
    {
        let added = !self.by_tag.contains(x.tagid, x.fileid);
        self.by_tag.insert(x.tagid, x.fileid);
        self.by_file.insert(x.fileid, x.tagid);
        assert(self@ =~= old(self)@.insert(x));
        added
    }

    /// Removes `x`; returns whether it was present.
    pub fn remove(&mut self, x: &DbRelationshipObj) -> (removed: bool)
        requires
            old(self).wf(),
        ensures
            final(self).wf(),
            final(self)@ == old(self)@.remove(*x),
            removed == old(self)@.contains(*x),
    {
        let removed = self.by_tag.contains(x.tagid, x.fileid);
        self.by_tag.remove(x.tagid, x.fileid);
        self.by_file.remove(x.fileid, x.tagid);
        assert(self@ =~= old(self)@.remove(*x));
        removed
    }

    pub fn clear(&mut self)
        ensures
            final(self).wf(),
            final(self)@ == Set::<DbRelationshipObj>::empty(),
    {
        self.by_tag.clear();
        self.by_file.clear();
        assert(self@ =~= Set::<DbRelationshipObj>::empty());
    }

    /// The files that carry a tag, each once.
    pub fn files_of(&self, tag: usize) -> (r: Vec<usize>)
        requires
            self.wf(),
        ensures
            r@.no_duplicates(),
            r@.to_set() == Set::new(|f: usize| self@.contains(DbRelationshipObj { fileid: f, tagid: tag })),
    {
        let r = self.by_tag.get(tag);
        assert(r@.to_set() =~= Set::new(|f: usize| self@.contains(DbRelationshipObj { fileid: f, tagid: tag })));
        r
    }

    /// The tags a file carries, each once.
    pub fn tags_of(&self, file: usize) -> (r: Vec<usize>)
        requires
            self.wf(),
        ensures
            r@.no_duplicates(),
            r@.to_set() == Set::new(|t: usize| self@.contains(DbRelationshipObj { fileid: file, tagid: t })),
    {
        let r = self.by_file.get(file);
        assert forall|t: usize| #[trigger] r@.to_set().contains(t) <==> self@.contains(DbRelationshipObj { fileid: file, tagid: t }) by {
            assert(self.by_tag@.contains((t, file)) <==> self.by_file@.contains((file, t)));
        }
        assert(r@.to_set() =~= Set::new(|t: usize| self@.contains(DbRelationshipObj { fileid: file, tagid: t })));
        r
    }
}

/// A set of rows kept without repetition.
pub struct VecSet<T> {
    rows: Vec<T>,
}

impl<T: SameAs> VecSet<T> {
    pub closed spec fn wf(&self) -> bool {
        self.rows@.no_duplicates()
    }

    /// The rows, in storage order.
    pub closed spec fn elems(&self) -> Seq<T> {
        self.rows@
    }

    pub closed spec fn view(&self) -> Set<T> {
        self.rows@.to_set()
    }

    pub proof fn lemma_elems(&self)
        requires
            self.wf(),
        ensures
            self.elems().no_duplicates(),
            self.elems().to_set() == self@,
    {
    }

    pub fn new() -> (r: Self)
        ensures
            r.wf(),
            r@ == Set::<T>::empty(),
    {
        let r = VecSet { rows: Vec::new() };
        assert(r@ =~= Set::<T>::empty());
        r
    }

    pub fn len(&self) -> (n: usize)
        ensures
            n == self.elems().len(),
    {
        self.rows.len()
    }

    pub fn at(&self, i: usize) -> (x: T)
        requires
            i < self.elems().len(),
        ensures
            x == self.elems()[i as int],
    {
        self.rows[i]
    }

    fn find(&self, x: &T) -> (r: Option<usize>)
        ensures
            match r {
                Some(i) => i < self.rows@.len() && self.rows@[i as int] == *x,
                None => !self.rows@.contains(*x),
            },
    {
        let mut i: usize = 0;
        while i < self.rows.len()
            invariant
                i <= self.rows@.len(),
                forall|j: int| 0 <= j < i ==> self.rows@[j] != *x,
            decreases self.rows@.len() - i,
        {
            if self.rows[i].same(x) {
                return Some(i);
            }
            i = i + 1;
        }
        None
    }

    pub fn contains(&self, x: &T) -> (b: bool)
        ensures
            b == self@.contains(*x),
    {
        self.find(x).is_some()
    }

    /// Adds `x`; returns whether it was absent.
    pub fn insert(&mut self, x: T) -> (added: bool)
        requires
            old(self).wf(),
        ensures
            final(self).wf(),
            final(self)@ == old(self)@.insert(x),
            added == !old(self)@.contains(x),
    {
        match self.find(&x) {
            Some(_) => {
                assert(self@.insert(x) =~= self@);
                false
            },
            None => {
                let ghost old_rows = self.rows@;
                self.rows.push(x);
                proof {
                    assert(self.rows@ == old_rows.push(x));
                    assert forall|a: int, b: int| 0 <= a < self.rows@.len() && 0 <= b < self.rows@.len() && a != b
                        implies self.rows@[a] != self.rows@[b] by {
                        if a < old_rows.len() && b < old_rows.len() {
                        } else if a == old_rows.len() {
                            assert(old_rows[b] != x);
                        } else {
                            assert(old_rows[a] != x);
                        }
                    }
                    assert forall|y: T| #[trigger] self.rows@.to_set().contains(y) == old_rows.to_set().insert(x).contains(y) by {
                        if old_rows.contains(y) {
                            let j = choose|j: int| 0 <= j < old_rows.len() && old_rows[j] == y;
                            assert(self.rows@[j] == y);
                        }
                        if y == x {
                            assert(self.rows@[old_rows.len() as int] == y);
                        }
                        if self.rows@.contains(y) && y != x {
                            let j = choose|j: int| 0 <= j < self.rows@.len() && self.rows@[j] == y;
                            assert(old_rows[j] == y);
                        }
                    }
                    assert(self@ =~= old_rows.to_set().insert(x));
                }
                true
            },
        }
    }

    /// Removes `x`; returns whether it was present.
    pub fn remove(&mut self, x: &T) -> (removed: bool)
        requires
            old(self).wf(),
        ensures
            final(self).wf(),
            final(self)@ == old(self)@.remove(*x),
            removed == old(self)@.contains(*x),
    {
        match self.find(x) {
            Some(i) => {
                let ghost old_rows = self.rows@;
                self.rows.remove(i);
                proof {
                    let t = self.rows@;
                    assert(t == old_rows.remove(i as int));
                    assert forall|a: int, b: int| 0 <= a < t.len() && 0 <= b < t.len() && a != b
                        implies t[a] != t[b] by {
                        let a2 = if a < i { a } else { a + 1 };
                        let b2 = if b < i { b } else { b + 1 };
                        assert(t[a] == old_rows[a2]);
                        assert(t[b] == old_rows[b2]);
                    }
                    assert forall|y: T| #[trigger] t.to_set().contains(y) == old_rows.to_set().remove(*x).contains(y) by {
                        if t.contains(y) {
                            let j = choose|j: int| 0 <= j < t.len() && t[j] == y;
                            let j2 = if j < i { j } else { j + 1 };
                            assert(old_rows[j2] == y);
                            assert(j2 != i);
                        }
                        if old_rows.contains(y) && y != *x {
                            let j = choose|j: int| 0 <= j < old_rows.len() && old_rows[j] == y;
                            let j2 = if j < i { j } else { j - 1 };
                            assert(t[j2] == y);
                        }
                    }
                    assert(self@ =~= old_rows.to_set().remove(*x));
                }
                true
            },
            None => {
                assert(self@.remove(*x) =~= self@);
                false
            },
        }
    }

    pub fn clear(&mut self)
        ensures
            final(self).wf(),
            final(self)@ == Set::<T>::empty(),
    {
        self.rows = Vec::new();
        assert(self@ =~= Set::<T>::empty());
    }
}

/// Settings rows with distinct names.
pub open spec fn distinct_names(s: Seq<DbSettingObj>) -> bool {
    forall|i: int, j: int| 0 <= i < s.len() && 0 <= j < s.len() && i != j ==> s[i].name@ != s[j].name@
}

pub open spec fn has_name(s: Seq<DbSettingObj>, n: Seq<char>) -> bool {
    exists|i: int| 0 <= i < s.len() && s[i].name@ == n
}

/// The map from name to setting that rows with distinct names stand for.
pub open spec fn settings_map(s: Seq<DbSettingObj>) -> Map<Seq<char>, DbSettingObj> {
    Map::new(
        |n: Seq<char>| has_name(s, n),
        |n: Seq<char>| s[choose|i: int| 0 <= i < s.len() && s[i].name@ == n],
    )
}

proof fn lemma_settings_at(s: Seq<DbSettingObj>, i: int)
    requires
        distinct_names(s),
        0 <= i < s.len(),
    ensures
        settings_map(s).dom().contains(s[i].name@),
        settings_map(s)[s[i].name@] == s[i],
{
    let n = s[i].name@;
    assert(has_name(s, n));
    let j = choose|j: int| 0 <= j < s.len() && s[j].name@ == n;
    assert(j == i);
}

/// Settings keyed by name.
pub struct SettingsTable {
    rows: Vec<DbSettingObj>,
}

impl SettingsTable {
    pub closed spec fn wf(&self) -> bool {
        distinct_names(self.rows@)
    }

    pub closed spec fn view(&self) -> Map<Seq<char>, DbSettingObj> {
        settings_map(self.rows@)
    }

    pub fn new() -> (r: Self)
        ensures
            r.wf(),
            r@ == Map::<Seq<char>, DbSettingObj>::empty(),
    {
        let r = SettingsTable { rows: Vec::new() };
        assert(r@ =~= Map::<Seq<char>, DbSettingObj>::empty());
        r
    }

    fn find(&self, name: &String) -> (r: Option<usize>)
        ensures
            match r {
                Some(i) => i < self.rows@.len() && self.rows@[i as int].name@ == name@,
                None => !has_name(self.rows@, name@),
            },
    {
        let mut i: usize = 0;
        while i < self.rows.len()
            invariant
                i <= self.rows@.len(),
                forall|j: int| 0 <= j < i ==> self.rows@[j].name@ != name@,
            decreases self.rows@.len() - i,
        {
            if self.rows[i].name == *name {
                return Some(i);
            }
            i = i + 1;
        }
        None
    }

    /// The setting stored under a name.
    pub fn get(&self, name: &String) -> (r: Option<&DbSettingObj>)
        requires
            self.wf(),
        ensures
            match r {
                Some(s) => self@.dom().contains(name@) && *s == self@[name@],
                None => !self@.dom().contains(name@),
            },
    {
        match self.find(name) {
            Some(i) => {
                proof { lemma_settings_at(self.rows@, i as int); }
                Some(&self.rows[i])
            },
            None => None,
        }
    }

    /// Stores a setting under its name, replacing any setting of that name.
    pub fn put(&mut self, s: DbSettingObj)
        requires
            old(self).wf(),
        ensures
            final(self).wf(),
            final(self)@ == old(self)@.insert(s.name@, s),
    {
        let ghost old_rows = self.rows@;
        let ghost n = s.name@;
        match self.find(&s.name) {
            Some(i) => {
                self.rows.set(i, s);
                proof {
                    let t = self.rows@;
                    assert forall|a: int, b: int| 0 <= a < t.len() && 0 <= b < t.len() && a != b
                        implies t[a].name@ != t[b].name@ by {
                        assert(t[a].name@ == old_rows[a].name@);
                        assert(t[b].name@ == old_rows[b].name@);
                    }
                    assert forall|x: Seq<char>| #[trigger] has_name(t, x) == has_name(old_rows, x) by {
                        if has_name(old_rows, x) {
                            let j = choose|j: int| 0 <= j < old_rows.len() && old_rows[j].name@ == x;
                            assert(t[j].name@ == x);
                        }
                        if has_name(t, x) {
                            let j = choose|j: int| 0 <= j < t.len() && t[j].name@ == x;
                            assert(old_rows[j].name@ == x);
                        }
                    }
                    assert forall|x: Seq<char>| #[trigger] settings_map(t).dom().contains(x)
                        implies settings_map(t)[x] == settings_map(old_rows).insert(n, s)[x] by {
                        let j = choose|j: int| 0 <= j < t.len() && t[j].name@ == x;
                        lemma_settings_at(t, j);
                        if j != i {
                            lemma_settings_at(old_rows, j);
                        }
                    }
                    assert(self@ =~= settings_map(old_rows).insert(n, s));
                }
            },
            None => {
                self.rows.push(s);
                proof {
                    let t = self.rows@;
                    assert(t == old_rows.push(s));
                    assert forall|a: int, b: int| 0 <= a < t.len() && 0 <= b < t.len() && a != b
                        implies t[a].name@ != t[b].name@ by {
                        if a < old_rows.len() && b < old_rows.len() {
                        } else if a == old_rows.len() {
                            assert(old_rows[b].name@ != n);
                        } else {
                            assert(old_rows[a].name@ != n);
                        }
                    }
                    assert forall|x: Seq<char>| #[trigger] has_name(t, x) == (has_name(old_rows, x) || x == n) by {
                        if has_name(old_rows, x) {
                            let j = choose|j: int| 0 <= j < old_rows.len() && old_rows[j].name@ == x;
                            assert(t[j].name@ == x);
                        }
                        if x == n {
                            assert(t[old_rows.len() as int].name@ == x);
                        }
                        if has_name(t, x) && x != n {
                            let j = choose|j: int| 0 <= j < t.len() && t[j].name@ == x;
                            assert(old_rows[j].name@ == x);
                        }
                    }
                    assert forall|x: Seq<char>| #[trigger] settings_map(t).dom().contains(x)
                        implies settings_map(t)[x] == settings_map(old_rows).insert(n, s)[x] by {
                        let j = choose|j: int| 0 <= j < t.len() && t[j].name@ == x;
                        lemma_settings_at(t, j);
                        if j < old_rows.len() {
                            lemma_settings_at(old_rows, j);
                        }
                    }
                    assert(self@ =~= settings_map(old_rows).insert(n, s));
                }
            },
        }
    }
}

} // verus!
