//! Association tables: a vector of entries whose keys are pairwise distinct,
//! viewed as a finite map from key views to value views.

use vstd::prelude::*;

verus! {

/// A key that can be compared at run time, with the comparison deciding
/// equality of views.
pub trait Key: View + Sized {
    /// What the key's own representation needs to hold.
    spec fn valid(&self) -> bool;

    fn same(&self, other: &Self) -> (b: bool)
        requires
            self.valid(),
            other.valid(),
        ensures
            b == (self@ == other@),
    ;

    fn copy(&self) -> (c: Self)
        requires
            self.valid(),
        ensures
            c@ == self@,
            c.valid(),
    ;

    /// Whether the key is valid.
    fn check(&self) -> (b: bool)
        ensures
            b == self.valid(),
    ;
}

impl Key for String {
    open spec fn valid(&self) -> bool {
        true
    }

    fn same(&self, other: &Self) -> (b: bool) {
        *self == *other
    }

    fn copy(&self) -> (c: Self) {
        self.clone()
    }

    fn check(&self) -> (b: bool) {
        true
    }
}

impl Key for Vec<u8> {
    open spec fn valid(&self) -> bool {
        true
    }

    fn same(&self, other: &Self) -> (b: bool) {
        let r = self == other;
        assert(r == (self@ =~= other@));
        r
    }

    fn copy(&self) -> (c: Self) {
        let c = self.clone();
        assert(c@ =~= self@);
        c
    }

    fn check(&self) -> (b: bool) {
        true
    }
}

} // verus!

verus! {

/// A finite map held as a vector of `(key, value)` entries.
#[derive(Clone, Debug, PartialEq, Eq)]
pub struct Table<K, V> {
    pub entries: Vec<(K, V)>,
}

impl<K: Key, V: View> View for Table<K, V> {
    type V = Map<K::V, V::V>;

    open spec fn view(&self) -> Map<K::V, V::V> {
        Map::new(|k: K::V| self.has(k), |k: K::V| self.value_at(self.index_of(k)))
    }
}

impl<K: Key, V: View> Table<K, V> {
    pub open spec fn key_at(&self, i: int) -> K::V {
        self.entries@[i].0@
    }

    pub open spec fn value_at(&self, i: int) -> V::V {
        self.entries@[i].1@
    }

    pub open spec fn has(&self, k: K::V) -> bool {
        exists|i: int| 0 <= i < self.entries@.len() && self.key_at(i) == k
    }

    pub open spec fn index_of(&self, k: K::V) -> int {
        choose|i: int| 0 <= i < self.entries@.len() && self.key_at(i) == k
    }

    /// No two entries have the same key, and every key is valid.
    pub open spec fn wf(&self) -> bool {
        &&& forall|i: int, j: int|
            0 <= i < j < self.entries@.len() ==> self.key_at(i) != self.key_at(j)
        &&& forall|i: int| 0 <= i < self.entries@.len() ==> (#[trigger] self.entries@[i]).0.valid()
    }

    /// In a well-formed table each entry is what the map holds under its key.
    pub proof fn lemma_entry(&self, i: int)
        requires
            self.wf(),
            0 <= i < self.entries@.len(),
        ensures
            self@.contains_key(self.key_at(i)),
            self@[self.key_at(i)] == self.value_at(i),
            self.index_of(self.key_at(i)) == i,
    {
        let k = self.key_at(i);
        assert(self.has(k));
        let j = self.index_of(k);
        assert(0 <= j < self.entries@.len() && self.key_at(j) == k);
        if j < i {
            assert(self.key_at(j) != self.key_at(i));
        } else if i < j {
            assert(self.key_at(i) != self.key_at(j));
        }
    }

    /// The keys of the map are exactly the keys of the entries.
    pub proof fn lemma_domain(&self)
        requires
            self.wf(),
        ensures
            self@.dom().finite(),
            self@.dom().len() == self.entries@.len(),
            forall|k: K::V| self@.contains_key(k) <==> self.has(k),
    {
        self.lemma_domain_prefix(self.entries@.len() as int);
        let keys = Set::new(|k: K::V| exists|i: int| 0 <= i < self.entries@.len() && self.key_at(i) == k);
        assert(keys =~= self@.dom());
    }

    proof fn lemma_domain_prefix(&self, n: int)
        requires
            self.wf(),
            0 <= n <= self.entries@.len(),
        ensures
            Set::new(|k: K::V| exists|i: int| 0 <= i < n && self.key_at(i) == k).finite(),
            Set::new(|k: K::V| exists|i: int| 0 <= i < n && self.key_at(i) == k).len() == n,
        decreases n,
    {
        let cur = Set::new(|k: K::V| exists|i: int| 0 <= i < n && self.key_at(i) == k);
        if n == 0 {
            assert(cur =~= Set::<K::V>::empty());
        } else {
            self.lemma_domain_prefix(n - 1);
            let prev = Set::new(|k: K::V| exists|i: int| 0 <= i < n - 1 && self.key_at(i) == k);
            let last = self.key_at(n - 1);
            assert(!prev.contains(last)) by {
                if prev.contains(last) {
                    let i = choose|i: int| 0 <= i < n - 1 && self.key_at(i) == last;
                    assert(self.key_at(i) != self.key_at(n - 1));
                }
            }
            assert(cur =~= prev.insert(last)) by {
                assert forall|k: K::V| cur.contains(k) implies prev.insert(last).contains(k) by {
                    let i = choose|i: int| 0 <= i < n && self.key_at(i) == k;
                    if i < n - 1 {
                        assert(prev.contains(k));
                    }
                }
                assert forall|k: K::V| prev.insert(last).contains(k) implies cur.contains(k) by {
                    if k == last {
                        assert(self.key_at(n - 1) == k);
                    } else {
                        let i = choose|i: int| 0 <= i < n - 1 && self.key_at(i) == k;
                        assert(0 <= i < n && self.key_at(i) == k);
                    }
                }
            }
        }
    }

    /// Whether the table is well formed.
    pub fn is_wf(&self) -> (b: bool)
        ensures
            b == self.wf(),
    {
        let mut j: usize = 0;
        while j < self.entries.len()
            invariant
                j <= self.entries@.len(),
                forall|a: int, c: int| 0 <= a < c < j ==> self.key_at(a) != self.key_at(c),
                forall|a: int| 0 <= a < j ==> (#[trigger] self.entries@[a]).0.valid(),
            decreases self.entries@.len() - j,
        {
            if !self.entries[j].0.check() {
                return false;
            }
            let mut i: usize = 0;
            while i < j
                invariant
                    i <= j < self.entries@.len(),
                    forall|a: int| 0 <= a <= j ==> (#[trigger] self.entries@[a]).0.valid(),
                    forall|a: int| 0 <= a < i ==> self.key_at(a) != self.key_at(j as int),
                decreases j - i,
            {
                if self.entries[i].0.same(&self.entries[j].0) {
                    assert(self.key_at(i as int) == self.key_at(j as int));
                    return false;
                }
                i += 1;
            }
            j += 1;
        }
        true
    }

    pub fn new() -> (t: Self)
        ensures
            t.wf(),
            t@ == Map::<K::V, V::V>::empty(),
            t.entries@.len() == 0,
    {
        let t = Table { entries: Vec::new() };
        assert(t@ =~= Map::<K::V, V::V>::empty());
        t
    }

    pub fn len(&self) -> (n: usize)
        ensures
            n == self.entries@.len(),
    {
        self.entries.len()
    }

    /// The position of the entry under `key`, if there is one.
    pub fn find(&self, key: &K) -> (r: Option<usize>)
        requires
            self.wf(),
            key.valid(),
        ensures
            r.is_some() == self@.contains_key(key@),
            match r {
                Some(i) => i < self.entries@.len() && self.key_at(i as int) == key@
                    && self@[key@] == self.value_at(i as int),
                None => true,
            },
    {
        let mut i: usize = 0;
        while i < self.entries.len()
            invariant
                self.wf(),
                key.valid(),
                i <= self.entries@.len(),
                forall|j: int| 0 <= j < i ==> self.key_at(j) != key@,
            decreases self.entries@.len() - i,
        {
            if self.entries[i].0.same(key) {
                proof {
                    self.lemma_entry(i as int);
                }
                return Some(i);
            }
            i += 1;
        }
        assert(!self.has(key@));
        None
    }

    /// Adds an entry under a key that the table does not hold yet.
    pub fn push(&mut self, key: K, value: V)
        requires
            old(self).wf(),
            key.valid(),
            !old(self)@.contains_key(key@),
        ensures
            final(self).wf(),
            final(self)@ == old(self)@.insert(key@, value@),
            final(self).entries@ == old(self).entries@.push((key, value)),
    {
        let ghost before = *self;
        proof {
            assert forall|j: int| 0 <= j < before.entries@.len() implies before.key_at(j) != key@ by {
                before.lemma_entry(j);
            }
        }
        self.entries.push((key, value));
        proof {
            let after = *self;
            let n = before.entries@.len() as int;
            assert(after.wf()) by {
                assert forall|a: int, b: int| 0 <= a < b < after.entries@.len() implies after.key_at(a) != after.key_at(b) by {
                    assert(after.entries@[a] == before.entries@[a]);
                    if b < n {
                        assert(after.entries@[b] == before.entries@[b]);
                        assert(before.key_at(a) != before.key_at(b));
                    } else {
                        assert(before.key_at(a) != key@);
                    }
                }
            }
            assert forall|k: K::V| after@.contains_key(k) <==> before@.insert(key@, value@).contains_key(k) by {
                if after.has(k) {
                    let i = choose|i: int| 0 <= i < after.entries@.len() && after.key_at(i) == k;
                    if i < n {
                        assert(before.key_at(i) == k);
                    }
                }
                if before.has(k) {
                    let i = choose|i: int| 0 <= i < before.entries@.len() && before.key_at(i) == k;
                    assert(after.key_at(i) == k);
                }
                if k == key@ {
                    assert(after.key_at(n) == k);
                }
            }
            assert forall|k: K::V| after@.contains_key(k) implies after@[k] == before@.insert(key@, value@)[k] by {
                let i = after.index_of(k);
                after.lemma_entry(i);
                if i < n {
                    assert(before.key_at(i) == k);
                    before.lemma_entry(i);
                }
            }
            assert(after@ =~= before@.insert(key@, value@));
        }
    }

    /// Takes the entry at position `i` out of the table.
    pub fn remove(&mut self, i: usize) -> (e: (K, V))
        requires
            old(self).wf(),
            i < old(self).entries@.len(),
        ensures
            final(self).wf(),
            e == old(self).entries@[i as int],
            final(self)@ == old(self)@.remove(old(self).key_at(i as int)),
            final(self).entries@.len() == old(self).entries@.len() - 1,
            forall|j: int|
                0 <= j < final(self).entries@.len() ==> old(self).entries@.contains(
                    #[trigger] final(self).entries@[j],
                ),
    {
        let ghost before = *self;
        let e = self.entries.swap_remove(i);
        proof {
            let after = *self;
            let n = before.entries@.len() as int;
            let gone = before.key_at(i as int);
            // every entry that is left was an entry before, at position `src(j)`
            assert forall|j: int| 0 <= j < n - 1 implies (#[trigger] after.entries@[j]) == before.entries@[if j == i { n - 1 } else { j }] by {}
            assert(after.wf()) by {
                assert forall|a: int, b: int| 0 <= a < b < after.entries@.len() implies after.key_at(a) != after.key_at(b) by {
                    let sa = if a == i { n - 1 } else { a };
                    let sb = if b == i { n - 1 } else { b };
                    assert(after.entries@[a] == before.entries@[sa]);
                    assert(after.entries@[b] == before.entries@[sb]);
                    if sa < sb {
                        assert(before.key_at(sa) != before.key_at(sb));
                    } else {
                        assert(before.key_at(sb) != before.key_at(sa));
                    }
                }
            }
            assert forall|k: K::V| after@.contains_key(k) <==> before@.remove(gone).contains_key(k) by {
                if after.has(k) {
                    let j = choose|j: int| 0 <= j < after.entries@.len() && after.key_at(j) == k;
                    let sj = if j == i { n - 1 } else { j };
                    assert(after.entries@[j] == before.entries@[sj]);
                    assert(before.key_at(sj) == k);
                    if sj < i {
                        assert(before.key_at(sj) != before.key_at(i as int));
                    } else if i < sj {
                        assert(before.key_at(i as int) != before.key_at(sj));
                    }
                }
                if before.has(k) && k != gone {
                    let j = choose|j: int| 0 <= j < before.entries@.len() && before.key_at(j) == k;
                    let dj = if j == n - 1 { i as int } else { j };
                    assert(after.entries@[dj] == before.entries@[if dj == i { n - 1 } else { dj }]);
                    assert(after.key_at(dj) == k);
                }
            }
            assert forall|k: K::V| after@.contains_key(k) implies after@[k] == before@.remove(gone)[k] by {
                let j = after.index_of(k);
                after.lemma_entry(j);
                let sj = if j == i { n - 1 } else { j };
                assert(after.entries@[j] == before.entries@[sj]);
                before.lemma_entry(sj);
            }
            assert(after@ =~= before@.remove(gone));
        }
        e
    }

    /// Puts `value` under `key`, in place of what was there.
    pub fn insert(&mut self, key: K, value: V)
        requires
            old(self).wf(),
            key.valid(),
        ensures
            final(self).wf(),
            final(self)@ == old(self)@.insert(key@, value@),
            forall|j: int|
                0 <= j < final(self).entries@.len() ==> old(self).entries@.contains(
                    #[trigger] final(self).entries@[j],
                ) || final(self).entries@[j].1 == value,
    {
        match self.find(&key) {
            Some(i) => {
                self.replace(i, value);
            },
            None => {
                self.push(key, value);
                assert forall|j: int| 0 <= j < self.entries@.len() implies old(self).entries@.contains(
                    #[trigger] self.entries@[j],
                ) || self.entries@[j].1 == value by {
                    if j < old(self).entries@.len() {
                        assert(old(self).entries@[j] == self.entries@[j]);
                    }
                }
            },
        }
    }

    /// Takes some entry out of the table, if it has one.
    pub fn pop(&mut self) -> (e: Option<(K, V)>)
        requires
            old(self).wf(),
        ensures
            final(self).wf(),
            match e {
                Some(e) => old(self)@.contains_key(e.0@) && old(self)@[e.0@] == e.1@ && e.0.valid()
                    && old(self).entries@.contains(e)
                    && final(self)@ == old(self)@.remove(e.0@)
                    && final(self).entries@.len() == old(self).entries@.len() - 1
                    && (forall|j: int|
                    0 <= j < final(self).entries@.len() ==> old(self).entries@.contains(
                        #[trigger] final(self).entries@[j],
                    )),
                None => old(self).entries@.len() == 0 && *final(self) == *old(self)
                    && old(self)@ == Map::<K::V, V::V>::empty(),
            },
    {
        let n = self.entries.len();
        if n == 0 {
            assert(self@ =~= Map::<K::V, V::V>::empty());
            None
        } else {
            proof {
                self.lemma_entry(n - 1);
            }
            Some(self.remove(n - 1))
        }
    }

    /// Puts `value` in place of the value at position `i`, under the same key.
    pub fn replace(&mut self, i: usize, value: V)
        requires
            old(self).wf(),
            i < old(self).entries@.len(),
        ensures
            final(self).wf(),
            final(self)@ == old(self)@.insert(old(self).key_at(i as int), value@),
            final(self).entries@.len() == old(self).entries@.len(),
            forall|j: int|
                0 <= j < final(self).entries@.len() ==> old(self).entries@.contains(
                    #[trigger] final(self).entries@[j],
                ) || final(self).entries@[j].1 == value,
    {
        let ghost before = *self;
        proof {
            before.lemma_entry(i as int);
        }
        let e = self.remove(i);
        self.push(e.0, value);
        assert(self@ =~= before@.insert(before.key_at(i as int), value@));
    }
}

} // verus!
