//! An insertion-ordered map keyed by strings.
//!
//! Keys are unique; iteration order is insertion order, and replacing the
//! value of an existing key keeps its position.
use vstd::prelude::*;

verus! {

/// The abstract content of a map: its (key, value) pairs in order.
pub type Pairs<V> = Seq<(Seq<char>, V)>;

/// Whether no key occurs twice.
pub open spec fn keys_unique<V>(ps: Pairs<V>) -> bool {
    forall|i: int, j: int| 0 <= i < ps.len() && 0 <= j < ps.len() && i != j ==> (#[trigger] ps[i]).0 != (#[trigger] ps[j]).0
}

/// Whether `k` is a key of `ps`.
pub open spec fn has_key<V>(ps: Pairs<V>, k: Seq<char>) -> bool {
    exists|i: int| 0 <= i < ps.len() && (#[trigger] ps[i]).0 == k
}

/// A position at which `k` occurs (the only one when keys are unique).
pub open spec fn key_index<V>(ps: Pairs<V>, k: Seq<char>) -> int {
    choose|i: int| 0 <= i < ps.len() && (#[trigger] ps[i]).0 == k
}

/// The map the pairs denote.
pub open spec fn map_of<V>(ps: Pairs<V>) -> Map<Seq<char>, V> {
    Map::new(|k: Seq<char>| has_key(ps, k), |k: Seq<char>| ps[key_index(ps, k)].1)
}

/// The value stored under `k`, if any.
pub open spec fn lookup<V>(ps: Pairs<V>, k: Seq<char>) -> Option<V> {
    if has_key(ps, k) { Some(ps[key_index(ps, k)].1) } else { None }
}

/// The pairs after storing `v` under `k`: replaced in place when present,
/// appended otherwise.
pub open spec fn upsert<V>(ps: Pairs<V>, k: Seq<char>, v: V) -> Pairs<V> {
    if has_key(ps, k) { ps.update(key_index(ps, k), (k, v)) } else { ps.push((k, v)) }
}

/// The pairs after removing `k` (unchanged when absent).
pub open spec fn without<V>(ps: Pairs<V>, k: Seq<char>) -> Pairs<V> {
    if has_key(ps, k) { ps.remove(key_index(ps, k)) } else { ps }
}

/// The values in order.
pub open spec fn values<V>(ps: Pairs<V>) -> Seq<V> {
    ps.map_values(|p: (Seq<char>, V)| p.1)
}

/// Whether every value is stored under the key `key` gives it.
pub open spec fn keyed_by<V>(ps: Pairs<V>, key: spec_fn(V) -> Seq<char>) -> bool {
    forall|i: int| 0 <= i < ps.len() ==> (#[trigger] ps[i]).0 == key(ps[i].1)
}

/// Storing a value under its own key keeps every value under its own key.
pub proof fn lemma_keyed_upsert<V>(ps: Pairs<V>, key: spec_fn(V) -> Seq<char>, v: V)
    requires
        keyed_by(ps, key),
    ensures
        keyed_by(upsert(ps, key(v), v), key),
{
    let k = key(v);
    if has_key(ps, k) {
        let i = key_index(ps, k);
        assert forall|j: int| 0 <= j < upsert(ps, k, v).len() implies (#[trigger] upsert(ps, k, v)[j]).0 == key(
            upsert(ps, k, v)[j].1,
        ) by {
            if j != i {
                assert(upsert(ps, k, v)[j] == ps[j]);
            }
        }
    } else {
        assert forall|j: int| 0 <= j < upsert(ps, k, v).len() implies (#[trigger] upsert(ps, k, v)[j]).0 == key(
            upsert(ps, k, v)[j].1,
        ) by {
            if j < ps.len() {
                assert(upsert(ps, k, v)[j] == ps[j]);
            }
        }
    }
}

/// A value found under `k` in pairs that keep every value under its own key
/// has key `k`.
pub proof fn lemma_keyed_lookup<V>(ps: Pairs<V>, key: spec_fn(V) -> Seq<char>, k: Seq<char>)
    requires
        keyed_by(ps, key),
    ensures
        lookup(ps, k) matches Some(v) ==> key(v) == k,
{
    if has_key(ps, k) {
        let i = key_index(ps, k);
        assert(ps[i].0 == k);
    }
}

/// Removing a key keeps every remaining value under its own key.
pub proof fn lemma_keyed_without<V>(ps: Pairs<V>, key: spec_fn(V) -> Seq<char>, k: Seq<char>)
    requires
        keyed_by(ps, key),
    ensures
        keyed_by(without(ps, k), key),
{
    if has_key(ps, k) {
        let i = key_index(ps, k);
        assert forall|j: int| 0 <= j < without(ps, k).len() implies (#[trigger] without(ps, k)[j]).0 == key(
            without(ps, k)[j].1,
        ) by {
            if j < i {
                assert(without(ps, k)[j] == ps[j]);
            } else {
                assert(without(ps, k)[j] == ps[j + 1]);
            }
        }
    }
}

/// Storing under a key makes it readable, with unique keys kept.
pub proof fn lemma_upsert<V>(ps: Pairs<V>, k: Seq<char>, v: V)
    requires
        keys_unique(ps),
    ensures
        keys_unique(upsert(ps, k, v)),
        lookup(upsert(ps, k, v), k) == Some(v),
        forall|k2: Seq<char>| k2 != k ==> lookup(upsert(ps, k, v), k2) == #[trigger] lookup(ps, k2),
{
    let qs = upsert(ps, k, v);
    if has_key(ps, k) {
        let i = key_index(ps, k);
        assert(ps[i].0 == k);
        assert(keys_unique(qs)) by {
            assert forall|a: int, b: int| 0 <= a < qs.len() && 0 <= b < qs.len() && a != b
                implies (#[trigger] qs[a]).0 != (#[trigger] qs[b]).0 by {
                if a != i && b != i {
                    assert(qs[a] == ps[a]);
                    assert(qs[b] == ps[b]);
                } else if a == i {
                    assert(qs[b] == ps[b]);
                } else {
                    assert(qs[a] == ps[a]);
                }
            }
        }
        lemma_key_index(qs, i);
        assert forall|k2: Seq<char>| k2 != k implies lookup(qs, k2) == #[trigger] lookup(ps, k2) by {
            if has_key(ps, k2) {
                let j = key_index(ps, k2);
                lemma_key_index(ps, j);
                assert(qs[j] == ps[j]);
                lemma_key_index(qs, j);
            } else {
                if has_key(qs, k2) {
                    let j = key_index(qs, k2);
                    assert(qs[j] == ps[j]);
                }
            }
        }
    } else {
        assert(keys_unique(qs)) by {
            assert forall|a: int, b: int| 0 <= a < qs.len() && 0 <= b < qs.len() && a != b
                implies (#[trigger] qs[a]).0 != (#[trigger] qs[b]).0 by {
                if a < ps.len() && b < ps.len() {
                    assert(qs[a] == ps[a]);
                    assert(qs[b] == ps[b]);
                } else if a == ps.len() {
                    assert(qs[b] == ps[b]);
                } else {
                    assert(qs[a] == ps[a]);
                }
            }
        }
        lemma_key_index(qs, ps.len() as int);
        assert forall|k2: Seq<char>| k2 != k implies lookup(qs, k2) == #[trigger] lookup(ps, k2) by {
            if has_key(ps, k2) {
                let j = key_index(ps, k2);
                lemma_key_index(ps, j);
                assert(qs[j] == ps[j]);
                lemma_key_index(qs, j);
            } else {
                if has_key(qs, k2) {
                    let j = key_index(qs, k2);
                    if j < ps.len() {
                        assert(qs[j] == ps[j]);
                    }
                }
            }
        }
    }
}

/// Removing a key makes it absent and leaves the others, with unique keys kept.
pub proof fn lemma_without<V>(ps: Pairs<V>, k: Seq<char>)
    requires
        keys_unique(ps),
    ensures
        keys_unique(without(ps, k)),
        lookup(without(ps, k), k) is None,
        forall|k2: Seq<char>| k2 != k ==> lookup(without(ps, k), k2) == #[trigger] lookup(ps, k2),
{
    let qs = without(ps, k);
    if has_key(ps, k) {
        let i = key_index(ps, k);
        assert(ps[i].0 == k);
        assert(keys_unique(qs)) by {
            assert forall|a: int, b: int| 0 <= a < qs.len() && 0 <= b < qs.len() && a != b
                implies (#[trigger] qs[a]).0 != (#[trigger] qs[b]).0 by {
                let oa = if a < i { a } else { a + 1 };
                let ob = if b < i { b } else { b + 1 };
                assert(qs[a] == ps[oa]);
                assert(qs[b] == ps[ob]);
            }
        }
        if has_key(qs, k) {
            let j = key_index(qs, k);
            let oj = if j < i { j } else { j + 1 };
            assert(qs[j] == ps[oj]);
        }
        assert forall|k2: Seq<char>| k2 != k implies lookup(qs, k2) == #[trigger] lookup(ps, k2) by {
            if has_key(ps, k2) {
                let j = key_index(ps, k2);
                lemma_key_index(ps, j);
                let nj = if j < i { j } else { j - 1 };
                assert(qs[nj] == ps[j]);
                lemma_key_index(qs, nj);
            } else {
                if has_key(qs, k2) {
                    let j = key_index(qs, k2);
                    let oj = if j < i { j } else { j + 1 };
                    assert(qs[j] == ps[oj]);
                }
            }
        }
    } else {
    }
}

/// With unique keys, the position of a present key is the one it occurs at.
pub proof fn lemma_key_index<V>(ps: Pairs<V>, i: int)
    requires
        keys_unique(ps),
        0 <= i < ps.len(),
    ensures
        has_key(ps, ps[i].0),
        key_index(ps, ps[i].0) == i,
        lookup(ps, ps[i].0) == Some(ps[i].1),
{
    let k = ps[i].0;
    assert(has_key(ps, k));
    let j = key_index(ps, k);
    assert(ps[j].0 == k);
}

/// A map keyed by strings that remembers insertion order.
#[derive(Debug)]
pub struct StrMap<V> {
    entries: Vec<(String, V)>,
}

impl<V> StrMap<V> {
    /// The pairs in insertion order, keys taken by their characters.
    pub closed spec fn pairs(&self) -> Pairs<V> {
        self.entries@.map_values(|e: (String, V)| (e.0@, e.1))
    }

    #[verifier::type_invariant]
    closed spec fn wf(&self) -> bool {
        keys_unique(self.pairs())
    }

    /// The map denoted by the pairs.
    pub open spec fn map(&self) -> Map<Seq<char>, V> {
        map_of(self.pairs())
    }

    /// The value under `k`, if any.
    pub open spec fn spec_get(&self, k: Seq<char>) -> Option<V> {
        lookup(self.pairs(), k)
    }

    /// Keys never repeat (a no-op at run time that tells the verifier so).
    pub fn check_unique(&self)
        ensures
            keys_unique(self.pairs()),
    {
        proof {
            use_type_invariant(self);
        }
    }

    /// An empty map.
    pub fn new() -> (r: Self)
        ensures
            r.pairs() == Seq::<(Seq<char>, V)>::empty(),
    {
        let r = StrMap { entries: Vec::new() };
        assert(r.pairs() =~= Seq::<(Seq<char>, V)>::empty());
        r
    }

    /// Number of keys.
    pub fn len(&self) -> (r: usize)
        ensures
            r == self.pairs().len(),
    {
        self.entries.len()
    }

    /// Whether there are no keys.
    pub fn is_empty(&self) -> (r: bool)
        ensures
            r == (self.pairs().len() == 0),
    {
        self.entries.len() == 0
    }

    /// The key at position `i`.
    pub fn key_at(&self, i: usize) -> (r: &String)
        requires
            i < self.pairs().len(),
        ensures
            r@ == self.pairs()[i as int].0,
    {
        &self.entries[i].0
    }

    /// The value at position `i`.
    pub fn value_at(&self, i: usize) -> (r: &V)
        requires
            i < self.pairs().len(),
        ensures
            *r == self.pairs()[i as int].1,
    {
        &self.entries[i].1
    }

    /// Position of `k`, if present.
    pub fn find(&self, k: &str) -> (r: Option<usize>)
        ensures
            r matches Some(i) ==> i < self.pairs().len() && self.pairs()[i as int].0 == k@,
            r is None <==> !has_key(self.pairs(), k@),
    {
        let n = self.entries.len();
        let mut i: usize = 0;
        while i < n
            invariant
                n == self.entries@.len(),
                i <= n,
                forall|j: int| 0 <= j < i ==> (#[trigger] self.pairs()[j]).0 != k@,
            decreases n - i,
        {
            if crate::text::str_eq(self.entries[i].0.as_str(), k) {
                assert(self.pairs()[i as int].0 == k@);
                return Some(i);
            }
            i = i + 1;
        }
        None
    }

    /// The value under `k`, if any.
    pub fn get(&self, k: &str) -> (r: Option<&V>)
        ensures
            r matches Some(v) ==> self.spec_get(k@) == Some(*v),
            r is None <==> self.spec_get(k@) is None,
    {
        proof {
            use_type_invariant(self);
        }
        match self.find(k) {
            Some(i) => {
                proof {
                    lemma_key_index(self.pairs(), i as int);
                }
                Some(&self.entries[i].1)
            },
            None => None,
        }
    }

    /// Whether `k` is a key.
    pub fn contains_key(&self, k: &str) -> (r: bool)
        ensures
            r == has_key(self.pairs(), k@),
    {
        self.find(k).is_some()
    }

    /// Store `v` under `k`: replaces in place when `k` is present, otherwise
    /// appends. Returns the previous value.
    pub fn insert(&mut self, k: String, v: V) -> (r: Option<V>)
        ensures
            final(self).pairs() == upsert(old(self).pairs(), k@, v),
            r == old(self).spec_get(k@),
    {
        proof {
            use_type_invariant(&*self);
        }
        let ghost old_pairs = self.pairs();
        match self.find(k.as_str()) {
            Some(i) => {
                proof {
                    lemma_key_index(old_pairs, i as int);
                }
                let mut entries = Vec::new();
                std::mem::swap(&mut entries, &mut self.entries);
                let (_, old_v) = entries.remove(i);
                entries.insert(i, (k, v));
                let ghost new_pairs = entries@.map_values(|e: (String, V)| (e.0@, e.1));
                assert(new_pairs =~= old_pairs.update(i as int, (k@, v)));
                assert(keys_unique(new_pairs));
                self.entries = entries;
                Some(old_v)
            },
            None => {
                let mut entries = Vec::new();
                std::mem::swap(&mut entries, &mut self.entries);
                entries.push((k, v));
                let ghost new_pairs = entries@.map_values(|e: (String, V)| (e.0@, e.1));
                assert(new_pairs =~= old_pairs.push((k@, v)));
                assert(keys_unique(new_pairs)) by {
                    assert forall|a: int, b: int|
                        0 <= a < new_pairs.len() && 0 <= b < new_pairs.len() && a != b
                        implies (#[trigger] new_pairs[a]).0 != (#[trigger] new_pairs[b]).0 by {
                        if a < old_pairs.len() && b < old_pairs.len() {
                        } else if a == old_pairs.len() {
                            assert(!has_key(old_pairs, k@));
                            assert(new_pairs[b] == old_pairs[b]);
                        } else {
                            assert(!has_key(old_pairs, k@));
                            assert(new_pairs[a] == old_pairs[a]);
                        }
                    }
                }
                self.entries = entries;
                None
            },
        }
    }

    /// Remove `k`, returning its value; later keys move up one position.
    pub fn remove(&mut self, k: &str) -> (r: Option<V>)
        ensures
            final(self).pairs() == without(old(self).pairs(), k@),
            r == old(self).spec_get(k@),
    {
        proof {
            use_type_invariant(&*self);
        }
        let ghost old_pairs = self.pairs();
        match self.find(k) {
            Some(i) => {
                proof {
                    lemma_key_index(old_pairs, i as int);
                }
                let mut entries = Vec::new();
                std::mem::swap(&mut entries, &mut self.entries);
                let (_, old_v) = entries.remove(i);
                let ghost new_pairs = entries@.map_values(|e: (String, V)| (e.0@, e.1));
                assert(new_pairs =~= old_pairs.remove(i as int));
                assert(keys_unique(new_pairs)) by {
                    assert forall|a: int, b: int|
                        0 <= a < new_pairs.len() && 0 <= b < new_pairs.len() && a != b
                        implies (#[trigger] new_pairs[a]).0 != (#[trigger] new_pairs[b]).0 by {
                        let oa = if a < i { a } else { a + 1 };
                        let ob = if b < i { b } else { b + 1 };
                        assert(new_pairs[a] == old_pairs[oa]);
                        assert(new_pairs[b] == old_pairs[ob]);
                    }
                }
                self.entries = entries;
                Some(old_v)
            },
            None => None,
        }
    }
}

impl<V: Clone> Clone for StrMap<V> {
    /// A copy with the same keys, in the same order, each value cloned.
    fn clone(&self) -> (r: Self)
        ensures
            r.pairs().len() == self.pairs().len(),
            forall|i: int| 0 <= i < self.pairs().len() ==> (#[trigger] r.pairs()[i]).0 == self.pairs()[i].0
                && cloned::<V>(self.pairs()[i].1, r.pairs()[i].1),
    {
        proof {
            use_type_invariant(self);
        }
        let mut entries: Vec<(String, V)> = Vec::new();
        let n = self.entries.len();
        let mut i: usize = 0;
        while i < n
            invariant
                n == self.entries@.len(),
                i <= n,
                keys_unique(self.pairs()),
                entries@.len() == i,
                forall|j: int| 0 <= j < i ==> (#[trigger] entries@[j]).0@ == self.entries@[j].0@
                    && cloned::<V>(self.entries@[j].1, entries@[j].1),
            decreases n - i,
        {
            let k = self.entries[i].0.clone();
            let v = self.entries[i].1.clone();
            entries.push((k, v));
            i = i + 1;
        }
        let ghost ps = entries@.map_values(|e: (String, V)| (e.0@, e.1));
        assert(keys_unique(ps)) by {
            assert forall|a: int, b: int| 0 <= a < ps.len() && 0 <= b < ps.len() && a != b
                implies (#[trigger] ps[a]).0 != (#[trigger] ps[b]).0 by {
                assert(ps[a].0 == self.pairs()[a].0);
                assert(ps[b].0 == self.pairs()[b].0);
            }
        }
        StrMap { entries }
    }
}

} // verus!
