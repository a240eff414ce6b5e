//! A map from channel names to values that keeps the order of insertion.

use vstd::prelude::*;

verus! {

/// True when no key occurs twice in `keys`.
pub open spec fn distinct(keys: Seq<Seq<char>>) -> bool {
    forall|i: int, j: int| 0 <= i < j < keys.len() ==> keys[i] != keys[j]
}

/// True when `key` occurs in `keys`.
pub open spec fn has_key(keys: Seq<Seq<char>>, key: Seq<char>) -> bool {
    exists|i: int| 0 <= i < keys.len() && keys[i] == key
}

/// An index at which `key` occurs in `keys` (the only one when the keys are
/// distinct).
pub open spec fn index_of(keys: Seq<Seq<char>>, key: Seq<char>) -> int {
    choose|i: int| 0 <= i < keys.len() && keys[i] == key
}

/// The map that sends each key of `keys` to the value at the same position.
pub open spec fn map_of<V>(keys: Seq<Seq<char>>, values: Seq<V>) -> Map<Seq<char>, V> {
    Map::new(|k: Seq<char>| has_key(keys, k), |k: Seq<char>| values[index_of(keys, k)])
}

/// With distinct keys, the map holds at `keys[i]` the value `values[i]`.
pub proof fn lemma_map_of_index<V>(keys: Seq<Seq<char>>, values: Seq<V>, i: int)
    requires
        distinct(keys),
        keys.len() == values.len(),
        0 <= i < keys.len(),
    ensures
        has_key(keys, keys[i]),
        index_of(keys, keys[i]) == i,
        map_of(keys, values).contains_key(keys[i]),
        map_of(keys, values)[keys[i]] == values[i],
{
    assert(has_key(keys, keys[i]));
    let j = index_of(keys, keys[i]);
    assert(0 <= j < keys.len() && keys[j] == keys[i]);
    if j < i {
        assert(keys[j] != keys[i]);
    } else if i < j {
        assert(keys[i] != keys[j]);
    }
}

/// Replacing the value at position `i` is an insertion at `keys[i]`.
pub proof fn lemma_map_of_update<V>(keys: Seq<Seq<char>>, values: Seq<V>, i: int, v: V)
    requires
        distinct(keys),
        keys.len() == values.len(),
        0 <= i < keys.len(),
    ensures
        map_of(keys, values.update(i, v)) == map_of(keys, values).insert(keys[i], v),
{
    let a = map_of(keys, values.update(i, v));
    let b = map_of(keys, values).insert(keys[i], v);
    lemma_map_of_index(keys, values, i);
    assert forall|k: Seq<char>| a.contains_key(k) <==> b.contains_key(k) by {}
    assert forall|k: Seq<char>| a.contains_key(k) implies a[k] == b[k] by {
        let j = index_of(keys, k);
        assert(0 <= j < keys.len() && keys[j] == k);
        lemma_map_of_index(keys, values, j);
    }
    assert(a =~= b);
}

/// Appending a key that is not yet present is an insertion.
pub proof fn lemma_map_of_push<V>(keys: Seq<Seq<char>>, values: Seq<V>, key: Seq<char>, v: V)
    requires
        distinct(keys),
        keys.len() == values.len(),
        !has_key(keys, key),
    ensures
        distinct(keys.push(key)),
        map_of(keys.push(key), values.push(v)) == map_of(keys, values).insert(key, v),
{
    let keys2 = keys.push(key);
    let values2 = values.push(v);
    assert forall|i: int, j: int| 0 <= i < j < keys2.len() implies keys2[i] != keys2[j] by {
        if j == keys.len() {
            if keys2[i] == key {
                assert(keys[i] == key);
                assert(has_key(keys, key));
            }
        }
    }
    let a = map_of(keys2, values2);
    let b = map_of(keys, values).insert(key, v);
    assert forall|k: Seq<char>| a.contains_key(k) <==> b.contains_key(k) by {
        if has_key(keys2, k) {
            let j = index_of(keys2, k);
            if j < keys.len() {
                assert(keys[j] == k);
            }
        }
        if has_key(keys, k) {
            let j = index_of(keys, k);
            assert(keys2[j] == k);
        }
        if k == key {
            assert(keys2[keys.len() as int] == k);
        }
    }
    assert forall|k: Seq<char>| a.contains_key(k) implies a[k] == b[k] by {
        let j = index_of(keys2, k);
        lemma_map_of_index(keys2, values2, j);
        if j < keys.len() {
            assert(keys[j] == k);
            lemma_map_of_index(keys, values, j);
        }
    }
    assert(a =~= b);
}

/// Removing position `i` from both sequences removes `keys[i]` from the map.
pub proof fn lemma_map_of_remove<V>(keys: Seq<Seq<char>>, values: Seq<V>, i: int)
    requires
        distinct(keys),
        keys.len() == values.len(),
        0 <= i < keys.len(),
    ensures
        distinct(keys.remove(i)),
        !has_key(keys.remove(i), keys[i]),
        map_of(keys.remove(i), values.remove(i)) == map_of(keys, values).remove(keys[i]),
{
    let keys2 = keys.remove(i);
    let values2 = values.remove(i);
    assert forall|a: int, b: int| 0 <= a < b < keys2.len() implies keys2[a] != keys2[b] by {
        let a1 = if a < i { a } else { a + 1 };
        let b1 = if b < i { b } else { b + 1 };
        assert(keys2[a] == keys[a1] && keys2[b] == keys[b1]);
    }
    if has_key(keys2, keys[i]) {
        let j = index_of(keys2, keys[i]);
        let j1 = if j < i { j } else { j + 1 };
        assert(keys2[j] == keys[j1]);
        if j1 < i {
            assert(keys[j1] != keys[i]);
        } else {
            assert(keys[i] != keys[j1]);
        }
    }
    let m2 = map_of(keys2, values2);
    let m = map_of(keys, values).remove(keys[i]);
    assert forall|k: Seq<char>| m2.contains_key(k) <==> m.contains_key(k) by {
        if has_key(keys2, k) {
            let j = index_of(keys2, k);
            let j1 = if j < i { j } else { j + 1 };
            assert(keys[j1] == k);
        }
        if has_key(keys, k) && k != keys[i] {
            let j = index_of(keys, k);
            let j2 = if j < i { j } else { j - 1 };
            assert(keys2[j2] == k);
        }
    }
    assert forall|k: Seq<char>| m2.contains_key(k) implies m2[k] == m[k] by {
        let j = index_of(keys2, k);
        lemma_map_of_index(keys2, values2, j);
        let j1 = if j < i { j } else { j + 1 };
        assert(keys[j1] == k);
        lemma_map_of_index(keys, values, j1);
    }
    assert(m2 =~= m);
}

/// A small map from channel names to values that keeps its entries in the
/// order in which their keys were first inserted.
pub struct Table<V> {
    keys: Vec<String>,
    values: Vec<V>,
}

impl<V> Table<V> {
    /// The keys, in insertion order.
    pub closed spec fn keys(&self) -> Seq<Seq<char>> {
        Seq::new(self.keys.len() as nat, |i: int| self.keys[i]@)
    }

    /// The values, each at the position of its key.
    pub closed spec fn values(&self) -> Seq<V> {
        self.values@
    }

    /// Every key has one value and no key occurs twice.
    pub open spec fn wf(&self) -> bool {
        &&& self.keys().len() == self.values().len()
        &&& distinct(self.keys())
    }

    /// The table as a map.
    pub open spec fn map(&self) -> Map<Seq<char>, V> {
        map_of(self.keys(), self.values())
    }

    pub fn new() -> (t: Self)
        ensures
            t.wf(),
            t.keys() == Seq::<Seq<char>>::empty(),
            t.values() == Seq::<V>::empty(),
            t.map() == Map::<Seq<char>, V>::empty(),
    {
        let t = Table { keys: Vec::new(), values: Vec::new() };
        assert(t.keys() =~= Seq::<Seq<char>>::empty());
        assert(t.map() =~= Map::<Seq<char>, V>::empty());
        t
    }

    pub fn len(&self) -> (n: usize)
        requires
            self.wf(),
        ensures
            n == self.keys().len(),
    {
        self.keys.len()
    }

    /// The position of `key`, if the table holds it.
    pub fn position(&self, key: &String) -> (r: Option<usize>)
        requires
            self.wf(),
        ensures
            match r {
                Some(i) => i < self.keys().len() && self.keys()[i as int] == key@
                    && self.map().contains_key(key@) && self.map()[key@] == self.values()[i as int],
                None => !self.map().contains_key(key@) && !has_key(self.keys(), key@),
            },
    {
        let mut i: usize = 0;
        while i < self.keys.len()
            invariant
                self.wf(),
                i <= self.keys.len(),
                forall|j: int| 0 <= j < i ==> self.keys()[j] != key@,
            decreases self.keys.len() - i,
        {
            if self.keys[i] == *key {
                proof {
                    lemma_map_of_index(self.keys(), self.values(), i as int);
                }
                return Some(i);
            }
            i += 1;
        }
        None
    }

    pub fn key_at(&self, i: usize) -> (k: &String)
        requires
            self.wf(),
            i < self.keys().len(),
        ensures
            k@ == self.keys()[i as int],
    {
        &self.keys[i]
    }

    pub fn value_at(&self, i: usize) -> (v: &V)
        requires
            self.wf(),
            i < self.keys().len(),
        ensures
            *v == self.values()[i as int],
    {
        &self.values[i]
    }

    /// Mutable access to the value at position `i`.
    pub fn value_mut(&mut self, i: usize) -> (v: &mut V)
        requires
            old(self).wf(),
            i < old(self).keys().len(),
        ensures
            *v == old(self).values()[i as int],
            final(self).keys() == old(self).keys(),
            final(self).values() == old(self).values().update(i as int, *final(v)),
            final(self).wf(),
    {
        &mut self.values[i]
    }

    /// Sets the value of `key`, adding the key at the end if it is new.
    pub fn insert(&mut self, key: String, value: V)
        requires
            old(self).wf(),
        ensures
            final(self).wf(),
            final(self).map() == old(self).map().insert(key@, value),
            has_key(old(self).keys(), key@) ==> final(self).keys() == old(self).keys()
                && final(self).values() == old(self).values().update(
                index_of(old(self).keys(), key@),
                value,
            ),
            !has_key(old(self).keys(), key@) ==> final(self).keys() == old(self).keys().push(key@)
                && final(self).values() == old(self).values().push(value),
    {
        match self.position(&key) {
            Some(i) => {
                proof {
                    lemma_map_of_update(self.keys(), self.values(), i as int, value);
                    lemma_map_of_index(self.keys(), self.values(), i as int);
                }
                self.values.set(i, value);
                assert(self.keys() =~= old(self).keys());
            },
            None => {
                proof {
                    lemma_map_of_push(self.keys(), self.values(), key@, value);
                }
                self.keys.push(key);
                self.values.push(value);
                assert(self.keys() =~= old(self).keys().push(key@));
            },
        }
    }

    /// Removes `key` and its value, if present.
    pub fn remove(&mut self, key: &String)
        requires
            old(self).wf(),
        ensures
            final(self).wf(),
            final(self).map() == old(self).map().remove(key@),
            has_key(old(self).keys(), key@) ==> final(self).keys() == old(self).keys().remove(
                index_of(old(self).keys(), key@),
            ) && final(self).values() == old(self).values().remove(
                index_of(old(self).keys(), key@),
            ),
            !has_key(old(self).keys(), key@) ==> final(self).keys() == old(self).keys()
                && final(self).values() == old(self).values(),
    {
        match self.position(key) {
            Some(i) => {
                proof {
                    lemma_map_of_remove(self.keys(), self.values(), i as int);
                    lemma_map_of_index(self.keys(), self.values(), i as int);
                }
                self.keys.remove(i);
                self.values.remove(i);
                assert(self.keys() =~= old(self).keys().remove(i as int));
            },
            None => {
                assert(self.map() =~= old(self).map().remove(key@));
            },
        }
    }
}

} // verus!
