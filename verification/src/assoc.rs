//! Association lists keyed by engine handles.
//!
//! The engine's handles can be compared but not turned into numbers, so the
//! indices over them are lists in which no key occurs twice.

use vstd::prelude::*;
use cassowary::{Constraint, Variable};
use crate::engine::{same_constraint, same_variable};
use crate::seqs::{lemma_remove_is_without, without};

verus! {

/// A handle that can be compared with another of its kind.
pub trait Handle: Sized {
    /// Whether the two handles name the same thing.
    fn same(&self, other: &Self) -> (r: bool)
        ensures
            r == (*self == *other),
    ;
}

impl Handle for Variable {
    fn same(&self, other: &Self) -> (r: bool) {
        same_variable(self, other)
    }
}

impl Handle for Constraint {
    fn same(&self, other: &Self) -> (r: bool) {
        same_constraint(self, other)
    }
}

/// The first position of `key` in `list`, if it occurs there.
pub fn position<K: Handle>(list: &Vec<K>, key: &K) -> (r: Option<usize>)
    ensures
        match r {
            Some(i) => i < list@.len() && list@[i as int] == *key
                && forall|j: int| 0 <= j < i ==> list@[j] != *key,
            None => !list@.contains(*key),
        },
{
    let mut i: usize = 0;
    while i < list.len()
        invariant
            i <= list@.len(),
            forall|j: int| 0 <= j < i ==> list@[j] != *key,
        decreases list@.len() - i,
    {
        if list[i].same(key) {
            return Some(i);
        }
        i += 1;
    }
    None
}

/// Takes `key` out of a list that holds nothing twice.
pub fn remove_value<K: Handle>(list: &mut Vec<K>, key: &K)
    requires
        old(list)@.no_duplicates(),
    ensures
        final(list)@ == without(old(list)@, *key),
{
    match position(list, key) {
        Some(i) => {
            proof {
                lemma_remove_is_without(list@, i as int);
            }
            let _ = list.remove(i);
        },
        None => {},
    }
}

/// A finite map from handles to values, held as two parallel lists.
pub struct AssocList<K, V> {
    keys: Vec<K>,
    values: Vec<V>,
}

impl<K: Handle, V> AssocList<K, V> {
    /// No key occurs twice, and every key has its value.
    pub closed spec fn wf(&self) -> bool {
        &&& self.keys@.len() == self.values@.len()
        &&& self.keys@.no_duplicates()
    }

    /// The map that the list stands for.
    pub closed spec fn view(&self) -> Map<K, V> {
        Map::new(
            |k: K| self.keys@.contains(k),
            |k: K| self.values@[self.keys@.index_of(k)],
        )
    }

    /// The keys, in the order in which the list holds them.
    pub closed spec fn key_seq(&self) -> Seq<K> {
        self.keys@
    }

    /// The keys of the list are those of its map, each once.
    pub proof fn lemma_key_seq(&self)
        requires
            self.wf(),
        ensures
            self.key_seq().no_duplicates(),
            forall|k: K| self.key_seq().contains(k) <==> self@.contains_key(k),
            self@.dom().finite(),
    {
        let keys = self.keys@;
        assert(self@.dom() =~= keys.to_set());
        vstd::seq_lib::seq_to_set_is_finite(keys);
    }

    proof fn lemma_entry(&self, i: int)
        requires
            self.wf(),
            0 <= i < self.keys@.len(),
        ensures
            self@.contains_key(self.keys@[i]),
            self@[self.keys@[i]] == self.values@[i],
    {
        let k = self.keys@[i];
        assert(self.keys@.contains(k));
        let j = self.keys@.index_of(k);
        assert(self.keys@[j] == k);
    }

    /// An empty list.
    pub fn new() -> (r: Self)
        ensures
            r.wf(),
            r@ == Map::<K, V>::empty(),
            r.key_seq() == Seq::<K>::empty(),
    {
        let r = AssocList { keys: Vec::new(), values: Vec::new() };
        assert(r@ =~= Map::<K, V>::empty());
        r
    }

    /// The number of entries.
    pub fn len(&self) -> (r: usize)
        requires
            self.wf(),
        ensures
            r == self.key_seq().len(),
    {
        self.keys.len()
    }

    /// The keys, in the order in which the list holds them.
    pub fn keys(&self) -> (r: &Vec<K>)
        ensures
            r@ == self.key_seq(),
    {
        &self.keys
    }

    /// The key at position `i`.
    pub fn key_at(&self, i: usize) -> (r: &K)
        requires
            self.wf(),
            i < self.key_seq().len(),
        ensures
            *r == self.key_seq()[i as int],
    {
        &self.keys[i]
    }

    /// Whether `key` has a value.
    pub fn contains_key(&self, key: &K) -> (r: bool)
        requires
            self.wf(),
        ensures
            r == self@.contains_key(*key),
    {
        position(&self.keys, key).is_some()
    }

    /// The value of `key`, if it has one.
    pub fn get(&self, key: &K) -> (r: Option<&V>)
        requires
            self.wf(),
        ensures
            match r {
                Some(v) => self@.contains_key(*key) && self@[*key] == *v,
                None => !self@.contains_key(*key),
            },
    {
        match position(&self.keys, key) {
            Some(i) => {
                proof {
                    self.lemma_entry(i as int);
                }
                Some(&self.values[i])
            },
            None => None,
        }
    }

    /// Gives `key` the value `value`, and returns the value it had.
    pub fn insert(&mut self, key: K, value: V) -> (r: Option<V>)
        requires
            old(self).wf(),
        ensures
            final(self).wf(),
            final(self)@ == old(self)@.insert(key, value),
            match r {
                Some(v) => old(self)@.contains_key(key) && old(self)@[key] == v,
                None => !old(self)@.contains_key(key),
            },
    {
        let found = position(&self.keys, &key);
        match found {
            Some(i) => {
                proof {
                    self.lemma_entry(i as int);
                }
                let ghost before = *self;
                let previous = self.values.remove(i);
                self.values.insert(i, value);
                proof {
                    assert(self.keys@ == before.keys@);
                    assert(self.values@ =~= before.values@.update(i as int, value));
                    assert forall|k: K| #[trigger] self@.contains_key(k) implies self@[k]
                        == before@.insert(key, value)[k] by {
                        let j = self.keys@.index_of(k);
                        assert(self.keys@[j] == k);
                        if j == i {
                        } else {
                            assert(k != key);
                        }
                    }
                    assert(self@ =~= before@.insert(key, value));
                }
                Some(previous)
            },
            None => {
                let ghost before = *self;
                self.keys.push(key);
                self.values.push(value);
                proof {
                    let n = before.keys@.len() as int;
                    assert(self.keys@ =~= before.keys@.push(key));
                    assert(self.keys@[n] == key);
                    assert forall|k: K| before.keys@.contains(k) implies self.keys@.contains(k) by {
                        let j = before.keys@.index_of(k);
                        assert(self.keys@[j] == k);
                    }
                    assert forall|k: K| #[trigger] self@.contains_key(k) implies self@[k]
                        == before@.insert(key, value)[k] by {
                        let j = self.keys@.index_of(k);
                        assert(self.keys@[j] == k);
                        if j == n {
                        } else {
                            assert(before.keys@[j] == k);
                            let j0 = before.keys@.index_of(k);
                            assert(before.keys@[j0] == k);
                            assert(self.keys@[j0] == k);
                        }
                    }
                    assert(self@ =~= before@.insert(key, value));
                }
                None
            },
        }
    }

    /// Takes `key` out of the list, and returns the value it had.
    pub fn remove(&mut self, key: &K) -> (r: Option<V>)
        requires
            old(self).wf(),
        ensures
            final(self).wf(),
            final(self)@ == old(self)@.remove(*key),
            match r {
                Some(v) => old(self)@.contains_key(*key) && old(self)@[*key] == v,
                None => !old(self)@.contains_key(*key),
            },
    {
        let found = position(&self.keys, key);
        match found {
            Some(i) => {
                proof {
                    self.lemma_entry(i as int);
                }
                let ghost before = *self;
                let _ = self.keys.remove(i);
                let value = self.values.remove(i);
                proof {
                    assert(self.keys@ =~= before.keys@.remove(i as int));
                    assert(self.values@ =~= before.values@.remove(i as int));
                    assert forall|a: int, b: int|
                        0 <= a < self.keys@.len() && 0 <= b < self.keys@.len() && a != b implies self.keys@[a]
                        != self.keys@[b] by {
                        let a0 = if a < i { a } else { a + 1 };
                        let b0 = if b < i { b } else { b + 1 };
                        assert(self.keys@[a] == before.keys@[a0]);
                        assert(self.keys@[b] == before.keys@[b0]);
                    }
                    assert forall|k: K| self.keys@.contains(k) <==> (before.keys@.contains(k) && k
                        != *key) by {
                        if self.keys@.contains(k) {
                            let a = self.keys@.index_of(k);
                            assert(self.keys@[a] == k);
                            let a0 = if a < i { a } else { a + 1 };
                            assert(before.keys@[a0] == k);
                        }
                        if before.keys@.contains(k) && k != *key {
                            let a0 = before.keys@.index_of(k);
                            assert(before.keys@[a0] == k);
                            let a = if a0 < i { a0 } else { a0 - 1 };
                            assert(self.keys@[a] == k);
                        }
                    }
                    assert forall|k: K| #[trigger] self@.contains_key(k) implies self@[k]
                        == before@[k] by {
                        let a = self.keys@.index_of(k);
                        assert(self.keys@[a] == k);
                        let a0 = if a < i { a } else { a + 1 };
                        assert(before.keys@[a0] == k);
                        before.lemma_entry(a0);
                    }
                    assert(self@ =~= before@.remove(*key));
                }
                Some(value)
            },
            None => {
                proof {
                    assert(self@ =~= self@.remove(*key));
                }
                None
            },
        }
    }
}

} // verus!
