//! Stores keyed by the identity of a value's type.
//!
//! A type's identity is a [`TypeKey`], a number that the caller assigns to
//! each type it stores. A store holds at most one value per key, and a lookup
//! of a key that was never stored says so.

use std::collections::HashMap;
use vstd::prelude::*;

verus! {

/// The identity of a stored value's type.
pub type TypeKey = u64;

/// A mapping from type identity to one value.
#[derive(Debug)]
pub struct TypeMap<V> {
    values: HashMap<TypeKey, V>,
}

impl<V> View for TypeMap<V> {
    type V = Map<TypeKey, V>;

    closed spec fn view(&self) -> Map<TypeKey, V> {
        self.values@
    }
}

impl<V> TypeMap<V> {
    /// An empty store.
    pub fn new() -> (m: TypeMap<V>)
        ensures
            m@ == Map::<TypeKey, V>::empty(),
    {
        TypeMap { values: HashMap::new() }
    }

    /// Stores `value` under `key`, in place of any value stored there
    /// before, which is handed back.
    pub fn insert(&mut self, key: TypeKey, value: V) -> (previous: Option<V>)
        ensures
            final(self)@ == old(self)@.insert(key, value),
            previous == (if old(self)@.contains_key(key) {
                Some(old(self)@[key])
            } else {
                None
            }),
    {
        broadcast use vstd::std_specs::hash::group_hash_axioms;

        self.values.insert(key, value)
    }

    /// The value stored under `key`, if one was stored.
    pub fn get(&self, key: TypeKey) -> (value: Option<&V>)
        ensures
            match value {
                Some(v) => self@.contains_key(key) && *v == self@[key],
                None => !self@.contains_key(key),
            },
    {
        broadcast use vstd::std_specs::hash::group_hash_axioms;

        self.values.get(&key)
    }

    /// Whether a value is stored under `key`.
    pub fn contains(&self, key: TypeKey) -> (held: bool)
        ensures
            held == self@.contains_key(key),
    {
        broadcast use vstd::std_specs::hash::group_hash_axioms;

        self.values.contains_key(&key)
    }

    /// Takes the value stored under `key` out of the store.
    pub fn remove(&mut self, key: TypeKey) -> (taken: Option<V>)
        ensures
            final(self)@ == old(self)@.remove(key),
            taken == (if old(self)@.contains_key(key) {
                Some(old(self)@[key])
            } else {
                None
            }),
    {
        broadcast use vstd::std_specs::hash::group_hash_axioms;

        self.values.remove(&key)
    }

    /// The number of values stored.
    pub fn len(&self) -> (n: usize)
        ensures
            n == self@.len(),
    {
        broadcast use vstd::std_specs::hash::group_hash_axioms;

        self.values.len()
    }
}

} // verus!
