//! The request context: values that the stages of one request hand to one
//! another.

use crate::store::TypeKey;
use crate::store::TypeMap;
use vstd::prelude::*;

verus! {

/// A per-request store, keyed by the identity of a value's type. It is
/// made empty when the request comes in and lives until the response is
/// final.
#[derive(Debug)]
pub struct RequestContext<V> {
    values: TypeMap<V>,
}

impl<V> View for RequestContext<V> {
    type V = Map<TypeKey, V>;

    closed spec fn view(&self) -> Map<TypeKey, V> {
        self.values@
    }
}

impl<V> RequestContext<V> {
    /// An empty context.
    pub fn new() -> (c: RequestContext<V>)
        ensures
            c@ == Map::<TypeKey, V>::empty(),
    {
        RequestContext { values: TypeMap::new() }
    }

    /// Stores `value` under `key`, in place of any value stored there
    /// before, which is handed back.
    pub fn set(&mut self, key: TypeKey, value: V) -> (previous: Option<V>)
        ensures
            final(self)@ == old(self)@.insert(key, value),
            previous == (if old(self)@.contains_key(key) {
                Some(old(self)@[key])
            } else {
                None
            }),
    {
        self.values.insert(key, value)
    }

    /// The value stored under `key`; `None` when none was stored.
    pub fn get(&self, key: TypeKey) -> (value: Option<&V>)
        ensures
            match value {
                Some(v) => self@.contains_key(key) && *v == self@[key],
                None => !self@.contains_key(key),
            },
    {
        self.values.get(key)
    }

    /// Takes the value stored under `key` out of the context.
    pub fn remove(&mut self, key: TypeKey) -> (taken: Option<V>)
        ensures
            final(self)@ == old(self)@.remove(key),
            taken == (if old(self)@.contains_key(key) {
                Some(old(self)@[key])
            } else {
                None
            }),
    {
        self.values.remove(key)
    }

    /// The number of values stored.
    pub fn len(&self) -> (n: usize)
        ensures
            n == self@.len(),
    {
        self.values.len()
    }
}

} // verus!
