//! Per-message extension stores: values attached to a request or response by
//! middleware and handlers, each under a key the two sides agree on.
use vstd::prelude::*;
use std::collections::HashMap;

verus! {

broadcast use vstd::std_specs::hash::group_hash_axioms;

/// A map from keys to owned byte values.
#[derive(Debug)]
pub struct Anymap {
    map: HashMap<u64, Vec<u8>>,
}

impl Anymap {
    pub closed spec fn view(&self) -> Map<u64, Seq<u8>> {
        self.map@.map_values(|v: Vec<u8>| v@)
    }

    pub fn new() -> (r: Self)
        ensures
            r@ == Map::<u64, Seq<u8>>::empty(),
    {
        let r = Anymap { map: HashMap::new() };
        assert(r@ =~= Map::<u64, Seq<u8>>::empty());
        r
    }

    pub fn with_capacity(capacity: usize) -> (r: Self)
        ensures
            r@ == Map::<u64, Seq<u8>>::empty(),
    {
        let r = Anymap { map: HashMap::with_capacity(capacity) };
        assert(r@ =~= Map::<u64, Seq<u8>>::empty());
        r
    }

    /// The value under `key`.
    pub fn get(&self, key: u64) -> (r: Option<&Vec<u8>>)
        ensures
            match r {
                Some(v) => self@.contains_key(key) && v@ == self@[key],
                None => !self@.contains_key(key),
            },
    {
        self.map.get(&key)
    }

    /// Puts `value` under `key` and returns what was there.
    pub fn insert(&mut self, key: u64, value: Vec<u8>) -> (r: Option<Vec<u8>>)
        ensures
            final(self)@ == old(self)@.insert(key, value@),
            match r {
                Some(v) => old(self)@.contains_key(key) && v@ == old(self)@[key],
                None => !old(self)@.contains_key(key),
            },
    {
        let r = self.map.insert(key, value);
        assert(final(self)@ =~= old(self)@.insert(key, value@));
        r
    }

    /// Takes the value under `key` out.
    pub fn remove(&mut self, key: u64) -> (r: Option<Vec<u8>>)
        ensures
            final(self)@ == old(self)@.remove(key),
            match r {
                Some(v) => old(self)@.contains_key(key) && v@ == old(self)@[key],
                None => !old(self)@.contains_key(key),
            },
    {
        let r = self.map.remove(&key);
        assert(final(self)@ =~= old(self)@.remove(key));
        r
    }
}

/// HTTP Extensions.
#[derive(Debug)]
pub struct Extensions {
    inner: Anymap,
}

impl Extensions {
    pub closed spec fn view(&self) -> Map<u64, Seq<u8>> {
        self.inner@
    }

    pub fn new() -> (r: Self)
        ensures
            r@ == Map::<u64, Seq<u8>>::empty(),
    {
        Extensions { inner: Anymap::new() }
    }

    pub fn with_capacity(capacity: usize) -> (r: Self)
        ensures
            r@ == Map::<u64, Seq<u8>>::empty(),
    {
        Extensions { inner: Anymap::with_capacity(capacity) }
    }

    /// The value under `key`.
    pub fn get(&self, key: u64) -> (r: Option<&Vec<u8>>)
        ensures
            match r {
                Some(v) => self@.contains_key(key) && v@ == self@[key],
                None => !self@.contains_key(key),
            },
    {
        self.inner.get(key)
    }

    /// Puts `value` under `key` and returns what was there.
    pub fn insert(&mut self, key: u64, value: Vec<u8>) -> (r: Option<Vec<u8>>)
        ensures
            final(self)@ == old(self)@.insert(key, value@),
            match r {
                Some(v) => old(self)@.contains_key(key) && v@ == old(self)@[key],
                None => !old(self)@.contains_key(key),
            },
    {
        self.inner.insert(key, value)
    }

    /// Takes the value under `key` out.
    pub fn remove(&mut self, key: u64) -> (r: Option<Vec<u8>>)
        ensures
            final(self)@ == old(self)@.remove(key),
            match r {
                Some(v) => old(self)@.contains_key(key) && v@ == old(self)@[key],
                None => !old(self)@.contains_key(key),
            },
    {
        self.inner.remove(key)
    }
}

} // verus!
