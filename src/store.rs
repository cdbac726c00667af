//! The key/value stores that hold the computed terms of a sequence.
use vstd::prelude::*;

use crate::term::{i64_to_decimal, signed_decimal, Term};
use std::collections::HashMap;

verus! {

broadcast use vstd::std_specs::hash::group_hash_axioms;

/// A store of terms keyed by their index.
///
/// `cache` is what the store holds. `faithful` says that the store behaves
/// as that map: a `get` or `contains_key` that succeeds reports it, a `set`
/// that succeeds records its term, and nothing else changes it. `reliable`
/// says that none of its operations fails.
///
/// A store over another service (a networked key/value store, whose
/// contents other processes may change) is neither faithful nor reliable:
/// an implementation outside this library that does not define the three
/// is taken as such, and its operations are then promised nothing but
/// that they return.
pub trait Store {
    closed spec fn cache(&self) -> Map<int, nat> {
        Map::empty()
    }

    closed spec fn faithful(&self) -> bool {
        false
    }

    closed spec fn reliable(&self) -> bool {
        false
    }

    /// The term at `key`, if the store holds one.
    fn get(&mut self, key: i64) -> (r: Result<Option<Term>, String>)
        ensures
            final(self).faithful() == old(self).faithful(),
            final(self).reliable() == old(self).reliable(),
            old(self).reliable() ==> r is Ok,
            old(self).faithful() ==> {
                &&& final(self).cache() == old(self).cache()
                &&& r matches Ok(o) ==> (o is Some <==> old(self).cache().contains_key(key as int))
                &&& r matches Ok(Some(t)) ==> t@ == old(self).cache()[key as int]
            },
    ;

    /// Records `value` at `key`, replacing what was there.
    fn set(&mut self, key: i64, value: &Term) -> (r: Result<(), String>)
        ensures
            final(self).faithful() == old(self).faithful(),
            final(self).reliable() == old(self).reliable(),
            old(self).reliable() ==> r is Ok,
            old(self).faithful() ==> {
                &&& r is Ok ==> final(self).cache() == old(self).cache().insert(key as int, value@)
                &&& r is Err ==> final(self).cache() == old(self).cache() || final(self).cache()
                    == old(self).cache().insert(key as int, value@)
            },
    ;

    /// Whether the store holds a term at `key`.
    fn contains_key(&mut self, key: i64) -> (r: Result<bool, String>)
        ensures
            final(self).faithful() == old(self).faithful(),
            final(self).reliable() == old(self).reliable(),
            old(self).reliable() ==> r is Ok,
            old(self).faithful() ==> {
                &&& final(self).cache() == old(self).cache()
                &&& r matches Ok(b) ==> b == old(self).cache().contains_key(key as int)
            },
    ;
}

/// A store in the memory of this process; none of its operations fails.
pub struct HashMapStore {
    store: HashMap<i64, Term>,
}

impl HashMapStore {
    /// An empty store.
    pub fn new() -> (r: HashMapStore)
        ensures
            r.cache() == Map::<int, nat>::empty(),
            r.faithful(),
            r.reliable(),
    {
        let r = HashMapStore { store: HashMap::new() };
        proof {
            assert(r.cache() =~= Map::<int, nat>::empty());
        }
        r
    }
}

impl Store for HashMapStore {
    closed spec fn cache(&self) -> Map<int, nat> {
        Map::new(
            |k: int| i64::MIN <= k <= i64::MAX && self.store@.contains_key(k as i64),
            |k: int| self.store@[k as i64]@,
        )
    }

    open spec fn faithful(&self) -> bool {
        true
    }

    open spec fn reliable(&self) -> bool {
        true
    }

    fn get(&mut self, key: i64) -> (r: Result<Option<Term>, String>) {
        match self.store.get(&key) {
            Some(t) => Ok(Some(t.duplicate())),
            None => Ok(None),
        }
    }

    fn set(&mut self, key: i64, value: &Term) -> (r: Result<(), String>) {
        let ghost before = self.cache();
        self.store.insert(key, value.duplicate());
        proof {
            assert(self.cache() =~= before.insert(key as int, value@));
        }
        Ok(())
    }

    fn contains_key(&mut self, key: i64) -> (r: Result<bool, String>) {
        Ok(self.store.contains_key(&key))
    }
}

/// A boxed store is the store it holds.
impl<T: Store + ?Sized> Store for Box<T> {
    open spec fn cache(&self) -> Map<int, nat> {
        (**self).cache()
    }

    open spec fn faithful(&self) -> bool {
        (**self).faithful()
    }

    open spec fn reliable(&self) -> bool {
        (**self).reliable()
    }

    fn get(&mut self, key: i64) -> (r: Result<Option<Term>, String>) {
        (**self).get(key)
    }

    fn set(&mut self, key: i64, value: &Term) -> (r: Result<(), String>) {
        (**self).set(key, value)
    }

    fn contains_key(&mut self, key: i64) -> (r: Result<bool, String>) {
        (**self).contains_key(key)
    }
}

/// The key under which a networked store keeps the term at `key`: the
/// store's prefix, a colon, and the index in decimal.
pub fn store_key(prefix: &str, key: i64) -> (r: String)
    ensures
        r@ == prefix@ + ":"@ + signed_decimal(key as int),
{
    let mut r = String::from_str(prefix);
    r.append(":");
    let digits = i64_to_decimal(key);
    r.append(digits.as_str());
    proof {
        reveal_strlit(":");
    }
    r
}

} // verus!
