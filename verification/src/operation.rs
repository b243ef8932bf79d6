//! The capability set of a recency-tracked bounded cache, as a trait, so
//! that another eviction policy could serve the same callers.

use vstd::prelude::*;
use crate::cache::Cache;
use crate::cache::has_key;
use crate::cache::put_model;
use crate::cache::refreshed;
use crate::cache::value_of;
use crate::cache::without_key;

verus! {

/// The operations of a bounded cache whose contents form a recency-ordered
/// sequence of key-value pairs, least-recently-used first.
pub trait CacheOperations<V>: Sized {
    /// The stored pairs in recency order.
    spec fn contents(&self) -> Seq<(Seq<char>, V)>;

    /// The fixed bound on the number of stored pairs.
    spec fn bound(&self) -> nat;

    /// The implementation's internal consistency.
    spec fn inv(&self) -> bool;

    /// Binds `value` to `key` as the most-recently-used entry, evicting
    /// the least-recently-used entry if the cache was full; a no-op when
    /// the bound is zero.
    fn put(&mut self, key: String, value: V)
        requires
            old(self).inv(),
        ensures
            final(self).inv(),
            final(self).bound() == old(self).bound(),
            final(self).contents() == put_model(
                old(self).contents(),
                old(self).bound(),
                key@,
                value,
            ),
    ;

    /// Returns the value stored under `key`, refreshing the key's
    /// recency; a miss returns nothing and changes nothing.
    fn get<'a>(&'a mut self, key: &String) -> (r: Option<&'a V>)
        requires
            old(self).inv(),
        ensures
            final(self).inv(),
            final(self).bound() == old(self).bound(),
            has_key(old(self).contents(), key@) ==> (r matches Some(v) && *v == value_of(
                old(self).contents(),
                key@,
            )),
            has_key(old(self).contents(), key@) ==> final(self).contents() == refreshed(
                old(self).contents(),
                key@,
                value_of(old(self).contents(), key@),
            ),
            !has_key(old(self).contents(), key@) ==> r is None && final(self).contents() == old(
                self,
            ).contents(),
    ;

    /// Removes the entry stored under `key` and returns its value; a miss
    /// returns nothing and changes nothing.
    fn remove(&mut self, key: &String) -> (r: Option<V>)
        requires
            old(self).inv(),
        ensures
            final(self).inv(),
            final(self).bound() == old(self).bound(),
            has_key(old(self).contents(), key@) ==> (r matches Some(v) && v == value_of(
                old(self).contents(),
                key@,
            )) && final(self).contents() == without_key(old(self).contents(), key@),
            !has_key(old(self).contents(), key@) ==> r is None && final(self).contents() == old(
                self,
            ).contents(),
    ;

    /// Empties the cache; the bound is retained.
    fn clear(&mut self)
        ensures
            final(self).inv(),
            final(self).bound() == old(self).bound(),
            final(self).contents() == Seq::<(Seq<char>, V)>::empty(),
    ;
}

impl<V> CacheOperations<V> for Cache<V> {
    open spec fn contents(&self) -> Seq<(Seq<char>, V)> {
        self@
    }

    open spec fn bound(&self) -> nat {
        self.capacity_spec()
    }

    open spec fn inv(&self) -> bool {
        self.wf()
    }

    fn put(&mut self, key: String, value: V) {
        self.put(key, value)
    }

    fn get<'a>(&'a mut self, key: &String) -> (r: Option<&'a V>) {
        self.get(key)
    }

    fn remove(&mut self, key: &String) -> (r: Option<V>) {
        self.remove(key)
    }

    fn clear(&mut self) {
        self.clear()
    }
}

} // verus!
