//! The cache type: a capacity-bounded key-value store with
//! least-recently-used eviction.

use vstd::prelude::*;
use crate::text::decimal;
use crate::text::joined_keys;
use crate::text::push_decimal;
use crate::text::render;

verus! {

// ---------------------------------------------------------------------------
// The mathematical model.
//
// A cache state is a sequence of (key, value) pairs in recency order:
// index 0 is the least-recently-used entry (the next eviction candidate),
// the last index is the most-recently-used entry. Keys are modelled by
// their character sequences and are pairwise distinct.
// ---------------------------------------------------------------------------

/// Does the state hold an entry for key `k`?
pub open spec fn has_key<V>(s: Seq<(Seq<char>, V)>, k: Seq<char>) -> bool {
    exists|i: int| 0 <= i < s.len() && s[i].0 == k
}

/// The position of key `k` in the state (unique when keys are distinct).
pub open spec fn key_index<V>(s: Seq<(Seq<char>, V)>, k: Seq<char>) -> int {
    choose|i: int| 0 <= i < s.len() && s[i].0 == k
}

/// The value stored under key `k`.
pub open spec fn value_of<V>(s: Seq<(Seq<char>, V)>, k: Seq<char>) -> V {
    s[key_index(s, k)].1
}

/// No key occurs twice.
pub open spec fn distinct_keys<V>(s: Seq<(Seq<char>, V)>) -> bool {
    forall|i: int, j: int| 0 <= i < j < s.len() ==> s[i].0 != s[j].0
}

/// The state with the entry for `k` removed (unchanged when `k` is absent).
pub open spec fn without_key<V>(s: Seq<(Seq<char>, V)>, k: Seq<char>) -> Seq<(Seq<char>, V)> {
    if has_key(s, k) {
        s.remove(key_index(s, k))
    } else {
        s
    }
}

/// The state after `k` was bound to `v` and made most-recently-used.
pub open spec fn refreshed<V>(s: Seq<(Seq<char>, V)>, k: Seq<char>, v: V) -> Seq<(Seq<char>, V)> {
    without_key(s, k).push((k, v))
}

/// The state transition of `put` on a cache of capacity `cap`.
///
/// A zero-capacity cache retains nothing: `put` leaves it unchanged.
/// Otherwise an existing key is rebound and refreshed; a new key is
/// appended, after evicting the least-recently-used entry if the cache
/// is full.
pub open spec fn put_model<V>(
    s: Seq<(Seq<char>, V)>,
    cap: nat,
    k: Seq<char>,
    v: V,
) -> Seq<(Seq<char>, V)> {
    if cap == 0 {
        s
    } else if has_key(s, k) {
        refreshed(s, k, v)
    } else if s.len() >= cap {
        s.drop_first().push((k, v))
    } else {
        s.push((k, v))
    }
}

// ---------------------------------------------------------------------------
// Lemmas about the model.
// ---------------------------------------------------------------------------

/// With distinct keys, an index holding key `k` is the unique one.
pub proof fn lemma_key_index<V>(s: Seq<(Seq<char>, V)>, k: Seq<char>, i: int)
    requires
        distinct_keys(s),
        0 <= i < s.len(),
        s[i].0 == k,
    ensures
        has_key(s, k),
        key_index(s, k) == i,
{
    assert(has_key(s, k));
    let j: int = key_index(s, k);
    if j < i {
        assert(s[j].0 != s[i].0);
    } else if j > i {
        assert(s[i].0 != s[j].0);
    }
}

/// Removing one entry keeps the remaining keys distinct; the entry's key
/// disappears, every other entry survives, shifted at most one slot.
pub proof fn lemma_remove_distinct<V>(s: Seq<(Seq<char>, V)>, i: int)
    requires
        distinct_keys(s),
        0 <= i < s.len(),
    ensures
        distinct_keys(s.remove(i)),
        forall|j: int|
            0 <= j < s.len() - 1 ==> #[trigger] s.remove(i)[j] == (if j < i {
                s[j]
            } else {
                s[j + 1]
            }),
        !has_key(s.remove(i), s[i].0),
        forall|k2: Seq<char>| has_key(s.remove(i), k2) ==> has_key(s, k2),
{
    let t = s.remove(i);
    assert forall|j: int| 0 <= j < s.len() - 1 implies #[trigger] t[j] == (if j < i {
        s[j]
    } else {
        s[j + 1]
    }) by {
        assert(t == s.subrange(0, i) + s.subrange(i + 1, s.len() as int));
    }
    assert forall|j: int| 0 <= j < t.len() implies #[trigger] t[j].0 != s[i].0 by {
        if j < i {
            assert(s[j].0 != s[i].0);
        } else {
            assert(s[i].0 != s[j + 1].0);
        }
    }
    assert forall|k2: Seq<char>| has_key(t, k2) implies has_key(s, k2) by {
        let j: int = choose|j: int| 0 <= j < t.len() && t[j].0 == k2;
        if j < i {
            assert(s[j].0 == k2);
        } else {
            assert(s[j + 1].0 == k2);
        }
    }
}

/// Appending a fresh key keeps the keys distinct.
pub proof fn lemma_distinct_push<V>(s: Seq<(Seq<char>, V)>, k: Seq<char>, v: V)
    requires
        distinct_keys(s),
        !has_key(s, k),
    ensures
        distinct_keys(s.push((k, v))),
{
    let t = s.push((k, v));
    assert forall|i: int, j: int| 0 <= i < j < t.len() implies t[i].0 != t[j].0 by {
        if j < s.len() {
            assert(s[i].0 != s[j].0);
        } else {
            assert(t[i].0 == s[i].0);
            assert(!(0 <= i < s.len() && s[i].0 == k));
        }
    }
}

/// What removing a key leaves behind: distinct keys, the key gone, the
/// length reduced exactly when the key was present.
pub proof fn lemma_without_key<V>(s: Seq<(Seq<char>, V)>, k: Seq<char>)
    requires
        distinct_keys(s),
    ensures
        distinct_keys(without_key(s, k)),
        !has_key(without_key(s, k), k),
        has_key(s, k) ==> without_key(s, k).len() == s.len() - 1,
        !has_key(s, k) ==> without_key(s, k) == s,
{
    if has_key(s, k) {
        let i: int = key_index(s, k);
        assert(0 <= i < s.len() && s[i].0 == k);
        lemma_remove_distinct(s, i);
    }
}

/// Rebinding a key yields distinct keys, makes the key most-recently-used
/// with the new value, and keeps the length unless the key was absent.
pub proof fn lemma_refreshed<V>(s: Seq<(Seq<char>, V)>, k: Seq<char>, v: V)
    requires
        distinct_keys(s),
    ensures
        distinct_keys(refreshed(s, k, v)),
        refreshed(s, k, v).last() == (k, v),
        has_key(refreshed(s, k, v), k),
        value_of(refreshed(s, k, v), k) == v,
        has_key(s, k) ==> refreshed(s, k, v).len() == s.len(),
        !has_key(s, k) ==> refreshed(s, k, v).len() == s.len() + 1,
{
    lemma_without_key(s, k);
    let w = without_key(s, k);
    lemma_distinct_push(w, k, v);
    let t = w.push((k, v));
    lemma_key_index(t, k, w.len() as int);
}

/// `put` preserves well-formedness of the model, and with a positive
/// capacity it always leaves the touched key most-recently-used with the
/// value just stored.
pub proof fn lemma_put_model_wf<V>(s: Seq<(Seq<char>, V)>, cap: nat, k: Seq<char>, v: V)
    requires
        distinct_keys(s),
        s.len() <= cap,
    ensures
        distinct_keys(put_model(s, cap, k, v)),
        put_model(s, cap, k, v).len() <= cap,
        cap > 0 ==> put_model(s, cap, k, v).last() == (k, v),
        cap > 0 ==> has_key(put_model(s, cap, k, v), k),
        cap > 0 ==> value_of(put_model(s, cap, k, v), k) == v,
        has_key(s, k) ==> put_model(s, cap, k, v).len() == s.len(),
{
    if cap == 0 {
    } else if has_key(s, k) {
        lemma_refreshed(s, k, v);
    } else if s.len() >= cap {
        let d = s.drop_first();
        assert(distinct_keys(d)) by {
            assert forall|i: int, j: int| 0 <= i < j < d.len() implies d[i].0 != d[j].0 by {
                assert(s[i + 1].0 != s[j + 1].0);
            }
        }
        assert(!has_key(d, k)) by {
            if has_key(d, k) {
                let i: int = choose|i: int| 0 <= i < d.len() && d[i].0 == k;
                assert(s[i + 1].0 == k);
            }
        }
        lemma_distinct_push(d, k, v);
        let t = d.push((k, v));
        lemma_key_index(t, k, d.len() as int);
    } else {
        lemma_distinct_push(s, k, v);
        let t = s.push((k, v));
        lemma_key_index(t, k, s.len() as int);
    }
}

// ---------------------------------------------------------------------------
// The cache itself.
// ---------------------------------------------------------------------------

/// A bounded key-value cache that evicts the least-recently-used entry
/// when an insertion would exceed its capacity.
///
/// The entries are kept in recency order: the first is the next eviction
/// candidate, the last is the most-recently-used. Both `put` and a
/// successful `get` move the touched key to the most-recently-used end.
pub struct Cache<V> {
    capacity: usize,
    entries: Vec<(String, V)>,
}

impl<V> Cache<V> {
    /// The abstract state: stored pairs in recency order, keys as
    /// character sequences.
    pub closed spec fn view(&self) -> Seq<(Seq<char>, V)> {
        Seq::new(self.entries@.len(), |i: int| (self.entries@[i].0@, self.entries@[i].1))
    }

    /// The fixed capacity the cache was constructed with.
    pub closed spec fn capacity_spec(&self) -> nat {
        self.capacity as nat
    }

    /// The recency order of the stored keys, least-recently-used first.
    pub open spec fn order(&self) -> Seq<Seq<char>> {
        Seq::new(self@.len(), |i: int| self@[i].0)
    }

    /// The lookup table: each stored key mapped to its value.
    pub open spec fn table(&self) -> Map<Seq<char>, V> {
        Map::new(|k: Seq<char>| has_key(self@, k), |k: Seq<char>| value_of(self@, k))
    }

    /// Well-formedness: keys are distinct and the size never exceeds the
    /// capacity. Constructors establish it and every operation preserves it.
    pub open spec fn wf(&self) -> bool {
        &&& distinct_keys(self@)
        &&& self@.len() <= self.capacity_spec()
    }

    /// Creates an empty cache with the given fixed capacity.
    pub fn new(capacity: usize) -> (c: Cache<V>)
        ensures
            c.wf(),
            c@ == Seq::<(Seq<char>, V)>::empty(),
            c.capacity_spec() == capacity,
    {
        let c = Cache { capacity, entries: Vec::new() };
        proof {
            assert(c@ =~= Seq::<(Seq<char>, V)>::empty());
        }
        c
    }

    /// The number of entries currently stored; never above the capacity.
    pub fn len(&self) -> (n: usize)
        requires
            self.wf(),
        ensures
            n == self@.len(),
            n <= self.capacity_spec(),
    {
        self.entries.len()
    }

    /// The position of `key` among the entries, when it is stored.
    fn find_index(&self, key: &String) -> (r: Option<usize>)
        ensures
            match r {
                Some(i) => 0 <= i < self@.len() && self@[i as int].0 == key@,
                None => !has_key(self@, key@),
            },
    {
        let n: usize = self.entries.len();
        let mut i: usize = 0;
        while i < n
            invariant
                n == self.entries.len(),
                i <= n,
                forall|j: int| 0 <= j < i ==> self@[j].0 != key@,
            decreases n - i,
        {
            if self.entries[i].0 == *key {
                return Some(i);
            }
            i = i + 1;
        }
        None
    }

    /// Inserts `value` under `key` and makes `key` the most-recently-used.
    ///
    /// An existing key is rebound without changing the size; a new key is
    /// appended, after the least-recently-used entry was evicted if the
    /// cache was full. On a zero-capacity cache `put` is a no-op: such a
    /// cache retains nothing.
    pub fn put(&mut self, key: String, value: V)
        requires
            old(self).wf(),
        ensures
            final(self).wf(),
            final(self).capacity_spec() == old(self).capacity_spec(),
            final(self)@ == put_model(old(self)@, old(self).capacity_spec(), key@, value),
            old(self).capacity_spec() > 0 ==> final(self)@.last() == (key@, value),
            has_key(old(self)@, key@) ==> final(self)@.len() == old(self)@.len(),
    {
        proof {
            lemma_put_model_wf(old(self)@, old(self).capacity_spec(), key@, value);
        }
        if self.capacity == 0 {
            return;
        }
        match self.find_index(&key) {
            Some(i) => {
                proof {
                    lemma_key_index(old(self)@, key@, i as int);
                }
                let _ = self.entries.remove(i);
                proof {
                    assert(self@ =~= without_key(old(self)@, key@));
                }
            },
            None => {
                if self.entries.len() == self.capacity {
                    let _ = self.entries.remove(0);
                    proof {
                        assert(self@ =~= old(self)@.drop_first());
                    }
                }
            },
        }
        self.entries.push((key, value));
        proof {
            assert(self@ =~= put_model(old(self)@, old(self).capacity_spec(), key@, value));
        }
    }

    /// Returns the value stored under `key` and makes `key` the
    /// most-recently-used; a miss returns nothing and changes nothing.
    /// A successful read counts as a use: it refreshes the key's recency.
    pub fn get<'a>(&'a mut self, key: &String) -> (r: Option<&'a V>)
        requires
            old(self).wf(),
        ensures
            final(self).wf(),
            final(self).capacity_spec() == old(self).capacity_spec(),
            has_key(old(self)@, key@) ==> (r matches Some(v) && *v == value_of(
                old(self)@,
                key@,
            )),
            has_key(old(self)@, key@) ==> final(self)@ == refreshed(
                old(self)@,
                key@,
                value_of(old(self)@, key@),
            ),
            has_key(old(self)@, key@) ==> final(self)@.len() == old(self)@.len()
                && final(self)@.last().0 == key@,
            !has_key(old(self)@, key@) ==> r is None && final(self)@ == old(self)@,
    {
        let i: usize = match self.find_index(key) {
            Some(i) => i,
            None => {
                return None;
            },
        };
        proof {
            lemma_key_index(old(self)@, key@, i as int);
            lemma_refreshed(old(self)@, key@, value_of(old(self)@, key@));
        }
        let e = self.entries.remove(i);
        proof {
            assert(self@ =~= without_key(old(self)@, key@));
        }
        self.entries.push(e);
        proof {
            assert(self@ =~= refreshed(old(self)@, key@, value_of(old(self)@, key@)));
        }
        let n: usize = self.entries.len();
        Some(&self.entries[n - 1].1)
    }

    /// Removes the entry stored under `key` and returns its value; a miss
    /// returns nothing and changes nothing.
    pub fn remove(&mut self, key: &String) -> (r: Option<V>)
        requires
            old(self).wf(),
        ensures
            final(self).wf(),
            final(self).capacity_spec() == old(self).capacity_spec(),
            has_key(old(self)@, key@) ==> (r matches Some(v) && v == value_of(old(self)@, key@)),
            has_key(old(self)@, key@) ==> final(self)@ == without_key(old(self)@, key@),
            !has_key(old(self)@, key@) ==> r is None && final(self)@ == old(self)@,
    {
        match self.find_index(key) {
            Some(i) => {
                proof {
                    lemma_key_index(old(self)@, key@, i as int);
                    lemma_without_key(old(self)@, key@);
                }
                let e = self.entries.remove(i);
                proof {
                    assert(self@ =~= without_key(old(self)@, key@));
                }
                Some(e.1)
            },
            None => None,
        }
    }

    /// Empties the cache; the capacity is retained. Clearing an already
    /// empty cache leaves it empty: the outcome does not depend on the
    /// prior contents.
    pub fn clear(&mut self)
        ensures
            final(self).wf(),
            final(self)@ == Seq::<(Seq<char>, V)>::empty(),
            final(self).capacity_spec() == old(self).capacity_spec(),
    {
        self.entries.clear();
        proof {
            assert(self@ =~= Seq::<(Seq<char>, V)>::empty());
        }
    }

    /// Whether the cache holds no entry at all.
    pub fn is_empty(&self) -> (r: bool)
        ensures
            r == (self@.len() == 0),
    {
        self.entries.is_empty()
    }

    /// A diagnostic line naming the capacity and the stored keys in
    /// recency order, least-recently-used first.
    pub fn describe(&self) -> (out: String)
        ensures
            out@ == render(self.capacity_spec(), self.order()),
    {
        let ghost head = ("Cache [Capacity: ")@ + decimal(self.capacity_spec()) + (", Keys: [")@;
        let mut out = String::new();
        out.push_str("Cache [Capacity: ");
        push_decimal(&mut out, self.capacity);
        out.push_str(", Keys: [");
        proof {
            assert(out@ =~= head + joined_keys(self.order().take(0)));
        }
        let n: usize = self.entries.len();
        let mut i: usize = 0;
        while i < n
            invariant
                n == self.entries.len(),
                i <= n,
                out@ == head + joined_keys(self.order().take(i as int)),
            decreases n - i,
        {
            out.push_str(self.entries[i].0.as_str());
            out.push_str(", ");
            proof {
                let taken = self.order().take(i + 1);
                assert(taken.drop_last() =~= self.order().take(i as int));
                assert(taken.last() == self@[i as int].0);
                assert(out@ =~= head + joined_keys(taken));
            }
            i = i + 1;
        }
        out.push_str("]]");
        proof {
            assert(self.order().take(n as int) =~= self.order());
            assert(out@ =~= render(self.capacity_spec(), self.order()));
        }
        out
    }
}

} // verus!
