//! Laws of the cache, stated over the sequence model and proved once for
//! every sequence of operations.

use vstd::prelude::*;
use crate::cache::Cache;
use crate::cache::distinct_keys;
use crate::cache::has_key;
use crate::cache::key_index;
use crate::cache::lemma_put_model_wf;
use crate::cache::put_model;
use crate::cache::value_of;

verus! {

/// Invariant: a well-formed cache never holds more entries than its
/// capacity, its keys are pairwise distinct, and the lookup table and the
/// recency order agree on exactly the stored keys.
pub proof fn lemma_cache_invariant<V>(c: Cache<V>)
    requires
        c.wf(),
    ensures
        c@.len() <= c.capacity_spec(),
        distinct_keys(c@),
        c.order().len() == c@.len(),
        forall|k: Seq<char>| #[trigger] c.table().contains_key(k) <==> c.order().contains(k),
{
    assert forall|k: Seq<char>| #[trigger] c.table().contains_key(k) <==> c.order().contains(
        k,
    ) by {
        if has_key(c@, k) {
            let i: int = key_index(c@, k);
            assert(c.order()[i] == k);
        }
        if c.order().contains(k) {
            let i: int = choose|i: int| 0 <= i < c.order().len() && c.order()[i] == k;
            assert(c@[i].0 == k);
        }
    }
}

/// Recency: while any other key is stored, the most-recently-used key (the
/// back of the order) is never the eviction candidate (the front).
/// Together with the `put` and `get` contracts, which make the touched key
/// the back of the order, a key just written or just read survives the
/// next eviction whenever another key is present.
pub proof fn lemma_mru_not_evicted<V>(c: Cache<V>)
    requires
        c.wf(),
        c@.len() >= 2,
    ensures
        c@.first().0 != c@.last().0,
{
    assert(c@[0].0 != c@[c@.len() - 1].0);
}

/// Eviction: putting an absent key into a full cache removes exactly the
/// least-recently-used entry; every other entry keeps its key and value,
/// shifted one slot toward the front, and the new key becomes the
/// most-recently-used.
pub proof fn lemma_eviction<V>(s: Seq<(Seq<char>, V)>, cap: nat, k: Seq<char>, v: V)
    requires
        distinct_keys(s),
        cap > 0,
        s.len() == cap,
        !has_key(s, k),
    ensures
        ({
            let t = put_model(s, cap, k, v);
            &&& t.len() == s.len()
            &&& !has_key(t, s.first().0)
            &&& forall|j: int| 1 <= j < s.len() ==> #[trigger] t[j - 1] == s[j]
            &&& t.last() == (k, v)
        }),
{
    let t = put_model(s, cap, k, v);
    assert(t == s.drop_first().push((k, v)));
    assert forall|j: int| 1 <= j < s.len() implies #[trigger] t[j - 1] == s[j] by {
        assert(s.drop_first()[j - 1] == s[j]);
    }
    assert forall|j: int| 0 <= j < t.len() implies #[trigger] t[j].0 != s.first().0 by {
        if j < t.len() - 1 {
            assert(t[j] == s[j + 1]);
            assert(s[0].0 != s[j + 1].0);
        } else {
            assert(t[j].0 == k);
            assert(!(0 <= 0 < s.len() && s[0].0 == k));
        }
    }
}

/// Overwrite: a second `put` of the same key changes no length and stores
/// the second value; a later `get` of the key returns it.
pub proof fn lemma_overwrite<V>(s: Seq<(Seq<char>, V)>, cap: nat, k: Seq<char>, v1: V, v2: V)
    requires
        distinct_keys(s),
        s.len() <= cap,
        cap > 0,
    ensures
        ({
            let t1 = put_model(s, cap, k, v1);
            let t2 = put_model(t1, cap, k, v2);
            &&& t2.len() == t1.len()
            &&& has_key(t2, k)
            &&& value_of(t2, k) == v2
        }),
{
    lemma_put_model_wf(s, cap, k, v1);
    let t1 = put_model(s, cap, k, v1);
    lemma_put_model_wf(t1, cap, k, v2);
}

/// Zero capacity: a cache of capacity zero retains nothing; `put` leaves
/// it empty and the key is not found afterwards.
pub proof fn lemma_zero_capacity<V>(s: Seq<(Seq<char>, V)>, k: Seq<char>, v: V)
    requires
        s.len() == 0,
    ensures
        put_model(s, 0, k, v).len() == 0,
        !has_key(put_model(s, 0, k, v), k),
{
}

} // verus!
