//! Laws of the filter, stated and proved over [`FilterModel`], the abstract
//! state that every contract of [`crate::bloom_filter::BloomFilter`] speaks
//! of: no false negatives, determinism of queries, monotonicity of the bit
//! array, emptiness after construction, and idempotence of insertion.

use vstd::prelude::*;

use crate::bloom_filter::FilterModel;

verus! {

/// The state after adding every key of `keys`, in order.
pub open spec fn insert_all(m: FilterModel, keys: Seq<Seq<char>>) -> FilterModel
    decreases keys.len(),
{
    if keys.len() == 0 {
        m
    } else {
        insert_all(m.insert(keys[0]), keys.drop_first())
    }
}

/// Inserting a key never changes the filter's shape.
pub proof fn lemma_insert_preserves_shape(m: FilterModel, key: Seq<char>)
    ensures
        m.insert(key).k() == m.k(),
        m.insert(key).m() == m.m(),
        m.insert(key).seeds == m.seeds,
{
}

/// Immediately after a key is inserted, the filter contains it.
pub proof fn lemma_insert_contains(m: FilterModel, key: Seq<char>)
    requires
        m.m() > 0,
    ensures
        m.insert(key).contains(key),
{
    let m1 = m.insert(key);
    assert forall|i: int| 0 <= i < m1.k() implies m1.bits[#[trigger] m1.index_at(i, key)] by {
        let j = m.index_at(i, key);
        assert(m1.index_at(i, key) == j);
        assert(0 <= j < m.m());
        assert(m1.bits[j]);
    }
}

/// Monotonicity: inserting a key never clears a bit, so a query that was
/// true before an insertion is still true after it. Results can only flip
/// from false to true over the filter's lifetime, never back.
pub proof fn lemma_insert_monotone(m: FilterModel, added: Seq<char>, probe: Seq<char>)
    requires
        m.m() > 0,
    ensures
        forall|j: int| 0 <= j < m.m() && m.bits[j] ==> #[trigger] m.insert(added).bits[j],
        m.contains(probe) ==> m.insert(added).contains(probe),
{
    let m1 = m.insert(added);
    if m.contains(probe) {
        assert forall|i: int| 0 <= i < m1.k() implies m1.bits[#[trigger] m1.index_at(
            i,
            probe,
        )] by {
            let j = m.index_at(i, probe);
            assert(m1.index_at(i, probe) == j);
            assert(m.bits[m.index_at(i, probe)]);
            assert(0 <= j < m.m());
        }
    }
}

/// Insertions preserve containment: a key the filter contains is still
/// contained after any sequence of further insertions.
pub proof fn lemma_insert_all_preserves(m: FilterModel, key: Seq<char>, keys: Seq<Seq<char>>)
    requires
        m.m() > 0,
        m.contains(key),
    ensures
        insert_all(m, keys).contains(key),
    decreases keys.len(),
{
    if keys.len() > 0 {
        lemma_insert_monotone(m, keys[0], key);
        lemma_insert_all_preserves(m.insert(keys[0]), key, keys.drop_first());
    }
}

/// No false negatives: once `key` is added, it is contained after every
/// later sequence of additions, whatever and however many they are.
pub proof fn lemma_no_false_negatives(m: FilterModel, key: Seq<char>, later: Seq<Seq<char>>)
    requires
        m.m() > 0,
    ensures
        insert_all(m.insert(key), later).contains(key),
{
    lemma_insert_contains(m, key);
    lemma_insert_all_preserves(m.insert(key), key, later);
}

/// Determinism: two queries for the same key against the same filter state
/// give the same answer, because a query's result is exactly
/// `contains`, a pure function of the state and the key.
pub proof fn lemma_query_deterministic(m: FilterModel, key: Seq<char>, r1: bool, r2: bool)
    requires
        r1 == m.contains(key),
        r2 == m.contains(key),
    ensures
        r1 == r2,
{
}

/// An empty filter contains nothing: with every bit clear and at least one
/// hash function, every query is false.
pub proof fn lemma_empty_contains_nothing(m: FilterModel, key: Seq<char>)
    requires
        m.wf(),
        forall|j: int| 0 <= j < m.m() ==> !m.bits[j],
    ensures
        !m.contains(key),
{
    let j = m.index_at(0, key);
    assert(0 <= j < m.m());
    assert(!m.bits[j]);
}

/// Adding a key twice has no effect beyond the first addition.
pub proof fn lemma_insert_idempotent(m: FilterModel, key: Seq<char>)
    ensures
        m.insert(key).insert(key) == m.insert(key),
{
    let m1 = m.insert(key);
    let m2 = m1.insert(key);
    assert forall|j: int| 0 <= j < m.m() implies m2.bits[j] == m1.bits[j] by {
        assert forall|t: int| 0 <= t < m1.k() && #[trigger] m1.index_at(t, key) == j implies
            m1.bits[j] by {
            assert(m.index_at(t, key) == j);
        }
    }
    assert(m2.bits =~= m1.bits);
    assert(m2 =~= m1);
}

} // verus!
