//! Summation of a weight function over maps keyed by transaction ids.
//!
//! The ledger's invariants relate an account's balances to sums taken over its
//! transaction log, a map with `u32` keys. This module defines that sum and
//! proves the handful of facts the invariant proofs need: how a sum changes
//! under `insert` and `remove`, pointwise comparison and addition of weights,
//! bounds in terms of the map's size, and the cardinality bound that a finite
//! set of 32-bit keys enjoys.

use vstd::prelude::*;
use vstd::set_lib::{lemma_int_range, lemma_len_subset, lemma_map_size, set_int_range};

verus! {

/// Sum of the weight `f` over every entry of the finite map `m`.
pub open spec fn map_sum<V>(m: Map<u32, V>, f: spec_fn(V) -> int) -> int
    decreases m.dom().len() when m.dom().finite()
{
    if m.dom().finite() && m.dom().len() > 0 {
        let k = m.dom().choose();
        f(m[k]) + map_sum(m.remove(k), f)
    } else {
        0
    }
}

/// Removing any present key splits the sum into that key's weight and the rest.
pub proof fn lemma_map_sum_remove<V>(m: Map<u32, V>, f: spec_fn(V) -> int, k: u32)
    requires
        m.dom().finite(),
        m.dom().contains(k),
    ensures
        map_sum(m, f) == f(m[k]) + map_sum(m.remove(k), f),
    decreases m.dom().len(),
{
    let c = m.dom().choose();
    if c == k {
    } else {
        lemma_map_sum_remove(m.remove(c), f, k);
        lemma_map_sum_remove(m.remove(k), f, c);
        assert(m.remove(c).remove(k) =~= m.remove(k).remove(c));
    }
}

/// Inserting a fresh key adds its weight to the sum.
pub proof fn lemma_map_sum_insert<V>(m: Map<u32, V>, f: spec_fn(V) -> int, k: u32, v: V)
    requires
        m.dom().finite(),
        !m.dom().contains(k),
    ensures
        map_sum(m.insert(k, v), f) == map_sum(m, f) + f(v),
{
    lemma_map_sum_remove(m.insert(k, v), f, k);
    assert(m.insert(k, v).remove(k) =~= m);
}

/// Overwriting a present key exchanges the old entry's weight for the new one's.
pub proof fn lemma_map_sum_update<V>(m: Map<u32, V>, f: spec_fn(V) -> int, k: u32, v: V)
    requires
        m.dom().finite(),
        m.dom().contains(k),
    ensures
        map_sum(m.insert(k, v), f) == map_sum(m, f) - f(m[k]) + f(v),
{
    lemma_map_sum_remove(m, f, k);
    lemma_map_sum_remove(m.insert(k, v), f, k);
    assert(m.insert(k, v).remove(k) =~= m.remove(k));
}

/// A weight that dominates another on every entry of the map dominates its sum.
pub proof fn lemma_map_sum_le<V>(m: Map<u32, V>, f: spec_fn(V) -> int, g: spec_fn(V) -> int)
    requires
        m.dom().finite(),
        forall|k: u32| m.dom().contains(k) ==> f(m[k]) <= g(m[k]),
    ensures
        map_sum(m, f) <= map_sum(m, g),
    decreases m.dom().len(),
{
    if m.dom().len() > 0 {
        let c = m.dom().choose();
        lemma_map_sum_remove(m, f, c);
        lemma_map_sum_remove(m, g, c);
        lemma_map_sum_le(m.remove(c), f, g);
    }
}

/// A weight that is the pointwise sum of two others on every entry of the map
/// sums to the sum of their sums.
pub proof fn lemma_map_sum_add<V>(
    m: Map<u32, V>,
    f: spec_fn(V) -> int,
    g: spec_fn(V) -> int,
    h: spec_fn(V) -> int,
)
    requires
        m.dom().finite(),
        forall|k: u32| m.dom().contains(k) ==> h(m[k]) == f(m[k]) + g(m[k]),
    ensures
        map_sum(m, h) == map_sum(m, f) + map_sum(m, g),
    decreases m.dom().len(),
{
    if m.dom().len() > 0 {
        let c = m.dom().choose();
        lemma_map_sum_remove(m, f, c);
        lemma_map_sum_remove(m, g, c);
        lemma_map_sum_remove(m, h, c);
        lemma_map_sum_add(m.remove(c), f, g, h);
    }
}

/// Entry-wise bounds on the weight bound the sum by multiples of the map's size.
pub proof fn lemma_map_sum_bounds<V>(m: Map<u32, V>, f: spec_fn(V) -> int, lo: int, hi: int)
    requires
        m.dom().finite(),
        forall|k: u32| m.dom().contains(k) ==> lo <= f(m[k]) <= hi,
    ensures
        lo * m.dom().len() <= map_sum(m, f) <= hi * m.dom().len(),
    decreases m.dom().len(),
{
    if m.dom().len() == 0 {
    } else {
        let c = m.dom().choose();
        let n = m.dom().len() as int;
        lemma_map_sum_remove(m, f, c);
        lemma_map_sum_bounds(m.remove(c), f, lo, hi);
        assert(lo * (n - 1) + lo == lo * n) by (nonlinear_arith);
        assert(hi * (n - 1) + hi == hi * n) by (nonlinear_arith);
    }
}

/// A finite set of 32-bit keys has at most `2^32` elements.
pub proof fn lemma_u32_set_len(s: Set<u32>)
    requires
        s.finite(),
    ensures
        s.len() <= 0x1_0000_0000,
{
    let f = |k: u32| k as int;
    let y = s.map(f);
    lemma_map_size(s, y, f);
    assert forall|i: int| y.contains(i) implies set_int_range(0, 0x1_0000_0000).contains(i) by {
        let k = choose|k: u32| s.contains(k) && i == f(k);
        assert(0 <= (k as int) && (k as int) < 0x1_0000_0000);
    };
    lemma_int_range(0, 0x1_0000_0000);
    lemma_len_subset(y, set_int_range(0, 0x1_0000_0000));
}

} // verus!
