//! Mathematical meaning of the navigation queries, over the map's view.

use vstd::prelude::*;

verus! {

/// `k` is the least key of `m` that is at least `lo`.
pub open spec fn is_least_from<V>(m: Map<u32, V>, lo: int, k: u32) -> bool {
    &&& m.contains_key(k)
    &&& lo <= k
    &&& forall|j: u32| #[trigger] m.contains_key(j) && lo <= j ==> k <= j
}

/// `k` is the greatest key of `m` that is at most `hi`.
pub open spec fn is_greatest_upto<V>(m: Map<u32, V>, hi: int, k: u32) -> bool {
    &&& m.contains_key(k)
    &&& k <= hi
    &&& forall|j: u32| #[trigger] m.contains_key(j) && j <= hi ==> j <= k
}

/// The least key of `m` not below `lo`, if there is one.
pub open spec fn least_from<V>(m: Map<u32, V>, lo: int) -> Option<u32> {
    if exists|k: u32| is_least_from(m, lo, k) {
        Some(choose|k: u32| is_least_from(m, lo, k))
    } else {
        None
    }
}

/// The greatest key of `m` not above `hi`, if there is one.
pub open spec fn greatest_upto<V>(m: Map<u32, V>, hi: int) -> Option<u32> {
    if exists|k: u32| is_greatest_upto(m, hi, k) {
        Some(choose|k: u32| is_greatest_upto(m, hi, k))
    } else {
        None
    }
}

/// The least key of the map.
pub open spec fn first_of<V>(m: Map<u32, V>) -> Option<u32> {
    least_from(m, 0)
}

/// The greatest key of the map.
pub open spec fn last_of<V>(m: Map<u32, V>) -> Option<u32> {
    greatest_upto(m, u32::MAX as int)
}

/// The least key `k` with `k >= q`.
pub open spec fn ceiling_of<V>(m: Map<u32, V>, q: u32) -> Option<u32> {
    least_from(m, q as int)
}

/// The greatest key `k` with `k <= q`.
pub open spec fn floor_of<V>(m: Map<u32, V>, q: u32) -> Option<u32> {
    greatest_upto(m, q as int)
}

/// The least key `k` with `k > q`.
pub open spec fn higher_of<V>(m: Map<u32, V>, q: u32) -> Option<u32> {
    least_from(m, q + 1)
}

/// The greatest key `k` with `k < q`.
pub open spec fn lower_of<V>(m: Map<u32, V>, q: u32) -> Option<u32> {
    greatest_upto(m, q - 1)
}

/// A key together with the value that `m` holds for it.
pub open spec fn entry_of<V>(m: Map<u32, V>, k: Option<u32>) -> Option<(u32, V)> {
    match k {
        Some(k) => Some((k, m[k])),
        None => None,
    }
}

/// The map after the located key, if any, has been taken out.
pub open spec fn without_key<V>(m: Map<u32, V>, k: Option<u32>) -> Map<u32, V> {
    match k {
        Some(k) => m.remove(k),
        None => m,
    }
}

/// A borrowed key read as a plain key.
pub open spec fn key_of(r: Option<&u32>) -> Option<u32> {
    match r {
        Some(k) => Some(*k),
        None => None,
    }
}

/// A key located by a least-from search is the one `least_from` names.
pub proof fn lemma_least_from_is<V>(m: Map<u32, V>, lo: int, k: u32)
    requires
        is_least_from(m, lo, k),
    ensures
        least_from(m, lo) == Some(k),
{
    let c = choose|c: u32| is_least_from(m, lo, c);
    assert(is_least_from(m, lo, c));
    assert(c <= k && k <= c);
}

/// With no key at or above `lo`, `least_from` is empty.
pub proof fn lemma_least_from_none<V>(m: Map<u32, V>, lo: int)
    requires
        forall|j: u32| m.contains_key(j) ==> j < lo,
    ensures
        least_from(m, lo) is None,
{
}

/// A key located by a greatest-upto search is the one `greatest_upto` names.
pub proof fn lemma_greatest_upto_is<V>(m: Map<u32, V>, hi: int, k: u32)
    requires
        is_greatest_upto(m, hi, k),
    ensures
        greatest_upto(m, hi) == Some(k),
{
    let c = choose|c: u32| is_greatest_upto(m, hi, c);
    assert(is_greatest_upto(m, hi, c));
    assert(c <= k && k <= c);
}

/// With no key at or below `hi`, `greatest_upto` is empty.
pub proof fn lemma_greatest_upto_none<V>(m: Map<u32, V>, hi: int)
    requires
        forall|j: u32| m.contains_key(j) ==> hi < j,
    ensures
        greatest_upto(m, hi) is None,
{
}

/// Some key of `m` at or above `lo` makes the least such key exist.
pub proof fn lemma_least_exists<V>(m: Map<u32, V>, lo: int, k: u32)
    requires
        m.contains_key(k),
        lo <= k,
    ensures
        least_from(m, lo) matches Some(c) && is_least_from(m, lo, c),
    decreases k - lo,
{
    if is_least_from(m, lo, k) {
        lemma_least_from_is(m, lo, k);
    } else {
        let j = choose|j: u32| m.contains_key(j) && lo <= j && !(k <= j);
        lemma_least_exists(m, lo, j);
    }
}

/// Some key of `m` at or below `hi` makes the greatest such key exist.
pub proof fn lemma_greatest_exists<V>(m: Map<u32, V>, hi: int, k: u32)
    requires
        m.contains_key(k),
        k <= hi,
    ensures
        greatest_upto(m, hi) matches Some(c) && is_greatest_upto(m, hi, c),
    decreases hi - k,
{
    if is_greatest_upto(m, hi, k) {
        lemma_greatest_upto_is(m, hi, k);
    } else {
        let j = choose|j: u32| m.contains_key(j) && j <= hi && !(j <= k);
        lemma_greatest_exists(m, hi, j);
    }
}

} // verus!
