//! Laws that the navigation and range queries obey, stated over the map's view.

use vstd::prelude::*;

use crate::navigation::{
    ceiling_of, first_of, floor_of, greatest_upto, higher_of, is_greatest_upto, is_least_from,
    last_of, least_from, lemma_greatest_exists, lemma_greatest_upto_is, lemma_least_exists,
    lemma_least_from_is, lower_of,
};
use crate::ranges::{lemma_range_entries, range_entries, without_range};

verus! {

/// In a non-empty map the first key is at most, and the last key at least,
/// every key of the map.
pub proof fn lemma_endpoints_bound_keys<V>(m: Map<u32, V>, k: u32)
    requires
        m.contains_key(k),
    ensures
        first_of(m) matches Some(f) && f <= k,
        last_of(m) matches Some(l) && k <= l,
{
    lemma_least_exists(m, 0, k);
    lemma_greatest_exists(m, u32::MAX as int, k);
}

/// A key that is present is its own ceiling and its own floor.
pub proof fn lemma_present_key_is_own_bound<V>(m: Map<u32, V>, q: u32)
    requires
        m.contains_key(q),
    ensures
        ceiling_of(m, q) == Some(q),
        floor_of(m, q) == Some(q),
{
    lemma_least_from_is(m, q as int, q);
    lemma_greatest_upto_is(m, q as int, q);
}

/// The strict queries never locate the query key itself.
pub proof fn lemma_strict_queries_exclude_key<V>(m: Map<u32, V>, q: u32)
    ensures
        higher_of(m, q) != Some(q),
        lower_of(m, q) != Some(q),
{
    if let Some(h) = least_from(m, q + 1) {
        assert(is_least_from(m, q + 1, h));
    }
    if let Some(l) = greatest_upto(m, q - 1) {
        assert(is_greatest_upto(m, q - 1, l));
    }
}

/// Located keys lie on the expected side of the query key:
/// `lower(q) < q < higher(q)` and `floor(q) <= q <= ceiling(q)`, wherever defined.
pub proof fn lemma_navigation_order<V>(m: Map<u32, V>, q: u32)
    ensures
        lower_of(m, q) matches Some(l) ==> l < q,
        higher_of(m, q) matches Some(h) ==> q < h,
        floor_of(m, q) matches Some(f) ==> f <= q,
        ceiling_of(m, q) matches Some(c) ==> q <= c,
{
    if let Some(l) = greatest_upto(m, q - 1) {
        assert(is_greatest_upto(m, q - 1, l));
    }
    if let Some(h) = least_from(m, q + 1) {
        assert(is_least_from(m, q + 1, h));
    }
    if let Some(f) = greatest_upto(m, q as int) {
        assert(is_greatest_upto(m, q as int, f));
    }
    if let Some(c) = least_from(m, q as int) {
        assert(is_least_from(m, q as int, c));
    }
}

/// The entries of a range are exactly the entries of the map with a key in
/// `[from, to)`, each once, with keys strictly ascending from front to back;
/// read from the back they strictly descend.
pub proof fn lemma_range_listing<V>(m: Map<u32, V>, from: u32, to: u32)
    ensures
        ({
            let s = range_entries(m, from as int, to as int);
            &&& forall|e: (u32, V)|
                s.contains(e) <==> (m.contains_key(e.0) && m[e.0] == e.1 && from <= e.0 < to)
            &&& forall|i: int, j: int|
                0 <= i < j < s.len() ==> #[trigger] s[i].0 < #[trigger] s[j].0
            &&& forall|i: int, j: int|
                0 <= i < j < s.len() ==> #[trigger] s.reverse()[i].0 > #[trigger] s.reverse()[j].0
        }),
{
    let s = range_entries(m, from as int, to as int);
    lemma_range_entries(m, from as int, to as int);
    assert forall|e: (u32, V)|
        s.contains(e) <==> (m.contains_key(e.0) && m[e.0] == e.1 && from <= e.0 < to) by {
        if m.contains_key(e.0) && m[e.0] == e.1 && from <= e.0 < to {
            let i = choose|i: int| 0 <= i < s.len() && #[trigger] s[i].0 == e.0;
            assert(s[i] == e);
        }
    }
    assert forall|i: int, j: int| 0 <= i < j < s.len() implies #[trigger] s.reverse()[i].0
        > #[trigger] s.reverse()[j].0 by {
        assert(s.reverse()[i] == s[s.len() - 1 - i]);
        assert(s.reverse()[j] == s[s.len() - 1 - j]);
    }
}

/// After a range removal the range holds no entry, and every entry outside the
/// range is still there with its value.
pub proof fn lemma_range_removed<V>(m: Map<u32, V>, from: u32, to: u32)
    ensures
        range_entries(without_range(m, from as int, to as int), from as int, to as int).len()
            == 0,
        forall|k: u32|
            !(from <= k < to) ==> (#[trigger] without_range(m, from as int, to as int).contains_key(
                k,
            ) <==> m.contains_key(k)),
        forall|k: u32|
            !(from <= k < to) && m.contains_key(k) ==> #[trigger] without_range(
                m,
                from as int,
                to as int,
            )[k] == m[k],
{
    let w = without_range(m, from as int, to as int);
    lemma_range_entries(w, from as int, to as int);
    let s = range_entries(w, from as int, to as int);
    if s.len() > 0 {
        assert(w.contains_key(s[0].0));
    }
}

/// On an empty map every navigation query finds nothing and every range is empty.
pub proof fn lemma_empty_map_finds_nothing<V>(q: u32, from: u32, to: u32)
    ensures
        first_of(Map::<u32, V>::empty()) is None,
        last_of(Map::<u32, V>::empty()) is None,
        ceiling_of(Map::<u32, V>::empty(), q) is None,
        floor_of(Map::<u32, V>::empty(), q) is None,
        higher_of(Map::<u32, V>::empty(), q) is None,
        lower_of(Map::<u32, V>::empty(), q) is None,
        range_entries(Map::<u32, V>::empty(), from as int, to as int).len() == 0,
{
    let m = Map::<u32, V>::empty();
    lemma_range_entries(m, from as int, to as int);
    let s = range_entries(m, from as int, to as int);
    if s.len() > 0 {
        assert(m.contains_key(s[0].0));
    }
}

} // verus!
