//! Mathematical meaning of the half-open range operations.

use vstd::prelude::*;

use crate::navigation::{is_least_from, least_from, lemma_least_exists};

verus! {

/// The entries of `m` whose keys lie in `[from, to)`, in ascending key order.
pub open spec fn range_entries<V>(m: Map<u32, V>, from: int, to: int) -> Seq<(u32, V)>
    decreases to - from,
    via range_entries_decreases::<V>
{
    if from < to {
        match least_from(m, from) {
            Some(k) => if k < to {
                seq![(k, m[k])] + range_entries(m, k + 1, to)
            } else {
                Seq::empty()
            },
            None => Seq::empty(),
        }
    } else {
        Seq::empty()
    }
}

/// The least key at or above `from` is at least `from`, so the lower bound grows.
#[via_fn]
proof fn range_entries_decreases<V>(m: Map<u32, V>, from: int, to: int) {
    if from < to {
        if let Some(k) = least_from(m, from) {
            assert(is_least_from(m, from, k));
        }
    }
}

/// The map with every entry whose key lies in `[from, to)` taken out.
pub open spec fn without_range<V>(m: Map<u32, V>, from: int, to: int) -> Map<u32, V> {
    m.remove_keys(Set::new(|k: u32| from <= k < to))
}

/// Every listed entry is an entry of `m` with a key in `[from, to)`, the keys
/// strictly ascend, and every key of `m` in `[from, to)` is listed.
pub proof fn lemma_range_entries<V>(m: Map<u32, V>, from: int, to: int)
    ensures
        ({
            let s = range_entries(m, from, to);
            &&& forall|i: int|
                0 <= i < s.len() ==> from <= #[trigger] s[i].0 < to && m.contains_key(s[i].0)
                    && s[i].1 == m[s[i].0]
            &&& forall|i: int, j: int| 0 <= i < j < s.len() ==> #[trigger] s[i].0 < #[trigger] s[j].0
            &&& forall|k: u32|
                #[trigger] m.contains_key(k) && from <= k < to ==> exists|i: int|
                    0 <= i < s.len() && #[trigger] s[i].0 == k
        }),
    decreases to - from,
{
    let s = range_entries(m, from, to);
    if from < to {
        match least_from(m, from) {
            Some(c) => {
                assert(is_least_from(m, from, c));
                if c < to {
                    lemma_range_entries(m, c + 1, to);
                    let rest = range_entries(m, c + 1, to);
                    assert(s == seq![(c, m[c])] + rest);
                    assert forall|i: int| 0 <= i < s.len() implies from <= #[trigger] s[i].0 < to
                        && m.contains_key(s[i].0) && s[i].1 == m[s[i].0] by {
                        if i > 0 {
                            assert(s[i] == rest[i - 1]);
                        }
                    }
                    assert forall|i: int, j: int| 0 <= i < j < s.len() implies #[trigger] s[i].0
                        < #[trigger] s[j].0 by {
                        assert(s[j] == rest[j - 1]);
                        if i > 0 {
                            assert(s[i] == rest[i - 1]);
                        }
                    }
                    assert forall|k: u32| #[trigger] m.contains_key(k) && from <= k < to implies exists|
                        i: int,
                    | 0 <= i < s.len() && #[trigger] s[i].0 == k by {
                        if k == c {
                            assert(s[0].0 == k);
                        } else {
                            let i = choose|i: int| 0 <= i < rest.len() && #[trigger] rest[i].0 == k;
                            assert(s[i + 1] == rest[i]);
                        }
                    }
                } else {
                    assert forall|k: u32| #[trigger] m.contains_key(k) && from <= k < to implies exists|
                        i: int,
                    | 0 <= i < s.len() && #[trigger] s[i].0 == k by {
                        assert(c <= k);
                    }
                }
            },
            None => {
                assert forall|k: u32| #[trigger] m.contains_key(k) && from <= k < to implies exists|
                    i: int,
                | 0 <= i < s.len() && #[trigger] s[i].0 == k by {
                    lemma_least_exists(m, from, k);
                }
            },
        }
    }
}

} // verus!
