//! The extension trait and its implementation for `BTreeMap<u32, V>`.

use std::collections::{BTreeMap, VecDeque};
use vstd::prelude::*;

use crate::iter::{entries_view, BTreeMapRangeIter, BTreeMapRangeRemoveIter};
use crate::navigation::{
    ceiling_of, entry_of, first_of, floor_of, greatest_upto, higher_of, is_greatest_upto,
    is_least_from, key_of, last_of, least_from, lemma_greatest_upto_is, lemma_greatest_upto_none,
    lemma_least_from_is, lemma_least_from_none, lower_of, without_key,
};
use crate::ranges::{lemma_range_entries, range_entries, without_range};

verus! {

/// Relies on `BTreeMap::range` over `q..` and `Iterator::next` on the result:
/// the range yields the entries with keys not below `q` in ascending key order,
/// so its first item is the entry with the least such key.
#[verifier::external_body]
fn first_at_or_above<V>(m: &BTreeMap<u32, V>, q: u32) -> (r: Option<(&u32, &V)>)
    ensures
        match r {
            Some((k, v)) => is_least_from(m@, q as int, *k) && m@[*k] == *v,
            None => forall|j: u32| m@.contains_key(j) ==> j < q,
        },
{
    m.range(q..).next()
}

/// Relies on `BTreeMap::range` over `..=q` and `DoubleEndedIterator::next_back`
/// on the result: the range yields the entries with keys not above `q` in
/// ascending key order, so its last item is the entry with the greatest such key.
#[verifier::external_body]
fn last_at_or_below<V>(m: &BTreeMap<u32, V>, q: u32) -> (r: Option<(&u32, &V)>)
    ensures
        match r {
            Some((k, v)) => is_greatest_upto(m@, q as int, *k) && m@[*k] == *v,
            None => forall|j: u32| m@.contains_key(j) ==> q < j,
        },
{
    m.range(..=q).next_back()
}

/// Takes the entry of a key known to be present out of the map.
///
/// A located key stays present until it is removed, so the removal always
/// succeeds: the `None` arm below is proved unreachable.
fn take_present<V>(m: &mut BTreeMap<u32, V>, k: u32) -> (r: Option<(u32, V)>)
    requires
        old(m)@.contains_key(k),
    ensures
        r == Some((k, old(m)@[k])),
        final(m)@ == old(m)@.remove(k),
{
    match m.remove(&k) {
        Some(v) => Some((k, v)),
        None => None,
    }
}

/// The least key not below `q`, as located in the map.
fn least_at_or_above<V>(m: &BTreeMap<u32, V>, q: u32) -> (r: Option<&u32>)
    ensures
        key_of(r) == least_from(m@, q as int),
{
    match first_at_or_above(m, q) {
        Some((k, _)) => {
            proof {
                lemma_least_from_is(m@, q as int, *k);
            }
            Some(k)
        },
        None => {
            proof {
                lemma_least_from_none(m@, q as int);
            }
            None
        },
    }
}

/// The greatest key not above `q`, as located in the map.
fn greatest_at_or_below<V>(m: &BTreeMap<u32, V>, q: u32) -> (r: Option<&u32>)
    ensures
        key_of(r) == greatest_upto(m@, q as int),
{
    match last_at_or_below(m, q) {
        Some((k, _)) => {
            proof {
                lemma_greatest_upto_is(m@, q as int, *k);
            }
            Some(k)
        },
        None => {
            proof {
                lemma_greatest_upto_none(m@, q as int);
            }
            None
        },
    }
}

/// Removes the entry of the located key, if a key was located.
fn take_located<V>(m: &mut BTreeMap<u32, V>, k: Option<u32>) -> (r: Option<(u32, V)>)
    requires
        k matches Some(key) ==> old(m)@.contains_key(key),
    ensures
        r == entry_of(old(m)@, k),
        final(m)@ == without_key(old(m)@, k),
{
    match k {
        Some(key) => take_present(m, key),
        None => None,
    }
}

/// Copies a located key out of the map.
fn copied(r: Option<&u32>) -> (c: Option<u32>)
    ensures
        c == key_of(r),
{
    match r {
        Some(k) => Some(*k),
        None => None,
    }
}

/// The entries of `[from, to)`, borrowed from the map in ascending key order.
///
/// Each step asks the map afresh for the least key at or above a bound, so no
/// cursor into the map is kept between steps. An empty or inverted range
/// (`from >= to`) gives no entries without asking the map anything.
fn collect_range<'a, V>(m: &'a BTreeMap<u32, V>, from: u32, to: u32) -> (r: VecDeque<
    (&'a u32, &'a V),
>)
    ensures
        entries_view(r@) == range_entries(m@, from as int, to as int),
{
    let mut out: VecDeque<(&'a u32, &'a V)> = VecDeque::new();
    let mut cur: u32 = from;
    while cur < to
        invariant
            entries_view(out@) + range_entries(m@, cur as int, to as int) == range_entries(
                m@,
                from as int,
                to as int,
            ),
        decreases to - cur,
    {
        match first_at_or_above(m, cur) {
            Some((k, v)) => {
                proof {
                    lemma_least_from_is(m@, cur as int, *k);
                }
                if *k < to {
                    let ghost before = out@;
                    out.push_back((k, v));
                    proof {
                        assert(entries_view(out@) =~= entries_view(before) + seq![(*k, *v)]);
                    }
                    cur = *k + 1;
                } else {
                    cur = to;
                }
            },
            None => {
                proof {
                    lemma_least_from_none(m@, cur as int);
                }
                cur = to;
            },
        }
    }
    out
}

/// The keys of `[from, to)` in ascending order, copied out of the map.
fn range_keys<V>(m: &BTreeMap<u32, V>, from: u32, to: u32) -> (r: Vec<u32>)
    ensures
        r@ == range_entries(m@, from as int, to as int).map_values(|e: (u32, V)| e.0),
{
    let entries = collect_range(m, from, to);
    let ghost s = range_entries(m@, from as int, to as int);
    let mut keys: Vec<u32> = Vec::new();
    let mut i: usize = 0;
    while i < entries.len()
        invariant
            entries_view(entries@) == s,
            i <= entries@.len(),
            keys@ == s.take(i as int).map_values(|e: (u32, V)| e.0),
        decreases entries@.len() - i,
    {
        let (k, _) = entries[i];
        keys.push(*k);
        i = i + 1;
        proof {
            assert(keys@ =~= s.take(i as int).map_values(|e: (u32, V)| e.0));
        }
    }
    proof {
        assert(s.take(i as int) =~= s);
    }
    keys
}

/// Navigation over a map whose keys are totally ordered: endpoints, nearest keys
/// in each direction, and half-open key ranges `[from, to)`.
///
/// Each `_remove` variant locates exactly the key that its read-only form
/// locates, takes that entry out of the map and returns it by value.
pub trait SortedMapExt<V>: Sized {
    /// The map's contents.
    spec fn as_map(&self) -> Map<u32, V>;

    /// The least key currently in the map, or `None` if it is empty.
    fn first(&self) -> (r: Option<&u32>)
        ensures
            key_of(r) == first_of(self.as_map()),
    ;

    /// Removes and returns the entry with the least key, or `None` if the map is empty.
    fn first_remove(&mut self) -> (r: Option<(u32, V)>)
        ensures
            r == entry_of(old(self).as_map(), first_of(old(self).as_map())),
            final(self).as_map() == without_key(old(self).as_map(), first_of(old(self).as_map())),
    ;

    /// The greatest key currently in the map, or `None` if it is empty.
    fn last(&self) -> (r: Option<&u32>)
        ensures
            key_of(r) == last_of(self.as_map()),
    ;

    /// Removes and returns the entry with the greatest key, or `None` if the map is empty.
    fn last_remove(&mut self) -> (r: Option<(u32, V)>)
        ensures
            r == entry_of(old(self).as_map(), last_of(old(self).as_map())),
            final(self).as_map() == without_key(old(self).as_map(), last_of(old(self).as_map())),
    ;

    /// The least key greater than or equal to `key`.
    fn ceiling(&self, key: &u32) -> (r: Option<&u32>)
        ensures
            key_of(r) == ceiling_of(self.as_map(), *key),
    ;

    /// Removes and returns the entry of the least key greater than or equal to `key`.
    fn ceiling_remove(&mut self, key: &u32) -> (r: Option<(u32, V)>)
        ensures
            r == entry_of(old(self).as_map(), ceiling_of(old(self).as_map(), *key)),
            final(self).as_map() == without_key(
                old(self).as_map(),
                ceiling_of(old(self).as_map(), *key),
            ),
    ;

    /// The greatest key less than or equal to `key`.
    fn floor(&self, key: &u32) -> (r: Option<&u32>)
        ensures
            key_of(r) == floor_of(self.as_map(), *key),
    ;

    /// Removes and returns the entry of the greatest key less than or equal to `key`.
    fn floor_remove(&mut self, key: &u32) -> (r: Option<(u32, V)>)
        ensures
            r == entry_of(old(self).as_map(), floor_of(old(self).as_map(), *key)),
            final(self).as_map() == without_key(
                old(self).as_map(),
                floor_of(old(self).as_map(), *key),
            ),
    ;

    /// The least key strictly greater than `key`.
    fn higher(&self, key: &u32) -> (r: Option<&u32>)
        ensures
            key_of(r) == higher_of(self.as_map(), *key),
    ;

    /// Removes and returns the entry of the least key strictly greater than `key`.
    fn higher_remove(&mut self, key: &u32) -> (r: Option<(u32, V)>)
        ensures
            r == entry_of(old(self).as_map(), higher_of(old(self).as_map(), *key)),
            final(self).as_map() == without_key(
                old(self).as_map(),
                higher_of(old(self).as_map(), *key),
            ),
    ;

    /// The greatest key strictly less than `key`.
    fn lower(&self, key: &u32) -> (r: Option<&u32>)
        ensures
            key_of(r) == lower_of(self.as_map(), *key),
    ;

    /// Removes and returns the entry of the greatest key strictly less than `key`.
    fn lower_remove(&mut self, key: &u32) -> (r: Option<(u32, V)>)
        ensures
            r == entry_of(old(self).as_map(), lower_of(old(self).as_map(), *key)),
            final(self).as_map() == without_key(
                old(self).as_map(),
                lower_of(old(self).as_map(), *key),
            ),
    ;
    /// The entries whose keys lie in `[from_key, to_key)`, in ascending key
    /// order and readable from either end. Empty when `from_key >= to_key`.
    fn range_iter<'a>(&'a self, from_key: &u32, to_key: &u32) -> (r: BTreeMapRangeIter<'a, V>)
        ensures
            r@ == range_entries(self.as_map(), *from_key as int, *to_key as int),
    ;

    /// Replaces the value of every entry whose key lies in `[from_key, to_key)`
    /// by what `f` makes of its key and current value, in place. Keys are never
    /// changed and entries outside the range are untouched. Does nothing when
    /// `from_key >= to_key`.
    fn range_iter_mut<F: Fn(&u32, &V) -> V>(&mut self, from_key: &u32, to_key: &u32, f: F)
        requires
            forall|k: &u32, v: &V| f.requires((k, v)),
        ensures
            final(self).as_map().dom() == old(self).as_map().dom(),
            forall|k: u32|
                #[trigger] old(self).as_map().contains_key(k) && !(*from_key <= k < *to_key)
                    ==> final(self).as_map()[k] == old(self).as_map()[k],
            forall|k: u32|
                #[trigger] old(self).as_map().contains_key(k) && *from_key <= k < *to_key
                    ==> f.ensures((&k, &old(self).as_map()[k]), final(self).as_map()[k]),
    ;

    /// Takes every entry whose key lies in `[from_key, to_key)` out of the map
    /// and returns them by value in ascending key order. The keys are gathered
    /// first and removed afterwards. Nothing changes when `from_key >= to_key`.
    fn range_remove_iter(&mut self, from_key: &u32, to_key: &u32) -> (r: BTreeMapRangeRemoveIter<V>)
        ensures
            r@ == range_entries(old(self).as_map(), *from_key as int, *to_key as int),
            final(self).as_map() == without_range(
                old(self).as_map(),
                *from_key as int,
                *to_key as int,
            ),
    ;
}

impl<V> SortedMapExt<V> for BTreeMap<u32, V> {
    open spec fn as_map(&self) -> Map<u32, V> {
        self@
    }

    fn first(&self) -> (r: Option<&u32>) {
        least_at_or_above(self, 0)
    }

    fn first_remove(&mut self) -> (r: Option<(u32, V)>) {
        let located = copied(self.first());
        take_located(self, located)
    }

    fn last(&self) -> (r: Option<&u32>) {
        greatest_at_or_below(self, u32::MAX)
    }

    fn last_remove(&mut self) -> (r: Option<(u32, V)>) {
        let located = copied(self.last());
        take_located(self, located)
    }

    fn ceiling(&self, key: &u32) -> (r: Option<&u32>) {
        least_at_or_above(self, *key)
    }

    fn ceiling_remove(&mut self, key: &u32) -> (r: Option<(u32, V)>) {
        let located = copied(self.ceiling(key));
        take_located(self, located)
    }

    fn floor(&self, key: &u32) -> (r: Option<&u32>) {
        greatest_at_or_below(self, *key)
    }

    fn floor_remove(&mut self, key: &u32) -> (r: Option<(u32, V)>) {
        let located = copied(self.floor(key));
        take_located(self, located)
    }

    fn higher(&self, key: &u32) -> (r: Option<&u32>) {
        if *key == u32::MAX {
            proof {
                lemma_least_from_none(self@, *key + 1);
            }
            None
        } else {
            least_at_or_above(self, *key + 1)
        }
    }

    fn higher_remove(&mut self, key: &u32) -> (r: Option<(u32, V)>) {
        let located = copied(self.higher(key));
        take_located(self, located)
    }

    fn lower(&self, key: &u32) -> (r: Option<&u32>) {
        if *key == 0 {
            proof {
                lemma_greatest_upto_none(self@, *key - 1);
            }
            None
        } else {
            greatest_at_or_below(self, *key - 1)
        }
    }

    fn lower_remove(&mut self, key: &u32) -> (r: Option<(u32, V)>) {
        let located = copied(self.lower(key));
        take_located(self, located)
    }
    fn range_iter<'a>(&'a self, from_key: &u32, to_key: &u32) -> (r: BTreeMapRangeIter<'a, V>) {
        BTreeMapRangeIter::from_entries(collect_range(self, *from_key, *to_key))
    }

    fn range_iter_mut<F: Fn(&u32, &V) -> V>(&mut self, from_key: &u32, to_key: &u32, f: F) {
        let keys = range_keys(self, *from_key, *to_key);
        let ghost s = range_entries(self@, *from_key as int, *to_key as int);
        let ghost m0 = self@;
        proof {
            lemma_range_entries(m0, *from_key as int, *to_key as int);
        }
        let mut i: usize = 0;
        while i < keys.len()
            invariant
                forall|k: &u32, v: &V| f.requires((k, v)),
                keys@ == s.map_values(|e: (u32, V)| e.0),
                i <= keys@.len(),
                self@.dom() == m0.dom(),
                forall|j: int| 0 <= j < s.len() ==> #[trigger] m0.contains_key(s[j].0),
                forall|j: int, l: int| 0 <= j < l < s.len() ==> #[trigger] s[j].0 < #[trigger] s[l].0,
                forall|k: u32|
                    #[trigger] m0.contains_key(k) && !(exists|j: int| 0 <= j < i && keys@[j] == k)
                        ==> self@[k] == m0[k],
                forall|j: int|
                    0 <= j < i ==> f.ensures((&keys@[j], &m0[keys@[j]]), #[trigger] self@[keys@[j]]),
            decreases keys@.len() - i,
        {
            let k = keys[i];
            proof {
                assert(keys@[i as int] == s[i as int].0);
                assert forall|j: int| 0 <= j < i implies keys@[j] != k by {
                    assert(keys@[j] == s[j].0);
                }
            }
            let updated = match self.get(&k) {
                Some(v) => Some(f(&k, v)),
                None => None,
            };
            if let Some(nv) = updated {
                // The key is already present: the value is replaced where it
                // stands, and the key and the tree's shape stay as they are.
                self.insert(k, nv);
            }
            i = i + 1;
        }
        proof {
            assert forall|k: u32|
                #[trigger] m0.contains_key(k) && *from_key <= k < *to_key implies f.ensures(
                (&k, &m0[k]),
                self@[k],
            ) by {
                let j = choose|j: int| 0 <= j < s.len() && #[trigger] s[j].0 == k;
                assert(keys@[j] == k);
            }
            assert forall|k: u32|
                #[trigger] m0.contains_key(k) && !(*from_key <= k < *to_key) implies self@[k]
                == m0[k] by {
                if exists|j: int| 0 <= j < keys@.len() && keys@[j] == k {
                    let j = choose|j: int| 0 <= j < keys@.len() && keys@[j] == k;
                    assert(keys@[j] == s[j].0);
                }
            }
        }
    }

    fn range_remove_iter(&mut self, from_key: &u32, to_key: &u32) -> (r: BTreeMapRangeRemoveIter<V>) {
        let keys = range_keys(self, *from_key, *to_key);
        let ghost s = range_entries(self@, *from_key as int, *to_key as int);
        let ghost m0 = self@;
        proof {
            lemma_range_entries(m0, *from_key as int, *to_key as int);
        }
        let mut out: VecDeque<(u32, V)> = VecDeque::new();
        let mut i: usize = 0;
        while i < keys.len()
            invariant
                keys@ == s.map_values(|e: (u32, V)| e.0),
                i <= keys@.len(),
                forall|j: int|
                    0 <= j < s.len() ==> #[trigger] m0.contains_key(s[j].0) && s[j].1 == m0[s[j].0],
                forall|j: int, l: int| 0 <= j < l < s.len() ==> #[trigger] s[j].0 < #[trigger] s[l].0,
                self@ == m0.remove_keys(keys@.take(i as int).to_set()),
                out@ == s.take(i as int),
            decreases keys@.len() - i,
        {
            let k = keys[i];
            proof {
                assert(keys@[i as int] == s[i as int].0);
                assert(!keys@.take(i as int).to_set().contains(k)) by {
                    if keys@.take(i as int).to_set().contains(k) {
                        let j = choose|j: int| 0 <= j < i && #[trigger] keys@.take(i as int)[j] == k;
                        assert(keys@[j] == s[j].0);
                    }
                }
            }
            let ghost before = self@;
            match take_present(self, k) {
                Some(e) => out.push_back(e),
                None => {},
            }
            proof {
                assert(before[k] == m0[k]);
                assert(keys@.take(i + 1) == keys@.take(i as int).push(k));
                keys@.take(i as int).lemma_push_to_set_commute(k);
                assert(self@ =~= m0.remove_keys(keys@.take(i + 1).to_set()));
                assert(out@ =~= s.take(i + 1));
            }
            i = i + 1;
        }
        proof {
            assert(keys@.take(i as int) == keys@);
            assert(out@ =~= s);
            assert forall|k: u32| #[trigger] m0.contains_key(k) && *from_key <= k < *to_key
                implies keys@.to_set().contains(k) by {
                let j = choose|j: int| 0 <= j < s.len() && #[trigger] s[j].0 == k;
                assert(keys@[j] == k);
            }
            assert forall|k: u32| keys@.to_set().contains(k) implies *from_key <= k < *to_key by {
                let j = choose|j: int| 0 <= j < keys@.len() && keys@[j] == k;
                assert(keys@[j] == s[j].0);
            }
            assert(self@ =~= without_range(m0, *from_key as int, *to_key as int));
        }
        BTreeMapRangeRemoveIter::from_entries(out)
    }
}

} // verus!
