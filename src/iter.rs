//! Owned, double-ended sequences handed out by the range operations.

use std::collections::VecDeque;
use vstd::prelude::*;

verus! {

/// Entries read through borrowed keys and values.
pub open spec fn entries_view<V>(s: Seq<(&u32, &V)>) -> Seq<(u32, V)> {
    s.map_values(|e: (&u32, &V)| (*e.0, *e.1))
}

/// A borrowed entry read as a plain entry.
pub open spec fn entry_view<V>(r: Option<(&u32, &V)>) -> Option<(u32, V)> {
    match r {
        Some((k, v)) => Some((*k, *v)),
        None => None,
    }
}

/// The first element of a sequence, if any.
pub open spec fn front_of<T>(s: Seq<T>) -> Option<T> {
    if s.len() == 0 {
        None
    } else {
        Some(s[0])
    }
}

/// The last element of a sequence, if any.
pub open spec fn back_of<T>(s: Seq<T>) -> Option<T> {
    if s.len() == 0 {
        None
    } else {
        Some(s.last())
    }
}

/// The sequence without its first element; empty stays empty.
pub open spec fn drop_front<T>(s: Seq<T>) -> Seq<T> {
    if s.len() == 0 {
        s
    } else {
        s.drop_first()
    }
}

/// The sequence without its last element; empty stays empty.
pub open spec fn drop_back<T>(s: Seq<T>) -> Seq<T> {
    if s.len() == 0 {
        s
    } else {
        s.drop_last()
    }
}

/// The entries of a key range, borrowed from the map, from either end.
pub struct BTreeMapRangeIter<'a, V> {
    items: VecDeque<(&'a u32, &'a V)>,
}

impl<'a, V> View for BTreeMapRangeIter<'a, V> {
    type V = Seq<(u32, V)>;

    /// The entries not yet handed out, in ascending key order.
    closed spec fn view(&self) -> Seq<(u32, V)> {
        entries_view(self.items@)
    }
}

impl<'a, V> BTreeMapRangeIter<'a, V> {
    /// Holds the given entries, to be handed out in their order.
    pub(crate) fn from_entries(items: VecDeque<(&'a u32, &'a V)>) -> (r: Self)
        ensures
            r@ == entries_view(items@),
    {
        BTreeMapRangeIter { items }
    }

    /// Hands out the entry with the least remaining key.
    pub fn next(&mut self) -> (r: Option<(&'a u32, &'a V)>)
        ensures
            entry_view(r) == front_of(old(self)@),
            final(self)@ == drop_front(old(self)@),
    {
        let r = self.items.pop_front();
        proof {
            assert(entries_view(self.items@) =~= drop_front(entries_view(old(self).items@)));
        }
        r
    }

    /// Hands out the entry with the greatest remaining key.
    pub fn next_back(&mut self) -> (r: Option<(&'a u32, &'a V)>)
        ensures
            entry_view(r) == back_of(old(self)@),
            final(self)@ == drop_back(old(self)@),
    {
        let r = self.items.pop_back();
        proof {
            assert(entries_view(self.items@) =~= drop_back(entries_view(old(self).items@)));
        }
        r
    }

    /// The number of entries not yet handed out.
    pub fn len(&self) -> (r: usize)
        ensures
            r == self@.len(),
    {
        self.items.len()
    }

    /// Exact bounds on the number of entries not yet handed out.
    pub fn size_hint(&self) -> (r: (usize, Option<usize>))
        ensures
            r == (self@.len() as usize, Some(self@.len() as usize)),
    {
        let n = self.items.len();
        (n, Some(n))
    }
}

/// The entries taken out of a map by a range removal, by value, from either end.
pub struct BTreeMapRangeRemoveIter<V> {
    items: VecDeque<(u32, V)>,
}

impl<V> View for BTreeMapRangeRemoveIter<V> {
    type V = Seq<(u32, V)>;

    /// The entries not yet handed out, in ascending key order.
    closed spec fn view(&self) -> Seq<(u32, V)> {
        self.items@
    }
}

impl<V> BTreeMapRangeRemoveIter<V> {
    /// Holds the given entries, to be handed out in their order.
    pub(crate) fn from_entries(items: VecDeque<(u32, V)>) -> (r: Self)
        ensures
            r@ == items@,
    {
        BTreeMapRangeRemoveIter { items }
    }

    /// Hands out the entry with the least remaining key.
    pub fn next(&mut self) -> (r: Option<(u32, V)>)
        ensures
            r == front_of(old(self)@),
            final(self)@ == drop_front(old(self)@),
    {
        self.items.pop_front()
    }

    /// Hands out the entry with the greatest remaining key.
    pub fn next_back(&mut self) -> (r: Option<(u32, V)>)
        ensures
            r == back_of(old(self)@),
            final(self)@ == drop_back(old(self)@),
    {
        self.items.pop_back()
    }

    /// The number of entries not yet handed out.
    pub fn len(&self) -> (r: usize)
        ensures
            r == self@.len(),
    {
        self.items.len()
    }

    /// Exact bounds on the number of entries not yet handed out.
    pub fn size_hint(&self) -> (r: (usize, Option<usize>))
        ensures
            r == (self@.len() as usize, Some(self@.len() as usize)),
    {
        let n = self.items.len();
        (n, Some(n))
    }
}

} // verus!
