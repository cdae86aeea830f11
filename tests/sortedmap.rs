use std::collections::BTreeMap;

use sorted_collections::{BTreeMapRangeIter, BTreeMapRangeRemoveIter, SortedMapExt};

fn sample() -> BTreeMap<u32, u32> {
    vec![(1u32, 1u32), (2, 2), (3, 3), (4, 4), (5, 5)].into_iter().collect()
}

fn drain_front(mut it: BTreeMapRangeIter<'_, u32>) -> Vec<(u32, u32)> {
    let mut out = Vec::new();
    while let Some((k, v)) = it.next() {
        out.push((*k, *v));
    }
    out
}

fn drain_removed(mut it: BTreeMapRangeRemoveIter<u32>) -> Vec<(u32, u32)> {
    let mut out = Vec::new();
    while let Some(e) = it.next() {
        out.push(e);
    }
    out
}

#[test]
fn test_first() {
    let map: BTreeMap<u32, u32> = vec![(1u32, 1u32), (2, 2), (3, 3), (4, 4), (5, 5)].into_iter().collect();
    assert_eq!(map.first().unwrap(), &1u32);
}

#[test]
fn test_first_remove() {
    let mut map: BTreeMap<u32, u32> = vec![(1u32, 1u32), (2, 2), (3, 3), (4, 4), (5, 5)].into_iter().collect();
    assert_eq!(map.first_remove().unwrap(), (1u32, 1u32));
    assert_eq!(map.into_iter().collect::<Vec<(u32, u32)>>(), vec![(2u32, 2u32), (3, 3), (4, 4), (5, 5)]);
}

#[test]
fn test_last() {
    let map: BTreeMap<u32, u32> = vec![(1u32, 1u32), (2, 2), (3, 3), (4, 4), (5, 5)].into_iter().collect();
    assert_eq!(map.last().unwrap(), &5u32);
}

#[test]
fn test_last_remove() {
    let mut map: BTreeMap<u32, u32> = vec![(1u32, 1u32), (2, 2), (3, 3), (4, 4), (5, 5)].into_iter().collect();
    assert_eq!(map.last_remove().unwrap(), (5u32, 5u32));
    assert_eq!(map.into_iter().collect::<Vec<(u32, u32)>>(), vec![(1u32, 1u32), (2, 2), (3, 3), (4, 4)]);
}

#[test]
fn test_ceiling() {
    let map: BTreeMap<u32, u32> = vec![(1u32, 1u32), (2, 2), (3, 3), (4, 4), (5, 5)].into_iter().collect();
    assert_eq!(map.ceiling(&3).unwrap(), &3u32);
    assert_eq!(map.into_iter().collect::<Vec<(u32, u32)>>(), vec![(1u32, 1u32), (2, 2), (3, 3), (4, 4), (5, 5)]);
}

#[test]
fn test_ceiling_remove() {
    let mut map: BTreeMap<u32, u32> = vec![(1u32, 1u32), (2, 2), (3, 3), (4, 4), (5, 5)].into_iter().collect();
    assert_eq!(map.ceiling_remove(&3).unwrap(), (3u32, 3u32));
    assert_eq!(map.into_iter().collect::<Vec<(u32, u32)>>(), vec![(1u32, 1u32), (2, 2), (4, 4), (5, 5)]);
}

#[test]
fn test_floor() {
    let map: BTreeMap<u32, u32> = vec![(1u32, 1u32), (2, 2), (3, 3), (4, 4), (5, 5)].into_iter().collect();
    assert_eq!(map.floor(&3).unwrap(), &3u32);
    assert_eq!(map.into_iter().collect::<Vec<(u32, u32)>>(), vec![(1u32, 1u32), (2, 2), (3, 3), (4, 4), (5, 5)]);
}

#[test]
fn test_floor_remove() {
    let mut map: BTreeMap<u32, u32> = vec![(1u32, 1u32), (2, 2), (3, 3), (4, 4), (5, 5)].into_iter().collect();
    assert_eq!(map.floor_remove(&3).unwrap(), (3u32, 3u32));
    assert_eq!(map.into_iter().collect::<Vec<(u32, u32)>>(), vec![(1u32, 1u32), (2, 2), (4, 4), (5, 5)]);
}

#[test]
fn test_higher() {
    let map: BTreeMap<u32, u32> = vec![(1u32, 1u32), (2, 2), (3, 3), (4, 4), (5, 5)].into_iter().collect();
    assert_eq!(map.higher(&3).unwrap(), &4u32);
    assert_eq!(map.into_iter().collect::<Vec<(u32, u32)>>(), vec![(1u32, 1u32), (2, 2), (3, 3), (4, 4), (5, 5)]);
}

#[test]
fn test_higher_remove() {
    let mut map: BTreeMap<u32, u32> = vec![(1u32, 1u32), (2, 2), (3, 3), (4, 4), (5, 5)].into_iter().collect();
    assert_eq!(map.higher_remove(&3).unwrap(), (4u32, 4u32));
    assert_eq!(map.into_iter().collect::<Vec<(u32, u32)>>(), vec![(1u32, 1u32), (2, 2), (3, 3), (5, 5)]);
}

#[test]
fn test_lower() {
    let map: BTreeMap<u32, u32> = vec![(1u32, 1u32), (2, 2), (3, 3), (4, 4), (5, 5)].into_iter().collect();
    assert_eq!(map.lower(&3).unwrap(), &2u32);
    assert_eq!(map.into_iter().collect::<Vec<(u32, u32)>>(), vec![(1u32, 1u32), (2, 2), (3, 3), (4, 4), (5, 5)]);
}

#[test]
fn test_lower_remove() {
    let mut map: BTreeMap<u32, u32> = vec![(1u32, 1u32), (2, 2), (3, 3), (4, 4), (5, 5)].into_iter().collect();
    assert_eq!(map.lower_remove(&3).unwrap(), (2u32, 2u32));
    assert_eq!(map.into_iter().collect::<Vec<(u32, u32)>>(), vec![(1u32, 1u32), (3, 3), (4, 4), (5, 5)]);
}

#[test]
fn test_range_iter() {
    let map: BTreeMap<u32, u32> = vec![(1u32, 1u32), (2, 2), (3, 3), (4, 4), (5, 5)].into_iter().collect();
    assert_eq!(drain_front(map.range_iter(&2, &4)), vec![(2u32, 2u32), (3, 3)]);
}

#[test]
fn test_range_iter_mut() {
    let mut map: BTreeMap<u32, u32> = vec![(1u32, 1u32), (2, 2), (3, 3), (4, 4), (5, 5)].into_iter().collect();
    map.range_iter_mut(&2, &4, |_, v| *v + 1);
    assert_eq!(map.into_iter().collect::<Vec<(u32, u32)>>(),
        vec![(1u32, 1u32), (2, 3), (3, 4), (4, 4), (5, 5)]);
}

#[test]
fn test_range_remove_iter() {
    let mut map: BTreeMap<u32, u32> = vec![(1u32, 1u32), (2, 2), (3, 3), (4, 4), (5, 5)].into_iter().collect();
    assert_eq!(drain_removed(map.range_remove_iter(&2, &4)), vec![(2u32, 2u32), (3, 3)]);
    assert_eq!(map.into_iter().collect::<Vec<(u32, u32)>>(),
        vec![(1u32, 1u32), (4, 4), (5, 5)]);
}

#[test]
fn empty_map_finds_nothing() {
    let mut map: BTreeMap<u32, u32> = BTreeMap::new();
    assert_eq!(map.first(), None);
    assert_eq!(map.last(), None);
    assert_eq!(map.ceiling(&3), None);
    assert_eq!(map.floor(&3), None);
    assert_eq!(map.higher(&3), None);
    assert_eq!(map.lower(&3), None);
    assert_eq!(map.first_remove(), None);
    assert_eq!(map.last_remove(), None);
    assert_eq!(map.ceiling_remove(&3), None);
    assert_eq!(map.floor_remove(&3), None);
    assert_eq!(map.higher_remove(&3), None);
    assert_eq!(map.lower_remove(&3), None);
    assert_eq!(map.range_iter(&0, &10).len(), 0);
    assert_eq!(map.range_remove_iter(&0, &10).len(), 0);
    assert!(map.is_empty());
}

#[test]
fn nearest_keys_between_gaps() {
    let map: BTreeMap<u32, u32> = vec![(10u32, 100u32), (20, 200), (30, 300)].into_iter().collect();
    assert_eq!(map.ceiling(&15), Some(&20));
    assert_eq!(map.floor(&15), Some(&10));
    assert_eq!(map.higher(&15), Some(&20));
    assert_eq!(map.lower(&15), Some(&10));
    assert_eq!(map.ceiling(&31), None);
    assert_eq!(map.floor(&9), None);
    assert_eq!(map.higher(&30), None);
    assert_eq!(map.lower(&10), None);
}

#[test]
fn present_key_is_own_ceiling_and_floor() {
    let map = sample();
    for q in 1u32..=5 {
        assert_eq!(map.ceiling(&q), Some(&q));
        assert_eq!(map.floor(&q), Some(&q));
        assert_ne!(map.higher(&q), Some(&q));
        assert_ne!(map.lower(&q), Some(&q));
    }
}

#[test]
fn located_keys_respect_order() {
    let map: BTreeMap<u32, u32> = vec![(2u32, 0u32), (4, 0), (8, 0)].into_iter().collect();
    for q in 0u32..10 {
        if let (Some(l), Some(h)) = (map.lower(&q), map.higher(&q)) {
            assert!(*l < q && q < *h);
        }
        if let (Some(f), Some(c)) = (map.floor(&q), map.ceiling(&q)) {
            assert!(*f <= q && q <= *c);
        }
    }
    assert_eq!(map.lower(&5), Some(&4));
    assert_eq!(map.higher(&5), Some(&8));
}

#[test]
fn endpoints_bound_every_key() {
    let map: BTreeMap<u32, u32> = vec![(7u32, 1u32), (3, 1), (9, 1), (5, 1)].into_iter().collect();
    let first = *map.first().unwrap();
    let last = *map.last().unwrap();
    assert_eq!((first, last), (3, 9));
    for k in map.keys() {
        assert!(first <= *k && *k <= last);
    }
}

#[test]
fn extreme_keys() {
    let map: BTreeMap<u32, u32> = vec![(0u32, 1u32), (u32::MAX, 2)].into_iter().collect();
    assert_eq!(map.higher(&u32::MAX), None);
    assert_eq!(map.lower(&0), None);
    assert_eq!(map.higher(&0), Some(&u32::MAX));
    assert_eq!(map.lower(&u32::MAX), Some(&0));
    assert_eq!(map.first(), Some(&0));
    assert_eq!(map.last(), Some(&u32::MAX));
    assert_eq!(drain_front(map.range_iter(&0, &u32::MAX)), vec![(0u32, 1u32)]);
}

#[test]
fn destructive_query_returns_located_entry() {
    let mut map: BTreeMap<u32, u32> = vec![(10u32, 100u32), (20, 200), (30, 300)].into_iter().collect();
    let located = *map.ceiling(&15).unwrap();
    assert_eq!(map.ceiling_remove(&15), Some((located, 200)));
    assert_eq!(map.into_iter().collect::<Vec<(u32, u32)>>(), vec![(10u32, 100u32), (30, 300)]);

    let mut map: BTreeMap<u32, u32> = vec![(10u32, 100u32), (20, 200), (30, 300)].into_iter().collect();
    assert_eq!(map.lower_remove(&30), Some((20, 200)));
    assert_eq!(map.floor_remove(&9), None);
    assert_eq!(map.into_iter().collect::<Vec<(u32, u32)>>(), vec![(10u32, 100u32), (30, 300)]);
}

#[test]
fn range_read_from_back_descends() {
    let map = sample();
    let mut it = map.range_iter(&1, &5);
    assert_eq!(it.size_hint(), (4, Some(4)));
    let mut back = Vec::new();
    while let Some((k, v)) = it.next_back() {
        back.push((*k, *v));
    }
    assert_eq!(back, vec![(4u32, 4u32), (3, 3), (2, 2), (1, 1)]);
}

#[test]
fn range_read_from_both_ends() {
    let map = sample();
    let mut it = map.range_iter(&2, &6);
    assert_eq!(it.next(), Some((&2, &2)));
    assert_eq!(it.next_back(), Some((&5, &5)));
    assert_eq!(it.len(), 2);
    assert_eq!(it.next(), Some((&3, &3)));
    assert_eq!(it.next_back(), Some((&4, &4)));
    assert_eq!(it.next(), None);
    assert_eq!(it.next_back(), None);
}

#[test]
fn inverted_or_empty_range_is_empty() {
    let mut map = sample();
    assert_eq!(drain_front(map.range_iter(&4, &2)), vec![]);
    assert_eq!(drain_front(map.range_iter(&3, &3)), vec![]);
    assert_eq!(drain_removed(map.range_remove_iter(&4, &2)), vec![]);
    map.range_iter_mut(&4, &2, |_, v| *v + 100);
    assert_eq!(map, sample());
}

#[test]
fn range_bounds_need_not_be_keys() {
    let map: BTreeMap<u32, u32> = vec![(10u32, 1u32), (20, 2), (30, 3), (40, 4)].into_iter().collect();
    assert_eq!(drain_front(map.range_iter(&15, &35)), vec![(20u32, 2u32), (30, 3)]);
    assert_eq!(drain_front(map.range_iter(&0, &100)), vec![(10u32, 1u32), (20, 2), (30, 3), (40, 4)]);
}

#[test]
fn range_removal_matches_range_read_and_spares_the_rest() {
    let mut map: BTreeMap<u32, u32> = vec![(10u32, 1u32), (20, 2), (30, 3), (40, 4)].into_iter().collect();
    let read = drain_front(map.range_iter(&15, &40));
    let mut removed = map.range_remove_iter(&15, &40);
    assert_eq!(removed.len(), 2);
    assert_eq!(removed.size_hint(), (2, Some(2)));
    assert_eq!(removed.next_back(), Some((30, 3)));
    assert_eq!(removed.len(), 1);
    assert_eq!(removed.next(), Some((20, 2)));
    assert_eq!(removed.next(), None);
    assert_eq!(read, vec![(20u32, 2u32), (30, 3)]);
    assert_eq!(drain_front(map.range_iter(&15, &40)), vec![]);
    assert_eq!(map.into_iter().collect::<Vec<(u32, u32)>>(), vec![(10u32, 1u32), (40, 4)]);
}

#[test]
fn range_update_sees_key_and_value() {
    let mut map: BTreeMap<u32, u32> = vec![(10u32, 1u32), (20, 2), (30, 3)].into_iter().collect();
    map.range_iter_mut(&20, &u32::MAX, |k, v| *k + *v);
    assert_eq!(map.into_iter().collect::<Vec<(u32, u32)>>(), vec![(10u32, 1u32), (20, 22), (30, 33)]);
}

#[test]
fn scenario_on_five_entries() {
    let map = sample();
    assert_eq!(map.ceiling(&3), Some(&3));
    assert_eq!(map.floor(&3), Some(&3));
    assert_eq!(map.higher(&3), Some(&4));
    assert_eq!(map.lower(&3), Some(&2));
    assert_eq!(drain_front(map.range_iter(&2, &4)), vec![(2u32, 2u32), (3, 3)]);

    let mut removed = sample();
    assert_eq!(drain_removed(removed.range_remove_iter(&2, &4)), vec![(2u32, 2u32), (3, 3)]);
    assert_eq!(removed.into_iter().collect::<Vec<(u32, u32)>>(), vec![(1u32, 1u32), (4, 4), (5, 5)]);

    let mut popped = sample();
    assert_eq!(popped.first_remove(), Some((1, 1)));
    assert_eq!(popped.into_iter().collect::<Vec<(u32, u32)>>(), vec![(2u32, 2u32), (3, 3), (4, 4), (5, 5)]);
}

#[test]
fn values_need_not_be_integers() {
    let mut map: BTreeMap<u32, String> = BTreeMap::new();
    map.insert(2, "two".to_string());
    map.insert(7, "seven".to_string());
    assert_eq!(map.ceiling_remove(&3), Some((7, "seven".to_string())));
    assert_eq!(map.last(), Some(&2));
}
