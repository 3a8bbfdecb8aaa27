use alloy_primitives::map::{B256Map, HashMap};
use alloy_primitives::{keccak256, B256};
use reth_components::changeset_cache::{
    CacheLookup, ChangesetCache, ChangesetCacheInner, ChangesetCacheMetrics, Source,
};
use reth_components::trie_updates::{Nibbles, TrieUpdatesSorted};
use std::cell::Cell;
use std::sync::Arc;

fn create_test_changesets() -> Arc<TrieUpdatesSorted> {
    Arc::new(TrieUpdatesSorted::new(vec![], B256Map::default()))
}

/// Changesets that can be told from others: one removed account node.
fn marked_changesets(mark: u8) -> TrieUpdatesSorted {
    let path = Nibbles { high: (mark as u128) << 120, low: 0, len: 2 };
    TrieUpdatesSorted::new(vec![(path, None)], B256Map::default())
}

/// A hash that no other number has.
fn hash_of(number: u64) -> B256 {
    keccak256(number.to_be_bytes())
}

#[test]
fn test_insert_and_retrieve_single_entry() {
    let mut cache = ChangesetCacheInner::<()>::new();
    let hash = hash_of(1);
    let changesets = create_test_changesets();

    cache.insert(hash, 100, Arc::clone(&changesets));

    let retrieved = cache.get(&hash);
    assert!(retrieved.is_some());
    assert_eq!(cache.entries.len(), 1);
}

#[test]
fn test_insert_multiple_entries() {
    let mut cache = ChangesetCacheInner::<()>::new();

    let mut hashes = Vec::new();
    for i in 0..10 {
        let hash = hash_of(i);
        cache.insert(hash, 100 + i, create_test_changesets());
        hashes.push(hash);
    }

    assert_eq!(cache.entries.len(), 10);
    for hash in &hashes {
        assert!(cache.get(hash).is_some());
    }
}

#[test]
fn test_eviction_when_explicitly_called() {
    let mut cache = ChangesetCacheInner::<()>::new();

    let mut hashes = Vec::new();
    for i in 0..15 {
        let hash = hash_of(i);
        cache.insert(hash, i, create_test_changesets());
        hashes.push((i, hash));
    }

    assert_eq!(cache.entries.len(), 15);

    cache.evict(4);

    assert_eq!(cache.entries.len(), 11);

    for i in 0..4 {
        assert!(cache.get(&hashes[i as usize].1).is_none(), "Block {} should be evicted", i);
    }

    for i in 4..15 {
        assert!(cache.get(&hashes[i as usize].1).is_some(), "Block {} should be present", i);
    }
}

#[test]
fn test_eviction_with_persistence_watermark() {
    let mut cache = ChangesetCacheInner::<()>::new();

    let mut hashes = HashMap::new();
    for i in 100..=165 {
        let hash = hash_of(i);
        cache.insert(hash, i, create_test_changesets());
        hashes.insert(i, hash);
    }

    assert_eq!(cache.entries.len(), 66);

    cache.evict(100);

    assert_eq!(cache.entries.len(), 66);

    cache.evict(101);

    assert_eq!(cache.entries.len(), 65);
    assert!(cache.get(&hashes[&100]).is_none());
    assert!(cache.get(&hashes[&101]).is_some());
}

#[test]
fn test_out_of_order_inserts_with_explicit_eviction() {
    let mut cache = ChangesetCacheInner::<()>::new();

    let hash_10 = hash_of(10);
    cache.insert(hash_10, 10, create_test_changesets());

    let hash_5 = hash_of(5);
    cache.insert(hash_5, 5, create_test_changesets());

    let hash_15 = hash_of(15);
    cache.insert(hash_15, 15, create_test_changesets());

    let hash_3 = hash_of(3);
    cache.insert(hash_3, 3, create_test_changesets());

    assert_eq!(cache.entries.len(), 4);

    cache.evict(5);

    assert!(cache.get(&hash_3).is_none(), "Block 3 should be evicted");
    assert!(cache.get(&hash_5).is_some(), "Block 5 should be present");
    assert!(cache.get(&hash_10).is_some(), "Block 10 should be present");
    assert!(cache.get(&hash_15).is_some(), "Block 15 should be present");
}

#[test]
fn test_multiple_blocks_same_number() {
    let mut cache = ChangesetCacheInner::<()>::new();

    let hash_1a = hash_of(1);
    let hash_1b = hash_of(2);
    cache.insert(hash_1a, 100, create_test_changesets());
    cache.insert(hash_1b, 100, create_test_changesets());

    assert!(cache.get(&hash_1a).is_some());
    assert!(cache.get(&hash_1b).is_some());
    assert_eq!(cache.entries.len(), 2);
}

#[test]
fn test_eviction_removes_all_side_chains() {
    let mut cache = ChangesetCacheInner::<()>::new();

    let hash_10a = hash_of(1);
    let hash_10b = hash_of(2);
    let hash_10c = hash_of(3);
    cache.insert(hash_10a, 10, create_test_changesets());
    cache.insert(hash_10b, 10, create_test_changesets());
    cache.insert(hash_10c, 10, create_test_changesets());

    let hash_20 = hash_of(4);
    cache.insert(hash_20, 20, create_test_changesets());

    assert_eq!(cache.entries.len(), 4);

    cache.evict(15);

    assert_eq!(cache.entries.len(), 1);
    assert!(cache.get(&hash_10a).is_none());
    assert!(cache.get(&hash_10b).is_none());
    assert!(cache.get(&hash_10c).is_none());
    assert!(cache.get(&hash_20).is_some());
}

#[test]
fn evictions_compose_and_commute_with_insertion() {
    let mut cache = ChangesetCache::<()>::default();
    for number in 0..10 {
        cache.insert(hash_of(number), number, create_test_changesets());
    }
    cache.evict(7);
    cache.evict(3);
    assert_eq!(cache.len(), 3);
    cache.insert(hash_of(20), 8, create_test_changesets());
    assert_eq!(cache.len(), 4);
    cache.evict(8);
    assert_eq!(cache.len(), 3);
    assert!(cache.get(&hash_of(20)).is_some());
    assert!(cache.get(&hash_of(7)).is_none());
}

#[test]
fn a_block_inserted_again_at_a_higher_number_is_retained() {
    let mut cache = ChangesetCache::<()>::new();
    cache.insert(hash_of(1), 5, Arc::new(marked_changesets(1)));
    cache.insert(hash_of(1), 20, Arc::new(marked_changesets(2)));
    cache.evict(10);
    assert_eq!(*cache.get(&hash_of(1)).unwrap(), marked_changesets(2));
    cache.evict(21);
    assert_eq!(cache.len(), 0);
}

#[test]
fn a_cached_block_is_served_from_the_cache() {
    let mut cache = ChangesetCache::<u32>::new();
    cache.insert(hash_of(1), 1, Arc::new(marked_changesets(1)));
    let served = cache
        .get_or_compute_with(
            hash_of(1),
            1,
            |_: &u32| panic!("nothing is pending"),
            || -> Result<TrieUpdatesSorted, String> { panic!("it is cached") },
        )
        .unwrap();
    assert_eq!(*served.changesets, marked_changesets(1));
    assert_eq!(served.source, Source::Cache);
    assert!(served.woken.is_none());
}

#[test]
fn a_pending_block_is_waited_for() {
    let mut cache = ChangesetCache::<u32>::new();
    let _ = cache.register_pending(hash_of(1), 7, 7);
    let served = cache
        .get_or_compute_with(
            hash_of(1),
            1,
            |pending: &u32| {
                assert_eq!(*pending, 7);
                Some(Arc::new(marked_changesets(2)))
            },
            || -> Result<TrieUpdatesSorted, String> { panic!("it is pending") },
        )
        .unwrap();
    assert_eq!(*served.changesets, marked_changesets(2));
    assert_eq!(served.source, Source::Pending);
    assert!(served.woken.is_none());
    assert!(cache.get(&hash_of(1)).is_none());
}

#[test]
fn a_cancelled_computation_falls_through_to_computing() {
    let mut cache = ChangesetCache::<u32>::new();
    let _ = cache.register_pending(hash_of(1), 7, 7);
    let served = cache
        .get_or_compute_with(
            hash_of(1),
            1,
            |_: &u32| None,
            || -> Result<TrieUpdatesSorted, String> { Ok(marked_changesets(3)) },
        )
        .unwrap();
    assert_eq!(*served.changesets, marked_changesets(3));
    assert_eq!(served.source, Source::Computed);
    assert_eq!(served.woken, Some(7));
    assert_eq!(*cache.get(&hash_of(1)).unwrap(), marked_changesets(3));
    assert!(matches!(cache.lookup(&hash_of(1)), CacheLookup::Hit(_)));
}

#[test]
fn a_failed_computation_leaves_the_cache_alone() {
    let mut cache = ChangesetCache::<u32>::new();
    let result = cache.get_or_compute_with(
        hash_of(1),
        1,
        |_: &u32| None,
        || -> Result<TrieUpdatesSorted, String> { Err("no database".to_string()) },
    );
    assert_eq!(result.err(), Some("no database".to_string()));
    assert_eq!(cache.len(), 0);
    assert!(matches!(cache.lookup(&hash_of(1)), CacheLookup::Miss));
}

#[test]
fn resolving_a_guard_inserts_and_wakes() {
    let mut cache = ChangesetCache::<u32>::new();
    let (mut guard, replaced) = cache.register_pending(hash_of(1), 7, 7);
    assert!(replaced.is_none());
    assert!(matches!(cache.lookup(&hash_of(1)), CacheLookup::Pending(7)));
    let woken = guard.resolve(&mut cache, 3, Arc::new(marked_changesets(1)));
    assert_eq!(woken, Some(7));
    assert!(matches!(cache.lookup(&hash_of(1)), CacheLookup::Hit(_)));
    // A resolved guard has nothing to give up.
    let asked = Cell::new(false);
    let cancelled = guard.release(&mut cache, |_: &u32, _: &u32| {
        asked.set(true);
        true
    });
    assert!(cancelled.is_none());
    assert!(!asked.get());
    assert_eq!(cache.len(), 1);
}

#[test]
fn releasing_a_guard_cancels_its_registration() {
    let mut cache = ChangesetCache::<u32>::new();
    let (mut guard, _) = cache.register_pending(hash_of(1), 7, 7);
    let cancelled = guard.release(&mut cache, |a: &u32, b: &u32| a == b);
    assert_eq!(cancelled, Some(7));
    assert!(matches!(cache.lookup(&hash_of(1)), CacheLookup::Miss));
}

#[test]
fn releasing_a_guard_keeps_the_registration_of_another() {
    let mut cache = ChangesetCache::<u32>::new();
    let (mut first, _) = cache.register_pending(hash_of(1), 7, 7);
    let (_second, replaced) = cache.register_pending(hash_of(1), 8, 8);
    assert_eq!(replaced, Some(7));
    let cancelled = first.release(&mut cache, |a: &u32, b: &u32| a == b);
    assert!(cancelled.is_none());
    assert!(matches!(cache.lookup(&hash_of(1)), CacheLookup::Pending(8)));
}

#[test]
fn the_cache_grows_by_one_for_a_new_block() {
    let mut cache = ChangesetCache::<u32>::new();
    for number in 0..5 {
        assert_eq!(cache.len() as u64, number);
        cache.insert(hash_of(number), number, create_test_changesets());
    }
    cache.insert(hash_of(2), 2, create_test_changesets());
    assert_eq!(cache.len(), 5);
}

#[test]
fn the_cache_has_what_was_last_inserted() {
    let mut cache = ChangesetCache::<u32>::new();
    let hash = hash_of(1);
    cache.insert(hash, 10, Arc::new(marked_changesets(1)));
    cache.evict(5);
    cache.insert(hash_of(2), 10, Arc::new(marked_changesets(9)));
    assert_eq!(*cache.get(&hash).unwrap(), marked_changesets(1));
    let (mut guard, _) = cache.register_pending(hash, 7, 7);
    guard.resolve(&mut cache, 10, Arc::new(marked_changesets(2)));
    assert_eq!(*cache.get(&hash).unwrap(), marked_changesets(2));
    cache.evict(11);
    assert!(cache.get(&hash).is_none());
    cache.insert(hash, 10, Arc::new(marked_changesets(3)));
    assert_eq!(*cache.get(&hash).unwrap(), marked_changesets(3));
    assert_eq!(cache.len(), 1);
}

#[test]
fn hashes_are_listed_under_their_number_in_order() {
    let mut cache = ChangesetCacheInner::<()>::default();
    cache.insert(hash_of(1), 10, create_test_changesets());
    cache.insert(hash_of(2), 11, create_test_changesets());
    cache.insert(hash_of(3), 10, create_test_changesets());
    assert_eq!(cache.block_numbers.len(), 2);
    assert_eq!(cache.block_numbers[&10], vec![hash_of(1), hash_of(3)]);
    assert_eq!(cache.block_numbers[&11], vec![hash_of(2)]);
    assert_eq!(cache.evict(11), 2);
    assert_eq!(cache.block_numbers.len(), 1);
    assert_eq!(cache.evict(11), 0);
}

#[test]
fn lookups_insertions_and_evictions_are_counted() {
    let mut cache = ChangesetCache::<u32>::new();
    let mut metrics = ChangesetCacheMetrics::default();
    assert!(cache.get_recorded(&hash_of(1), &mut metrics).is_none());
    for number in 0..4 {
        cache.insert(hash_of(number), number, Arc::new(marked_changesets(number as u8)));
        metrics.record_insertion(cache.len());
    }
    assert_eq!(*cache.get_recorded(&hash_of(1), &mut metrics).unwrap(), marked_changesets(1));
    assert_eq!(*cache.get_recorded(&hash_of(3), &mut metrics).unwrap(), marked_changesets(3));
    assert_eq!(metrics, ChangesetCacheMetrics { hits: 2, misses: 1, evictions: 0, size: 4 });
    let evicted = cache.evict(3);
    assert_eq!(evicted, 3);
    metrics.record_eviction(evicted, cache.len());
    assert_eq!(metrics, ChangesetCacheMetrics { hits: 2, misses: 1, evictions: 3, size: 1 });
    // An eviction that removes nothing is not noted.
    metrics.record_eviction(0, 77);
    assert_eq!(metrics.size, 1);
    let mut full = ChangesetCacheMetrics { hits: u64::MAX, ..metrics };
    full.record_lookup(true);
    assert_eq!(full.hits, 0);
}
