use alloy_primitives::map::B256Map;
use alloy_primitives::{keccak256, B256};
use reth_components::block_changesets::{
    compute_block_trie_changesets, compute_block_trie_changesets_from_reverts, TrieSources,
};
use reth_components::block_updates::{
    collect_trie_updates, compute_block_trie_updates, TrieCursors,
};
use reth_components::changeset_cache::{CacheLookup, ChangesetCache};
use reth_components::hashed_state::{Account, HashedPostState, HashedStorage};
use reth_components::primitives::{Address, U256};
use reth_components::range_walk::{
    check_range, BlockRange, ChangesetSources, ProviderError, RangeWalk,
};
use reth_components::repeat_laws::get_settled_range;
use reth_components::trie_updates::{
    BranchNodeCompact, Nibbles, StorageTrieUpdatesSorted, TrieUpdatesSorted,
};
use std::cell::RefCell;
use std::sync::Arc;

fn address(last: u8) -> Address {
    let mut address = [0u8; 20];
    address[19] = last;
    address
}

fn put_account(revert: &mut HashedPostState, address: Address, nonce: u64) {
    revert.accounts.insert(
        keccak256(address),
        Some(Account { nonce, balance: U256::from_u64(nonce), bytecode_hash: None }),
    );
}

fn put_storage(revert: &mut HashedPostState, address: Address, slot: u64, value: u64) {
    let storage = revert
        .storages
        .entry(keccak256(address))
        .or_insert_with(|| HashedStorage { wiped: false, storage: B256Map::default() });
    storage.storage.insert(keccak256(U256::from_u64(slot).be_bytes), U256::from_u64(value));
}

/// What blocks 1 to 5 recorded. Block 4 changed nothing.
fn block_revert(block: u64) -> HashedPostState {
    let (a, b, c) = (address(1), address(2), address(3));
    let mut revert = HashedPostState::default();
    match block {
        1 => {
            put_account(&mut revert, a, 1);
            put_account(&mut revert, b, 1);
            put_storage(&mut revert, a, 1, 100);
            put_storage(&mut revert, b, 2, 200);
        }
        2 => {
            put_account(&mut revert, a, 2);
            put_storage(&mut revert, a, 1, 101);
            put_storage(&mut revert, c, 3, 300);
        }
        3 => {
            put_account(&mut revert, c, 3);
            put_storage(&mut revert, b, 2, 201);
        }
        5 => {
            put_account(&mut revert, a, 5);
            put_storage(&mut revert, a, 4, 500);
        }
        _ => {}
    }
    revert
}

const DB_TIP: u64 = 5;

/// Reads the revert of all blocks from `first` on: the oldest occurrence of each key wins.
fn revert_from(first: u64) -> HashedPostState {
    let mut revert = HashedPostState::default();
    for block in first..=DB_TIP {
        let own = block_revert(block);
        for (hash, account) in own.accounts {
            revert.accounts.entry(hash).or_insert(account);
        }
        for (hash, storage) in own.storages {
            let target = revert
                .storages
                .entry(hash)
                .or_insert_with(|| HashedStorage { wiped: false, storage: B256Map::default() });
            for (slot, value) in storage.storage {
                target.storage.entry(slot).or_insert(value);
            }
        }
    }
    revert
}

fn path_of(hash: &B256) -> Nibbles {
    let (high, low) = hash.split_at(16);
    Nibbles {
        high: u128::from_be_bytes(high.try_into().unwrap()),
        low: u128::from_be_bytes(low.try_into().unwrap()),
        len: 64,
    }
}

fn node(mark: u16) -> BranchNodeCompact {
    BranchNodeCompact {
        state_mask: mark,
        tree_mask: 0,
        hash_mask: 0,
        hashes: Arc::new(vec![]),
        root_hash: None,
    }
}

/// Stands for a trie: every looked-at account of the state becomes a node that carries its nonce.
fn root_updates(
    nodes: &TrieUpdatesSorted,
    state: &HashedPostState,
    paths: &HashedPostState,
) -> Result<TrieUpdatesSorted, String> {
    let mut found: Vec<_> = paths
        .accounts
        .keys()
        .map(|hash| {
            let nonce = state.accounts.get(hash).and_then(|a| *a).map_or(0, |a| a.nonce);
            let mark = nonce + 100 * nodes.account_nodes.len() as u64;
            (path_of(hash), Some(node(mark as u16)))
        })
        .collect();
    found.sort_by_key(|(path, _)| (path.high, path.low));
    let tries = paths
        .storages
        .keys()
        .map(|hash| {
            let trie = StorageTrieUpdatesSorted { is_deleted: false, storage_nodes: vec![] };
            (*hash, trie)
        })
        .collect();
    Ok(TrieUpdatesSorted::new(found, tries))
}

/// Stands for the old values of updated nodes: those of the overlay.
fn old_nodes(
    nodes: &TrieUpdatesSorted,
    updates: &TrieUpdatesSorted,
) -> Result<TrieUpdatesSorted, String> {
    let found = updates
        .account_nodes
        .iter()
        .map(|(path, _)| {
            let old = nodes.account_nodes.iter().find(|(p, _)| p == path);
            (*path, old.and_then(|(_, node)| node.clone()))
        })
        .collect();
    Ok(TrieUpdatesSorted::new(found, updates.storage_tries.clone()))
}

fn compute(
    _block: u64,
    revert: &HashedPostState,
    cumulative: &HashedPostState,
) -> Result<TrieUpdatesSorted, String> {
    let tries = TrieSources { root_updates, changesets: old_nodes };
    compute_block_trie_changesets_from_reverts(&tries, revert, cumulative)
}

#[test]
fn incremental_cumulative_revert_matches_from_scratch() {
    let mut cumulative = revert_from(DB_TIP + 1);

    for block in (1..=DB_TIP).rev() {
        let expected_cumulative = revert_from(block + 1);
        assert_eq!(cumulative, expected_cumulative, "cumulative revert mismatch at block {block}");

        let individual = block_revert(block);

        let from_scratch = compute_block_trie_changesets(
            None,
            block,
            &|n| Ok::<_, String>(block_revert(n)),
            &|n| Ok(revert_from(n)),
            &compute,
        )
        .unwrap();
        let incremental = compute(block, &individual, &cumulative).unwrap();
        assert_eq!(from_scratch, incremental, "block trie changesets mismatch at block {block}");

        cumulative.extend_ref(&individual);
    }

    let full = revert_from(1);
    assert_eq!(cumulative, full, "final cumulative should span the whole range");
}

#[test]
fn a_walk_carries_the_cumulative_revert_of_each_block() {
    let mut walk = RangeWalk::new(2, 4, revert_from(5));
    for block in [4, 3, 2] {
        assert_eq!(walk.next, Some(block));
        assert_eq!(walk.cumulative, revert_from(block + 1));
        let changesets = compute(block, &block_revert(block), &walk.cumulative).unwrap();
        walk.advance(&block_revert(block), &changesets);
    }
    assert_eq!(walk.next, None);
    assert_eq!(walk.cumulative, revert_from(2));
    assert_eq!(walk.finish().account_nodes.len(), 2);
}

#[test]
fn an_empty_range_gives_nothing() {
    let walk = RangeWalk::new(5, 4, HashedPostState::default());
    assert_eq!(walk.next, None);
    assert_eq!(walk.finish(), TrieUpdatesSorted::default());
}

#[test]
fn a_range_that_starts_at_zero_ends_there() {
    let mut walk = RangeWalk::new(0, 0, HashedPostState::default());
    assert_eq!(walk.next, Some(0));
    walk.advance(&HashedPostState::default(), &TrieUpdatesSorted::default());
    assert_eq!(walk.next, None);
}

#[test]
fn ranges_beyond_the_database_are_refused() {
    assert_eq!(
        check_range::<String>(None, 3, 4),
        Err(ProviderError::InsufficientChangesets {
            requested: 3,
            available: BlockRange { first: 0, last: 0 },
        })
    );
    assert_eq!(
        check_range::<String>(Some(7), 3, 8),
        Err(ProviderError::InsufficientChangesets {
            requested: 8,
            available: BlockRange { first: 0, last: 7 },
        })
    );
    assert_eq!(check_range::<String>(Some(7), 3, 7), Ok(()));
}

fn hash_of(block: u64) -> B256 {
    keccak256(block.to_be_bytes())
}

fn wait(_: &u32) -> Option<Arc<TrieUpdatesSorted>> {
    None
}

fn uncalled(
    _: u64,
    _: &HashedPostState,
    _: &HashedPostState,
) -> Result<TrieUpdatesSorted, String> {
    panic!("it is cached")
}

#[test]
fn a_range_is_accumulated_from_the_newest_block_to_the_oldest() {
    let visited = RefCell::new(Vec::new());
    let sources = ChangesetSources {
        block_hash: |n: u64| Ok::<_, String>(Some(hash_of(n))),
        revert: |n: u64| {
            visited.borrow_mut().push(n);
            Ok(block_revert(n))
        },
        wait,
        compute,
    };
    let mut cache = ChangesetCache::<u32>::new();
    let _ = cache.register_pending(hash_of(3), 9, 9);
    let outcome =
        cache.get_or_compute_range(Some(DB_TIP), 1, DB_TIP, &|n| Ok(revert_from(n)), &sources);
    assert_eq!(*visited.borrow(), vec![5, 4, 3, 2, 1]);
    assert_eq!(cache.len(), 5);
    assert_eq!(outcome.woken.len(), 1);
    assert_eq!(outcome.woken[0].0, 9);
    assert_eq!(outcome.woken[0].1, cache.get(&hash_of(3)).unwrap());

    // Older changesets overwrite newer ones.
    let mut expected = TrieUpdatesSorted::default();
    for block in (1..=DB_TIP).rev() {
        expected.extend_ref_and_sort(&cache.get(&hash_of(block)).unwrap());
    }
    let accumulated = outcome.result.unwrap();
    assert_eq!(accumulated, expected);
    let oldest = cache.get(&hash_of(1)).unwrap();
    for (path, value) in &oldest.account_nodes {
        assert!(accumulated.account_nodes.contains(&(*path, value.clone())));
    }

    // A second walk finds everything in the cache.
    let again = cache.get_or_compute_range(
        Some(DB_TIP),
        1,
        DB_TIP,
        &|n| Ok(revert_from(n)),
        &ChangesetSources {
            block_hash: |n: u64| Ok::<_, String>(Some(hash_of(n))),
            revert: |n: u64| Ok(block_revert(n)),
            wait,
            compute: uncalled,
        },
    );
    assert_eq!(again.result.unwrap(), accumulated);
    assert!(again.woken.is_empty());
    let settled = get_settled_range(
        &mut cache,
        Some(DB_TIP),
        1,
        DB_TIP,
        &|n| Ok(revert_from(n)),
        &ChangesetSources {
            block_hash: |n: u64| Ok::<_, String>(Some(hash_of(n))),
            revert: |n: u64| Ok(block_revert(n)),
            wait,
            compute: uncalled,
        },
    );
    assert_eq!(settled.result.unwrap(), accumulated);
}

#[test]
fn a_walk_stops_at_the_first_failure() {
    let sources = ChangesetSources {
        block_hash: |n: u64| Ok::<_, String>(if n == 3 { None } else { Some(hash_of(n)) }),
        revert: |n: u64| Ok(block_revert(n)),
        wait,
        compute,
    };
    let mut cache = ChangesetCache::<u32>::new();
    let outcome = cache.get_or_compute_range(Some(5), 1, 5, &|n| Ok(revert_from(n)), &sources);
    assert_eq!(outcome.result, Err(ProviderError::BlockHashNotFound { block_number: 3 }));
    assert_eq!(cache.len(), 2);

    let outcome =
        cache.get_or_compute_range(Some(5), 1, 5, &|_| Err("gone".to_string()), &sources);
    assert_eq!(outcome.result, Err(ProviderError::Other("gone".to_string())));

    let outcome = cache.get_or_compute_range(Some(5), 1, 6, &|n| Ok(revert_from(n)), &sources);
    assert!(matches!(
        outcome.result,
        Err(ProviderError::InsufficientChangesets { requested: 6, .. })
    ));
}

#[test]
fn a_single_block_is_computed_once() {
    let sources = ChangesetSources {
        block_hash: |n: u64| Ok::<_, String>(Some(hash_of(n))),
        revert: |n: u64| Ok(block_revert(n)),
        wait,
        compute,
    };
    let mut cache = ChangesetCache::<u32>::new();
    let newer = |n| Ok(revert_from(n));
    let first = cache.get_or_compute(hash_of(2), 2, Some(5), &newer, &sources).unwrap();
    let second = cache.get_or_compute(hash_of(2), 2, None, &newer, &sources).unwrap();
    assert_eq!(first.changesets, second.changesets);
    assert!(matches!(
        cache.get_or_compute(hash_of(6), 6, Some(5), &newer, &sources),
        Err(ProviderError::InsufficientChangesets {
            requested: 6,
            available: BlockRange { first: 0, last: 5 },
        })
    ));
    assert_eq!(cache.len(), 1);
}

#[test]
fn only_blocks_above_a_known_tip_are_refused() {
    let revert = |n| Ok::<_, String>(block_revert(n));
    let newer = |n| Ok(revert_from(n));
    let without = compute_block_trie_changesets(None, 3, &revert, &newer, &compute).unwrap();
    let at_tip = compute_block_trie_changesets(Some(3), 3, &revert, &newer, &compute).unwrap();
    assert_eq!(without, at_tip);
    assert_eq!(without, compute(3, &block_revert(3), &revert_from(4)).unwrap());
    assert_eq!(
        compute_block_trie_changesets(Some(2), 3, &revert, &newer, &compute),
        Err(ProviderError::InsufficientChangesets {
            requested: 3,
            available: BlockRange { first: 0, last: 2 },
        })
    );

    let sources = ChangesetSources {
        block_hash: |n: u64| Ok::<_, String>(Some(hash_of(n))),
        revert,
        wait,
        compute,
    };
    let mut cache = ChangesetCache::<u32>::new();
    let served = cache.get_or_compute(hash_of(3), 3, None, &newer, &sources).unwrap();
    assert_eq!(*served.changesets, without);

    // A cached block is neither read nor computed again.
    let unread = |_: u64| -> Result<HashedPostState, String> { panic!("it is cached") };
    let sources = ChangesetSources {
        block_hash: |_: u64| -> Result<Option<B256>, String> { panic!("the hash is given") },
        revert: unread,
        wait,
        compute: uncalled,
    };
    let served = cache.get_or_compute(hash_of(3), 3, None, &unread, &sources).unwrap();
    assert_eq!(*served.changesets, without);
}

#[test]
fn a_range_does_not_depend_on_what_is_cached() {
    let sources = ChangesetSources {
        block_hash: |n: u64| Ok::<_, String>(Some(hash_of(n))),
        revert: |n: u64| Ok(block_revert(n)),
        wait,
        compute,
    };
    let newer = |n| Ok(revert_from(n));
    let mut empty = ChangesetCache::<u32>::new();
    let expected = empty.get_or_compute_range(Some(5), 1, 5, &newer, &sources).result.unwrap();
    for cached in 1..=5 {
        let mut cache = ChangesetCache::<u32>::new();
        cache.get_or_compute(hash_of(cached), cached, Some(5), &newer, &sources).unwrap();
        let outcome = cache.get_or_compute_range(Some(5), 1, 5, &newer, &sources);
        assert_eq!(outcome.result.unwrap(), expected);
        assert_eq!(cache.len(), 5);
    }
    for middle in 1..5 {
        let mut cache = ChangesetCache::<u32>::new();
        let mut parts =
            cache.get_or_compute_range(Some(5), middle + 1, 5, &newer, &sources).result.unwrap();
        let older = cache.get_or_compute_range(Some(5), 1, middle, &newer, &sources);
        parts.extend_ref_and_sort(&older.result.unwrap());
        assert_eq!(parts, expected);
    }
}

#[test]
fn a_revert_is_read_only_for_a_known_block() {
    let sources = ChangesetSources {
        block_hash: |_: u64| Ok::<Option<B256>, String>(None),
        revert: |_: u64| -> Result<HashedPostState, String> { panic!("the block is not known") },
        wait,
        compute,
    };
    let mut cache = ChangesetCache::<u32>::new();
    let outcome = cache.get_or_compute_range(Some(5), 1, 5, &|n| Ok(revert_from(n)), &sources);
    assert_eq!(outcome.result, Err(ProviderError::BlockHashNotFound { block_number: 5 }));
    let sources = ChangesetSources {
        block_hash: |n: u64| Ok::<_, String>(Some(hash_of(n))),
        revert: |n: u64| if n == 4 { Err("torn".to_string()) } else { Ok(block_revert(n)) },
        wait,
        compute,
    };
    let outcome = cache.get_or_compute_range(Some(5), 1, 5, &|n| Ok(revert_from(n)), &sources);
    assert_eq!(outcome.result, Err(ProviderError::Other("torn".to_string())));
    assert_eq!(cache.len(), 1);
}

#[test]
fn account_nodes_are_looked_up_before_storage_tries() {
    let trie = StorageTrieUpdatesSorted { is_deleted: false, storage_nodes: vec![] };
    let mut tries = B256Map::default();
    tries.insert(hash_of(1), trie);
    let changesets = TrieUpdatesSorted::new(vec![(path(1), None), (path(2), None)], tries);
    let asked = RefCell::new(Vec::new());
    let cursors = TrieCursors {
        account_cursor: || Ok::<(), String>(()),
        account_node: |_: &(), p: &Nibbles| {
            asked.borrow_mut().push(*p);
            if *p == path(2) {
                Err("torn".to_string())
            } else {
                Ok(None)
            }
        },
        storage_cursor: |_: &B256| -> Result<(), String> { panic!("an account node failed") },
        storage_node: |_: &(), _: &Nibbles| Ok(None),
    };
    assert_eq!(collect_trie_updates(&changesets, &cursors), Err("torn".to_string()));
    assert_eq!(*asked.borrow(), vec![path(1), path(2)]);
}

#[test]
fn the_inputs_of_a_computation_are_these() {
    let asked = RefCell::new(Vec::new());
    let tries = TrieSources {
        root_updates: |nodes: &TrieUpdatesSorted, state: &HashedPostState, paths: &HashedPostState| {
            asked.borrow_mut().push((nodes.clone(), state.clone(), paths.clone()));
            root_updates(nodes, state, paths)
        },
        changesets: |nodes: &TrieUpdatesSorted, updates: &TrieUpdatesSorted| {
            assert_eq!(nodes.account_nodes.len(), 2);
            assert_eq!(updates.account_nodes.len(), 1);
            old_nodes(nodes, updates)
        },
    };
    compute_block_trie_changesets_from_reverts(&tries, &block_revert(2), &revert_from(3)).unwrap();
    let asked = asked.into_inner();
    assert_eq!(asked.len(), 2);
    // The trie before the block: both reverts together, and every path of them.
    let mut both = revert_from(3);
    both.extend_ref(&block_revert(2));
    assert_eq!(asked[0].0, TrieUpdatesSorted::default());
    assert_eq!(asked[0].1, both);
    assert_eq!(asked[0].2, both);
    // The trie after the block, on top of that, at the paths that the block changed.
    assert_eq!(asked[1].0, root_updates(&asked[0].0, &both, &both).unwrap());
    assert_eq!(asked[1].1, revert_from(3));
    assert_eq!(asked[1].2, block_revert(2));
}

fn path(first: u8) -> Nibbles {
    Nibbles { high: (first as u128) << 120, low: 0, len: 2 }
}

#[test]
fn updates_have_the_nodes_of_the_changesets() {
    let trie = StorageTrieUpdatesSorted {
        is_deleted: true,
        storage_nodes: vec![(path(7), None), (path(8), Some(node(1)))],
    };
    let mut tries = B256Map::default();
    tries.insert(hash_of(1), trie);
    let changesets = TrieUpdatesSorted::new(vec![(path(1), Some(node(5))), (path(2), None)], tries);
    let cursors = TrieCursors {
        account_cursor: || Ok::<u16, String>(10),
        account_node: |mark: &u16, path: &Nibbles| {
            Ok(if path.high == 1 << 120 { Some(node(*mark)) } else { None })
        },
        storage_cursor: |address: &B256| {
            assert_eq!(*address, hash_of(1));
            Ok(20u16)
        },
        storage_node: |mark: &u16, _: &Nibbles| Ok(Some(node(*mark))),
    };
    let updates = collect_trie_updates(&changesets, &cursors).unwrap();
    assert_eq!(updates.account_nodes, vec![(path(1), Some(node(10))), (path(2), None)]);
    assert_eq!(updates.storage_tries.len(), 1);
    assert_eq!(
        updates.storage_tries[&hash_of(1)],
        StorageTrieUpdatesSorted {
            is_deleted: true,
            storage_nodes: vec![(path(7), Some(node(20))), (path(8), Some(node(20)))],
        }
    );
    let failing = TrieCursors {
        account_cursor: || Ok::<u16, String>(10),
        account_node: |_: &u16, _: &Nibbles| Ok(None),
        storage_cursor: |_: &B256| Err::<u16, String>("no trie".to_string()),
        storage_node: |_: &u16, _: &Nibbles| Ok(None),
    };
    assert_eq!(collect_trie_updates(&changesets, &failing), Err("no trie".to_string()));
}

#[test]
fn block_updates_are_looked_up_on_top_of_the_reverts_above() {
    let sources = ChangesetSources {
        block_hash: |n: u64| Ok::<_, String>(Some(hash_of(n))),
        revert: |n: u64| Ok(block_revert(n)),
        wait,
        compute,
    };
    let open = |reverts: TrieUpdatesSorted| TrieCursors {
        account_cursor: move || Ok::<TrieUpdatesSorted, String>(reverts.clone()),
        account_node: |reverts: &TrieUpdatesSorted, path: &Nibbles| {
            let found = reverts.account_nodes.iter().find(|(p, _)| p == path);
            Ok(found.and_then(|(_, node)| node.clone()))
        },
        storage_cursor: |_: &B256| Ok(()),
        storage_node: |_: &(), _: &Nibbles| Ok(None),
    };
    let mut cache = ChangesetCache::<u32>::new();
    let newer = |n| Ok(revert_from(n));
    let outcome = compute_block_trie_updates(&mut cache, Some(5), 2, &newer, &sources, open);
    let updates = outcome.result.unwrap();
    let changesets = cache.get(&hash_of(2)).unwrap();
    assert_eq!(updates.account_nodes.len(), 1);
    assert_eq!(updates.account_nodes[0].0, changesets.account_nodes[0].0);
    assert_eq!(updates.account_nodes[0].0, path_of(&keccak256(address(1))));
    // Blocks 3 to 5 last recorded the node of the first account in block 5.
    let block_5 = cache.get(&hash_of(5)).unwrap();
    assert_eq!(updates.account_nodes[0].1, block_5.account_nodes[0].1);
    assert!(updates.account_nodes[0].1.is_some());
    // Block 2 and the blocks above it are cached now, block 1 is not.
    assert_eq!(cache.len(), 4);

    let outcome = compute_block_trie_updates(&mut cache, Some(5), 6, &newer, &sources, open);
    assert_eq!(
        outcome.result,
        Err(ProviderError::InsufficientChangesets {
            requested: 6,
            available: BlockRange { first: 0, last: 5 },
        })
    );
    let outcome = compute_block_trie_updates(&mut cache, None, 6, &newer, &sources, open);
    assert_eq!(
        outcome.result,
        Err(ProviderError::InsufficientChangesets {
            requested: 6,
            available: BlockRange { first: 0, last: 0 },
        })
    );
}

#[test]
fn unsorted_updates_are_told() {
    let sorted = TrieUpdatesSorted::new(vec![(path(1), None), (path(2), None)], B256Map::default());
    assert!(sorted.is_sorted());
    let unsorted =
        TrieUpdatesSorted::new(vec![(path(2), None), (path(1), None)], B256Map::default());
    assert!(!unsorted.is_sorted());
    let twice = StorageTrieUpdatesSorted {
        is_deleted: false,
        storage_nodes: vec![(path(1), None), (path(1), Some(node(1)))],
    };
    let mut tries = B256Map::default();
    tries.insert(hash_of(1), twice);
    assert!(!TrieUpdatesSorted::new(vec![], tries).is_sorted());
    assert!(TrieUpdatesSorted::default().is_sorted());
}

#[test]
fn a_wipe_hides_newer_slots() {
    let mut newer = HashedPostState::default();
    put_storage(&mut newer, address(1), 1, 10);
    put_storage(&mut newer, address(1), 2, 20);
    let mut older = HashedPostState::default();
    put_storage(&mut older, address(1), 2, 21);
    older.storages.get_mut(&keccak256(address(1))).unwrap().wiped = true;
    newer.extend_ref(&older);
    assert_eq!(newer, older);
}

#[test]
fn a_deleted_trie_hides_newer_nodes() {
    let with = |is_deleted, storage_nodes| {
        let mut tries = B256Map::default();
        tries.insert(hash_of(1), StorageTrieUpdatesSorted { is_deleted, storage_nodes });
        TrieUpdatesSorted::new(vec![], tries)
    };
    let mut newer = with(false, vec![(path(1), Some(node(1))), (path(3), Some(node(3)))]);
    newer.extend_ref_and_sort(&with(false, vec![(path(2), Some(node(2))), (path(3), None)]));
    assert_eq!(
        newer,
        with(false, vec![(path(1), Some(node(1))), (path(2), Some(node(2))), (path(3), None)])
    );
    newer.extend_ref_and_sort(&with(true, vec![(path(4), None)]));
    assert_eq!(newer, with(true, vec![(path(4), None)]));
}

#[test]
fn a_range_can_be_put_together_from_its_parts() {
    let changesets: Vec<_> = (1..=DB_TIP)
        .map(|block| compute(block, &block_revert(block), &revert_from(block + 1)).unwrap())
        .collect();
    let accumulate = |part: &[TrieUpdatesSorted]| {
        let mut accumulated = TrieUpdatesSorted::default();
        for block in part.iter().rev() {
            accumulated.extend_ref_and_sort(block);
        }
        accumulated
    };
    for middle in 0..=changesets.len() {
        let mut parts = accumulate(&changesets[middle..]);
        parts.extend_ref_and_sort(&accumulate(&changesets[..middle]));
        assert_eq!(parts, accumulate(&changesets));
    }
}

#[test]
fn overlaying_states_is_associative() {
    let mut wiped = block_revert(2);
    wiped.storages.get_mut(&keccak256(address(1))).unwrap().wiped = true;
    for (x, y, z) in [
        (block_revert(5), block_revert(3), block_revert(1)),
        (block_revert(5), wiped.clone(), block_revert(1)),
        (wiped, block_revert(1), HashedPostState::default()),
    ] {
        let mut left = x.duplicate();
        left.extend_ref(&y);
        left.extend_ref(&z);
        let mut tail = y.duplicate();
        tail.extend_ref(&z);
        let mut right = x.duplicate();
        right.extend_ref(&tail);
        assert_eq!(left, right);
    }
}

#[test]
fn a_range_with_pending_blocks_can_be_repeated() {
    let computed = RefCell::new(Vec::new());
    let sources = ChangesetSources {
        block_hash: |n: u64| Ok::<_, String>(Some(hash_of(n))),
        revert: |n: u64| Ok(block_revert(n)),
        wait: |handle: &u32| {
            let block = *handle as u64;
            Some(Arc::new(compute(block, &block_revert(block), &revert_from(block + 1)).unwrap()))
        },
        compute: |n: u64, revert: &HashedPostState, cumulative: &HashedPostState| {
            computed.borrow_mut().push(n);
            compute(n, revert, cumulative)
        },
    };
    let newer = |n| Ok(revert_from(n));
    let mut cache = ChangesetCache::<u32>::new();
    let _ = cache.register_pending(hash_of(2), 2, 2);
    let mut parts = cache.get_or_compute_range(Some(5), 3, 5, &newer, &sources).result.unwrap();
    let older = cache.get_or_compute_range(Some(5), 1, 2, &newer, &sources).result.unwrap();
    assert_eq!(*computed.borrow(), vec![5, 4, 3, 1]);
    parts.extend_ref_and_sort(&older);
    for _ in 0..2 {
        let whole = cache.get_or_compute_range(Some(5), 1, 5, &newer, &sources);
        assert_eq!(whole.result.unwrap(), parts);
        assert!(whole.woken.is_empty());
    }
    assert_eq!(computed.borrow().len(), 4);
    assert_eq!(cache.len(), 4);
    assert!(matches!(cache.lookup(&hash_of(2)), CacheLookup::Pending(2)));
}
