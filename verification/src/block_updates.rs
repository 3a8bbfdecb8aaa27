//! Computing the trie updates of a block: what each node that the block changed is after it.

use crate::b256_map::{b256_map_get, b256_map_insert, b256_map_keys};
use crate::changeset_cache::{ChangesetCache, Served};
use crate::hashed_state::HashedPostState;
use crate::range_walk::{
    check_range, known_block_hash, ChangesetSources, ProviderError, RangeOutcome,
};
use crate::trie_updates::{
    BranchNodeCompact, Nibbles, NodeUpdate, StorageTrieUpdatesSorted, TrieUpdatesSorted,
};
use alloy_primitives::map::B256Map;
use alloy_primitives::B256;
use std::sync::Arc;
use vstd::prelude::*;

verus! {

/// What looks up trie nodes as they were after a block.
pub struct TrieCursors<Q, A, O, N> {
    /// Opens the account trie.
    pub account_cursor: Q,
    /// A node of the opened account trie.
    pub account_node: A,
    /// Opens the storage trie of an account.
    pub storage_cursor: O,
    /// A node of an opened storage trie.
    pub storage_node: N,
}

/// Whether `found` has the paths of `nodes`, in the same order, and for each of them a value that
/// `gives` allows.
pub open spec fn nodes_looked_up(
    nodes: Seq<NodeUpdate>,
    gives: spec_fn(Nibbles, Option<BranchNodeCompact>) -> bool,
    found: Seq<NodeUpdate>,
) -> bool {
    &&& found.len() == nodes.len()
    &&& forall|i: int|
        #![trigger found[i]]
        0 <= i < nodes.len() ==> found[i].0 == nodes[i].0 && gives(nodes[i].0, found[i].1)
}

/// Whether one of `nodes` is a path at which looking it up `fails`, while each of those before it is
/// one for which `gives` allows a value.
pub open spec fn lookup_fails(
    nodes: Seq<NodeUpdate>,
    gives: spec_fn(Nibbles, Option<BranchNodeCompact>) -> bool,
    fails: spec_fn(Nibbles) -> bool,
) -> bool {
    exists|i: int, found: Seq<NodeUpdate>|
        {
            &&& 0 <= i < nodes.len()
            &&& fails(nodes[i].0)
            &&& #[trigger] nodes_looked_up(nodes.take(i), gives, found)
        }
}

/// The values that looking up a path with a cursor can give.
pub open spec fn lookup_values<K, E, F>(lookup: F, cursor: K) -> spec_fn(
    Nibbles,
    Option<BranchNodeCompact>,
) -> bool where F: Fn(&K, &Nibbles) -> Result<Option<BranchNodeCompact>, E> {
    |path: Nibbles, node: Option<BranchNodeCompact>|
        lookup.ensures((&cursor, &path), Ok::<Option<BranchNodeCompact>, E>(node))
}

/// The paths at which looking them up with a cursor can fail with `error`.
pub open spec fn lookup_errors<K, E, F>(lookup: F, cursor: K, error: E) -> spec_fn(
    Nibbles,
) -> bool where F: Fn(&K, &Nibbles) -> Result<Option<BranchNodeCompact>, E> {
    |path: Nibbles|
        lookup.ensures((&cursor, &path), Err::<Option<BranchNodeCompact>, E>(error))
}

/// Looks up each of `nodes` with a cursor. The first failure ends it.
fn look_up_nodes<K, E, F>(nodes: &Vec<NodeUpdate>, cursor: &K, lookup: &F) -> (result: Result<
    Vec<NodeUpdate>,
    E,
>) where F: Fn(&K, &Nibbles) -> Result<Option<BranchNodeCompact>, E>
    requires
        forall|path: Nibbles| #[trigger] lookup.requires((cursor, &path)),
    ensures
        match result {
            Ok(found) => nodes_looked_up(
                nodes@,
                lookup_values::<K, E, F>(*lookup, *cursor),
                found@,
            ),
            Err(error) => lookup_fails(
                nodes@,
                lookup_values::<K, E, F>(*lookup, *cursor),
                lookup_errors::<K, E, F>(*lookup, *cursor, error),
            ),
        },
{
    let mut found: Vec<NodeUpdate> = Vec::new();
    for i in 0..nodes.len()
        invariant
            forall|path: Nibbles| #[trigger] lookup.requires((cursor, &path)),
            found@.len() == i,
            forall|m: int|
                #![trigger found@[m]]
                0 <= m < i ==> found@[m].0 == nodes@[m].0 && lookup.ensures(
                    (cursor, &nodes@[m].0),
                    Ok::<Option<BranchNodeCompact>, E>(found@[m].1),
                ),
    {
        let path: Nibbles = nodes[i].0;
        match lookup(cursor, &path) {
            Ok(node) => {
                found.push((path, node));
            },
            Err(error) => {
                assert(nodes_looked_up(
                    nodes@.take(i as int),
                    lookup_values::<K, E, F>(*lookup, *cursor),
                    found@,
                ));
                return Err(error);
            },
        }
    }
    Ok(found)
}

/// The same paths in the same order are sorted again.
proof fn lemma_same_paths_sorted(nodes: Seq<NodeUpdate>, found: Seq<NodeUpdate>)
    requires
        crate::trie_updates::nodes_sorted(nodes),
        found.len() == nodes.len(),
        forall|i: int| 0 <= i < nodes.len() ==> (#[trigger] found[i]).0 == nodes[i].0,
    ensures
        crate::trie_updates::nodes_sorted(found),
{
    assert forall|i: int, j: int| 0 <= i < j < found.len() implies (#[trigger] found[i]).0.before(
        (#[trigger] found[j]).0,
    ) by {
        assert(nodes[i].0.before(nodes[j].0));
    }
}

impl<Q, A, O, N> TrieCursors<Q, A, O, N> {
    /// Whether `trie` has the nodes of `changes` with the values that a storage cursor for
    /// `address` gives, and is deleted where `changes` say so.
    pub open spec fn storage_trie_found<S, E>(
        self,
        address: B256,
        changes: StorageTrieUpdatesSorted,
        trie: StorageTrieUpdatesSorted,
    ) -> bool where
        O: Fn(&B256) -> Result<S, E>,
        N: Fn(&S, &Nibbles) -> Result<Option<BranchNodeCompact>, E>,
     {
        &&& trie.is_deleted == changes.is_deleted
        &&& exists|cursor: S|
            {
                &&& #[trigger] self.storage_cursor.ensures((&address,), Ok::<S, E>(cursor))
                &&& nodes_looked_up(
                    changes.storage_nodes@,
                    lookup_values::<S, E, N>(self.storage_node, cursor),
                    trie.storage_nodes@,
                )
            }
    }

    /// Whether opening the storage trie of `address`, or looking up a node of `changes` in it,
    /// fails with `error`.
    pub open spec fn storage_trie_fails<S, E>(
        self,
        address: B256,
        changes: StorageTrieUpdatesSorted,
        error: E,
    ) -> bool where
        O: Fn(&B256) -> Result<S, E>,
        N: Fn(&S, &Nibbles) -> Result<Option<BranchNodeCompact>, E>,
     {
        ||| self.storage_cursor.ensures((&address,), Err::<S, E>(error))
        ||| exists|cursor: S|
            {
                &&& #[trigger] self.storage_cursor.ensures((&address,), Ok::<S, E>(cursor))
                &&& lookup_fails(
                    changes.storage_nodes@,
                    lookup_values::<S, E, N>(self.storage_node, cursor),
                    lookup_errors::<S, E, N>(self.storage_node, cursor, error),
                )
            }
    }

    /// Whether `found` has the account nodes of `nodes` with the values that an account cursor gives.
    pub open spec fn account_nodes_found<K, E>(
        self,
        nodes: Seq<NodeUpdate>,
        found: Seq<NodeUpdate>,
    ) -> bool where
        Q: Fn() -> Result<K, E>,
        A: Fn(&K, &Nibbles) -> Result<Option<BranchNodeCompact>, E>,
     {
        exists|cursor: K|
            {
                &&& #[trigger] self.account_cursor.ensures((), Ok::<K, E>(cursor))
                &&& nodes_looked_up(
                    nodes,
                    lookup_values::<K, E, A>(self.account_node, cursor),
                    found,
                )
            }
    }

    /// Whether `updates` say of each node that `changesets` name what the cursors give, and of no
    /// other node.
    pub open spec fn found<K, S, E>(
        self,
        changesets: TrieUpdatesSorted,
        updates: TrieUpdatesSorted,
    ) -> bool where
        Q: Fn() -> Result<K, E>,
        A: Fn(&K, &Nibbles) -> Result<Option<BranchNodeCompact>, E>,
        O: Fn(&B256) -> Result<S, E>,
        N: Fn(&S, &Nibbles) -> Result<Option<BranchNodeCompact>, E>,
     {
        &&& self.account_nodes_found::<K, E>(
            changesets.account_nodes@,
            updates.account_nodes@,
        )
        &&& updates.storage_tries@.dom() == changesets.storage_tries@.dom()
        &&& forall|address: B256| #[trigger]
            updates.storage_tries@.contains_key(address) ==> self.storage_trie_found::<S, E>(
                address,
                changesets.storage_tries@[address],
                updates.storage_tries@[address],
            )
    }

    /// Whether looking up the nodes that `changesets` name can end in `error`. The account nodes are
    /// looked up first, in order, and only then the storage tries, one after the other.
    pub open spec fn fails<K, S, E>(self, changesets: TrieUpdatesSorted, error: E) -> bool where
        Q: Fn() -> Result<K, E>,
        A: Fn(&K, &Nibbles) -> Result<Option<BranchNodeCompact>, E>,
        O: Fn(&B256) -> Result<S, E>,
        N: Fn(&S, &Nibbles) -> Result<Option<BranchNodeCompact>, E>,
     {
        ||| self.account_cursor.ensures((), Err::<K, E>(error))
        ||| exists|cursor: K|
            {
                &&& #[trigger] self.account_cursor.ensures((), Ok::<K, E>(cursor))
                &&& lookup_fails(
                    changesets.account_nodes@,
                    lookup_values::<K, E, A>(self.account_node, cursor),
                    lookup_errors::<K, E, A>(self.account_node, cursor, error),
                )
            }
        ||| exists|address: B256, found: Seq<NodeUpdate>|
            {
                &&& #[trigger] self.account_nodes_found::<K, E>(changesets.account_nodes@, found)
                &&& #[trigger] changesets.storage_tries@.contains_key(address)
                &&& self.storage_trie_fails::<S, E>(
                    address,
                    changesets.storage_tries@[address],
                    error,
                )
            }
    }

    /// Whether every node can be looked up.
    pub open spec fn usable<K, S, E>(self) -> bool where
        Q: Fn() -> Result<K, E>,
        A: Fn(&K, &Nibbles) -> Result<Option<BranchNodeCompact>, E>,
        O: Fn(&B256) -> Result<S, E>,
        N: Fn(&S, &Nibbles) -> Result<Option<BranchNodeCompact>, E>,
     {
        &&& self.account_cursor.requires(())
        &&& forall|cursor: K, path: Nibbles| #[trigger]
            self.account_node.requires((&cursor, &path))
        &&& forall|address: B256| #[trigger] self.storage_cursor.requires((&address,))
        &&& forall|cursor: S, path: Nibbles| #[trigger]
            self.storage_node.requires((&cursor, &path))
    }

    /// Looks up the nodes of one storage trie.
    fn storage_trie<K, S, E>(&self, address: &B256, changes: &StorageTrieUpdatesSorted) -> (result:
        Result<StorageTrieUpdatesSorted, E>) where
        Q: Fn() -> Result<K, E>,
        A: Fn(&K, &Nibbles) -> Result<Option<BranchNodeCompact>, E>,
        O: Fn(&B256) -> Result<S, E>,
        N: Fn(&S, &Nibbles) -> Result<Option<BranchNodeCompact>, E>,

        requires
            self.usable::<K, S, E>(),
        ensures
            match result {
                Ok(trie) => {
                    &&& self.storage_trie_found::<S, E>(*address, *changes, trie)
                    &&& changes.wf() ==> trie.wf()
                },
                Err(error) => self.storage_trie_fails::<S, E>(*address, *changes, error),
            },
    {
        let cursor = match (self.storage_cursor)(address) {
            Ok(cursor) => cursor,
            Err(error) => return Err(error),
        };
        match look_up_nodes(&changes.storage_nodes, &cursor, &self.storage_node) {
            Ok(storage_nodes) => {
                proof {
                    if changes.wf() {
                        lemma_same_paths_sorted(changes.storage_nodes@, storage_nodes@);
                    }
                }
                Ok(StorageTrieUpdatesSorted { is_deleted: changes.is_deleted, storage_nodes })
            },
            Err(error) => Err(error),
        }
    }
}

/// Collects the trie updates of a block: of each node that the changesets of the block name, what
/// the cursors say it was after the block.
pub fn collect_trie_updates<Q, A, O, N, K, S, E>(
    changesets: &TrieUpdatesSorted,
    cursors: &TrieCursors<Q, A, O, N>,
) -> (result: Result<TrieUpdatesSorted, E>) where
    Q: Fn() -> Result<K, E>,
    A: Fn(&K, &Nibbles) -> Result<Option<BranchNodeCompact>, E>,
    O: Fn(&B256) -> Result<S, E>,
    N: Fn(&S, &Nibbles) -> Result<Option<BranchNodeCompact>, E>,

    requires
        cursors.usable::<K, S, E>(),
        changesets.wf(),
    ensures
        match result {
            Ok(updates) => updates.wf() && cursors.found::<K, S, E>(*changesets, updates),
            Err(error) => cursors.fails::<K, S, E>(*changesets, error),
        },
{
    let account_cursor = match (cursors.account_cursor)() {
        Ok(cursor) => cursor,
        Err(error) => return Err(error),
    };
    let account_nodes = match look_up_nodes(
        &changesets.account_nodes,
        &account_cursor,
        &cursors.account_node,
    ) {
        Ok(account_nodes) => account_nodes,
        Err(error) => return Err(error),
    };
    assert(cursors.account_nodes_found::<K, E>(changesets.account_nodes@, account_nodes@));
    proof {
        lemma_same_paths_sorted(changesets.account_nodes@, account_nodes@);
    }
    let addresses = b256_map_keys(&changesets.storage_tries);
    let mut storage_tries: B256Map<StorageTrieUpdatesSorted> = B256Map::default();
    for i in 0..addresses.len()
        invariant
            cursors.usable::<K, S, E>(),
            cursors.account_nodes_found::<K, E>(changesets.account_nodes@, account_nodes@),
            changesets.wf(),
            addresses@.to_set() == changesets.storage_tries@.dom(),
            storage_tries@.dom() == addresses@.take(i as int).to_set(),
            forall|address: B256| #[trigger]
                storage_tries@.contains_key(address) ==> {
                    &&& storage_tries@[address].wf()
                    &&& cursors.storage_trie_found::<S, E>(
                        address,
                        changesets.storage_tries@[address],
                        storage_tries@[address],
                    )
                },
    {
        let address = addresses[i];
        proof {
            assert(addresses@.contains(address));
            assert(addresses@.to_set().contains(address));
            crate::b256_map::lemma_take_to_set(addresses@, i as int);
        }
        if let Some(changes) = b256_map_get(&changesets.storage_tries, &address) {
            match cursors.storage_trie(&address, changes) {
                Ok(trie) => {
                    b256_map_insert(&mut storage_tries, address, trie);
                },
                Err(error) => return Err(error),
            }
        }
        assert(storage_tries@.dom() =~= addresses@.take(i + 1).to_set());
    }
    assert(addresses@.take(addresses@.len() as int) =~= addresses@);
    Ok(TrieUpdatesSorted::new(account_nodes, storage_tries))
}

/// The handles whose waiters are to be woken by the changesets of one block.
pub open spec fn woken_by<P>(served: Served<P>) -> Seq<(P, Arc<TrieUpdatesSorted>)> {
    match served.woken {
        Some(handle) => seq![(handle, served.changesets)],
        None => Seq::empty(),
    }
}

/// Whether `result` is what collecting the updates of a block comes to with the cursors that `open`
/// gives for the trie reverts of all blocks above it.
pub open spec fn updates_result<Q, A, O, N, K, S, E, F>(
    changesets: TrieUpdatesSorted,
    reverts: TrieUpdatesSorted,
    open: F,
    result: Result<TrieUpdatesSorted, ProviderError<E>>,
) -> bool where
    Q: Fn() -> Result<K, E>,
    A: Fn(&K, &Nibbles) -> Result<Option<BranchNodeCompact>, E>,
    O: Fn(&B256) -> Result<S, E>,
    N: Fn(&S, &Nibbles) -> Result<Option<BranchNodeCompact>, E>,
    F: FnOnce(TrieUpdatesSorted) -> TrieCursors<Q, A, O, N>,
 {
    exists|cursors: TrieCursors<Q, A, O, N>|
        {
            &&& #[trigger] open.ensures((reverts,), cursors)
            &&& match result {
                Ok(updates) => updates.wf() && cursors.found::<K, S, E>(changesets, updates),
                Err(ProviderError::Other(error)) => cursors.fails::<K, S, E>(changesets, error),
                Err(_) => false,
            }
        }
}

/// Whether `outcome` and the cache `after` are what comes of computing the trie updates of a block
/// once its hash is known: its changesets are got through the cache, then the accumulated
/// changesets of all blocks above it up to `tip`, and then the nodes are looked up.
pub open spec fn block_updates_served<P, E, G, H, R, W, C, Q, A, O, N, K, S, F>(
    sources: ChangesetSources<H, R, W, C>,
    newer_reverts: G,
    before: ChangesetCache<P>,
    after: ChangesetCache<P>,
    tip: u64,
    block_hash: B256,
    block_number: u64,
    open: F,
    outcome: RangeOutcome<P, E>,
) -> bool where
    G: Fn(u64) -> Result<HashedPostState, E>,
    H: Fn(u64) -> Result<Option<B256>, E>,
    R: Fn(u64) -> Result<HashedPostState, E>,
    W: Fn(&P) -> Option<Arc<TrieUpdatesSorted>>,
    C: Fn(u64, &HashedPostState, &HashedPostState) -> Result<TrieUpdatesSorted, E>,
    Q: Fn() -> Result<K, E>,
    A: Fn(&K, &Nibbles) -> Result<Option<BranchNodeCompact>, E>,
    O: Fn(&B256) -> Result<S, E>,
    N: Fn(&S, &Nibbles) -> Result<Option<BranchNodeCompact>, E>,
    F: FnOnce(TrieUpdatesSorted) -> TrieCursors<Q, A, O, N>,
 {
    ||| {
        &&& outcome.result matches Err(error)
        &&& outcome.woken@.len() == 0
        &&& sources.block_served(
            newer_reverts,
            before,
            after,
            Some(tip),
            block_hash,
            block_number,
            Err::<Served<P>, ProviderError<E>>(error),
        )
    }
    ||| exists|served: Served<P>, between: ChangesetCache<P>, range: RangeOutcome<P, E>|
        {
            &&& #[trigger] sources.block_served(
                newer_reverts,
                before,
                between,
                Some(tip),
                block_hash,
                block_number,
                Ok::<Served<P>, ProviderError<E>>(served),
            )
            &&& #[trigger] sources.range_served(
                newer_reverts,
                between,
                after,
                Some(tip),
                (block_number + 1) as u64,
                tip,
                range,
            )
            &&& outcome.woken@ == woken_by(served) + range.woken@
            &&& match range.result {
                Err(error) => outcome.result == Err::<TrieUpdatesSorted, ProviderError<E>>(error),
                Ok(reverts) => updates_result::<Q, A, O, N, K, S, E, F>(
                    *served.changesets,
                    reverts,
                    open,
                    outcome.result,
                ),
            }
        }
}

/// Computes the trie updates of a block: what each node that the block changed was after it.
///
/// `open` gives cursors over the trie as it was after the block, from the accumulated changesets of
/// all blocks above it. The cache is borrowed for the whole time.
pub fn compute_block_trie_updates<P, E, G, H, R, W, C, Q, A, O, N, K, S, F>(
    cache: &mut ChangesetCache<P>,
    checkpoint: Option<u64>,
    block_number: u64,
    newer_reverts: &G,
    sources: &ChangesetSources<H, R, W, C>,
    open: F,
) -> (outcome: RangeOutcome<P, E>) where
    G: Fn(u64) -> Result<HashedPostState, E>,
    H: Fn(u64) -> Result<Option<B256>, E>,
    R: Fn(u64) -> Result<HashedPostState, E>,
    W: Fn(&P) -> Option<Arc<TrieUpdatesSorted>>,
    C: Fn(u64, &HashedPostState, &HashedPostState) -> Result<TrieUpdatesSorted, E>,
    Q: Fn() -> Result<K, E>,
    A: Fn(&K, &Nibbles) -> Result<Option<BranchNodeCompact>, E>,
    O: Fn(&B256) -> Result<S, E>,
    N: Fn(&S, &Nibbles) -> Result<Option<BranchNodeCompact>, E>,
    F: FnOnce(TrieUpdatesSorted) -> TrieCursors<Q, A, O, N>,

    requires
        old(cache).wf(),
        crate::range_walk::range_error::<E>(checkpoint, block_number, block_number) is None ==> {
            &&& checkpoint->0 < u64::MAX
            &&& sources.usable::<P, E>(
                old(cache).entries(),
                old(cache).pending(),
                block_number,
                checkpoint->0,
            )
            &&& newer_reverts.requires(((block_number + 1) as u64,))
            &&& newer_reverts.requires(((checkpoint->0 + 1) as u64,))
            &&& forall|reverts: TrieUpdatesSorted| #[trigger] open.requires((reverts,))
            &&& forall|reverts: TrieUpdatesSorted, cursors: TrieCursors<Q, A, O, N>| #[trigger]
                open.ensures((reverts,), cursors) ==> cursors.usable::<K, S, E>()
        },
    ensures
        final(cache).wf(),
        match crate::range_walk::range_error::<E>(checkpoint, block_number, block_number) {
            Some(error) => {
                &&& *final(cache) == *old(cache)
                &&& outcome.result == Err::<TrieUpdatesSorted, ProviderError<E>>(error)
                &&& outcome.woken@.len() == 0
            },
            None => exists|found: Result<Option<B256>, E>|
                {
                    &&& #[trigger] sources.block_hash.ensures((block_number,), found)
                    &&& match found {
                        Ok(Some(block_hash)) => block_updates_served::<
                            P, E, G, H, R, W, C, Q, A, O, N, K, S, F,
                        >(
                            *sources,
                            *newer_reverts,
                            *old(cache),
                            *final(cache),
                            checkpoint->0,
                            block_hash,
                            block_number,
                            open,
                            outcome,
                        ),
                        Ok(None) => {
                            &&& *final(cache) == *old(cache)
                            &&& outcome.result == Err::<TrieUpdatesSorted, ProviderError<E>>(
                                ProviderError::BlockHashNotFound { block_number },
                            )
                            &&& outcome.woken@.len() == 0
                        },
                        Err(error) => {
                            &&& *final(cache) == *old(cache)
                            &&& outcome.result == Err::<TrieUpdatesSorted, ProviderError<E>>(
                                ProviderError::Other(error),
                            )
                            &&& outcome.woken@.len() == 0
                        },
                    }
                },
        },
{
    let mut woken: Vec<(P, Arc<TrieUpdatesSorted>)> = Vec::new();
    if let Err(error) = check_range(checkpoint, block_number, block_number) {
        return RangeOutcome { result: Err(error), woken };
    }
    let tip: u64 = match checkpoint {
        Some(tip) => tip,
        None => block_number,
    };
    let found = (sources.block_hash)(block_number);
    let ghost found_hash = found;
    let block_hash = match known_block_hash(block_number, found) {
        Ok(block_hash) => block_hash,
        Err(error) => return RangeOutcome { result: Err(error), woken },
    };
    let ghost start = *cache;
    let served = match cache.get_or_compute(
        block_hash,
        block_number,
        checkpoint,
        newer_reverts,
        sources,
    ) {
        Ok(served) => served,
        Err(error) => {
            let outcome = RangeOutcome { result: Err(error), woken };
            assert(block_updates_served::<P, E, G, H, R, W, C, Q, A, O, N, K, S, F>(
                *sources,
                *newer_reverts,
                start,
                *cache,
                tip,
                block_hash,
                block_number,
                open,
                outcome,
            ));
            return outcome;
        },
    };
    let ghost first_served = served;
    let ghost between = *cache;
    proof {
        crate::range_walk::lemma_usable_later::<P, E, H, R, W, C>(
            *sources,
            start.entries(),
            start.pending(),
            between.entries(),
            between.pending(),
            block_number,
            tip,
            (block_number + 1) as u64,
            tip,
        );
    }
    let range = cache.get_or_compute_range(
        checkpoint,
        block_number + 1,
        tip,
        newer_reverts,
        sources,
    );
    let ghost walked = range;
    let changesets = Arc::clone(&served.changesets);
    if let Some(handle) = served.woken {
        woken.push((handle, served.changesets));
    }
    assert(woken@ =~= woken_by(first_served));
    let mut later: Vec<(P, Arc<TrieUpdatesSorted>)> = range.woken;
    woken.append(&mut later);
    let result = match range.result {
        Ok(reverts) => {
            let cursors = open(reverts);
            match collect_trie_updates(&*changesets, &cursors) {
                Ok(updates) => Ok(updates),
                Err(error) => Err(ProviderError::Other(error)),
            }
        },
        Err(error) => Err(error),
    };
    let outcome = RangeOutcome { result, woken };
    assert(sources.block_served(
        *newer_reverts,
        start,
        between,
        Some(tip),
        block_hash,
        block_number,
        Ok::<Served<P>, ProviderError<E>>(first_served),
    ));
    assert(block_updates_served::<P, E, G, H, R, W, C, Q, A, O, N, K, S, F>(
        *sources,
        *newer_reverts,
        start,
        *cache,
        tip,
        block_hash,
        block_number,
        open,
        outcome,
    ));
    outcome
}

/// Nodes that were looked up are on the paths that were asked for, and on no others.
proof fn lemma_same_paths(nodes: Seq<NodeUpdate>, found: Seq<NodeUpdate>)
    requires
        found.len() == nodes.len(),
        forall|i: int| 0 <= i < nodes.len() ==> (#[trigger] found[i]).0 == nodes[i].0,
    ensures
        crate::trie_updates::node_map(found).dom() == crate::trie_updates::node_map(nodes).dom(),
{
    assert forall|path: Nibbles|
        crate::trie_updates::node_map(found).dom().contains(path)
            == crate::trie_updates::node_map(nodes).dom().contains(path) by {
        crate::trie_updates::lemma_node_map_paths(found, path);
        crate::trie_updates::lemma_node_map_paths(nodes, path);
        if crate::trie_updates::node_map(nodes).contains_key(path) {
            let i = choose|i: int| 0 <= i < nodes.len() && (#[trigger] nodes[i]).0 == path;
            assert(found[i].0 == path);
        }
        if crate::trie_updates::node_map(found).contains_key(path) {
            let i = choose|i: int| 0 <= i < found.len() && (#[trigger] found[i]).0 == path;
            assert(nodes[i].0 == path);
        }
    }
    assert(crate::trie_updates::node_map(found).dom() =~= crate::trie_updates::node_map(
        nodes,
    ).dom());
}

/// The updates of a block name the nodes that its changesets name, and no others, and the same
/// storage tries are deleted.
pub proof fn lemma_updates_name_the_changed_nodes<Q, A, O, N, K, S, E>(
    cursors: TrieCursors<Q, A, O, N>,
    changesets: TrieUpdatesSorted,
    updates: TrieUpdatesSorted,
    address: B256,
) where
    Q: Fn() -> Result<K, E>,
    A: Fn(&K, &Nibbles) -> Result<Option<BranchNodeCompact>, E>,
    O: Fn(&B256) -> Result<S, E>,
    N: Fn(&S, &Nibbles) -> Result<Option<BranchNodeCompact>, E>,

    requires
        cursors.found::<K, S, E>(changesets, updates),
    ensures
        updates@.account_nodes.dom() == changesets@.account_nodes.dom(),
        updates@.storage_tries.dom() == changesets@.storage_tries.dom(),
        updates@.deleted(address) == changesets@.deleted(address),
        changesets@.storage_tries.contains_key(address)
            ==> updates@.storage_tries[address].storage_nodes.dom()
            == changesets@.storage_tries[address].storage_nodes.dom(),
{
    lemma_same_paths(changesets.account_nodes@, updates.account_nodes@);
    assert(updates@.storage_tries.dom() =~= changesets@.storage_tries.dom());
    assert(updates.storage_tries@.dom().contains(address)
        == changesets.storage_tries@.dom().contains(address));
    if updates.storage_tries@.contains_key(address) {
        lemma_same_paths(
            changesets.storage_tries@[address].storage_nodes@,
            updates.storage_tries@[address].storage_nodes@,
        );
    }
}

} // verus!
