//! What the changesets and the updates of a block are, in terms of what is asked for them.

use crate::block_changesets::TrieSources;
use crate::block_updates::TrieCursors;
use crate::changeset_cache::{ChangesetCache, Served};
use crate::hashed_state::HashedPostState;
use crate::range_walk::{ChangesetSources, ProviderError, RangeOutcome};
use crate::trie_updates::{BranchNodeCompact, Nibbles, NodeUpdate, TrieUpdatesSorted};
use alloy_primitives::B256;
use std::sync::Arc;
use vstd::prelude::*;

verus! {

/// Whether trie changes list nothing.
pub open spec fn lists_nothing(updates: TrieUpdatesSorted) -> bool {
    &&& updates.account_nodes@.len() == 0
    &&& forall|address: B256| !#[trigger] updates.storage_tries@.contains_key(address)
}

/// Whether `result` is what the changesets of a block come to from its own revert and the revert of
/// all blocks above it.
///
/// `reverted` is the revert of all blocks above, overlaid with the revert of the block. Without any
/// nodes, it gives the trie as it was before the block. On top of that trie, the revert of all blocks
/// above gives the updates of the paths that the block changed, and what they replaced is the result.
pub open spec fn computed_by<E, U, D>(
    tries: TrieSources<U, D>,
    revert: HashedPostState,
    cumulative: HashedPostState,
    no_nodes: TrieUpdatesSorted,
    reverted: HashedPostState,
    result: Result<TrieUpdatesSorted, E>,
) -> bool where
    U: Fn(&TrieUpdatesSorted, &HashedPostState, &HashedPostState) -> Result<TrieUpdatesSorted, E>,
    D: Fn(&TrieUpdatesSorted, &TrieUpdatesSorted) -> Result<TrieUpdatesSorted, E>,
 {
    &&& lists_nothing(no_nodes)
    &&& crate::overlay_laws::state_overlaid(cumulative, revert, reverted)
    &&& {
        ||| result is Err && tries.root_updates.ensures(
            (&no_nodes, &reverted, &reverted),
            Err::<TrieUpdatesSorted, E>(result->Err_0),
        )
        ||| exists|previous: TrieUpdatesSorted|
            {
                &&& #[trigger] tries.root_updates.ensures(
                    (&no_nodes, &reverted, &reverted),
                    Ok::<TrieUpdatesSorted, E>(previous),
                )
                &&& {
                    ||| result is Err && tries.root_updates.ensures(
                        (&previous, &cumulative, &revert),
                        Err::<TrieUpdatesSorted, E>(result->Err_0),
                    )
                    ||| exists|updates: TrieUpdatesSorted|
                        {
                            &&& #[trigger] tries.root_updates.ensures(
                                (&previous, &cumulative, &revert),
                                Ok::<TrieUpdatesSorted, E>(updates),
                            )
                            &&& tries.changesets.ensures((&previous, &updates), result)
                        }
                }
            }
    }
}

/// The changesets of a block are computed from the trie before it, which comes of the block and all
/// blocks above it being reverted. They are computed where no trie fails.
pub proof fn lemma_changesets_from_reverts<E, U, D>(
    tries: TrieSources<U, D>,
    revert: HashedPostState,
    cumulative: HashedPostState,
    result: Result<TrieUpdatesSorted, E>,
) where
    U: Fn(&TrieUpdatesSorted, &HashedPostState, &HashedPostState) -> Result<TrieUpdatesSorted, E>,
    D: Fn(&TrieUpdatesSorted, &TrieUpdatesSorted) -> Result<TrieUpdatesSorted, E>,

    requires
        call_ensures(
            crate::block_changesets::compute_block_trie_changesets_from_reverts::<E, U, D>,
            (&tries, &revert, &cumulative),
            result,
        ),
    ensures
        exists|no_nodes: TrieUpdatesSorted, reverted: HashedPostState| #[trigger]
            computed_by(tries, revert, cumulative, no_nodes, reverted, result),
        (forall|
            nodes: TrieUpdatesSorted,
            state: HashedPostState,
            paths: HashedPostState,
            updates: Result<TrieUpdatesSorted, E>,
        | #[trigger]
            tries.root_updates.ensures((&nodes, &state, &paths), updates) ==> updates is Ok) && (
        forall|
            nodes: TrieUpdatesSorted,
            updates: TrieUpdatesSorted,
            changesets: Result<TrieUpdatesSorted, E>,
        | #[trigger]
            tries.changesets.ensures((&nodes, &updates), changesets) ==> changesets is Ok)
            ==> result is Ok,
        (forall|nodes: TrieUpdatesSorted, state: HashedPostState, paths: HashedPostState| #[trigger]
            tries.root_updates.requires((&nodes, &state, &paths))) && (forall|
            nodes: TrieUpdatesSorted,
            updates: TrieUpdatesSorted,
        | #[trigger] tries.changesets.requires((&nodes, &updates))) ==> call_requires(
            crate::block_changesets::compute_block_trie_changesets_from_reverts::<E, U, D>,
            (&tries, &revert, &cumulative),
        ),
{
    let (reverted, no_nodes) = choose|reverted: HashedPostState, no_nodes: TrieUpdatesSorted|
        #[trigger] tries.computed_from(revert, cumulative, reverted, no_nodes, result);
    crate::overlay_laws::lemma_extended_state(cumulative, revert, reverted);
    let nodes = no_nodes.account_nodes@;
    if nodes.len() > 0 {
        crate::trie_updates::lemma_node_map_paths(nodes, nodes[0].0);
        assert(no_nodes@.account_nodes.contains_key(nodes[0].0));
    }
    assert forall|address: B256| !#[trigger] no_nodes.storage_tries@.contains_key(address) by {
        assert(no_nodes@.storage_tries.contains_key(address)
            == no_nodes.storage_tries@.contains_key(address));
    }
    assert(computed_by(tries, revert, cumulative, no_nodes, reverted, result));
}

/// Whether `result` is what `compute` gives for a block from what is read for it: first its own
/// revert, then the revert of all blocks from the next one on.
pub open spec fn read_and_computed<E, R, S, C>(
    revert: R,
    newer_reverts: S,
    compute: C,
    block_number: u64,
    result: Result<TrieUpdatesSorted, E>,
) -> bool where
    R: Fn(u64) -> Result<HashedPostState, E>,
    S: Fn(u64) -> Result<HashedPostState, E>,
    C: Fn(u64, &HashedPostState, &HashedPostState) -> Result<TrieUpdatesSorted, E>,
 {
    ||| result is Err && revert.ensures(
        (block_number,),
        Err::<HashedPostState, E>(result->Err_0),
    )
    ||| exists|own: HashedPostState|
        {
            &&& #[trigger] revert.ensures((block_number,), Ok::<HashedPostState, E>(own))
            &&& result is Err
            &&& newer_reverts.ensures(
                ((block_number + 1) as u64,),
                Err::<HashedPostState, E>(result->Err_0),
            )
        }
    ||| exists|own: HashedPostState, newer: HashedPostState|
        {
            &&& #[trigger] revert.ensures((block_number,), Ok::<HashedPostState, E>(own))
            &&& #[trigger] newer_reverts.ensures(
                ((block_number + 1) as u64,),
                Ok::<HashedPostState, E>(newer),
            )
            &&& compute.ensures((block_number, &own, &newer), result)
        }
}

/// Whether `result` is what the changesets of a block come to: a refusal exactly where a checkpoint is
/// known and the block is above it, and otherwise what is computed from the database.
pub open spec fn changesets_given<E, R, S, C>(
    checkpoint: Option<u64>,
    revert: R,
    newer_reverts: S,
    compute: C,
    block_number: u64,
    result: Result<TrieUpdatesSorted, ProviderError<E>>,
) -> bool where
    R: Fn(u64) -> Result<HashedPostState, E>,
    S: Fn(u64) -> Result<HashedPostState, E>,
    C: Fn(u64, &HashedPostState, &HashedPostState) -> Result<TrieUpdatesSorted, E>,
 {
    if checkpoint is Some && block_number > checkpoint->0 {
        &&& result is Err
        &&& result->Err_0 is InsufficientChangesets
        &&& result->Err_0->InsufficientChangesets_requested == block_number
        &&& result->Err_0->available.first == 0
        &&& result->Err_0->available.last == checkpoint->0
    } else {
        &&& result is Err ==> result->Err_0 is Other
        &&& read_and_computed::<E, R, S, C>(
            revert,
            newer_reverts,
            compute,
            block_number,
            match result {
                Ok(changesets) => Ok(changesets),
                Err(error) => Err(error->Other_0),
            },
        )
    }
}

/// The changesets of a block are refused exactly where a checkpoint is known and the block is above
/// it, and then nothing is asked for. Otherwise they are computed, and they are there where what is
/// read and computed for them is.
pub proof fn lemma_changesets_from_database<E, R, S, C>(
    checkpoint: Option<u64>,
    block_number: u64,
    revert: R,
    newer_reverts: S,
    compute: C,
    result: Result<TrieUpdatesSorted, ProviderError<E>>,
) where
    R: Fn(u64) -> Result<HashedPostState, E>,
    S: Fn(u64) -> Result<HashedPostState, E>,
    C: Fn(u64, &HashedPostState, &HashedPostState) -> Result<TrieUpdatesSorted, E>,

    requires
        call_ensures(
            crate::block_changesets::compute_block_trie_changesets::<E, R, S, C>,
            (checkpoint, block_number, &revert, &newer_reverts, &compute),
            result,
        ),
    ensures
        changesets_given::<E, R, S, C>(
            checkpoint,
            revert,
            newer_reverts,
            compute,
            block_number,
            result,
        ),
        checkpoint is Some && block_number > checkpoint->0 ==> call_requires(
            crate::block_changesets::compute_block_trie_changesets::<E, R, S, C>,
            (checkpoint, block_number, &revert, &newer_reverts, &compute),
        ),
        block_number < u64::MAX && revert.requires((block_number,)) && newer_reverts.requires(
            ((block_number + 1) as u64,),
        ) && (forall|own: HashedPostState, newer: HashedPostState| #[trigger]
            compute.requires((block_number, &own, &newer))) ==> call_requires(
            crate::block_changesets::compute_block_trie_changesets::<E, R, S, C>,
            (checkpoint, block_number, &revert, &newer_reverts, &compute),
        ),
        (checkpoint is None || block_number <= checkpoint->0) && (forall|
            found: Result<HashedPostState, E>,
        | #[trigger] revert.ensures((block_number,), found) ==> found is Ok) && (forall|
            found: Result<HashedPostState, E>,
        | #[trigger] newer_reverts.ensures(((block_number + 1) as u64,), found) ==> found is Ok)
            && (forall|
            own: HashedPostState,
            newer: HashedPostState,
            found: Result<TrieUpdatesSorted, E>,
        | #[trigger] compute.ensures((block_number, &own, &newer), found) ==> found is Ok)
            ==> result is Ok,
{
    lemma_block_changesets::<E, R, S, C>(
        checkpoint,
        revert,
        newer_reverts,
        compute,
        block_number,
        result,
    );
}

/// What the changesets of a block come to.
proof fn lemma_block_changesets<E, R, S, C>(
    checkpoint: Option<u64>,
    revert: R,
    newer_reverts: S,
    compute: C,
    block_number: u64,
    result: Result<TrieUpdatesSorted, ProviderError<E>>,
) where
    R: Fn(u64) -> Result<HashedPostState, E>,
    S: Fn(u64) -> Result<HashedPostState, E>,
    C: Fn(u64, &HashedPostState, &HashedPostState) -> Result<TrieUpdatesSorted, E>,

    requires
        crate::block_changesets::block_changesets_result(
            checkpoint,
            revert,
            newer_reverts,
            compute,
            block_number,
            result,
        ),
    ensures
        changesets_given::<E, R, S, C>(
            checkpoint,
            revert,
            newer_reverts,
            compute,
            block_number,
            result,
        ),
{
}

/// The changesets that were served, or the error.
pub open spec fn changesets_in<P, E>(result: Result<Served<P>, ProviderError<E>>) -> Result<
    TrieUpdatesSorted,
    ProviderError<E>,
> {
    match result {
        Ok(served) => Ok(*served.changesets),
        Err(error) => Err(error),
    }
}

/// Whether `result` and the cache `after` are what comes of asking for the changesets of a block with
/// a hash.
///
/// What is cached is given as it is. What is pending and resolved is given too. In both cases the cache
/// is left alone and nobody is woken. Otherwise the changesets are computed, and a success is cached
/// under the hash and the number, no longer pending, and given to who waits for it. A failure leaves
/// the cache alone.
pub open spec fn block_given<P, E, S, H, R, W, C>(
    sources: ChangesetSources<H, R, W, C>,
    newer_reverts: S,
    before: ChangesetCache<P>,
    after: ChangesetCache<P>,
    checkpoint: Option<u64>,
    hash: B256,
    number: u64,
    result: Result<Served<P>, ProviderError<E>>,
) -> bool where
    S: Fn(u64) -> Result<HashedPostState, E>,
    R: Fn(u64) -> Result<HashedPostState, E>,
    W: Fn(&P) -> Option<Arc<TrieUpdatesSorted>>,
    C: Fn(u64, &HashedPostState, &HashedPostState) -> Result<TrieUpdatesSorted, E>,
 {
    if before.inner.entries@.contains_key(hash) {
        &&& after == before
        &&& result is Ok
        &&& result->Ok_0.source is Cache
        &&& result->Ok_0.changesets == before.inner.entries@[hash].1
        &&& result->Ok_0.woken is None
    } else if result is Ok && result->Ok_0.source is Pending {
        &&& after == before
        &&& before.inner.pending@.contains_key(hash)
        &&& sources.wait.ensures(
            (&before.inner.pending@[hash],),
            Some(result->Ok_0.changesets),
        )
        &&& result->Ok_0.woken is None
    } else {
        &&& result is Ok ==> result->Ok_0.source is Computed
        &&& before.inner.pending@.contains_key(hash) ==> sources.wait.ensures(
            (&before.inner.pending@[hash],),
            None::<Arc<TrieUpdatesSorted>>,
        )
        &&& changesets_given::<E, R, S, C>(
            checkpoint,
            sources.revert,
            newer_reverts,
            sources.compute,
            number,
            changesets_in(result),
        )
        &&& result is Err ==> after == before
        &&& result is Ok ==> computed_and_cached(before, after, hash, number, result->Ok_0)
    }
}

/// Whether the cache `after` is the cache `before` with changesets that were computed for a block.
pub open spec fn computed_and_cached<P>(
    before: ChangesetCache<P>,
    after: ChangesetCache<P>,
    hash: B256,
    number: u64,
    served: Served<P>,
) -> bool {
    &&& forall|other: B256| #[trigger]
        after.inner.entries@.contains_key(other) <==> before.inner.entries@.contains_key(other)
            || other == hash
    &&& after.inner.entries@[hash].0 == number
    &&& after.inner.entries@[hash].1 == served.changesets
    &&& forall|other: B256|
        other != hash && #[trigger] before.inner.entries@.contains_key(other)
            ==> after.inner.entries@[other] == before.inner.entries@[other]
    &&& forall|other: B256| #[trigger]
        after.inner.pending@.contains_key(other) <==> before.inner.pending@.contains_key(other)
            && other != hash
    &&& forall|other: B256| #[trigger]
        after.inner.pending@.contains_key(other) ==> after.inner.pending@[other]
            == before.inner.pending@[other]
    &&& served.woken is Some <==> before.inner.pending@.contains_key(hash)
    &&& served.woken is Some ==> served.woken->0 == before.inner.pending@[hash]
    &&& crate::cache_laws::listed_behind(before, after, number, hash)
}

/// The changesets of a block are taken from the cache, else from a pending computation, else computed.
/// What is cached is given even for a block that would be refused, and nobody need be callable then.
pub proof fn lemma_block_through_the_cache<P, E, S, H, R, W, C>(
    cache: &mut ChangesetCache<P>,
    hash: B256,
    number: u64,
    checkpoint: Option<u64>,
    newer_reverts: S,
    sources: ChangesetSources<H, R, W, C>,
    result: Result<Served<P>, ProviderError<E>>,
) where
    S: Fn(u64) -> Result<HashedPostState, E>,
    H: Fn(u64) -> Result<Option<B256>, E>,
    R: Fn(u64) -> Result<HashedPostState, E>,
    W: Fn(&P) -> Option<Arc<TrieUpdatesSorted>>,
    C: Fn(u64, &HashedPostState, &HashedPostState) -> Result<TrieUpdatesSorted, E>,

    requires
        old(cache).wf(),
        crate::range_laws::gives_in_order::<P, E, W, C>(sources.wait, sources.compute),
        call_ensures(
            ChangesetCache::<P>::get_or_compute::<E, S, H, R, W, C>,
            (cache, hash, number, checkpoint, &newer_reverts, &sources),
            result,
        ),
    ensures
        block_given::<P, E, S, H, R, W, C>(
            sources,
            newer_reverts,
            *old(cache),
            *final(cache),
            checkpoint,
            hash,
            number,
            result,
        ),
        old(cache).inner.entries@.contains_key(hash) ==> call_requires(
            ChangesetCache::<P>::get_or_compute::<E, S, H, R, W, C>,
            (cache, hash, number, checkpoint, &newer_reverts, &sources),
        ),
        !old(cache).inner.entries@.contains_key(hash) && !old(cache).inner.pending@.contains_key(hash)
            && checkpoint is Some && number > checkpoint->0 ==> result is Err && call_requires(
            ChangesetCache::<P>::get_or_compute::<E, S, H, R, W, C>,
            (cache, hash, number, checkpoint, &newer_reverts, &sources),
        ),
{
    lemma_block_served::<P, E, S, H, R, W, C>(
        sources,
        newer_reverts,
        *old(cache),
        *final(cache),
        checkpoint,
        hash,
        number,
        result,
    );
    crate::range_laws::lemma_in_order_is_wf::<P, E, H, R, W, C>(sources);
}

/// What comes of asking for the changesets of a block.
proof fn lemma_block_served<P, E, S, H, R, W, C>(
    sources: ChangesetSources<H, R, W, C>,
    newer_reverts: S,
    before: ChangesetCache<P>,
    after: ChangesetCache<P>,
    checkpoint: Option<u64>,
    hash: B256,
    number: u64,
    result: Result<Served<P>, ProviderError<E>>,
) where
    S: Fn(u64) -> Result<HashedPostState, E>,
    R: Fn(u64) -> Result<HashedPostState, E>,
    W: Fn(&P) -> Option<Arc<TrieUpdatesSorted>>,
    C: Fn(u64, &HashedPostState, &HashedPostState) -> Result<TrieUpdatesSorted, E>,

    requires
        sources.block_served(newer_reverts, before, after, checkpoint, hash, number, result),
    ensures
        block_given::<P, E, S, H, R, W, C>(
            sources,
            newer_reverts,
            before,
            after,
            checkpoint,
            hash,
            number,
            result,
        ),
{
    if !before.inner.entries@.contains_key(hash) && !(result is Ok
        && result->Ok_0.source is Pending) {
        lemma_block_changesets::<E, R, S, C>(
            checkpoint,
            sources.revert,
            newer_reverts,
            sources.compute,
            number,
            changesets_in(result),
        );
        if result is Ok {
            crate::cache_laws::lemma_listed_behind(before, after, number, hash);
            assert(computed_and_cached(before, after, hash, number, result->Ok_0));
        }
    }
}

/// Whether each of `nodes` was looked up with a cursor: `found` has the same paths in the same order,
/// each with what the cursor gives for it.
pub open spec fn all_looked_up<K, E, F>(
    nodes: Seq<NodeUpdate>,
    lookup: F,
    cursor: K,
    found: Seq<NodeUpdate>,
) -> bool where F: Fn(&K, &Nibbles) -> Result<Option<BranchNodeCompact>, E> {
    &&& found.len() == nodes.len()
    &&& forall|i: int|
        #![trigger found[i]]
        0 <= i < found.len() ==> {
            &&& found[i].0 == nodes[i].0
            &&& lookup.ensures(
                (&cursor, &nodes[i].0),
                Ok::<Option<BranchNodeCompact>, E>(found[i].1),
            )
        }
}

/// Whether looking up `nodes` with a cursor fails with `error`: at one of the paths it does, and at
/// those before it gives something.
pub open spec fn lookup_failed<K, E, F>(
    nodes: Seq<NodeUpdate>,
    lookup: F,
    cursor: K,
    error: E,
) -> bool where F: Fn(&K, &Nibbles) -> Result<Option<BranchNodeCompact>, E> {
    exists|i: int, found: Seq<NodeUpdate>|
        {
            &&& 0 <= i < nodes.len()
            &&& lookup.ensures((&cursor, &nodes[i].0), Err::<Option<BranchNodeCompact>, E>(error))
            &&& #[trigger] all_looked_up::<K, E, F>(nodes.take(i), lookup, cursor, found)
        }
}

/// Whether the account nodes of changesets were looked up.
pub open spec fn accounts_looked_up<Q, A, O, N, K, E>(
    cursors: TrieCursors<Q, A, O, N>,
    changesets: TrieUpdatesSorted,
    found: Seq<NodeUpdate>,
) -> bool where
    Q: Fn() -> Result<K, E>,
    A: Fn(&K, &Nibbles) -> Result<Option<BranchNodeCompact>, E>,
 {
    exists|cursor: K|
        {
            &&& #[trigger] cursors.account_cursor.ensures((), Ok::<K, E>(cursor))
            &&& all_looked_up::<K, E, A>(
                changesets.account_nodes@,
                cursors.account_node,
                cursor,
                found,
            )
        }
}

/// Whether the nodes of a storage trie of changesets were looked up.
pub open spec fn storage_looked_up<Q, A, O, N, S, E>(
    cursors: TrieCursors<Q, A, O, N>,
    changesets: TrieUpdatesSorted,
    address: B256,
    found: Seq<NodeUpdate>,
) -> bool where
    O: Fn(&B256) -> Result<S, E>,
    N: Fn(&S, &Nibbles) -> Result<Option<BranchNodeCompact>, E>,
 {
    exists|cursor: S|
        {
            &&& #[trigger] cursors.storage_cursor.ensures((&address,), Ok::<S, E>(cursor))
            &&& all_looked_up::<S, E, N>(
                changesets.storage_tries@[address].storage_nodes@,
                cursors.storage_node,
                cursor,
                found,
            )
        }
}

/// Whether `updates` list the nodes that `changesets` list, each with what the cursors give for it,
/// and delete the storage tries that `changesets` delete.
pub open spec fn updates_looked_up<Q, A, O, N, K, S, E>(
    cursors: TrieCursors<Q, A, O, N>,
    changesets: TrieUpdatesSorted,
    updates: TrieUpdatesSorted,
) -> bool where
    Q: Fn() -> Result<K, E>,
    A: Fn(&K, &Nibbles) -> Result<Option<BranchNodeCompact>, E>,
    O: Fn(&B256) -> Result<S, E>,
    N: Fn(&S, &Nibbles) -> Result<Option<BranchNodeCompact>, E>,
 {
    &&& accounts_looked_up::<Q, A, O, N, K, E>(cursors, changesets, updates.account_nodes@)
    &&& forall|address: B256| #[trigger]
        updates.storage_tries@.contains_key(address) <==> changesets.storage_tries@.contains_key(
            address,
        )
    &&& forall|address: B256| #[trigger]
        updates.storage_tries@.contains_key(address) ==> {
            &&& updates.storage_tries@[address].is_deleted
                == changesets.storage_tries@[address].is_deleted
            &&& storage_looked_up::<Q, A, O, N, S, E>(
                cursors,
                changesets,
                address,
                updates.storage_tries@[address].storage_nodes@,
            )
        }
}

/// Whether looking up the nodes that `changesets` list fails with `error`. The account nodes come
/// first.
pub open spec fn updates_failed<Q, A, O, N, K, S, E>(
    cursors: TrieCursors<Q, A, O, N>,
    changesets: TrieUpdatesSorted,
    error: E,
) -> bool where
    Q: Fn() -> Result<K, E>,
    A: Fn(&K, &Nibbles) -> Result<Option<BranchNodeCompact>, E>,
    O: Fn(&B256) -> Result<S, E>,
    N: Fn(&S, &Nibbles) -> Result<Option<BranchNodeCompact>, E>,
 {
    ||| cursors.account_cursor.ensures((), Err::<K, E>(error))
    ||| exists|cursor: K|
        {
            &&& #[trigger] cursors.account_cursor.ensures((), Ok::<K, E>(cursor))
            &&& lookup_failed::<K, E, A>(
                changesets.account_nodes@,
                cursors.account_node,
                cursor,
                error,
            )
        }
    ||| exists|address: B256, found: Seq<NodeUpdate>|
        {
            &&& #[trigger] accounts_looked_up::<Q, A, O, N, K, E>(cursors, changesets, found)
            &&& #[trigger] changesets.storage_tries@.contains_key(address)
            &&& {
                ||| cursors.storage_cursor.ensures((&address,), Err::<S, E>(error))
                ||| exists|cursor: S|
                    {
                        &&& #[trigger] cursors.storage_cursor.ensures(
                            (&address,),
                            Ok::<S, E>(cursor),
                        )
                        &&& lookup_failed::<S, E, N>(
                            changesets.storage_tries@[address].storage_nodes@,
                            cursors.storage_node,
                            cursor,
                            error,
                        )
                    }
            }
        }
}

/// Nodes that were looked up, in both forms.
proof fn lemma_lookups<K, E, F>(nodes: Seq<NodeUpdate>, lookup: F, cursor: K) where
    F: Fn(&K, &Nibbles) -> Result<Option<BranchNodeCompact>, E>,

    ensures
        forall|found: Seq<NodeUpdate>| #[trigger]
            crate::block_updates::nodes_looked_up(
                nodes,
                crate::block_updates::lookup_values::<K, E, F>(lookup, cursor),
                found,
            ) ==> all_looked_up::<K, E, F>(nodes, lookup, cursor, found),
        forall|error: E| #[trigger]
            crate::block_updates::lookup_fails(
                nodes,
                crate::block_updates::lookup_values::<K, E, F>(lookup, cursor),
                crate::block_updates::lookup_errors::<K, E, F>(lookup, cursor, error),
            ) ==> lookup_failed::<K, E, F>(nodes, lookup, cursor, error),
{
    let values = crate::block_updates::lookup_values::<K, E, F>(lookup, cursor);
    assert forall|error: E| #[trigger]
        crate::block_updates::lookup_fails(
            nodes,
            values,
            crate::block_updates::lookup_errors::<K, E, F>(lookup, cursor, error),
        ) implies lookup_failed::<K, E, F>(nodes, lookup, cursor, error) by {
        let errors = crate::block_updates::lookup_errors::<K, E, F>(lookup, cursor, error);
        let (i, found) = choose|i: int, found: Seq<NodeUpdate>|
            {
                &&& 0 <= i < nodes.len()
                &&& errors(nodes[i].0)
                &&& #[trigger] crate::block_updates::nodes_looked_up(nodes.take(i), values, found)
            };
        assert(all_looked_up::<K, E, F>(nodes.take(i), lookup, cursor, found));
    }
}

/// What the cursors give for the nodes of changesets.
proof fn lemma_found<Q, A, O, N, K, S, E>(
    cursors: TrieCursors<Q, A, O, N>,
    changesets: TrieUpdatesSorted,
    updates: TrieUpdatesSorted,
) where
    Q: Fn() -> Result<K, E>,
    A: Fn(&K, &Nibbles) -> Result<Option<BranchNodeCompact>, E>,
    O: Fn(&B256) -> Result<S, E>,
    N: Fn(&S, &Nibbles) -> Result<Option<BranchNodeCompact>, E>,

    requires
        cursors.found::<K, S, E>(changesets, updates),
    ensures
        updates_looked_up::<Q, A, O, N, K, S, E>(cursors, changesets, updates),
{
    let nodes = changesets.account_nodes@;
    let cursor = choose|cursor: K|
        {
            &&& #[trigger] cursors.account_cursor.ensures((), Ok::<K, E>(cursor))
            &&& crate::block_updates::nodes_looked_up(
                nodes,
                crate::block_updates::lookup_values::<K, E, A>(cursors.account_node, cursor),
                updates.account_nodes@,
            )
        };
    lemma_lookups::<K, E, A>(nodes, cursors.account_node, cursor);
    assert(accounts_looked_up::<Q, A, O, N, K, E>(cursors, changesets, updates.account_nodes@));
    assert forall|address: B256| #[trigger]
        updates.storage_tries@.contains_key(address) <==> changesets.storage_tries@.contains_key(
            address,
        ) by {
        assert(updates.storage_tries@.dom().contains(address)
            == changesets.storage_tries@.dom().contains(address));
    }
    assert forall|address: B256| #[trigger]
        updates.storage_tries@.contains_key(address) implies storage_looked_up::<
        Q, A, O, N, S, E,
    >(cursors, changesets, address, updates.storage_tries@[address].storage_nodes@) by {
        let changes = changesets.storage_tries@[address];
        let trie = updates.storage_tries@[address];
        assert(cursors.storage_trie_found::<S, E>(address, changes, trie));
        let opened = choose|opened: S|
            {
                &&& #[trigger] cursors.storage_cursor.ensures((&address,), Ok::<S, E>(opened))
                &&& crate::block_updates::nodes_looked_up(
                    changes.storage_nodes@,
                    crate::block_updates::lookup_values::<S, E, N>(cursors.storage_node, opened),
                    trie.storage_nodes@,
                )
            };
        lemma_lookups::<S, E, N>(changes.storage_nodes@, cursors.storage_node, opened);
    }
}

/// How looking up the nodes of changesets fails.
proof fn lemma_not_found<Q, A, O, N, K, S, E>(
    cursors: TrieCursors<Q, A, O, N>,
    changesets: TrieUpdatesSorted,
    error: E,
) where
    Q: Fn() -> Result<K, E>,
    A: Fn(&K, &Nibbles) -> Result<Option<BranchNodeCompact>, E>,
    O: Fn(&B256) -> Result<S, E>,
    N: Fn(&S, &Nibbles) -> Result<Option<BranchNodeCompact>, E>,

    requires
        cursors.fails::<K, S, E>(changesets, error),
    ensures
        updates_failed::<Q, A, O, N, K, S, E>(cursors, changesets, error),
{
    let nodes = changesets.account_nodes@;
    assert forall|cursor: K|
        crate::block_updates::lookup_fails(
            nodes,
            crate::block_updates::lookup_values::<K, E, A>(cursors.account_node, cursor),
            crate::block_updates::lookup_errors::<K, E, A>(cursors.account_node, cursor, error),
        ) implies #[trigger] lookup_failed::<K, E, A>(
        nodes,
        cursors.account_node,
        cursor,
        error,
    ) by {
        lemma_lookups::<K, E, A>(nodes, cursors.account_node, cursor);
    }
    assert forall|found: Seq<NodeUpdate>| #[trigger]
        cursors.account_nodes_found::<K, E>(nodes, found) implies accounts_looked_up::<
        Q, A, O, N, K, E,
    >(cursors, changesets, found) by {
        let cursor = choose|cursor: K|
            {
                &&& #[trigger] cursors.account_cursor.ensures((), Ok::<K, E>(cursor))
                &&& crate::block_updates::nodes_looked_up(
                    nodes,
                    crate::block_updates::lookup_values::<K, E, A>(cursors.account_node, cursor),
                    found,
                )
            };
        lemma_lookups::<K, E, A>(nodes, cursors.account_node, cursor);
    }
    assert forall|address: B256, cursor: S|
        crate::block_updates::lookup_fails(
            changesets.storage_tries@[address].storage_nodes@,
            crate::block_updates::lookup_values::<S, E, N>(cursors.storage_node, cursor),
            crate::block_updates::lookup_errors::<S, E, N>(cursors.storage_node, cursor, error),
        ) implies #[trigger] lookup_failed::<S, E, N>(
        changesets.storage_tries@[address].storage_nodes@,
        cursors.storage_node,
        cursor,
        error,
    ) by {
        lemma_lookups::<S, E, N>(
            changesets.storage_tries@[address].storage_nodes@,
            cursors.storage_node,
            cursor,
        );
    }
}

/// The updates of a block list the nodes that its changesets list, in the same order, each with what
/// the cursors give for it, and delete the same storage tries. They are there where no cursor fails.
pub proof fn lemma_collected_updates<Q, A, O, N, K, S, E>(
    changesets: TrieUpdatesSorted,
    cursors: TrieCursors<Q, A, O, N>,
    result: Result<TrieUpdatesSorted, E>,
) where
    Q: Fn() -> Result<K, E>,
    A: Fn(&K, &Nibbles) -> Result<Option<BranchNodeCompact>, E>,
    O: Fn(&B256) -> Result<S, E>,
    N: Fn(&S, &Nibbles) -> Result<Option<BranchNodeCompact>, E>,

    requires
        call_ensures(
            crate::block_updates::collect_trie_updates::<Q, A, O, N, K, S, E>,
            (&changesets, &cursors),
            result,
        ),
    ensures
        result is Ok ==> crate::overlay_laws::all_in_order(result->Ok_0),
        result is Ok ==> updates_looked_up::<Q, A, O, N, K, S, E>(
            cursors,
            changesets,
            result->Ok_0,
        ),
        result is Err ==> updates_failed::<Q, A, O, N, K, S, E>(
            cursors,
            changesets,
            result->Err_0,
        ),
        cannot_fail::<Q, A, O, N, K, S, E>(cursors) ==> result is Ok,
        crate::overlay_laws::all_in_order(changesets) && callable::<Q, A, O, N, K, S, E>(cursors)
            ==> call_requires(
            crate::block_updates::collect_trie_updates::<Q, A, O, N, K, S, E>,
            (&changesets, &cursors),
        ),
{
    crate::overlay_laws::lemma_wf_is_in_order(changesets);
    if result is Ok {
        crate::overlay_laws::lemma_wf_is_in_order(result->Ok_0);
        lemma_found::<Q, A, O, N, K, S, E>(cursors, changesets, result->Ok_0);
    } else {
        lemma_not_found::<Q, A, O, N, K, S, E>(cursors, changesets, result->Err_0);
    }
}

/// Whether every cursor can be opened and asked for every path.
pub open spec fn callable<Q, A, O, N, K, S, E>(cursors: TrieCursors<Q, A, O, N>) -> bool where
    Q: Fn() -> Result<K, E>,
    A: Fn(&K, &Nibbles) -> Result<Option<BranchNodeCompact>, E>,
    O: Fn(&B256) -> Result<S, E>,
    N: Fn(&S, &Nibbles) -> Result<Option<BranchNodeCompact>, E>,
 {
    &&& cursors.account_cursor.requires(())
    &&& forall|cursor: K, path: Nibbles| #[trigger]
        cursors.account_node.requires((&cursor, &path))
    &&& forall|address: B256| #[trigger] cursors.storage_cursor.requires((&address,))
    &&& forall|cursor: S, path: Nibbles| #[trigger]
        cursors.storage_node.requires((&cursor, &path))
}

/// Whether no cursor fails.
pub open spec fn cannot_fail<Q, A, O, N, K, S, E>(cursors: TrieCursors<Q, A, O, N>) -> bool where
    Q: Fn() -> Result<K, E>,
    A: Fn(&K, &Nibbles) -> Result<Option<BranchNodeCompact>, E>,
    O: Fn(&B256) -> Result<S, E>,
    N: Fn(&S, &Nibbles) -> Result<Option<BranchNodeCompact>, E>,
 {
    &&& forall|found: Result<K, E>| #[trigger]
        cursors.account_cursor.ensures((), found) ==> found is Ok
    &&& forall|cursor: K, path: Nibbles, found: Result<Option<BranchNodeCompact>, E>| #[trigger]
        cursors.account_node.ensures((&cursor, &path), found) ==> found is Ok
    &&& forall|address: B256, found: Result<S, E>| #[trigger]
        cursors.storage_cursor.ensures((&address,), found) ==> found is Ok
    &&& forall|cursor: S, path: Nibbles, found: Result<Option<BranchNodeCompact>, E>| #[trigger]
        cursors.storage_node.ensures((&cursor, &path), found) ==> found is Ok
}

/// Whether the handles that are woken for a block are those that its changesets wake, and then those
/// that the range above it wakes.
pub open spec fn woken_together<P>(
    served: Served<P>,
    range: Seq<(P, Arc<TrieUpdatesSorted>)>,
    woken: Seq<(P, Arc<TrieUpdatesSorted>)>,
) -> bool {
    if served.woken is Some {
        &&& woken.len() == range.len() + 1
        &&& woken[0].0 == served.woken->0
        &&& woken[0].1 == served.changesets
        &&& forall|i: int| 0 <= i < range.len() ==> woken[i + 1] == #[trigger] range[i]
    } else {
        woken == range
    }
}

/// Whether `outcome` is what the updates of a block come to, once its changesets are there as `served`
/// and the range above it as `range`: the error of the range, or what the cursors over its accumulated
/// changesets give for the nodes that the block changed.
pub open spec fn updates_given<P, E, Q, A, O, N, K, S, F>(
    served: Served<P>,
    range: RangeOutcome<P, E>,
    open: F,
    outcome: RangeOutcome<P, E>,
) -> bool where
    Q: Fn() -> Result<K, E>,
    A: Fn(&K, &Nibbles) -> Result<Option<BranchNodeCompact>, E>,
    O: Fn(&B256) -> Result<S, E>,
    N: Fn(&S, &Nibbles) -> Result<Option<BranchNodeCompact>, E>,
    F: FnOnce(TrieUpdatesSorted) -> TrieCursors<Q, A, O, N>,
 {
    &&& woken_together(served, range.woken@, outcome.woken@)
    &&& range.result is Err ==> outcome.result is Err && outcome.result->Err_0
        == range.result->Err_0
    &&& range.result is Ok ==> exists|cursors: TrieCursors<Q, A, O, N>|
        {
            &&& #[trigger] open.ensures((range.result->Ok_0,), cursors)
            &&& outcome.result is Ok ==> crate::overlay_laws::all_in_order(outcome.result->Ok_0)
                && updates_looked_up::<Q, A, O, N, K, S, E>(
                cursors,
                *served.changesets,
                outcome.result->Ok_0,
            )
            &&& outcome.result is Err ==> outcome.result->Err_0 is Other && updates_failed::<
                Q, A, O, N, K, S, E,
            >(cursors, *served.changesets, outcome.result->Err_0->Other_0)
        }
}

/// The updates of a block are refused exactly where there is no checkpoint or the block is above it,
/// and then nothing happens and nothing is asked for.
pub proof fn lemma_updates_are_refused<P, E, G, H, R, W, C, Q, A, O, N, K, S, F>(
    cache: &mut ChangesetCache<P>,
    checkpoint: Option<u64>,
    block_number: u64,
    newer_reverts: G,
    sources: ChangesetSources<H, R, W, C>,
    open: F,
    outcome: RangeOutcome<P, E>,
) where
    G: Fn(u64) -> Result<HashedPostState, E>,
    H: Fn(u64) -> Result<Option<B256>, E>,
    R: Fn(u64) -> Result<HashedPostState, E>,
    W: Fn(&P) -> Option<Arc<TrieUpdatesSorted>>,
    C: Fn(u64, &HashedPostState, &HashedPostState) -> Result<TrieUpdatesSorted, E>,
    Q: Fn() -> Result<K, E>,
    A: Fn(&K, &Nibbles) -> Result<Option<BranchNodeCompact>, E>,
    O: Fn(&B256) -> Result<S, E>,
    N: Fn(&S, &Nibbles) -> Result<Option<BranchNodeCompact>, E>,
    F: FnOnce(TrieUpdatesSorted) -> TrieCursors<Q, A, O, N>,

    requires
        old(cache).wf(),
        checkpoint is None || block_number > checkpoint->0,
        call_ensures(
            crate::block_updates::compute_block_trie_updates::<
                P, E, G, H, R, W, C, Q, A, O, N, K, S, F,
            >,
            (cache, checkpoint, block_number, &newer_reverts, &sources, open),
            outcome,
        ),
    ensures
        call_requires(
            crate::block_updates::compute_block_trie_updates::<
                P, E, G, H, R, W, C, Q, A, O, N, K, S, F,
            >,
            (cache, checkpoint, block_number, &newer_reverts, &sources, open),
        ),
        *final(cache) == *old(cache),
        outcome.woken@.len() == 0,
        outcome.result is Err,
        outcome.result->Err_0 is InsufficientChangesets,
        outcome.result->Err_0->InsufficientChangesets_requested == block_number,
        outcome.result->Err_0->available.first == 0,
        outcome.result->Err_0->available.last == if checkpoint is None {
            0
        } else {
            checkpoint->0
        },
{
}

/// The updates of a block up to the checkpoint are never refused. The hash of the block is asked for
/// first. Then its changesets are got through the cache, then the accumulated changesets of all blocks
/// from the next one to the checkpoint, and then the nodes that the block changed are looked up.
pub proof fn lemma_updates_up_to_the_checkpoint<P, E, G, H, R, W, C, Q, A, O, N, K, S, F>(
    cache: &mut ChangesetCache<P>,
    tip: u64,
    block_number: u64,
    newer_reverts: G,
    sources: ChangesetSources<H, R, W, C>,
    open: F,
    outcome: RangeOutcome<P, E>,
) where
    G: Fn(u64) -> Result<HashedPostState, E>,
    H: Fn(u64) -> Result<Option<B256>, E>,
    R: Fn(u64) -> Result<HashedPostState, E>,
    W: Fn(&P) -> Option<Arc<TrieUpdatesSorted>>,
    C: Fn(u64, &HashedPostState, &HashedPostState) -> Result<TrieUpdatesSorted, E>,
    Q: Fn() -> Result<K, E>,
    A: Fn(&K, &Nibbles) -> Result<Option<BranchNodeCompact>, E>,
    O: Fn(&B256) -> Result<S, E>,
    N: Fn(&S, &Nibbles) -> Result<Option<BranchNodeCompact>, E>,
    F: FnOnce(TrieUpdatesSorted) -> TrieCursors<Q, A, O, N>,

    requires
        old(cache).wf(),
        block_number <= tip,
        tip < u64::MAX,
        crate::range_laws::gives_in_order::<P, E, W, C>(sources.wait, sources.compute),
        call_ensures(
            crate::block_updates::compute_block_trie_updates::<
                P, E, G, H, R, W, C, Q, A, O, N, K, S, F,
            >,
            (cache, Some(tip), block_number, &newer_reverts, &sources, open),
            outcome,
        ),
    ensures
        outcome.result is Err ==> !(outcome.result->Err_0 is InsufficientChangesets),
        exists|found: Result<Option<B256>, E>|
            {
                &&& #[trigger] sources.block_hash.ensures((block_number,), found)
                &&& updates_of_block::<P, E, G, H, R, W, C, Q, A, O, N, K, S, F>(
                    sources,
                    newer_reverts,
                    *old(cache),
                    *final(cache),
                    tip,
                    found,
                    block_number,
                    open,
                    outcome,
                )
            },
{
    let before = *old(cache);
    let after = *final(cache);
    let found = choose|found: Result<Option<B256>, E>|
        {
            &&& #[trigger] sources.block_hash.ensures((block_number,), found)
            &&& match found {
                Ok(Some(block_hash)) => crate::block_updates::block_updates_served::<
                    P, E, G, H, R, W, C, Q, A, O, N, K, S, F,
                >(
                    sources,
                    newer_reverts,
                    before,
                    after,
                    tip,
                    block_hash,
                    block_number,
                    open,
                    outcome,
                ),
                Ok(None) => {
                    &&& after == before
                    &&& outcome.result == Err::<TrieUpdatesSorted, ProviderError<E>>(
                        ProviderError::BlockHashNotFound { block_number },
                    )
                    &&& outcome.woken@.len() == 0
                },
                Err(error) => {
                    &&& after == before
                    &&& outcome.result == Err::<TrieUpdatesSorted, ProviderError<E>>(
                        ProviderError::Other(error),
                    )
                    &&& outcome.woken@.len() == 0
                },
            }
        };
    if found is Ok && found->Ok_0 is Some {
        lemma_updates_served::<P, E, G, H, R, W, C, Q, A, O, N, K, S, F>(
            sources,
            newer_reverts,
            before,
            after,
            tip,
            found->Ok_0->0,
            block_number,
            open,
            outcome,
        );
    }
    assert(updates_of_block::<P, E, G, H, R, W, C, Q, A, O, N, K, S, F>(
        sources,
        newer_reverts,
        before,
        after,
        tip,
        found,
        block_number,
        open,
        outcome,
    ));
}

/// Whether `outcome` and the cache `after` are what comes of asking for the updates of a block, where
/// `found` is what the database gives for its hash.
pub open spec fn updates_of_block<P, E, G, H, R, W, C, Q, A, O, N, K, S, F>(
    sources: ChangesetSources<H, R, W, C>,
    newer_reverts: G,
    before: ChangesetCache<P>,
    after: ChangesetCache<P>,
    tip: u64,
    found: Result<Option<B256>, E>,
    block_number: u64,
    open: F,
    outcome: RangeOutcome<P, E>,
) -> bool where
    G: Fn(u64) -> Result<HashedPostState, E>,
    H: Fn(u64) -> Result<Option<B256>, E>,
    R: Fn(u64) -> Result<HashedPostState, E>,
    W: Fn(&P) -> Option<Arc<TrieUpdatesSorted>>,
    C: Fn(u64, &HashedPostState, &HashedPostState) -> Result<TrieUpdatesSorted, E>,
    Q: Fn() -> Result<K, E>,
    A: Fn(&K, &Nibbles) -> Result<Option<BranchNodeCompact>, E>,
    O: Fn(&B256) -> Result<S, E>,
    N: Fn(&S, &Nibbles) -> Result<Option<BranchNodeCompact>, E>,
    F: FnOnce(TrieUpdatesSorted) -> TrieCursors<Q, A, O, N>,
 {
    match found {
        Err(error) => {
            &&& after == before
            &&& outcome.woken@.len() == 0
            &&& outcome.result is Err
            &&& outcome.result->Err_0 is Other
            &&& outcome.result->Err_0->Other_0 == error
        },
        Ok(None) => {
            &&& after == before
            &&& outcome.woken@.len() == 0
            &&& outcome.result is Err
            &&& outcome.result->Err_0 is BlockHashNotFound
            &&& outcome.result->Err_0->BlockHashNotFound_block_number == block_number
        },
        Ok(Some(hash)) => updates_once_known::<P, E, G, H, R, W, C, Q, A, O, N, K, S, F>(
            sources,
            newer_reverts,
            before,
            after,
            tip,
            hash,
            block_number,
            open,
            outcome,
        ),
    }
}

/// Whether `outcome` and the cache `after` are what comes of asking for the updates of a block whose
/// hash is known: the error of its changesets, or what is made of them.
pub open spec fn updates_once_known<P, E, G, H, R, W, C, Q, A, O, N, K, S, F>(
    sources: ChangesetSources<H, R, W, C>,
    newer_reverts: G,
    before: ChangesetCache<P>,
    after: ChangesetCache<P>,
    tip: u64,
    hash: B256,
    block_number: u64,
    open: F,
    outcome: RangeOutcome<P, E>,
) -> bool where
    G: Fn(u64) -> Result<HashedPostState, E>,
    H: Fn(u64) -> Result<Option<B256>, E>,
    R: Fn(u64) -> Result<HashedPostState, E>,
    W: Fn(&P) -> Option<Arc<TrieUpdatesSorted>>,
    C: Fn(u64, &HashedPostState, &HashedPostState) -> Result<TrieUpdatesSorted, E>,
    Q: Fn() -> Result<K, E>,
    A: Fn(&K, &Nibbles) -> Result<Option<BranchNodeCompact>, E>,
    O: Fn(&B256) -> Result<S, E>,
    N: Fn(&S, &Nibbles) -> Result<Option<BranchNodeCompact>, E>,
    F: FnOnce(TrieUpdatesSorted) -> TrieCursors<Q, A, O, N>,
 {
    ||| {
        &&& outcome.result is Err
        &&& outcome.woken@.len() == 0
        &&& block_given::<P, E, G, H, R, W, C>(
            sources,
            newer_reverts,
            before,
            after,
            Some(tip),
            hash,
            block_number,
            Err::<Served<P>, ProviderError<E>>(outcome.result->Err_0),
        )
    }
    ||| exists|served: Served<P>, between: ChangesetCache<P>, range: RangeOutcome<P, E>| #[trigger]
        updates_in_steps::<P, E, G, H, R, W, C, Q, A, O, N, K, S, F>(
            sources,
            newer_reverts,
            before,
            between,
            after,
            tip,
            hash,
            block_number,
            served,
            range,
            open,
            outcome,
        )
}

/// Whether the updates of a block come from its changesets, got through the cache `before`, then from
/// the range above it, got through the cache `between`, and then from the cursors.
pub open spec fn updates_in_steps<P, E, G, H, R, W, C, Q, A, O, N, K, S, F>(
    sources: ChangesetSources<H, R, W, C>,
    newer_reverts: G,
    before: ChangesetCache<P>,
    between: ChangesetCache<P>,
    after: ChangesetCache<P>,
    tip: u64,
    hash: B256,
    block_number: u64,
    served: Served<P>,
    range: RangeOutcome<P, E>,
    open: F,
    outcome: RangeOutcome<P, E>,
) -> bool where
    G: Fn(u64) -> Result<HashedPostState, E>,
    H: Fn(u64) -> Result<Option<B256>, E>,
    R: Fn(u64) -> Result<HashedPostState, E>,
    W: Fn(&P) -> Option<Arc<TrieUpdatesSorted>>,
    C: Fn(u64, &HashedPostState, &HashedPostState) -> Result<TrieUpdatesSorted, E>,
    Q: Fn() -> Result<K, E>,
    A: Fn(&K, &Nibbles) -> Result<Option<BranchNodeCompact>, E>,
    O: Fn(&B256) -> Result<S, E>,
    N: Fn(&S, &Nibbles) -> Result<Option<BranchNodeCompact>, E>,
    F: FnOnce(TrieUpdatesSorted) -> TrieCursors<Q, A, O, N>,
 {
    &&& block_given::<P, E, G, H, R, W, C>(
        sources,
        newer_reverts,
        before,
        between,
        Some(tip),
        hash,
        block_number,
        Ok::<Served<P>, ProviderError<E>>(served),
    )
    &&& crate::range_laws::range_read_and_given::<P, E, G, H, R, W, C>(
        sources,
        newer_reverts,
        between,
        after,
        (block_number + 1) as u64,
        tip,
        range,
    )
    &&& updates_given::<P, E, Q, A, O, N, K, S, F>(served, range, open, outcome)
}

/// What the updates of a block come to once its hash is known.
proof fn lemma_updates_served<P, E, G, H, R, W, C, Q, A, O, N, K, S, F>(
    sources: ChangesetSources<H, R, W, C>,
    newer_reverts: G,
    before: ChangesetCache<P>,
    after: ChangesetCache<P>,
    tip: u64,
    hash: B256,
    block_number: u64,
    open: F,
    outcome: RangeOutcome<P, E>,
) where
    G: Fn(u64) -> Result<HashedPostState, E>,
    H: Fn(u64) -> Result<Option<B256>, E>,
    R: Fn(u64) -> Result<HashedPostState, E>,
    W: Fn(&P) -> Option<Arc<TrieUpdatesSorted>>,
    C: Fn(u64, &HashedPostState, &HashedPostState) -> Result<TrieUpdatesSorted, E>,
    Q: Fn() -> Result<K, E>,
    A: Fn(&K, &Nibbles) -> Result<Option<BranchNodeCompact>, E>,
    O: Fn(&B256) -> Result<S, E>,
    N: Fn(&S, &Nibbles) -> Result<Option<BranchNodeCompact>, E>,
    F: FnOnce(TrieUpdatesSorted) -> TrieCursors<Q, A, O, N>,

    requires
        before.wf(),
        block_number <= tip,
        tip < u64::MAX,
        crate::range_laws::gives_in_order::<P, E, W, C>(sources.wait, sources.compute),
        crate::block_updates::block_updates_served::<P, E, G, H, R, W, C, Q, A, O, N, K, S, F>(
            sources,
            newer_reverts,
            before,
            after,
            tip,
            hash,
            block_number,
            open,
            outcome,
        ),
    ensures
        outcome.result is Err ==> !(outcome.result->Err_0 is InsufficientChangesets),
        updates_once_known::<P, E, G, H, R, W, C, Q, A, O, N, K, S, F>(
            sources,
            newer_reverts,
            before,
            after,
            tip,
            hash,
            block_number,
            open,
            outcome,
        ),
{
    if outcome.result is Err && outcome.woken@.len() == 0 && sources.block_served(
        newer_reverts,
        before,
        after,
        Some(tip),
        hash,
        block_number,
        Err::<Served<P>, ProviderError<E>>(outcome.result->Err_0),
    ) {
        lemma_block_served::<P, E, G, H, R, W, C>(
            sources,
            newer_reverts,
            before,
            after,
            Some(tip),
            hash,
            block_number,
            Err::<Served<P>, ProviderError<E>>(outcome.result->Err_0),
        );
    } else {
        let (served, between, range) = choose|
            served: Served<P>,
            between: ChangesetCache<P>,
            range: RangeOutcome<P, E>,
        |
            {
                &&& #[trigger] sources.block_served(
                    newer_reverts,
                    before,
                    between,
                    Some(tip),
                    hash,
                    block_number,
                    Ok::<Served<P>, ProviderError<E>>(served),
                )
                &&& #[trigger] sources.range_served(
                    newer_reverts,
                    between,
                    after,
                    Some(tip),
                    (block_number + 1) as u64,
                    tip,
                    range,
                )
                &&& outcome.woken@ == crate::block_updates::woken_by(served) + range.woken@
                &&& match range.result {
                    Err(error) => outcome.result == Err::<TrieUpdatesSorted, ProviderError<E>>(
                        error,
                    ),
                    Ok(reverts) => crate::block_updates::updates_result::<Q, A, O, N, K, S, E, F>(
                        *served.changesets,
                        reverts,
                        open,
                        outcome.result,
                    ),
                }
            };
        lemma_block_served::<P, E, G, H, R, W, C>(
            sources,
            newer_reverts,
            before,
            between,
            Some(tip),
            hash,
            block_number,
            Ok::<Served<P>, ProviderError<E>>(served),
        );
        lemma_still_in_order::<P, E, G, H, R, W, C>(
            sources,
            newer_reverts,
            before,
            between,
            tip,
            hash,
            block_number,
            served,
        );
        crate::range_laws::lemma_range_served::<P, E, G, H, R, W, C>(
            sources,
            newer_reverts,
            between,
            after,
            tip,
            (block_number + 1) as u64,
            tip,
            range,
        );
        lemma_updates_result::<P, E, Q, A, O, N, K, S, F>(served, range, open, outcome);
        assert(updates_in_steps::<P, E, G, H, R, W, C, Q, A, O, N, K, S, F>(
            sources,
            newer_reverts,
            before,
            between,
            after,
            tip,
            hash,
            block_number,
            served,
            range,
            open,
            outcome,
        ));
    }
}

/// The changesets that were served.
spec fn served_changesets<P>(served: Served<P>) -> TrieUpdatesSorted {
    *served.changesets
}

/// A cache whose changesets are in order keeps them so.
proof fn lemma_still_in_order<P, E, S, H, R, W, C>(
    sources: ChangesetSources<H, R, W, C>,
    newer_reverts: S,
    before: ChangesetCache<P>,
    after: ChangesetCache<P>,
    tip: u64,
    hash: B256,
    number: u64,
    served: Served<P>,
) where
    S: Fn(u64) -> Result<HashedPostState, E>,
    H: Fn(u64) -> Result<Option<B256>, E>,
    R: Fn(u64) -> Result<HashedPostState, E>,
    W: Fn(&P) -> Option<Arc<TrieUpdatesSorted>>,
    C: Fn(u64, &HashedPostState, &HashedPostState) -> Result<TrieUpdatesSorted, E>,

    requires
        before.wf(),
        crate::range_laws::gives_in_order::<P, E, W, C>(sources.wait, sources.compute),
        block_given::<P, E, S, H, R, W, C>(
            sources,
            newer_reverts,
            before,
            after,
            Some(tip),
            hash,
            number,
            Ok::<Served<P>, ProviderError<E>>(served),
        ),
    ensures
        forall|other: B256| #[trigger]
            after.inner.entries@.contains_key(other) ==> after.inner.entries@[other].1.wf(),
{
    crate::overlay_laws::lemma_wf_is_in_order(served_changesets(served));
    assert forall|other: B256| #[trigger]
        after.inner.entries@.contains_key(other) implies after.inner.entries@[other].1.wf() by {
        if before.inner.entries@.contains_key(other) {
            assert(before.inner.entries@[other].1.wf());
        }
    }
}

/// What the updates of a block come to once the range above it was walked.
proof fn lemma_updates_result<P, E, Q, A, O, N, K, S, F>(
    served: Served<P>,
    range: RangeOutcome<P, E>,
    open: F,
    outcome: RangeOutcome<P, E>,
) where
    Q: Fn() -> Result<K, E>,
    A: Fn(&K, &Nibbles) -> Result<Option<BranchNodeCompact>, E>,
    O: Fn(&B256) -> Result<S, E>,
    N: Fn(&S, &Nibbles) -> Result<Option<BranchNodeCompact>, E>,
    F: FnOnce(TrieUpdatesSorted) -> TrieCursors<Q, A, O, N>,

    requires
        outcome.woken@ == crate::block_updates::woken_by(served) + range.woken@,
        match range.result {
            Err(error) => outcome.result == Err::<TrieUpdatesSorted, ProviderError<E>>(error),
            Ok(reverts) => crate::block_updates::updates_result::<Q, A, O, N, K, S, E, F>(
                *served.changesets,
                reverts,
                open,
                outcome.result,
            ),
        },
    ensures
        updates_given::<P, E, Q, A, O, N, K, S, F>(served, range, open, outcome),
        range.result is Ok && outcome.result is Err ==> outcome.result->Err_0 is Other,
{
    let woken = outcome.woken@;
    if served.woken is Some {
        assert forall|i: int| 0 <= i < range.woken@.len() implies woken[i + 1]
            == #[trigger] range.woken@[i] by {}
    } else {
        assert(woken =~= range.woken@);
    }
    if range.result is Ok {
        let cursors = choose|cursors: TrieCursors<Q, A, O, N>|
            {
                &&& #[trigger] open.ensures((range.result->Ok_0,), cursors)
                &&& match outcome.result {
                    Ok(updates) => updates.wf() && cursors.found::<K, S, E>(
                        *served.changesets,
                        updates,
                    ),
                    Err(ProviderError::Other(error)) => cursors.fails::<K, S, E>(
                        *served.changesets,
                        error,
                    ),
                    Err(_) => false,
                }
            };
        if outcome.result is Ok {
            crate::overlay_laws::lemma_wf_is_in_order(outcome.result->Ok_0);
            lemma_found::<Q, A, O, N, K, S, E>(
                cursors,
                served_changesets(served),
                outcome.result->Ok_0,
            );
        } else {
            lemma_not_found::<Q, A, O, N, K, S, E>(
                cursors,
                served_changesets(served),
                outcome.result->Err_0->Other_0,
            );
        }
    }
}

/// Whether the reverts and computations of the blocks `first..=last` never fail, and neither does
/// reading the revert of all blocks above the first one or above the last one.
pub open spec fn reads_cannot_fail<E, G, R, C>(
    revert: R,
    newer_reverts: G,
    compute: C,
    first: u64,
    last: u64,
) -> bool where
    G: Fn(u64) -> Result<HashedPostState, E>,
    R: Fn(u64) -> Result<HashedPostState, E>,
    C: Fn(u64, &HashedPostState, &HashedPostState) -> Result<TrieUpdatesSorted, E>,
 {
    &&& forall|n: u64, found: Result<HashedPostState, E>|
        first <= n <= last && #[trigger] revert.ensures((n,), found) ==> found is Ok
    &&& forall|n: u64, found: Result<HashedPostState, E>|
        (n == first + 1 || n == last + 1) && #[trigger] newer_reverts.ensures((n,), found)
            ==> found is Ok
    &&& forall|
        n: u64,
        own: HashedPostState,
        newer: HashedPostState,
        found: Result<TrieUpdatesSorted, E>,
    |
        first <= n <= last && #[trigger] compute.ensures((n, &own, &newer), found) ==> found is Ok
}

/// The changesets of a block that is not above the checkpoint are there where what is read and computed
/// for it never fails.
pub proof fn lemma_block_succeeds<P, E, S, H, R, W, C>(
    cache: &mut ChangesetCache<P>,
    hash: B256,
    number: u64,
    checkpoint: Option<u64>,
    newer_reverts: S,
    sources: ChangesetSources<H, R, W, C>,
    result: Result<Served<P>, ProviderError<E>>,
) where
    S: Fn(u64) -> Result<HashedPostState, E>,
    H: Fn(u64) -> Result<Option<B256>, E>,
    R: Fn(u64) -> Result<HashedPostState, E>,
    W: Fn(&P) -> Option<Arc<TrieUpdatesSorted>>,
    C: Fn(u64, &HashedPostState, &HashedPostState) -> Result<TrieUpdatesSorted, E>,

    requires
        old(cache).wf(),
        number < u64::MAX,
        checkpoint is None || number <= checkpoint->0,
        crate::range_laws::gives_in_order::<P, E, W, C>(sources.wait, sources.compute),
        reads_cannot_fail::<E, S, R, C>(
            sources.revert,
            newer_reverts,
            sources.compute,
            number,
            number,
        ),
        forall|p: P| #[trigger] sources.wait.requires((&p,)),
        sources.revert.requires((number,)),
        newer_reverts.requires(((number + 1) as u64,)),
        forall|own: HashedPostState, newer: HashedPostState| #[trigger]
            sources.compute.requires((number, &own, &newer)),
        call_ensures(
            ChangesetCache::<P>::get_or_compute::<E, S, H, R, W, C>,
            (cache, hash, number, checkpoint, &newer_reverts, &sources),
            result,
        ),
    ensures
        call_requires(
            ChangesetCache::<P>::get_or_compute::<E, S, H, R, W, C>,
            (cache, hash, number, checkpoint, &newer_reverts, &sources),
        ),
        result is Ok,
{
    lemma_block_through_the_cache::<P, E, S, H, R, W, C>(
        cache,
        hash,
        number,
        checkpoint,
        newer_reverts,
        sources,
        result,
    );
    crate::range_laws::lemma_in_order_is_wf::<P, E, H, R, W, C>(sources);
}

/// The updates of a block up to the checkpoint are there where all hashes are known and nothing that
/// is read, computed or looked up fails.
pub proof fn lemma_updates_succeed<P, E, G, H, R, W, C, Q, A, O, N, K, S, F>(
    cache: &mut ChangesetCache<P>,
    tip: u64,
    block_number: u64,
    newer_reverts: G,
    sources: ChangesetSources<H, R, W, C>,
    open: F,
    outcome: RangeOutcome<P, E>,
) where
    G: Fn(u64) -> Result<HashedPostState, E>,
    H: Fn(u64) -> Result<Option<B256>, E>,
    R: Fn(u64) -> Result<HashedPostState, E>,
    W: Fn(&P) -> Option<Arc<TrieUpdatesSorted>>,
    C: Fn(u64, &HashedPostState, &HashedPostState) -> Result<TrieUpdatesSorted, E>,
    Q: Fn() -> Result<K, E>,
    A: Fn(&K, &Nibbles) -> Result<Option<BranchNodeCompact>, E>,
    O: Fn(&B256) -> Result<S, E>,
    N: Fn(&S, &Nibbles) -> Result<Option<BranchNodeCompact>, E>,
    F: FnOnce(TrieUpdatesSorted) -> TrieCursors<Q, A, O, N>,

    requires
        old(cache).wf(),
        block_number <= tip,
        tip < u64::MAX,
        crate::range_laws::gives_in_order::<P, E, W, C>(sources.wait, sources.compute),
        reads_cannot_fail::<E, G, R, C>(
            sources.revert,
            newer_reverts,
            sources.compute,
            block_number,
            tip,
        ),
        forall|n: u64, found: Result<Option<B256>, E>|
            block_number <= n <= tip && #[trigger] sources.block_hash.ensures((n,), found)
                ==> found is Ok && found->Ok_0 is Some,
        forall|reverts: TrieUpdatesSorted, cursors: TrieCursors<Q, A, O, N>| #[trigger]
            open.ensures((reverts,), cursors) ==> cannot_fail::<Q, A, O, N, K, S, E>(cursors),
        call_ensures(
            crate::block_updates::compute_block_trie_updates::<
                P, E, G, H, R, W, C, Q, A, O, N, K, S, F,
            >,
            (cache, Some(tip), block_number, &newer_reverts, &sources, open),
            outcome,
        ),
    ensures
        outcome.result is Ok,
        (forall|n: u64|
            #![trigger sources.block_hash.requires((n,))]
            #![trigger sources.revert.requires((n,))]
            block_number <= n <= tip ==> sources.block_hash.requires((n,))
                && sources.revert.requires((n,))) && (forall|p: P| #[trigger]
            sources.wait.requires((&p,))) && (forall|
            n: u64,
            own: HashedPostState,
            newer: HashedPostState,
        |
            block_number <= n <= tip ==> #[trigger] sources.compute.requires((n, &own, &newer)))
            && newer_reverts.requires(((block_number + 1) as u64,)) && newer_reverts.requires(
            ((tip + 1) as u64,),
        ) && (forall|reverts: TrieUpdatesSorted| #[trigger] open.requires((reverts,))) && (forall|
            reverts: TrieUpdatesSorted,
            cursors: TrieCursors<Q, A, O, N>,
        | #[trigger]
            open.ensures((reverts,), cursors) ==> callable::<Q, A, O, N, K, S, E>(cursors))
            ==> call_requires(
            crate::block_updates::compute_block_trie_updates::<
                P, E, G, H, R, W, C, Q, A, O, N, K, S, F,
            >,
            (cache, Some(tip), block_number, &newer_reverts, &sources, open),
        ),
{
    crate::range_laws::lemma_in_order_is_wf::<P, E, H, R, W, C>(sources);
    lemma_updates_up_to_the_checkpoint::<P, E, G, H, R, W, C, Q, A, O, N, K, S, F>(
        cache,
        tip,
        block_number,
        newer_reverts,
        sources,
        open,
        outcome,
    );
    let before = *old(cache);
    let after = *final(cache);
    let found = choose|found: Result<Option<B256>, E>|
        {
            &&& #[trigger] sources.block_hash.ensures((block_number,), found)
            &&& updates_of_block::<P, E, G, H, R, W, C, Q, A, O, N, K, S, F>(
                sources,
                newer_reverts,
                before,
                after,
                tip,
                found,
                block_number,
                open,
                outcome,
            )
        };
    let hash = found->Ok_0->0;
    if outcome.result is Err {
        let (served, between, range) = choose|
            served: Served<P>,
            between: ChangesetCache<P>,
            range: RangeOutcome<P, E>,
        | #[trigger]
            updates_in_steps::<P, E, G, H, R, W, C, Q, A, O, N, K, S, F>(
                sources,
                newer_reverts,
                before,
                between,
                after,
                tip,
                hash,
                block_number,
                served,
                range,
                open,
                outcome,
            );
        assert(range.result is Ok);
        assert(false);
    }
}

} // verus!
