//! Which ranges are refused, and what a walk over a range gives, in terms of its blocks.

use crate::changeset_cache::{CacheEntry, ChangesetCache, Source};
use crate::hashed_state::{HashedPostState, HashedPostStateView};
use crate::range_walk::{ChangesetSources, ProviderError, RangeOutcome, RangeStep, RangeWalk};
use crate::trie_updates::{BranchNodeCompact, Nibbles, TrieUpdatesSorted};
use alloy_primitives::B256;
use std::sync::Arc;
use vstd::prelude::*;

verus! {

/// A range is refused exactly where there is no checkpoint or its last block is above the checkpoint.
/// The error names the first block if there is no checkpoint and the last block otherwise, and the
/// blocks up to the checkpoint as those that can be had.
pub proof fn lemma_ranges_are_refused_above_the_checkpoint<E>(
    checkpoint: Option<u64>,
    first: u64,
    last: u64,
    result: Result<(), ProviderError<E>>,
)
    requires
        call_ensures(crate::range_walk::check_range::<E>, (checkpoint, first, last), result),
    ensures
        call_requires(crate::range_walk::check_range::<E>, (checkpoint, first, last)),
        result is Err <==> checkpoint is None || last > checkpoint->0,
        result is Err ==> result->Err_0 is InsufficientChangesets,
        result is Err ==> result->Err_0->InsufficientChangesets_requested == if checkpoint is None {
            first
        } else {
            last
        },
        result is Err ==> result->Err_0->available.first == 0,
        result is Err ==> result->Err_0->available.last == if checkpoint is None {
            0
        } else {
            checkpoint->0
        },
{
}

/// Whether a range within the checkpoint is refused does not depend on its first block, and a range
/// that is not refused is not refused with a smaller last block or a larger checkpoint either.
pub proof fn lemma_smaller_ranges_are_not_refused<E>(
    tip: u64,
    first: u64,
    last: u64,
    result: Result<(), ProviderError<E>>,
    other_tip: u64,
    other_first: u64,
    other_last: u64,
    other: Result<(), ProviderError<E>>,
)
    requires
        call_ensures(crate::range_walk::check_range::<E>, (Some(tip), first, last), result),
        call_ensures(
            crate::range_walk::check_range::<E>,
            (Some(other_tip), other_first, other_last),
            other,
        ),
        result is Ok,
        other_last <= last,
        tip <= other_tip,
    ensures
        other is Ok,
{
}

/// A block is refused exactly where a checkpoint is known and the block is above it.
pub proof fn lemma_blocks_are_refused_above_the_checkpoint<E>(
    checkpoint: Option<u64>,
    block_number: u64,
    result: Result<(), ProviderError<E>>,
)
    requires
        call_ensures(crate::range_walk::check_block::<E>, (checkpoint, block_number), result),
    ensures
        call_requires(crate::range_walk::check_block::<E>, (checkpoint, block_number)),
        result is Err <==> checkpoint is Some && block_number > checkpoint->0,
        result is Err ==> result->Err_0 is InsufficientChangesets,
        result is Err ==> result->Err_0->InsufficientChangesets_requested == block_number,
        result is Err ==> result->Err_0->available.first == 0,
        result is Err ==> result->Err_0->available.last == checkpoint->0,
{
}

/// The tip is the checkpoint, and without one the block that was asked for is named in the error.
pub proof fn lemma_tip_is_the_checkpoint<E>(
    checkpoint: Option<u64>,
    requested: u64,
    tip: Result<u64, ProviderError<E>>,
)
    requires
        call_ensures(crate::range_walk::database_tip::<E>, (checkpoint, requested), tip),
    ensures
        tip is Ok <==> checkpoint is Some,
        tip is Ok ==> tip->Ok_0 == checkpoint->0,
        tip is Err ==> tip->Err_0 is InsufficientChangesets,
        tip is Err ==> tip->Err_0->InsufficientChangesets_requested == requested,
        tip is Err ==> tip->Err_0->available.first == 0 && tip->Err_0->available.last == 0,
{
}

/// A hash that was found is handed on, an error too, and of a hash that is missing the block is named.
pub proof fn lemma_hash_is_handed_on<H, E>(
    block_number: u64,
    found: Result<Option<H>, E>,
    hash: Result<H, ProviderError<E>>,
)
    requires
        call_ensures(crate::range_walk::known_block_hash::<H, E>, (block_number, found), hash),
    ensures
        hash is Ok <==> found is Ok && found->Ok_0 is Some,
        hash is Ok ==> hash->Ok_0 == found->Ok_0->0,
        hash is Err ==> (hash->Err_0 is Other <==> found is Err),
        hash is Err && found is Err ==> hash->Err_0->Other_0 == found->Err_0,
        hash is Err && found is Ok ==> hash->Err_0 is BlockHashNotFound
            && hash->Err_0->BlockHashNotFound_block_number == block_number,
{
}

/// A new walk begins at the last block, or is over if the range is empty. Nothing is accumulated yet.
pub proof fn lemma_new_walk(
    first: u64,
    last: u64,
    newer: HashedPostState,
    walk: RangeWalk,
    address: B256,
    slot: B256,
    path: Nibbles,
)
    requires
        call_ensures(RangeWalk::new, (first, last, newer), walk),
    ensures
        walk.next is Some <==> first <= last,
        first <= last ==> walk.next->0 == last,
        walk.range.first == first && walk.range.last == last,
        !crate::overlay_laws::names(walk.accumulated.account_nodes@, path),
        !walk.accumulated.storage_tries@.contains_key(address),
        crate::overlay_laws::same_state(walk.cumulative, newer),
{
    crate::overlay_laws::lemma_wf_is_in_order(walk.accumulated);
    crate::overlay_laws::lemma_view_of_accounts(walk.accumulated, path, None);
    crate::overlay_laws::lemma_view_of_storage(walk.accumulated, address, path, None);
    assert(walk.cumulative@ == newer@);
    crate::overlay_laws::lemma_same_views(walk.cumulative, newer);
}

/// A walk goes down by one block at a time and ends at the first one. What it has accumulated is
/// overlaid with the changesets of the block, and the revert that it carries along with its revert.
pub proof fn lemma_walk_advances(
    walk: &mut RangeWalk,
    revert: HashedPostState,
    changesets: TrieUpdatesSorted,
)
    requires
        old(walk).wf(),
        old(walk).next is Some,
        crate::overlay_laws::all_in_order(changesets),
        call_ensures(RangeWalk::advance, (walk, &revert, &changesets), ()),
    ensures
        call_requires(RangeWalk::advance, (walk, &revert, &changesets)),
        final(walk).wf(),
        final(walk).range == old(walk).range,
        final(walk).next is None <==> old(walk).next->0 == old(walk).range.first,
        final(walk).next is Some ==> final(walk).next->0 + 1 == old(walk).next->0,
        crate::overlay_laws::updates_overlaid(
            old(walk).accumulated,
            changesets,
            final(walk).accumulated,
        ),
        crate::overlay_laws::state_overlaid(old(walk).cumulative, revert, final(walk).cumulative),
{
    crate::overlay_laws::lemma_wf_is_in_order(changesets);
    crate::trie_updates::lemma_accumulated_changesets_grow(old(walk).changesets@, changesets@);
    crate::hashed_state::lemma_cumulative_revert_grows(
        old(walk).newer@,
        old(walk).reverts@,
        revert@,
    );
    crate::overlay_laws::lemma_extended_updates(
        old(walk).accumulated,
        changesets,
        final(walk).accumulated,
    );
    crate::overlay_laws::lemma_extended_state(old(walk).cumulative, revert, final(walk).cumulative);
}

/// A walk that is over hands out what it has accumulated.
pub proof fn lemma_walk_is_finished(walk: RangeWalk, accumulated: TrieUpdatesSorted)
    requires
        walk.wf(),
        walk.next is None,
        call_ensures(RangeWalk::finish, (walk,), accumulated),
    ensures
        call_requires(RangeWalk::finish, (walk,)),
        crate::overlay_laws::same_updates(walk.accumulated, accumulated),
{
    crate::overlay_laws::lemma_same_update_views(walk.accumulated, accumulated);
}

/// Whether a walk computed the changesets of the block with a hash at its step `i`.
pub open spec fn computed_at(steps: Seq<RangeStep>, i: int, hash: B256) -> bool {
    0 <= i < steps.len() && steps[i].source is Computed && steps[i].block_hash == hash
}

/// Whether a walk computed the changesets of the block with a hash.
pub open spec fn computed(steps: Seq<RangeStep>, hash: B256) -> bool {
    exists|i: int| #[trigger] computed_at(steps, i, hash)
}

/// Whether step `i` of a walk, which visits block `number`, is served as it has to be.
///
/// The hash and the revert of the block are those of the database. Changesets that were cached before
/// the walk are taken as they are. Others come from a pending computation, or they are computed where
/// no pending computation gives them, or the walk has computed them for the same hash already.
pub open spec fn step_given<P, E, H, R, W, C>(
    sources: ChangesetSources<H, R, W, C>,
    entries: Map<B256, CacheEntry>,
    pending: Map<B256, P>,
    steps: Seq<RangeStep>,
    i: int,
    number: u64,
) -> bool where
    H: Fn(u64) -> Result<Option<B256>, E>,
    R: Fn(u64) -> Result<HashedPostState, E>,
    W: Fn(&P) -> Option<Arc<TrieUpdatesSorted>>,
    C: Fn(u64, &HashedPostState, &HashedPostState) -> Result<TrieUpdatesSorted, E>,
 {
    let step = steps[i];
    let hash = steps[i].block_hash;
    &&& sources.block_hash.ensures((number,), Ok::<Option<B256>, E>(Some(hash)))
    &&& sources.revert.ensures((number,), Ok::<HashedPostState, E>(step.revert))
    &&& entries.contains_key(hash) ==> step.source is Cache && step.changesets == entries[hash].1
    &&& match step.source {
        Source::Cache => entries.contains_key(hash) || exists|j: int|
            i < j && #[trigger] computed_at(steps, j, hash) && steps[j].changesets
                == step.changesets,
        Source::Pending => pending.contains_key(hash) && sources.wait.ensures(
            (&pending[hash],),
            Some(step.changesets),
        ),
        Source::Computed => {
            &&& pending.contains_key(hash) ==> sources.wait.ensures(
                (&pending[hash],),
                None::<Arc<TrieUpdatesSorted>>,
            )
            &&& sources.compute.ensures(
                (number, &step.revert, &step.cumulative),
                Ok::<TrieUpdatesSorted, E>(*step.changesets),
            )
        },
    }
}

/// Whether the handles that a walk wakes are those that were pending for the blocks that it computed,
/// each with the changesets of its block. `at` are the steps that woke them, which come in the order
/// of the walk.
pub open spec fn woken_for<P>(
    pending: Map<B256, P>,
    steps: Seq<RangeStep>,
    woken: Seq<(P, Arc<TrieUpdatesSorted>)>,
    at: Seq<int>,
) -> bool {
    &&& at.len() == woken.len()
    &&& forall|k: int|
        #![trigger at[k]]
        0 <= k < at.len() ==> {
            &&& computed_at(steps, at[k], steps[at[k]].block_hash)
            &&& pending.contains_key(steps[at[k]].block_hash)
            &&& woken[k].0 == pending[steps[at[k]].block_hash]
            &&& woken[k].1 == steps[at[k]].changesets
        }
    &&& forall|k: int, l: int| 0 <= k < l < at.len() ==> #[trigger] at[k] > #[trigger] at[l]
    &&& forall|i: int|
        #![trigger steps[i]]
        computed_at(steps, i, steps[i].block_hash) && pending.contains_key(steps[i].block_hash)
            ==> at.contains(i)
}

/// What the steps of a walk are, and what they leave in the cache.
proof fn lemma_steps_of_walk<P, E, H, R, W, C>(
    sources: ChangesetSources<H, R, W, C>,
    cache: ChangesetCache<P>,
    newer: HashedPostStateView,
    last: u64,
    steps: Seq<RangeStep>,
) where
    H: Fn(u64) -> Result<Option<B256>, E>,
    R: Fn(u64) -> Result<HashedPostState, E>,
    W: Fn(&P) -> Option<Arc<TrieUpdatesSorted>>,
    C: Fn(u64, &HashedPostState, &HashedPostState) -> Result<TrieUpdatesSorted, E>,

    requires
        sources.walked::<P, E>(cache, newer, last, steps),
        steps.len() <= last + 1,
    ensures
        forall|i: int|
            #![trigger steps[i]]
            0 <= i < steps.len() ==> step_given::<P, E, H, R, W, C>(
                sources,
                cache.entries(),
                cache.pending(),
                steps,
                i,
                (last + 1 - steps.len() + i) as u64,
            ),
        forall|hash: B256| #[trigger]
            cache.entries().contains_key(hash) ==> {
                let after = crate::range_walk::entries_after(
                    cache.entries(),
                    last + 1 - steps.len(),
                    steps,
                );
                &&& after.contains_key(hash)
                &&& after[hash] == cache.entries()[hash]
            },
        forall|hash: B256| #[trigger]
            crate::range_walk::entries_after(
                cache.entries(),
                last + 1 - steps.len(),
                steps,
            ).contains_key(hash) ==> cache.entries().contains_key(hash) || computed(steps, hash),
        forall|i: int, hash: B256| #[trigger]
            computed_at(steps, i, hash) ==> {
                let after = crate::range_walk::entries_after(
                    cache.entries(),
                    last + 1 - steps.len(),
                    steps,
                );
                &&& !cache.entries().contains_key(hash)
                &&& after.contains_key(hash)
                &&& after[hash].0 == last + 1 - steps.len() + i
                &&& after[hash].1 == steps[i].changesets
            },
        forall|hash: B256| #[trigger]
            crate::range_walk::pending_after(cache.pending(), steps).contains_key(hash)
                <==> cache.pending().contains_key(hash) && !computed(steps, hash),
        forall|hash: B256| #[trigger]
            crate::range_walk::pending_after(cache.pending(), steps).contains_key(hash)
                ==> crate::range_walk::pending_after(cache.pending(), steps)[hash]
                == cache.pending()[hash],
    decreases steps.len(),
{
    if steps.len() > 0 {
        let above = steps.drop_first();
        let step = steps[0];
        let number: int = last + 1 - steps.len();
        let entries = crate::range_walk::entries_after(cache.entries(), number + 1, above);
        let pending = crate::range_walk::pending_after(cache.pending(), above);
        let entries_now = crate::range_walk::entries_after(cache.entries(), number, steps);
        let pending_now = crate::range_walk::pending_after(cache.pending(), steps);
        crate::chain_laws::lemma_walk_above::<P, E, H, R, W, C>(sources, cache, newer, last, steps);
        lemma_steps_of_walk::<P, E, H, R, W, C>(sources, cache, newer, last, above);
        assert(sources.allows::<P, E>(entries, pending, number as u64, step));
        assert forall|i: int, hash: B256| #[trigger]
            computed_at(steps, i, hash) implies (i == 0 || computed_at(above, i - 1, hash)) by {}
        assert forall|i: int, hash: B256| #[trigger]
            computed_at(above, i, hash) implies computed_at(steps, i + 1, hash) by {}
        assert forall|hash: B256| #[trigger] computed(steps, hash) <==> computed(above, hash) || (
        step.source is Computed && step.block_hash == hash) by {
            if computed(above, hash) {
                let i = choose|i: int| #[trigger] computed_at(above, i, hash);
                assert(computed_at(steps, i + 1, hash));
            }
            if step.source is Computed && step.block_hash == hash {
                assert(computed_at(steps, 0, hash));
            }
            if computed(steps, hash) {
                let i = choose|i: int| #[trigger] computed_at(steps, i, hash);
                assert(i == 0 || computed_at(above, i - 1, hash));
            }
        }
        assert(step.source is Computed ==> !computed(above, step.block_hash));
        assert forall|i: int|
            #![trigger steps[i]]
            0 <= i < steps.len() implies step_given::<P, E, H, R, W, C>(
            sources,
            cache.entries(),
            cache.pending(),
            steps,
            i,
            (last + 1 - steps.len() + i) as u64,
        ) by {
            let hash = steps[i].block_hash;
            if i > 0 {
                assert(above[i - 1] == steps[i]);
                assert(step_given::<P, E, H, R, W, C>(
                    sources,
                    cache.entries(),
                    cache.pending(),
                    above,
                    i - 1,
                    (last + 1 - above.len() + (i - 1)) as u64,
                ));
                if steps[i].source is Cache && !cache.entries().contains_key(hash) {
                    let j = choose|j: int|
                        i - 1 < j && #[trigger] computed_at(above, j, hash) && above[j].changesets
                            == steps[i].changesets;
                    assert(computed_at(steps, j + 1, hash));
                    assert(steps[j + 1] == above[j]);
                }
            } else if step.source is Cache && !cache.entries().contains_key(hash) {
                assert(computed(above, hash));
                let j = choose|j: int| #[trigger] computed_at(above, j, hash);
                assert(computed_at(steps, j + 1, hash));
                assert(steps[j + 1] == above[j]);
            } else if step.source is Pending {
                assert(pending.contains_key(hash));
            } else if step.source is Computed && cache.pending().contains_key(hash) {
                assert(pending.contains_key(hash));
            }
        }
        assert forall|hash: B256| #[trigger] cache.entries().contains_key(hash) implies {
            &&& entries_now.contains_key(hash)
            &&& entries_now[hash] == cache.entries()[hash]
        } by {
            assert(entries.contains_key(hash));
        }
        assert forall|i: int, hash: B256| #[trigger] computed_at(steps, i, hash) implies {
            &&& !cache.entries().contains_key(hash)
            &&& entries_now.contains_key(hash)
            &&& entries_now[hash].0 == number + i
            &&& entries_now[hash].1 == steps[i].changesets
        } by {
            if i > 0 {
                assert(computed_at(above, i - 1, hash));
                assert(steps[i] == above[i - 1]);
                assert(computed(above, hash));
            }
        }
    }
}

/// Whom a walk wakes.
proof fn lemma_woken_by_walk<P, E, H, R, W, C>(
    sources: ChangesetSources<H, R, W, C>,
    cache: ChangesetCache<P>,
    newer: HashedPostStateView,
    last: u64,
    steps: Seq<RangeStep>,
) -> (at: Seq<int>) where
    H: Fn(u64) -> Result<Option<B256>, E>,
    R: Fn(u64) -> Result<HashedPostState, E>,
    W: Fn(&P) -> Option<Arc<TrieUpdatesSorted>>,
    C: Fn(u64, &HashedPostState, &HashedPostState) -> Result<TrieUpdatesSorted, E>,

    requires
        sources.walked::<P, E>(cache, newer, last, steps),
        steps.len() <= last + 1,
    ensures
        woken_for(
            cache.pending(),
            steps,
            crate::range_walk::woken_after(cache.pending(), steps),
            at,
        ),
    decreases steps.len(),
{
    if steps.len() == 0 {
        Seq::empty()
    } else {
        let above = steps.drop_first();
        let step = steps[0];
        let start = cache.pending();
        let number: int = last + 1 - steps.len();
        crate::chain_laws::lemma_walk_above::<P, E, H, R, W, C>(sources, cache, newer, last, steps);
        lemma_steps_of_walk::<P, E, H, R, W, C>(sources, cache, newer, last, above);
        let at_above = lemma_woken_by_walk::<P, E, H, R, W, C>(sources, cache, newer, last, above);
        let left = crate::range_walk::pending_after(start, above);
        let entries = crate::range_walk::entries_after(cache.entries(), number + 1, above);
        assert(sources.allows::<P, E>(entries, left, number as u64, step));
        let shifted = Seq::new(at_above.len(), |k: int| at_above[k] + 1);
        let woken_above = crate::range_walk::woken_after(start, above);
        let woken = crate::range_walk::woken_after(start, steps);
        let wakes = step.source is Computed && start.contains_key(step.block_hash);
        if step.source is Computed {
            assert forall|j: int| !#[trigger] computed_at(above, j, step.block_hash) by {}
        }
        assert(wakes <==> step.source is Computed && left.contains_key(step.block_hash));
        let at = if wakes {
            shifted.push(0)
        } else {
            shifted
        };
        assert forall|k: int|
            #![trigger at[k]]
            0 <= k < at.len() implies {
            &&& computed_at(steps, at[k], steps[at[k]].block_hash)
            &&& start.contains_key(steps[at[k]].block_hash)
            &&& woken[k].0 == start[steps[at[k]].block_hash]
            &&& woken[k].1 == steps[at[k]].changesets
        } by {
            if k < shifted.len() {
                assert(at[k] == at_above[k] + 1);
                assert(computed_at(above, at_above[k], above[at_above[k]].block_hash));
                assert(steps[at[k]] == above[at_above[k]]);
                assert(woken[k] == woken_above[k]);
            }
        }
        assert forall|k: int, l: int| 0 <= k < l < at.len() implies #[trigger] at[k]
            > #[trigger] at[l] by {
            assert(at[k] == at_above[k] + 1);
            if l < shifted.len() {
                assert(at[l] == at_above[l] + 1);
                assert(at_above[k] > at_above[l]);
            } else {
                assert(computed_at(above, at_above[k], above[at_above[k]].block_hash));
            }
        }
        assert forall|i: int|
            #![trigger steps[i]]
            computed_at(steps, i, steps[i].block_hash) && start.contains_key(
                steps[i].block_hash,
            ) implies at.contains(i) by {
            if i > 0 {
                assert(above[i - 1] == steps[i]);
                assert(computed_at(above, i - 1, above[i - 1].block_hash));
                assert(at_above.contains(i - 1));
                let k = choose|k: int| 0 <= k < at_above.len() && at_above[k] == i - 1;
                assert(at[k] == i);
            } else {
                assert(at[shifted.len() as int] == 0);
            }
        }
        at
    }
}

/// What a walk leaves in the lists of hashes: behind those that are listed under the number of a block
/// that it computed stands the hash of that block.
proof fn lemma_lists_of_walk(
    lists: Map<u64, Seq<B256>>,
    first: int,
    steps: Seq<RangeStep>,
    number: u64,
)
    requires
        0 <= first,
        first + steps.len() <= u64::MAX,
    ensures
        ({
            let after = crate::range_walk::lists_after(lists, first, steps);
            let i = number - first;
            if 0 <= i < steps.len() && steps[i].source is Computed {
                &&& after.contains_key(number)
                &&& lists.contains_key(number) ==> after[number] == lists[number].push(
                    steps[i].block_hash,
                )
                &&& !lists.contains_key(number) ==> after[number] == seq![steps[i].block_hash]
            } else {
                &&& after.contains_key(number) <==> lists.contains_key(number)
                &&& after.contains_key(number) ==> after[number] == lists[number]
            }
        }),
    decreases steps.len(),
{
    if steps.len() > 0 {
        lemma_lists_of_walk(lists, first + 1, steps.drop_first(), number);
        if number - first >= 1 && number - first < steps.len() {
            assert(steps.drop_first()[number - first - 1] == steps[number - first]);
        }
    }
}

/// Whether the oldest of `steps` that lists an account node lists it with a value.
pub open spec fn oldest_says(
    steps: Seq<RangeStep>,
    i: int,
    path: Nibbles,
    value: Option<BranchNodeCompact>,
) -> bool {
    &&& 0 <= i < steps.len()
    &&& crate::overlay_laws::says(steps[i].changesets.account_nodes@, path, value)
    &&& forall|j: int|
        #![trigger steps[j]]
        0 <= j < i ==> !crate::overlay_laws::names(steps[j].changesets.account_nodes@, path)
}

/// Whether the oldest of `steps` that lists a node of a storage trie lists it with a value, and none
/// that is older deletes the trie.
pub open spec fn oldest_storage_says(
    steps: Seq<RangeStep>,
    i: int,
    address: B256,
    path: Nibbles,
    value: Option<BranchNodeCompact>,
) -> bool {
    &&& 0 <= i < steps.len()
    &&& crate::overlay_laws::storage_says(*steps[i].changesets, address, path, value)
    &&& forall|j: int|
        #![trigger steps[j]]
        0 <= j < i ==> !crate::overlay_laws::storage_names(*steps[j].changesets, address, path)
            && !crate::overlay_laws::deletes(*steps[j].changesets, address)
}

/// Whether one of `steps` deletes a storage trie.
pub open spec fn some_deletes(steps: Seq<RangeStep>, address: B256) -> bool {
    exists|i: int|
        0 <= i < steps.len() && crate::overlay_laws::deletes(
            *(#[trigger] steps[i]).changesets,
            address,
        )
}

/// Whether `accumulated` says of every node what the oldest of `steps` that lists it says of it, and
/// nothing else, with all nodes in order.
#[verifier::opaque]
pub open spec fn oldest_of_all(steps: Seq<RangeStep>, accumulated: TrieUpdatesSorted) -> bool {
    &&& crate::overlay_laws::all_in_order(accumulated)
    &&& forall|path: Nibbles, value: Option<BranchNodeCompact>| #[trigger]
        crate::overlay_laws::says(accumulated.account_nodes@, path, value) <==> exists|i: int|
            #[trigger] oldest_says(steps, i, path, value)
    &&& forall|address: B256, path: Nibbles, value: Option<BranchNodeCompact>| #[trigger]
        crate::overlay_laws::storage_says(accumulated, address, path, value) <==> exists|i: int|
            #[trigger] oldest_storage_says(steps, i, address, path, value)
    &&& forall|address: B256| #[trigger]
        crate::overlay_laws::deletes(accumulated, address) <==> some_deletes(steps, address)
}

/// What accumulated changesets say of an account node, by the index of the block.
proof fn lemma_oldest_account_node(
    steps: Seq<RangeStep>,
    path: Nibbles,
    value: Option<BranchNodeCompact>,
)
    requires
        forall|i: int| 0 <= i < steps.len() ==> (#[trigger] steps[i]).changesets.wf(),
    ensures
        crate::trie_updates::accumulated_changesets(
            crate::range_walk::step_changesets(steps),
        ).account_node(path) == Some(value) <==> exists|i: int| #[trigger]
            oldest_says(steps, i, path, value),
    decreases steps.len(),
{
    let views = crate::range_walk::step_changesets(steps);
    if steps.len() == 0 {
        assert(views.len() == 0);
    } else {
        let rest = steps.drop_first();
        assert(views.drop_first() =~= crate::range_walk::step_changesets(rest));
        assert forall|i: int| 0 <= i < rest.len() implies (#[trigger] rest[i]).changesets.wf() by {
            assert(rest[i] == steps[i + 1]);
        }
        lemma_oldest_account_node(rest, path, value);
        let own = *steps[0].changesets;
        assert(steps[0].changesets.wf());
        crate::overlay_laws::lemma_wf_is_in_order(own);
        crate::overlay_laws::lemma_view_of_accounts(own, path, value);
        assert(views.first() == own@);
        if exists|i: int| #[trigger] oldest_says(steps, i, path, value) {
            let i = choose|i: int| #[trigger] oldest_says(steps, i, path, value);
            if i > 0 {
                assert(steps[0].changesets == steps.first().changesets);
                assert(!crate::overlay_laws::names(own.account_nodes@, path));
                assert(oldest_says(rest, i - 1, path, value)) by {
                    assert(rest[i - 1] == steps[i]);
                    assert forall|j: int|
                        #![trigger rest[j]]
                        0 <= j < i - 1 implies !crate::overlay_laws::names(
                        rest[j].changesets.account_nodes@,
                        path,
                    ) by {
                        assert(rest[j] == steps[j + 1]);
                    }
                }
            }
        }
        if crate::overlay_laws::says(own.account_nodes@, path, value) {
            assert(oldest_says(steps, 0, path, value));
        }
        if !crate::overlay_laws::names(own.account_nodes@, path) && exists|i: int| #[trigger]
            oldest_says(rest, i, path, value) {
            let i = choose|i: int| #[trigger] oldest_says(rest, i, path, value);
            assert(oldest_says(steps, i + 1, path, value)) by {
                assert(rest[i] == steps[i + 1]);
                assert forall|j: int|
                    #![trigger steps[j]]
                    0 <= j < i + 1 implies !crate::overlay_laws::names(
                    steps[j].changesets.account_nodes@,
                    path,
                ) by {
                    if j > 0 {
                        assert(rest[j - 1] == steps[j]);
                    }
                }
            }
        }
    }
}

/// What accumulated changesets say of a storage trie, by the index of the block.
proof fn lemma_oldest_storage_node(
    steps: Seq<RangeStep>,
    address: B256,
    path: Nibbles,
    value: Option<BranchNodeCompact>,
)
    requires
        forall|i: int| 0 <= i < steps.len() ==> (#[trigger] steps[i]).changesets.wf(),
    ensures
        crate::trie_updates::accumulated_changesets(
            crate::range_walk::step_changesets(steps),
        ).storage_node(address, path) == Some(value) <==> exists|i: int| #[trigger]
            oldest_storage_says(steps, i, address, path, value),
        crate::trie_updates::accumulated_changesets(
            crate::range_walk::step_changesets(steps),
        ).deleted(address) <==> some_deletes(steps, address),
    decreases steps.len(),
{
    let views = crate::range_walk::step_changesets(steps);
    if steps.len() == 0 {
        assert(views.len() == 0);
    } else {
        let rest = steps.drop_first();
        assert(views.drop_first() =~= crate::range_walk::step_changesets(rest));
        assert forall|i: int| 0 <= i < rest.len() implies (#[trigger] rest[i]).changesets.wf() by {
            assert(rest[i] == steps[i + 1]);
        }
        lemma_oldest_storage_node(rest, address, path, value);
        let own = *steps[0].changesets;
        assert(steps[0].changesets.wf());
        crate::overlay_laws::lemma_wf_is_in_order(own);
        crate::overlay_laws::lemma_view_of_storage(own, address, path, value);
        assert(views.first() == own@);
        if some_deletes(rest, address) {
            let i = choose|i: int|
                0 <= i < rest.len() && crate::overlay_laws::deletes(
                    *(#[trigger] rest[i]).changesets,
                    address,
                );
            assert(steps[i + 1] == rest[i]);
        }
        if some_deletes(steps, address) && !crate::overlay_laws::deletes(own, address) {
            let i = choose|i: int|
                0 <= i < steps.len() && crate::overlay_laws::deletes(
                    *(#[trigger] steps[i]).changesets,
                    address,
                );
            assert(steps[i] == rest[i - 1]);
        }
        if exists|i: int| #[trigger] oldest_storage_says(steps, i, address, path, value) {
            let i = choose|i: int| #[trigger] oldest_storage_says(steps, i, address, path, value);
            if i > 0 {
                assert(!crate::overlay_laws::storage_names(*steps[0].changesets, address, path));
                assert(oldest_storage_says(rest, i - 1, address, path, value)) by {
                    assert(rest[i - 1] == steps[i]);
                    assert forall|j: int|
                        #![trigger rest[j]]
                        0 <= j < i - 1 implies !crate::overlay_laws::storage_names(
                        *rest[j].changesets,
                        address,
                        path,
                    ) && !crate::overlay_laws::deletes(*rest[j].changesets, address) by {
                        assert(rest[j] == steps[j + 1]);
                    }
                }
            }
        }
        if crate::overlay_laws::storage_says(own, address, path, value) {
            assert(oldest_storage_says(steps, 0, address, path, value));
        }
        if !crate::overlay_laws::storage_names(own, address, path) && !crate::overlay_laws::deletes(
            own,
            address,
        ) && exists|i: int| #[trigger] oldest_storage_says(rest, i, address, path, value) {
            let i = choose|i: int| #[trigger] oldest_storage_says(rest, i, address, path, value);
            assert(oldest_storage_says(steps, i + 1, address, path, value)) by {
                assert(rest[i] == steps[i + 1]);
                assert forall|j: int|
                    #![trigger steps[j]]
                    0 <= j < i + 1 implies !crate::overlay_laws::storage_names(
                    *steps[j].changesets,
                    address,
                    path,
                ) && !crate::overlay_laws::deletes(*steps[j].changesets, address) by {
                    if j > 0 {
                        assert(rest[j - 1] == steps[j]);
                    }
                }
            }
        }
    }
}

/// Accumulated changesets say what the oldest block says.
proof fn lemma_accumulated_is_oldest(steps: Seq<RangeStep>, accumulated: TrieUpdatesSorted)
    requires
        forall|i: int| 0 <= i < steps.len() ==> (#[trigger] steps[i]).changesets.wf(),
        accumulated.wf(),
        accumulated@ == crate::trie_updates::accumulated_changesets(
            crate::range_walk::step_changesets(steps),
        ),
    ensures
        oldest_of_all(steps, accumulated),
{
    reveal(oldest_of_all);
    crate::overlay_laws::lemma_wf_is_in_order(accumulated);
    assert forall|path: Nibbles, value: Option<BranchNodeCompact>| #[trigger]
        crate::overlay_laws::says(accumulated.account_nodes@, path, value) <==> exists|i: int|
            #[trigger] oldest_says(steps, i, path, value) by {
        lemma_oldest_account_node(steps, path, value);
        crate::overlay_laws::lemma_view_of_accounts(accumulated, path, value);
    }
    assert forall|address: B256, path: Nibbles, value: Option<BranchNodeCompact>| #[trigger]
        crate::overlay_laws::storage_says(accumulated, address, path, value) <==> exists|i: int|
            #[trigger] oldest_storage_says(steps, i, address, path, value) by {
        lemma_oldest_storage_node(steps, address, path, value);
        crate::overlay_laws::lemma_view_of_storage(accumulated, address, path, value);
    }
    let any: Nibbles = arbitrary();
    assert forall|address: B256| #[trigger]
        crate::overlay_laws::deletes(accumulated, address) <==> some_deletes(steps, address) by {
        lemma_oldest_storage_node(steps, address, any, None);
        crate::overlay_laws::lemma_view_of_storage(accumulated, address, any, None);
    }
}

/// Whether `steps`, which come the oldest block first, are served as they have to be on the way down
/// from block `last`. The highest block is computed with the revert of all blocks above the range,
/// and each other block with what the block above it was computed with, overlaid with the revert of
/// that block.
#[verifier::opaque]
pub open spec fn steps_given<P, E, H, R, W, C>(
    sources: ChangesetSources<H, R, W, C>,
    newer: HashedPostState,
    before: ChangesetCache<P>,
    last: u64,
    steps: Seq<RangeStep>,
) -> bool where
    H: Fn(u64) -> Result<Option<B256>, E>,
    R: Fn(u64) -> Result<HashedPostState, E>,
    W: Fn(&P) -> Option<Arc<TrieUpdatesSorted>>,
    C: Fn(u64, &HashedPostState, &HashedPostState) -> Result<TrieUpdatesSorted, E>,
 {
    &&& forall|i: int|
        #![trigger steps[i]]
        0 <= i < steps.len() ==> step_given::<P, E, H, R, W, C>(
            sources,
            before.inner.entries@,
            before.inner.pending@,
            steps,
            i,
            (last + 1 - steps.len() + i) as u64,
        )
    &&& steps.len() > 0 ==> crate::overlay_laws::same_state(steps.last().cumulative, newer)
    &&& forall|i: int, j: int|
        0 <= i < j < steps.len() && j == i + 1 ==> crate::overlay_laws::state_overlaid(
            (#[trigger] steps[j]).cumulative,
            steps[j].revert,
            (#[trigger] steps[i]).cumulative,
        )
}

/// Whether `steps`, which end at block `last`, make the cache `after` of the cache `before` and wake
/// those who wait for what they computed.
///
/// What was cached stays as it is. What was computed is cached with its number, listed under that
/// number, and no longer pending. Nothing else changes.
#[verifier::opaque]
pub open spec fn cached_by<P>(
    before: ChangesetCache<P>,
    after: ChangesetCache<P>,
    last: u64,
    steps: Seq<RangeStep>,
    woken: Seq<(P, Arc<TrieUpdatesSorted>)>,
) -> bool {
    &&& forall|hash: B256| #[trigger]
        after.inner.entries@.contains_key(hash) <==> before.inner.entries@.contains_key(hash)
            || computed(steps, hash)
    &&& forall|hash: B256| #[trigger]
        before.inner.entries@.contains_key(hash) ==> after.inner.entries@[hash]
            == before.inner.entries@[hash]
    &&& forall|i: int, hash: B256| #[trigger]
        computed_at(steps, i, hash) ==> {
            &&& !before.inner.entries@.contains_key(hash)
            &&& after.inner.entries@[hash].0 == last + 1 - steps.len() + i
            &&& after.inner.entries@[hash].1 == steps[i].changesets
        }
    &&& forall|hash: B256| #[trigger]
        after.inner.pending@.contains_key(hash) <==> before.inner.pending@.contains_key(hash)
            && !computed(steps, hash)
    &&& forall|hash: B256| #[trigger]
        after.inner.pending@.contains_key(hash) ==> after.inner.pending@[hash]
            == before.inner.pending@[hash]
    &&& forall|number: u64|
        #![trigger before.inner.block_numbers@.contains_key(number)]
        #![trigger after.inner.block_numbers@.contains_key(number)]
        before.inner.block_numbers@.contains_key(number) || after.inner.block_numbers@.contains_key(
            number,
        ) ==> listed_by(before, after, last, steps, number)
    &&& forall|i: int|
        #![trigger steps[i]]
        0 <= i < steps.len() && steps[i].source is Computed
            ==> after.inner.block_numbers@.contains_key((last + 1 - steps.len() + i) as u64)
    &&& exists|at: Seq<int>| #[trigger] woken_for(before.inner.pending@, steps, woken, at)
}

/// Whether the hashes that are listed under a number are those that were listed there, and behind
/// them the hash of the block with that number if it was computed.
pub open spec fn listed_by<P>(
    before: ChangesetCache<P>,
    after: ChangesetCache<P>,
    last: u64,
    steps: Seq<RangeStep>,
    number: u64,
) -> bool {
    let i = number - (last + 1 - steps.len());
    let listed = if before.inner.block_numbers@.contains_key(number) {
        before.inner.block_numbers@[number]@
    } else {
        Seq::empty()
    };
    &&& after.inner.block_numbers@.contains_key(number)
    &&& after.inner.block_numbers@[number]@ == if 0 <= i < steps.len()
        && steps[i].source is Computed {
        listed.push(steps[i].block_hash)
    } else {
        listed
    }
    &&& before.inner.block_numbers@.contains_key(number) || (0 <= i < steps.len()
        && steps[i].source is Computed)
}

/// Whether asking for block `number` below `steps` fails with `error`.
pub open spec fn failed_at<P, E, H, R, W, C>(
    sources: ChangesetSources<H, R, W, C>,
    newer: HashedPostState,
    after: ChangesetCache<P>,
    steps: Seq<RangeStep>,
    number: u64,
    error: ProviderError<E>,
) -> bool where
    H: Fn(u64) -> Result<Option<B256>, E>,
    R: Fn(u64) -> Result<HashedPostState, E>,
    W: Fn(&P) -> Option<Arc<TrieUpdatesSorted>>,
    C: Fn(u64, &HashedPostState, &HashedPostState) -> Result<TrieUpdatesSorted, E>,
 {
    match error {
        ProviderError::InsufficientChangesets { .. } => false,
        ProviderError::BlockHashNotFound { block_number } => {
            &&& block_number == number
            &&& sources.block_hash.ensures((number,), Ok::<Option<B256>, E>(None))
        },
        ProviderError::Other(cause) => {
            ||| sources.block_hash.ensures((number,), Err::<Option<B256>, E>(cause))
            ||| sources.revert.ensures((number,), Err::<HashedPostState, E>(cause)) && exists|
                hash: B256,
            | #[trigger]
                sources.block_hash.ensures((number,), Ok::<Option<B256>, E>(Some(hash)))
            ||| exists|hash: B256, revert: HashedPostState, cumulative: HashedPostState|
                {
                    &&& #[trigger] sources.block_hash.ensures(
                        (number,),
                        Ok::<Option<B256>, E>(Some(hash)),
                    )
                    &&& sources.revert.ensures((number,), Ok::<HashedPostState, E>(revert))
                    &&& !after.inner.entries@.contains_key(hash)
                    &&& after.inner.pending@.contains_key(hash) ==> sources.wait.ensures(
                        (&after.inner.pending@[hash],),
                        None::<Arc<TrieUpdatesSorted>>,
                    )
                    &&& #[trigger] sources.compute.ensures(
                        (number, &revert, &cumulative),
                        Err::<TrieUpdatesSorted, E>(cause),
                    )
                    &&& steps.len() == 0 ==> crate::overlay_laws::same_state(cumulative, newer)
                    &&& steps.len() > 0 ==> crate::overlay_laws::state_overlaid(
                        steps[0].cumulative,
                        steps[0].revert,
                        cumulative,
                    )
                }
        },
    }
}

/// Whether all changesets that are waited for or computed are in order.
pub open spec fn gives_in_order<P, E, W, C>(wait: W, compute: C) -> bool where
    W: Fn(&P) -> Option<Arc<TrieUpdatesSorted>>,
    C: Fn(u64, &HashedPostState, &HashedPostState) -> Result<TrieUpdatesSorted, E>,
 {
    &&& forall|p: P, changesets: Arc<TrieUpdatesSorted>| #[trigger]
        wait.ensures((&p,), Some(changesets)) ==> crate::overlay_laws::all_in_order(*changesets)
    &&& forall|
        n: u64,
        revert: HashedPostState,
        cumulative: HashedPostState,
        updates: TrieUpdatesSorted,
    | #[trigger]
        compute.ensures((n, &revert, &cumulative), Ok::<TrieUpdatesSorted, E>(updates))
            ==> crate::overlay_laws::all_in_order(updates)
}

/// A range that is refused is refused with an error that says so, and nothing else happens: the cache
/// is left alone, nobody is woken, and nobody need be callable.
pub proof fn lemma_refused_range<P, E, S, H, R, W, C>(
    cache: &mut ChangesetCache<P>,
    checkpoint: Option<u64>,
    first: u64,
    last: u64,
    newer_reverts: S,
    sources: ChangesetSources<H, R, W, C>,
    outcome: RangeOutcome<P, E>,
) where
    S: Fn(u64) -> Result<HashedPostState, E>,
    H: Fn(u64) -> Result<Option<B256>, E>,
    R: Fn(u64) -> Result<HashedPostState, E>,
    W: Fn(&P) -> Option<Arc<TrieUpdatesSorted>>,
    C: Fn(u64, &HashedPostState, &HashedPostState) -> Result<TrieUpdatesSorted, E>,

    requires
        old(cache).wf(),
        checkpoint is None || last > checkpoint->0,
        call_ensures(
            ChangesetCache::<P>::get_or_compute_range::<E, S, H, R, W, C>,
            (cache, checkpoint, first, last, &newer_reverts, &sources),
            outcome,
        ),
    ensures
        call_requires(
            ChangesetCache::<P>::get_or_compute_range::<E, S, H, R, W, C>,
            (cache, checkpoint, first, last, &newer_reverts, &sources),
        ),
        *final(cache) == *old(cache),
        outcome.woken@.len() == 0,
        outcome.result is Err,
        outcome.result->Err_0 is InsufficientChangesets,
        outcome.result->Err_0->InsufficientChangesets_requested == if checkpoint is None {
            first
        } else {
            last
        },
        outcome.result->Err_0->available.first == 0,
        outcome.result->Err_0->available.last == if checkpoint is None {
            0
        } else {
            checkpoint->0
        },
{
}

/// The steps of a walk are served as they have to be.
proof fn lemma_walk_gives_steps<P, E, H, R, W, C>(
    sources: ChangesetSources<H, R, W, C>,
    before: ChangesetCache<P>,
    last: u64,
    newer: HashedPostState,
    steps: Seq<RangeStep>,
) where
    H: Fn(u64) -> Result<Option<B256>, E>,
    R: Fn(u64) -> Result<HashedPostState, E>,
    W: Fn(&P) -> Option<Arc<TrieUpdatesSorted>>,
    C: Fn(u64, &HashedPostState, &HashedPostState) -> Result<TrieUpdatesSorted, E>,

    requires
        sources.walked::<P, E>(before, newer@, last, steps),
        steps.len() <= last + 1,
    ensures
        steps_given::<P, E, H, R, W, C>(sources, newer, before, last, steps),
{
    reveal(steps_given);
    lemma_steps_of_walk::<P, E, H, R, W, C>(sources, before, newer@, last, steps);
    if steps.len() > 0 {
        lemma_cumulative_of_step::<P, E, H, R, W, C>(
            sources,
            before,
            newer,
            last,
            steps,
            steps.len() - 1,
        );
    }
    assert forall|i: int, j: int|
        0 <= i < j < steps.len() && j == i + 1 implies crate::overlay_laws::state_overlaid(
        (#[trigger] steps[j]).cumulative,
        steps[j].revert,
        (#[trigger] steps[i]).cumulative,
    ) by {
        lemma_cumulative_of_step::<P, E, H, R, W, C>(sources, before, newer, last, steps, i);
    }
}

/// The changesets of the steps of a walk are in order.
proof fn lemma_walk_in_order<P, E, H, R, W, C>(
    sources: ChangesetSources<H, R, W, C>,
    before: ChangesetCache<P>,
    last: u64,
    newer: HashedPostState,
    steps: Seq<RangeStep>,
) where
    H: Fn(u64) -> Result<Option<B256>, E>,
    R: Fn(u64) -> Result<HashedPostState, E>,
    W: Fn(&P) -> Option<Arc<TrieUpdatesSorted>>,
    C: Fn(u64, &HashedPostState, &HashedPostState) -> Result<TrieUpdatesSorted, E>,

    requires
        forall|hash: B256| #[trigger]
            before.inner.entries@.contains_key(hash) ==> before.inner.entries@[hash].1.wf(),
        gives_in_order::<P, E, W, C>(sources.wait, sources.compute),
        steps_given::<P, E, H, R, W, C>(sources, newer, before, last, steps),
    ensures
        forall|i: int| 0 <= i < steps.len() ==> (#[trigger] steps[i]).changesets.wf(),
{
    reveal(steps_given);
    let lowest: int = last + 1 - steps.len();
    assert forall|i: int| 0 <= i < steps.len() implies (#[trigger] steps[i]).changesets.wf() by {
        let hash = steps[i].block_hash;
        assert(step_given::<P, E, H, R, W, C>(
            sources,
            before.inner.entries@,
            before.inner.pending@,
            steps,
            i,
            (lowest + i) as u64,
        ));
        crate::overlay_laws::lemma_wf_is_in_order(*steps[i].changesets);
        if steps[i].source is Cache && !before.inner.entries@.contains_key(hash) {
            let j = choose|j: int|
                i < j && #[trigger] computed_at(steps, j, hash) && steps[j].changesets
                    == steps[i].changesets;
            assert(step_given::<P, E, H, R, W, C>(
                sources,
                before.inner.entries@,
                before.inner.pending@,
                steps,
                j,
                (lowest + j) as u64,
            ));
        }
    }
}

/// What a walk leaves in the cache.
proof fn lemma_walk_caches<P, E, H, R, W, C>(
    sources: ChangesetSources<H, R, W, C>,
    before: ChangesetCache<P>,
    after: ChangesetCache<P>,
    last: u64,
    newer: HashedPostState,
    steps: Seq<RangeStep>,
    woken: Seq<(P, Arc<TrieUpdatesSorted>)>,
) where
    H: Fn(u64) -> Result<Option<B256>, E>,
    R: Fn(u64) -> Result<HashedPostState, E>,
    W: Fn(&P) -> Option<Arc<TrieUpdatesSorted>>,
    C: Fn(u64, &HashedPostState, &HashedPostState) -> Result<TrieUpdatesSorted, E>,

    requires
        last < u64::MAX,
        sources.walked::<P, E>(before, newer@, last, steps),
        steps.len() <= last + 1,
        after.entries() == crate::range_walk::entries_after(
            before.entries(),
            last + 1 - steps.len(),
            steps,
        ),
        after.lists() == crate::range_walk::lists_after(
            before.lists(),
            last + 1 - steps.len(),
            steps,
        ),
        after.pending() == crate::range_walk::pending_after(before.pending(), steps),
        woken == crate::range_walk::woken_after(before.pending(), steps),
    ensures
        cached_by(before, after, last, steps, woken),
{
    reveal(cached_by);
    let lowest: int = last + 1 - steps.len();
    lemma_steps_of_walk::<P, E, H, R, W, C>(sources, before, newer@, last, steps);
    let at = lemma_woken_by_walk::<P, E, H, R, W, C>(sources, before, newer@, last, steps);
    assert(woken_for(before.inner.pending@, steps, woken, at));
    assert forall|number: u64|
        #![trigger before.inner.block_numbers@.contains_key(number)]
        #![trigger after.inner.block_numbers@.contains_key(number)]
        before.inner.block_numbers@.contains_key(number) || after.inner.block_numbers@.contains_key(number) implies listed_by(
        before,
        after,
        last,
        steps,
        number,
    ) by {
        lemma_walk_lists(before, after, last, steps, number);
    }
    assert forall|i: int|
        #![trigger steps[i]]
        0 <= i < steps.len()
            && steps[i].source is Computed implies after.inner.block_numbers@.contains_key(
        (last + 1 - steps.len() + i) as u64,
    ) by {
        let number = (lowest + i) as u64;
        lemma_lists_of_walk(before.lists(), lowest, steps, number);
        assert(after.lists().contains_key(number));
    }
    assert forall|hash: B256|
        computed(steps, hash) implies #[trigger] after.inner.entries@.contains_key(hash) by {
        let i = choose|i: int| #[trigger] computed_at(steps, i, hash);
        assert(after.entries().contains_key(hash));
    }
}

/// What a walk leaves in the list of a number.
proof fn lemma_walk_lists<P>(
    before: ChangesetCache<P>,
    after: ChangesetCache<P>,
    last: u64,
    steps: Seq<RangeStep>,
    number: u64,
)
    requires
        last < u64::MAX,
        steps.len() <= last + 1,
        after.lists() == crate::range_walk::lists_after(
            before.lists(),
            last + 1 - steps.len(),
            steps,
        ),
        before.inner.block_numbers@.contains_key(number) || after.inner.block_numbers@.contains_key(
            number,
        ),
    ensures
        listed_by(before, after, last, steps, number),
{
    let lowest: int = last + 1 - steps.len();
    lemma_lists_of_walk(before.lists(), lowest, steps, number);
    let i = number - lowest;
    assert(after.lists().contains_key(number) == after.inner.block_numbers@.contains_key(number));
    assert(before.lists().contains_key(number) == before.inner.block_numbers@.contains_key(number));
    if 0 <= i < steps.len() && steps[i].source is Computed {
        assert(Seq::<B256>::empty().push(steps[i].block_hash) =~= seq![steps[i].block_hash]);
    }
}

/// How a walk fails.
proof fn lemma_walk_fails<P, E, H, R, W, C>(
    sources: ChangesetSources<H, R, W, C>,
    before: ChangesetCache<P>,
    after: ChangesetCache<P>,
    last: u64,
    newer: HashedPostState,
    steps: Seq<RangeStep>,
    cumulative: HashedPostState,
    error: ProviderError<E>,
) where
    H: Fn(u64) -> Result<Option<B256>, E>,
    R: Fn(u64) -> Result<HashedPostState, E>,
    W: Fn(&P) -> Option<Arc<TrieUpdatesSorted>>,
    C: Fn(u64, &HashedPostState, &HashedPostState) -> Result<TrieUpdatesSorted, E>,

    requires
        steps.len() <= last,
        sources.walked::<P, E>(before, newer@, last, steps),
        cumulative@ == crate::hashed_state::cumulative_revert(
            newer@,
            crate::range_walk::step_reverts(steps),
        ),
        sources.fails_with::<P, E>(
            after.entries(),
            after.pending(),
            (last - steps.len()) as u64,
            cumulative,
            error,
        ),
    ensures
        failed_at::<P, E, H, R, W, C>(
            sources,
            newer,
            after,
            steps,
            (last - steps.len()) as u64,
            error,
        ),
{
    let reverts = crate::range_walk::step_reverts(steps);
    if steps.len() == 0 {
        assert(reverts.len() == 0);
        crate::overlay_laws::lemma_same_views(cumulative, newer);
    } else {
        let above = steps.drop_first();
        assert(steps.skip(1) =~= above);
        assert(reverts.drop_first() =~= crate::range_walk::step_reverts(above));
        assert(steps[0].cumulative@ == crate::hashed_state::cumulative_revert(
            newer@,
            reverts.drop_first(),
        ));
        crate::overlay_laws::lemma_extended_state(steps[0].cumulative, steps[0].revert, cumulative);
    }
}

/// What the outcome of a walk is, in terms of its steps.
proof fn lemma_walk_outcome<P, E, H, R, W, C>(
    sources: ChangesetSources<H, R, W, C>,
    before: ChangesetCache<P>,
    after: ChangesetCache<P>,
    first: u64,
    last: u64,
    newer: HashedPostState,
    steps: Seq<RangeStep>,
    outcome: RangeOutcome<P, E>,
) where
    H: Fn(u64) -> Result<Option<B256>, E>,
    R: Fn(u64) -> Result<HashedPostState, E>,
    W: Fn(&P) -> Option<Arc<TrieUpdatesSorted>>,
    C: Fn(u64, &HashedPostState, &HashedPostState) -> Result<TrieUpdatesSorted, E>,

    requires
        forall|hash: B256| #[trigger]
            before.inner.entries@.contains_key(hash) ==> before.inner.entries@[hash].1.wf(),
        last < u64::MAX,
        gives_in_order::<P, E, W, C>(sources.wait, sources.compute),
        sources.walked::<P, E>(before, newer@, last, steps),
        sources.ended_with(before, after, first, last, newer@, steps, outcome),
    ensures
        range_given::<P, E, H, R, W, C>(
            sources,
            newer,
            before,
            after,
            first,
            last,
            steps,
            outcome,
        ),
{
    lemma_walk_gives_steps::<P, E, H, R, W, C>(sources, before, last, newer, steps);
    lemma_walk_in_order::<P, E, H, R, W, C>(sources, before, last, newer, steps);
    lemma_walk_caches::<P, E, H, R, W, C>(
        sources,
        before,
        after,
        last,
        newer,
        steps,
        outcome.woken@,
    );
    if outcome.result is Ok {
        lemma_accumulated_is_oldest(steps, outcome.result->Ok_0);
    } else {
        let cumulative = choose|cumulative: HashedPostState|
            {
                &&& cumulative@ == crate::hashed_state::cumulative_revert(
                    newer@,
                    crate::range_walk::step_reverts(steps),
                )
                &&& #[trigger] sources.fails_with::<P, E>(
                    after.entries(),
                    after.pending(),
                    (last - steps.len()) as u64,
                    cumulative,
                    outcome.result->Err_0,
                )
            };
        lemma_walk_fails::<P, E, H, R, W, C>(
            sources,
            before,
            after,
            last,
            newer,
            steps,
            cumulative,
            outcome.result->Err_0,
        );
    }
}

/// With what a block of a walk is computed.
proof fn lemma_cumulative_of_step<P, E, H, R, W, C>(
    sources: ChangesetSources<H, R, W, C>,
    before: ChangesetCache<P>,
    newer: HashedPostState,
    last: u64,
    steps: Seq<RangeStep>,
    i: int,
) where
    H: Fn(u64) -> Result<Option<B256>, E>,
    R: Fn(u64) -> Result<HashedPostState, E>,
    W: Fn(&P) -> Option<Arc<TrieUpdatesSorted>>,
    C: Fn(u64, &HashedPostState, &HashedPostState) -> Result<TrieUpdatesSorted, E>,

    requires
        sources.walked::<P, E>(before, newer@, last, steps),
        0 <= i < steps.len(),
    ensures
        i + 1 == steps.len() ==> crate::overlay_laws::same_state(steps[i].cumulative, newer),
        i + 1 < steps.len() ==> crate::overlay_laws::state_overlaid(
            steps[i + 1].cumulative,
            steps[i + 1].revert,
            steps[i].cumulative,
        ),
{
    let above = steps.skip(i + 1);
    let reverts = crate::range_walk::step_reverts(above);
    assert(steps[i].cumulative@ == crate::hashed_state::cumulative_revert(newer@, reverts));
    if i + 1 == steps.len() {
        assert(reverts.len() == 0);
        crate::overlay_laws::lemma_same_views(steps[i].cumulative, newer);
    } else {
        assert(above[0] == steps[i + 1]);
        assert(reverts.first() == steps[i + 1].revert@);
        assert(reverts.drop_first() =~= crate::range_walk::step_reverts(steps.skip(i + 2)));
        assert(steps[i + 1].cumulative@ == crate::hashed_state::cumulative_revert(
            newer@,
            crate::range_walk::step_reverts(steps.skip(i + 2)),
        ));
        crate::overlay_laws::lemma_extended_state(
            steps[i + 1].cumulative,
            steps[i + 1].revert,
            steps[i].cumulative,
        );
    }
}

/// Whether `outcome` is what a walk over `first..=last` comes to with the revert `newer` of all blocks
/// above: of every node what the oldest block of the range that lists it says of it, or the error of
/// the first block on the way down that fails.
pub open spec fn range_given<P, E, H, R, W, C>(
    sources: ChangesetSources<H, R, W, C>,
    newer: HashedPostState,
    before: ChangesetCache<P>,
    after: ChangesetCache<P>,
    first: u64,
    last: u64,
    steps: Seq<RangeStep>,
    outcome: RangeOutcome<P, E>,
) -> bool where
    H: Fn(u64) -> Result<Option<B256>, E>,
    R: Fn(u64) -> Result<HashedPostState, E>,
    W: Fn(&P) -> Option<Arc<TrieUpdatesSorted>>,
    C: Fn(u64, &HashedPostState, &HashedPostState) -> Result<TrieUpdatesSorted, E>,
 {
    &&& steps_given::<P, E, H, R, W, C>(sources, newer, before, last, steps)
    &&& cached_by(before, after, last, steps, outcome.woken@)
    &&& match outcome.result {
        Ok(accumulated) => {
            &&& first <= last ==> first + steps.len() == last + 1
            &&& first > last ==> steps.len() == 0
            &&& oldest_of_all(steps, accumulated)
        },
        Err(error) => {
            &&& first + steps.len() <= last
            &&& failed_at::<P, E, H, R, W, C>(
                sources,
                newer,
                after,
                steps,
                (last - steps.len()) as u64,
                error,
            )
        },
    }
}

/// A range up to the checkpoint is never refused, whatever its first block is. The revert of all
/// blocks above it is read, and then its blocks are walked down from the last one to the first one.
pub proof fn lemma_range_up_to_the_checkpoint<P, E, S, H, R, W, C>(
    cache: &mut ChangesetCache<P>,
    tip: u64,
    first: u64,
    last: u64,
    newer_reverts: S,
    sources: ChangesetSources<H, R, W, C>,
    outcome: RangeOutcome<P, E>,
) where
    S: Fn(u64) -> Result<HashedPostState, E>,
    H: Fn(u64) -> Result<Option<B256>, E>,
    R: Fn(u64) -> Result<HashedPostState, E>,
    W: Fn(&P) -> Option<Arc<TrieUpdatesSorted>>,
    C: Fn(u64, &HashedPostState, &HashedPostState) -> Result<TrieUpdatesSorted, E>,

    requires
        old(cache).wf(),
        last <= tip,
        last < u64::MAX,
        gives_in_order::<P, E, W, C>(sources.wait, sources.compute),
        call_ensures(
            ChangesetCache::<P>::get_or_compute_range::<E, S, H, R, W, C>,
            (cache, Some(tip), first, last, &newer_reverts, &sources),
            outcome,
        ),
    ensures
        outcome.result is Err ==> !(outcome.result->Err_0 is InsufficientChangesets),
        range_read_and_given::<P, E, S, H, R, W, C>(
            sources,
            newer_reverts,
            *old(cache),
            *final(cache),
            first,
            last,
            outcome,
        ),
{
    lemma_range_served::<P, E, S, H, R, W, C>(
        sources,
        newer_reverts,
        *old(cache),
        *final(cache),
        tip,
        first,
        last,
        outcome,
    );
}

/// Whether `outcome` is what comes of reading the revert of all blocks above `last` and then walking
/// over `first..=last`.
pub open spec fn range_read_and_given<P, E, S, H, R, W, C>(
    sources: ChangesetSources<H, R, W, C>,
    newer_reverts: S,
    before: ChangesetCache<P>,
    after: ChangesetCache<P>,
    first: u64,
    last: u64,
    outcome: RangeOutcome<P, E>,
) -> bool where
    S: Fn(u64) -> Result<HashedPostState, E>,
    H: Fn(u64) -> Result<Option<B256>, E>,
    R: Fn(u64) -> Result<HashedPostState, E>,
    W: Fn(&P) -> Option<Arc<TrieUpdatesSorted>>,
    C: Fn(u64, &HashedPostState, &HashedPostState) -> Result<TrieUpdatesSorted, E>,
 {
    ||| {
        &&& outcome.result is Err
        &&& outcome.result->Err_0 is Other
        &&& newer_reverts.ensures(
            ((last + 1) as u64,),
            Err::<HashedPostState, E>(outcome.result->Err_0->Other_0),
        )
        &&& after == before
        &&& outcome.woken@.len() == 0
    }
    ||| exists|newer: HashedPostState, steps: Seq<RangeStep>|
        {
            &&& newer_reverts.ensures(((last + 1) as u64,), Ok::<HashedPostState, E>(newer))
            &&& #[trigger] range_given::<P, E, H, R, W, C>(
                sources,
                newer,
                before,
                after,
                first,
                last,
                steps,
                outcome,
            )
        }
}

/// What comes of asking for a range up to the checkpoint.
pub(crate) proof fn lemma_range_served<P, E, S, H, R, W, C>(
    sources: ChangesetSources<H, R, W, C>,
    newer_reverts: S,
    before: ChangesetCache<P>,
    after: ChangesetCache<P>,
    tip: u64,
    first: u64,
    last: u64,
    outcome: RangeOutcome<P, E>,
) where
    S: Fn(u64) -> Result<HashedPostState, E>,
    H: Fn(u64) -> Result<Option<B256>, E>,
    R: Fn(u64) -> Result<HashedPostState, E>,
    W: Fn(&P) -> Option<Arc<TrieUpdatesSorted>>,
    C: Fn(u64, &HashedPostState, &HashedPostState) -> Result<TrieUpdatesSorted, E>,

    requires
        forall|hash: B256| #[trigger]
            before.inner.entries@.contains_key(hash) ==> before.inner.entries@[hash].1.wf(),
        last <= tip,
        last < u64::MAX,
        gives_in_order::<P, E, W, C>(sources.wait, sources.compute),
        sources.range_served(newer_reverts, before, after, Some(tip), first, last, outcome),
    ensures
        outcome.result is Err ==> !(outcome.result->Err_0 is InsufficientChangesets),
        range_read_and_given::<P, E, S, H, R, W, C>(
            sources,
            newer_reverts,
            before,
            after,
            first,
            last,
            outcome,
        ),
{
    if !(outcome.result is Err && outcome.result->Err_0 is Other && newer_reverts.ensures(
        ((last + 1) as u64,),
        Err::<HashedPostState, E>(outcome.result->Err_0->Other_0),
    ) && after == before && outcome.woken@.len() == 0) {
        let (newer, steps) = choose|newer: HashedPostState, steps: Seq<RangeStep>|
            {
                &&& #[trigger] newer_reverts.ensures(
                    ((last + 1) as u64,),
                    Ok::<HashedPostState, E>(newer),
                )
                &&& #[trigger] sources.walked::<P, E>(before, newer@, last, steps)
                &&& sources.ended_with(before, after, first, last, newer@, steps, outcome)
            };
        lemma_walk_outcome::<P, E, H, R, W, C>(
            sources,
            before,
            after,
            first,
            last,
            newer,
            steps,
            outcome,
        );
    }
}

/// A range up to the checkpoint can be asked for and succeeds where its hashes are known and all
/// reverts and computations succeed, whatever its first block is and whatever is cached.
pub proof fn lemma_range_succeeds<P, E, S, H, R, W, C>(
    cache: &mut ChangesetCache<P>,
    tip: u64,
    first: u64,
    last: u64,
    newer_reverts: S,
    sources: ChangesetSources<H, R, W, C>,
    outcome: RangeOutcome<P, E>,
) where
    S: Fn(u64) -> Result<HashedPostState, E>,
    H: Fn(u64) -> Result<Option<B256>, E>,
    R: Fn(u64) -> Result<HashedPostState, E>,
    W: Fn(&P) -> Option<Arc<TrieUpdatesSorted>>,
    C: Fn(u64, &HashedPostState, &HashedPostState) -> Result<TrieUpdatesSorted, E>,

    requires
        old(cache).wf(),
        last <= tip,
        last < u64::MAX,
        gives_in_order::<P, E, W, C>(sources.wait, sources.compute),
        newer_reverts.requires(((last + 1) as u64,)),
        forall|n: u64|
            #![trigger sources.block_hash.requires((n,))]
            #![trigger sources.revert.requires((n,))]
            first <= n <= last ==> sources.block_hash.requires((n,)) && sources.revert.requires(
                (n,),
            ),
        forall|p: P| #[trigger] sources.wait.requires((&p,)),
        forall|n: u64, revert: HashedPostState, cumulative: HashedPostState|
            first <= n <= last ==> #[trigger] sources.compute.requires((n, &revert, &cumulative)),
        forall|found: Result<HashedPostState, E>| #[trigger]
            newer_reverts.ensures(((last + 1) as u64,), found) ==> found is Ok,
        forall|n: u64, found: Result<Option<B256>, E>|
            first <= n <= last && #[trigger] sources.block_hash.ensures((n,), found) ==> found is Ok
                && found->Ok_0 is Some,
        forall|n: u64, found: Result<HashedPostState, E>|
            first <= n <= last && #[trigger] sources.revert.ensures((n,), found) ==> found is Ok,
        forall|
            n: u64,
            revert: HashedPostState,
            cumulative: HashedPostState,
            found: Result<TrieUpdatesSorted, E>,
        |
            first <= n <= last && #[trigger] sources.compute.ensures(
                (n, &revert, &cumulative),
                found,
            ) ==> found is Ok,
        call_ensures(
            ChangesetCache::<P>::get_or_compute_range::<E, S, H, R, W, C>,
            (cache, Some(tip), first, last, &newer_reverts, &sources),
            outcome,
        ),
    ensures
        call_requires(
            ChangesetCache::<P>::get_or_compute_range::<E, S, H, R, W, C>,
            (cache, Some(tip), first, last, &newer_reverts, &sources),
        ),
        outcome.result is Ok,
{
    lemma_range_up_to_the_checkpoint::<P, E, S, H, R, W, C>(
        cache,
        tip,
        first,
        last,
        newer_reverts,
        sources,
        outcome,
    );
    lemma_in_order_is_wf::<P, E, H, R, W, C>(sources);
    assert(sources.usable::<P, E>(old(cache).entries(), old(cache).pending(), first, last));
}

/// Changesets that are in order are well-formed.
pub(crate) proof fn lemma_in_order_is_wf<P, E, H, R, W, C>(
    sources: ChangesetSources<H, R, W, C>,
) where
    H: Fn(u64) -> Result<Option<B256>, E>,
    R: Fn(u64) -> Result<HashedPostState, E>,
    W: Fn(&P) -> Option<Arc<TrieUpdatesSorted>>,
    C: Fn(u64, &HashedPostState, &HashedPostState) -> Result<TrieUpdatesSorted, E>,

    requires
        gives_in_order::<P, E, W, C>(sources.wait, sources.compute),
    ensures
        sources.changesets_in_order::<P, E>(),
{
    assert forall|p: P, changesets: Arc<TrieUpdatesSorted>| #[trigger]
        sources.wait.ensures((&p,), Some(changesets)) implies changesets.wf() by {
        crate::overlay_laws::lemma_wf_is_in_order(*changesets);
    }
    assert forall|
        n: u64,
        revert: HashedPostState,
        cumulative: HashedPostState,
        updates: TrieUpdatesSorted,
    | #[trigger]
        sources.compute.ensures(
            (n, &revert, &cumulative),
            Ok::<TrieUpdatesSorted, E>(updates),
        ) implies updates.wf() by {
        crate::overlay_laws::lemma_wf_is_in_order(updates);
    }
}

/// A range whose blocks are all cached is got without computing anything: of every node it says what
/// the oldest block that lists it says of it. The cache is left alone, and `compute` need not be
/// callable. `hashes` are the hashes of the blocks, the oldest block first.
pub proof fn lemma_cached_range_is_got<P, E, S, H, R, W, N>(
    cache: &mut ChangesetCache<P>,
    tip: u64,
    first: u64,
    last: u64,
    newer_reverts: S,
    sources: ChangesetSources<H, R, W, N>,
    outcome: RangeOutcome<P, E>,
    hashes: Seq<B256>,
) where
    S: Fn(u64) -> Result<HashedPostState, E>,
    H: Fn(u64) -> Result<Option<B256>, E>,
    R: Fn(u64) -> Result<HashedPostState, E>,
    W: Fn(&P) -> Option<Arc<TrieUpdatesSorted>>,
    N: Fn(u64, &HashedPostState, &HashedPostState) -> Result<TrieUpdatesSorted, E>,

    requires
        old(cache).wf(),
        first <= last <= tip,
        last < u64::MAX,
        first + hashes.len() == last + 1,
        crate::repeat_laws::sources_repeat::<P, E, S, H, R, W, N>(sources, newer_reverts),
        crate::repeat_laws::can_read_range::<E, R, S>(sources.revert, newer_reverts, first, last),
        forall|i: int|
            #![trigger hashes[i]]
            0 <= i < hashes.len() ==> {
                &&& sources.block_hash.ensures(
                    ((first + i) as u64,),
                    Ok::<Option<B256>, E>(Some(hashes[i])),
                )
                &&& old(cache).inner.entries@.contains_key(hashes[i])
            },
        call_ensures(
            crate::repeat_laws::get_settled_range::<P, E, S, H, R, W, N>,
            (cache, Some(tip), first, last, &newer_reverts, &sources),
            outcome,
        ),
    ensures
        outcome.result is Ok,
        outcome.woken@.len() == 0,
        final(cache).inner.entries@ == old(cache).inner.entries@,
        final(cache).inner.pending@ == old(cache).inner.pending@,
        exists|steps: Seq<RangeStep>|
            {
                &&& steps.len() == hashes.len()
                &&& forall|i: int|
                    0 <= i < steps.len() ==> (#[trigger] steps[i]).changesets == old(cache).inner.entries@[hashes[i]].1
                &&& #[trigger] oldest_of_all(steps, outcome.result->Ok_0)
            },
{
    let before = *old(cache);
    let step: RangeStep = arbitrary();
    let steps = Seq::new(
        hashes.len(),
        |i: int| RangeStep { changesets: before.inner.entries@[hashes[i]].1, ..step },
    );
    let views = crate::range_walk::step_changesets(steps);
    assert forall|i: int|
        #![trigger views[i]]
        0 <= i < views.len() implies crate::repeat_laws::block_is_settled::<P, E, H, W>(
        sources.block_hash,
        sources.wait,
        before,
        (first + i) as u64,
        views[i],
    ) by {
        let hash = hashes[i];
        assert(sources.block_hash.ensures(
            ((first + i) as u64,),
            Ok::<Option<B256>, E>(Some(hash)),
        ));
        assert(before.entries().contains_key(hash));
        assert(steps[i].changesets == before.entries()[hash].1);
    }
    assert(views.len() == crate::range_walk::blocks_between(first, last));
    assert(crate::repeat_laws::range_is_settled::<P, E, H, W>(
        sources.block_hash,
        sources.wait,
        *old(cache),
        first,
        last,
        views,
    ));
    assert forall|i: int| 0 <= i < steps.len() implies (#[trigger] steps[i]).changesets.wf() by {
        assert(before.inner.entries@.contains_key(hashes[i]));
    }
    crate::repeat_laws::lemma_settled_range::<P, E, S, H, R, W, N>(
        sources,
        newer_reverts,
        *old(cache),
        *final(cache),
        Some(tip),
        first,
        last,
        outcome,
        views,
    );
    lemma_accumulated_is_oldest(steps, outcome.result->Ok_0);
}

} // verus!
