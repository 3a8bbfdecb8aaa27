//! What holds of accumulated changesets when the database and pending computations, asked again,
//! answer the same.

use crate::changeset_cache::{CacheEntry, ChangesetCache};
use crate::hashed_state::{HashedPostState, HashedPostStateView};
use crate::range_walk::{ChangesetSources, RangeOutcome, RangeStep};
use crate::trie_updates::{TrieUpdatesSorted, TrieUpdatesView};
use alloy_primitives::B256;
use std::sync::Arc;
use vstd::prelude::*;

verus! {

/// Whether a pending computation that is waited for again gives the same again.
pub open spec fn wait_repeats<P, W>(wait: W) -> bool where
    W: Fn(&P) -> Option<Arc<TrieUpdatesSorted>>,
 {
    forall|p: P, r1: Option<Arc<TrieUpdatesSorted>>, r2: Option<Arc<TrieUpdatesSorted>>|
        #[trigger] wait.ensures((&p,), r1) && #[trigger] wait.ensures((&p,), r2) && r1 is Some
            ==> r2 is Some && r1->0@ == r2->0@
}

/// Whether the database that is asked again for the hash of a block gives the same again.
pub open spec fn hashes_repeat<E, H>(block_hash: H) -> bool where
    H: Fn(u64) -> Result<Option<B256>, E>,
 {
    forall|n: u64, r1: Result<Option<B256>, E>, r2: Result<Option<B256>, E>|
        #[trigger] block_hash.ensures((n,), r1) && #[trigger] block_hash.ensures((n,), r2)
            && r1 is Ok ==> r2 is Ok && r1->Ok_0 == r2->Ok_0
}

/// Whether the database that gave reverts can give them again.
pub open spec fn reads_repeat<E, F>(read: F) -> bool where
    F: Fn(u64) -> Result<HashedPostState, E>,
 {
    forall|n: u64, r1: Result<HashedPostState, E>, r2: Result<HashedPostState, E>|
        #[trigger] read.ensures((n,), r1) && #[trigger] read.ensures((n,), r2) && r1 is Ok
            ==> r2 is Ok
}

/// Whether the sources of a walk, asked again, answer the same.
pub open spec fn sources_repeat<P, E, S, H, R, W, C>(
    sources: ChangesetSources<H, R, W, C>,
    newer_reverts: S,
) -> bool where
    S: Fn(u64) -> Result<HashedPostState, E>,
    H: Fn(u64) -> Result<Option<B256>, E>,
    R: Fn(u64) -> Result<HashedPostState, E>,
    W: Fn(&P) -> Option<Arc<TrieUpdatesSorted>>,
    C: Fn(u64, &HashedPostState, &HashedPostState) -> Result<TrieUpdatesSorted, E>,
 {
    &&& hashes_repeat::<E, H>(sources.block_hash)
    &&& reads_repeat::<E, R>(sources.revert)
    &&& reads_repeat::<E, S>(newer_reverts)
    &&& wait_repeats::<P, W>(sources.wait)
}

/// Whether the changesets of a block need not be computed and say `view`: they are cached, or else a
/// pending computation gives them.
pub open spec fn settled<P, W>(
    wait: W,
    entries: Map<B256, CacheEntry>,
    pending: Map<B256, P>,
    hash: B256,
    view: TrieUpdatesView,
) -> bool where W: Fn(&P) -> Option<Arc<TrieUpdatesSorted>> {
    if entries.contains_key(hash) {
        entries[hash].1@ == view
    } else {
        pending.contains_key(hash) && exists|changesets: Arc<TrieUpdatesSorted>|
            #[trigger] wait.ensures((&pending[hash],), Some(changesets)) && changesets@ == view
    }
}

/// Whether every block whose changesets need not be computed in `before` is such a block in `after`,
/// with changesets that say the same. It is so where nothing is evicted, and where each pending
/// computation stays or has put into the cache what it gives.
pub open spec fn keeps<P, W>(
    wait: W,
    before: ChangesetCache<P>,
    after: ChangesetCache<P>,
) -> bool where W: Fn(&P) -> Option<Arc<TrieUpdatesSorted>> {
    forall|hash: B256, view: TrieUpdatesView| #[trigger]
        settled(wait, before.entries(), before.pending(), hash, view) ==> settled(
            wait,
            after.entries(),
            after.pending(),
            hash,
            view,
        )
}

/// After a walk, the blocks that it visited are settled, and so are those that were settled before.
/// Blocks that were settled before are not computed.
proof fn lemma_walk_settles<P, E, H, R, W, C>(
    sources: ChangesetSources<H, R, W, C>,
    cache: ChangesetCache<P>,
    newer: HashedPostStateView,
    last: u64,
    steps: Seq<RangeStep>,
) where
    H: Fn(u64) -> Result<Option<B256>, E>,
    R: Fn(u64) -> Result<HashedPostState, E>,
    W: Fn(&P) -> Option<Arc<TrieUpdatesSorted>>,
    C: Fn(u64, &HashedPostState, &HashedPostState) -> Result<TrieUpdatesSorted, E>,

    requires
        wait_repeats::<P, W>(sources.wait),
        sources.walked::<P, E>(cache, newer, last, steps),
    ensures
        forall|hash: B256, view: TrieUpdatesView| #[trigger]
            settled(sources.wait, cache.entries(), cache.pending(), hash, view) ==> settled(
                sources.wait,
                crate::range_walk::entries_after(
                    cache.entries(),
                    last + 1 - steps.len(),
                    steps,
                ),
                crate::range_walk::pending_after(cache.pending(), steps),
                hash,
                view,
            ),
        forall|i: int|
            #![trigger steps[i]]
            0 <= i < steps.len() ==> settled(
                sources.wait,
                crate::range_walk::entries_after(
                    cache.entries(),
                    last + 1 - steps.len(),
                    steps,
                ),
                crate::range_walk::pending_after(cache.pending(), steps),
                steps[i].block_hash,
                steps[i].changesets@,
            ),
        forall|i: int, view: TrieUpdatesView|
            0 <= i < steps.len() && #[trigger] settled(
                sources.wait,
                cache.entries(),
                cache.pending(),
                steps[i].block_hash,
                view,
            ) ==> !(steps[i].source is Computed) && steps[i].changesets@ == view,
    decreases steps.len(),
{
    if steps.len() > 0 {
        let above = steps.drop_first();
        let step = steps[0];
        let block_number: int = last + 1 - steps.len();
        let wait = sources.wait;
        let entries = crate::range_walk::entries_after(cache.entries(), block_number + 1, above);
        let pending = crate::range_walk::pending_after(cache.pending(), above);
        let entries_now = crate::range_walk::entries_after(cache.entries(), block_number, steps);
        let pending_now = crate::range_walk::pending_after(cache.pending(), steps);
        crate::chain_laws::lemma_walk_above::<P, E, H, R, W, C>(sources, cache, newer, last, steps);
        lemma_walk_settles::<P, E, H, R, W, C>(sources, cache, newer, last, above);
        assert(sources.allows::<P, E>(entries, pending, block_number as u64, step));
        assert forall|hash: B256, view: TrieUpdatesView| #[trigger]
            settled(wait, entries, pending, hash, view) implies settled(
            wait,
            entries_now,
            pending_now,
            hash,
            view,
        ) by {
            if step.source is Computed && !entries.contains_key(hash) {
                let changesets = choose|changesets: Arc<TrieUpdatesSorted>|
                    #[trigger] wait.ensures((&pending[hash],), Some(changesets))
                        && changesets@ == view;
                if hash == step.block_hash {
                    assert(wait.ensures((&pending[hash],), None::<Arc<TrieUpdatesSorted>>));
                } else {
                    assert(pending_now[hash] == pending[hash]);
                    assert(wait.ensures((&pending_now[hash],), Some(changesets)));
                }
            }
        }
        assert(settled(wait, entries_now, pending_now, step.block_hash, step.changesets@));
        assert forall|view: TrieUpdatesView| #[trigger]
            settled(wait, entries, pending, step.block_hash, view) implies !(
        step.source is Computed) && step.changesets@ == view by {}
        assert forall|i: int|
            #![trigger steps[i]]
            0 <= i < steps.len() implies settled(
            wait,
            entries_now,
            pending_now,
            steps[i].block_hash,
            steps[i].changesets@,
        ) by {
            if i > 0 {
                assert(above[i - 1] == steps[i]);
            }
        }
        assert forall|i: int, view: TrieUpdatesView|
            0 <= i < steps.len() && #[trigger] settled(
                wait,
                cache.entries(),
                cache.pending(),
                steps[i].block_hash,
                view,
            ) implies !(steps[i].source is Computed) && steps[i].changesets@ == view by {
            if i > 0 {
                assert(above[i - 1] == steps[i]);
            } else {
                assert(settled(wait, entries, pending, step.block_hash, view));
            }
        }
    }
}

/// A walk that computes nothing leaves the cache as it is and wakes nobody.
proof fn lemma_nothing_computed<P>(
    cache: ChangesetCache<P>,
    first: int,
    steps: Seq<RangeStep>,
)
    requires
        forall|i: int| 0 <= i < steps.len() ==> !((#[trigger] steps[i]).source is Computed),
    ensures
        crate::range_walk::entries_after(cache.entries(), first, steps) == cache.entries(),
        crate::range_walk::lists_after(cache.lists(), first, steps) == cache.lists(),
        crate::range_walk::pending_after(cache.pending(), steps) == cache.pending(),
        crate::range_walk::woken_after(cache.pending(), steps).len() == 0,
    decreases steps.len(),
{
    if steps.len() > 0 {
        assert(!(steps[0].source is Computed));
        assert forall|i: int| 0 <= i < steps.drop_first().len() implies !((
        #[trigger] steps.drop_first()[i]).source is Computed) by {
            assert(steps.drop_first()[i] == steps[i + 1]);
        }
        lemma_nothing_computed(cache, first + 1, steps.drop_first());
    }
}

/// Whether the changesets of the block with a number need not be computed and say `view`.
pub open spec fn block_is_settled<P, E, H, W>(
    block_hash: H,
    wait: W,
    cache: ChangesetCache<P>,
    block_number: u64,
    view: TrieUpdatesView,
) -> bool where
    H: Fn(u64) -> Result<Option<B256>, E>,
    W: Fn(&P) -> Option<Arc<TrieUpdatesSorted>>,
 {
    exists|hash: B256|
        {
            &&& #[trigger] block_hash.ensures((block_number,), Ok::<Option<B256>, E>(Some(hash)))
            &&& settled(wait, cache.entries(), cache.pending(), hash, view)
        }
}

/// Whether the changesets of the blocks `first..=last` need not be computed and say `views`, the
/// oldest block first.
pub open spec fn range_is_settled<P, E, H, W>(
    block_hash: H,
    wait: W,
    cache: ChangesetCache<P>,
    first: u64,
    last: u64,
    views: Seq<TrieUpdatesView>,
) -> bool where
    H: Fn(u64) -> Result<Option<B256>, E>,
    W: Fn(&P) -> Option<Arc<TrieUpdatesSorted>>,
 {
    &&& views.len() == crate::range_walk::blocks_between(first, last)
    &&& forall|i: int|
        #![trigger views[i]]
        0 <= i < views.len() ==> block_is_settled::<P, E, H, W>(
            block_hash,
            wait,
            cache,
            (first + i) as u64,
            views[i],
        )
}

/// Whether the database can give the revert of a block.
pub open spec fn can_read<E, F>(read: F, block_number: u64) -> bool where
    F: Fn(u64) -> Result<HashedPostState, E>,
 {
    exists|revert: HashedPostState| #[trigger]
        read.ensures((block_number,), Ok::<HashedPostState, E>(revert))
}

/// Whether the database can give the reverts that a walk over `first..=last` reads.
pub open spec fn can_read_range<E, R, S>(
    revert: R,
    newer_reverts: S,
    first: u64,
    last: u64,
) -> bool where
    R: Fn(u64) -> Result<HashedPostState, E>,
    S: Fn(u64) -> Result<HashedPostState, E>,
 {
    &&& can_read::<E, S>(newer_reverts, (last + 1) as u64)
    &&& forall|n: u64| first <= n <= last ==> #[trigger] can_read::<E, R>(revert, n)
}

/// The hash of a block is known, and the block with that hash is settled.
proof fn lemma_settled_hash<P, E, H, W>(
    block_hash: H,
    wait: W,
    cache: ChangesetCache<P>,
    first: u64,
    last: u64,
    views: Seq<TrieUpdatesView>,
    n: u64,
    hash: B256,
) where
    H: Fn(u64) -> Result<Option<B256>, E>,
    W: Fn(&P) -> Option<Arc<TrieUpdatesSorted>>,

    requires
        hashes_repeat::<E, H>(block_hash),
        range_is_settled::<P, E, H, W>(block_hash, wait, cache, first, last, views),
        first <= n <= last,
        block_hash.ensures((n,), Ok::<Option<B256>, E>(Some(hash))),
    ensures
        settled(wait, cache.entries(), cache.pending(), hash, views[n - first]),
{
    let view = views[n - first];
    assert(block_is_settled::<P, E, H, W>(block_hash, wait, cache, n, view));
}

/// A walk over blocks that are cached, or that pending computations give, takes none of them from
/// `compute` and leaves the cache as it is. `views` are what their changesets say, the oldest block
/// first.
pub proof fn lemma_settled_blocks_are_not_computed<P, E, H, R, W, C>(
    sources: ChangesetSources<H, R, W, C>,
    cache: ChangesetCache<P>,
    newer: HashedPostStateView,
    first: u64,
    last: u64,
    steps: Seq<RangeStep>,
    views: Seq<TrieUpdatesView>,
) where
    H: Fn(u64) -> Result<Option<B256>, E>,
    R: Fn(u64) -> Result<HashedPostState, E>,
    W: Fn(&P) -> Option<Arc<TrieUpdatesSorted>>,
    C: Fn(u64, &HashedPostState, &HashedPostState) -> Result<TrieUpdatesSorted, E>,

    requires
        hashes_repeat::<E, H>(sources.block_hash),
        wait_repeats::<P, W>(sources.wait),
        range_is_settled::<P, E, H, W>(
            sources.block_hash,
            sources.wait,
            cache,
            first,
            last,
            views,
        ),
        sources.walked::<P, E>(cache, newer, last, steps),
        steps.len() <= crate::range_walk::blocks_between(first, last),
    ensures
        forall|i: int|
            #![trigger steps[i]]
            0 <= i < steps.len() ==> !(steps[i].source is Computed) && steps[i].changesets@
                == views[last + 1 - steps.len() + i - first],
        crate::range_walk::entries_after(cache.entries(), last + 1 - steps.len(), steps)
            == cache.entries(),
        crate::range_walk::lists_after(cache.lists(), last + 1 - steps.len(), steps)
            == cache.lists(),
        crate::range_walk::pending_after(cache.pending(), steps) == cache.pending(),
        crate::range_walk::woken_after(cache.pending(), steps).len() == 0,
{
    lemma_walk_settles::<P, E, H, R, W, C>(sources, cache, newer, last, steps);
    assert forall|i: int|
        #![trigger steps[i]]
        0 <= i < steps.len() implies !(steps[i].source is Computed) && steps[i].changesets@
        == views[last + 1 - steps.len() + i - first] by {
        let n = (last + 1 - steps.len() + i) as u64;
        assert(sources.block_hash.ensures(
            (n,),
            Ok::<Option<B256>, E>(Some(steps[i].block_hash)),
        ));
        lemma_settled_hash::<P, E, H, W>(
            sources.block_hash,
            sources.wait,
            cache,
            first,
            last,
            views,
            n,
            steps[i].block_hash,
        );
    }
    lemma_nothing_computed(cache, last + 1 - steps.len(), steps);
}

/// Nothing is asked of `compute` for a range whose blocks need not be computed: sources whose
/// `compute` may never be called can be used for it.
pub proof fn lemma_settled_range_needs_no_computation<P, E, H, R, W, N>(
    sources: ChangesetSources<H, R, W, N>,
    cache: ChangesetCache<P>,
    first: u64,
    last: u64,
    views: Seq<TrieUpdatesView>,
) where
    H: Fn(u64) -> Result<Option<B256>, E>,
    R: Fn(u64) -> Result<HashedPostState, E>,
    W: Fn(&P) -> Option<Arc<TrieUpdatesSorted>>,
    N: Fn(u64, &HashedPostState, &HashedPostState) -> Result<TrieUpdatesSorted, E>,

    requires
        hashes_repeat::<E, H>(sources.block_hash),
        wait_repeats::<P, W>(sources.wait),
        range_is_settled::<P, E, H, W>(
            sources.block_hash,
            sources.wait,
            cache,
            first,
            last,
            views,
        ),
        sources.askable::<P, E>(cache.entries(), cache.pending(), first, last),
        sources.changesets_in_order::<P, E>(),
    ensures
        sources.usable::<P, E>(cache.entries(), cache.pending(), first, last),
{
    assert forall|n: u64, hash: B256|
        first <= n <= last && #[trigger] sources.block_hash.ensures(
            (n,),
            Ok::<Option<B256>, E>(Some(hash)),
        ) implies !sources.nobody_gives(cache.entries(), cache.pending(), hash) by {
        lemma_settled_hash::<P, E, H, W>(
            sources.block_hash,
            sources.wait,
            cache,
            first,
            last,
            views,
            n,
            hash,
        );
    }
}

/// Asking for a range whose blocks need not be computed and whose reverts can be read succeeds, gives
/// the accumulated changesets and changes nothing.
pub(crate) proof fn lemma_settled_range<P, E, S, H, R, W, C>(
    sources: ChangesetSources<H, R, W, C>,
    newer_reverts: S,
    before: ChangesetCache<P>,
    after: ChangesetCache<P>,
    checkpoint: Option<u64>,
    first: u64,
    last: u64,
    outcome: RangeOutcome<P, E>,
    views: Seq<TrieUpdatesView>,
) where
    S: Fn(u64) -> Result<HashedPostState, E>,
    H: Fn(u64) -> Result<Option<B256>, E>,
    R: Fn(u64) -> Result<HashedPostState, E>,
    W: Fn(&P) -> Option<Arc<TrieUpdatesSorted>>,
    C: Fn(u64, &HashedPostState, &HashedPostState) -> Result<TrieUpdatesSorted, E>,

    requires
        sources_repeat::<P, E, S, H, R, W, C>(sources, newer_reverts),
        crate::range_walk::range_error::<E>(checkpoint, first, last) is None,
        can_read_range::<E, R, S>(sources.revert, newer_reverts, first, last),
        range_is_settled::<P, E, H, W>(
            sources.block_hash,
            sources.wait,
            before,
            first,
            last,
            views,
        ),
        sources.range_served(newer_reverts, before, after, checkpoint, first, last, outcome),
    ensures
        outcome.result is Ok,
        outcome.result->Ok_0@ == crate::trie_updates::accumulated_changesets(views),
        after.entries() == before.entries(),
        after.lists() == before.lists(),
        after.pending() == before.pending(),
        outcome.woken@.len() == 0,
{
    let (newer, steps): (HashedPostState, Seq<RangeStep>) = choose|
        newer: HashedPostState,
        steps: Seq<RangeStep>,
    |
        {
            &&& #[trigger] newer_reverts.ensures(
                ((last + 1) as u64,),
                Ok::<HashedPostState, E>(newer),
            )
            &&& #[trigger] sources.walked::<P, E>(before, newer@, last, steps)
            &&& sources.ended_with(before, after, first, last, newer@, steps, outcome)
        };
    lemma_settled_blocks_are_not_computed::<P, E, H, R, W, C>(
        sources,
        before,
        newer@,
        first,
        last,
        steps,
        views,
    );
    if outcome.result is Err {
        let n = (last - steps.len()) as u64;
        let view = views[n - first];
        assert(block_is_settled::<P, E, H, W>(
            sources.block_hash,
            sources.wait,
            before,
            n,
            view,
        ));
        assert(can_read::<E, R>(sources.revert, n));
        let hash = choose|hash: B256|
            {
                &&& #[trigger] sources.block_hash.ensures((n,), Ok::<Option<B256>, E>(Some(hash)))
                &&& settled(sources.wait, before.entries(), before.pending(), hash, view)
            };
        assert(false);
    }
    assert(crate::range_walk::step_changesets(steps) =~= views);
}

/// Gets the accumulated changesets of a range whose blocks need not be computed and whose reverts can
/// be read. Nothing is asked of `compute`, so it may be one that can never be called.
pub fn get_settled_range<P, E, S, H, R, W, N>(
    cache: &mut ChangesetCache<P>,
    checkpoint: Option<u64>,
    first: u64,
    last: u64,
    newer_reverts: &S,
    sources: &ChangesetSources<H, R, W, N>,
) -> (outcome: RangeOutcome<P, E>) where
    S: Fn(u64) -> Result<HashedPostState, E>,
    H: Fn(u64) -> Result<Option<B256>, E>,
    R: Fn(u64) -> Result<HashedPostState, E>,
    W: Fn(&P) -> Option<Arc<TrieUpdatesSorted>>,
    N: Fn(u64, &HashedPostState, &HashedPostState) -> Result<TrieUpdatesSorted, E>,

    requires
        old(cache).wf(),
        crate::range_walk::range_error::<E>(checkpoint, first, last) is None,
        last < u64::MAX,
        sources_repeat::<P, E, S, H, R, W, N>(*sources, *newer_reverts),
        sources.askable::<P, E>(old(cache).entries(), old(cache).pending(), first, last),
        sources.changesets_in_order::<P, E>(),
        newer_reverts.requires(((last + 1) as u64,)),
        can_read_range::<E, R, S>(sources.revert, *newer_reverts, first, last),
        exists|views: Seq<TrieUpdatesView>| #[trigger]
            range_is_settled::<P, E, H, W>(
                sources.block_hash,
                sources.wait,
                *old(cache),
                first,
                last,
                views,
            ),
    ensures
        final(cache).wf(),
        outcome.result is Ok,
        outcome.result->Ok_0.wf(),
        sources.range_served(
            *newer_reverts,
            *old(cache),
            *final(cache),
            checkpoint,
            first,
            last,
            outcome,
        ),
        forall|views: Seq<TrieUpdatesView>| #[trigger]
            range_is_settled::<P, E, H, W>(
                sources.block_hash,
                sources.wait,
                *old(cache),
                first,
                last,
                views,
            ) ==> outcome.result->Ok_0@ == crate::trie_updates::accumulated_changesets(views),
        final(cache).entries() == old(cache).entries(),
        final(cache).lists() == old(cache).lists(),
        final(cache).pending() == old(cache).pending(),
        outcome.woken@.len() == 0,
{
    let ghost before = *cache;
    proof {
        let views = choose|views: Seq<TrieUpdatesView>| #[trigger]
            range_is_settled::<P, E, H, W>(
                sources.block_hash,
                sources.wait,
                before,
                first,
                last,
                views,
            );
        lemma_settled_range_needs_no_computation::<P, E, H, R, W, N>(
            *sources,
            before,
            first,
            last,
            views,
        );
    }
    let outcome = cache.get_or_compute_range(checkpoint, first, last, newer_reverts, sources);
    proof {
        assert forall|views: Seq<TrieUpdatesView>| #[trigger]
            range_is_settled::<P, E, H, W>(
                sources.block_hash,
                sources.wait,
                before,
                first,
                last,
                views,
            ) implies outcome.result is Ok && outcome.result->Ok_0@
            == crate::trie_updates::accumulated_changesets(views) && cache.entries()
            == before.entries() && cache.lists() == before.lists() && cache.pending()
            == before.pending() && outcome.woken@.len() == 0 by {
            lemma_settled_range::<P, E, S, H, R, W, N>(
                *sources,
                *newer_reverts,
                before,
                *cache,
                checkpoint,
                first,
                last,
                outcome,
                views,
            );
        }
    }
    outcome
}

/// After a range was got, its blocks need not be computed, and neither need those that needed not
/// before. What it gave is what they say, and its reverts can be read.
pub proof fn lemma_served_range_is_settled<P, E, S, H, R, W, C>(
    sources: ChangesetSources<H, R, W, C>,
    newer_reverts: S,
    before: ChangesetCache<P>,
    after: ChangesetCache<P>,
    checkpoint: Option<u64>,
    first: u64,
    last: u64,
    outcome: RangeOutcome<P, E>,
) -> (views: Seq<TrieUpdatesView>) where
    S: Fn(u64) -> Result<HashedPostState, E>,
    H: Fn(u64) -> Result<Option<B256>, E>,
    R: Fn(u64) -> Result<HashedPostState, E>,
    W: Fn(&P) -> Option<Arc<TrieUpdatesSorted>>,
    C: Fn(u64, &HashedPostState, &HashedPostState) -> Result<TrieUpdatesSorted, E>,

    requires
        sources_repeat::<P, E, S, H, R, W, C>(sources, newer_reverts),
        sources.range_served(newer_reverts, before, after, checkpoint, first, last, outcome),
        outcome.result is Ok,
    ensures
        outcome.result->Ok_0@ == crate::trie_updates::accumulated_changesets(views),
        keeps(sources.wait, before, after),
        can_read_range::<E, R, S>(sources.revert, newer_reverts, first, last),
        range_is_settled::<P, E, H, W>(
            sources.block_hash,
            sources.wait,
            after,
            first,
            last,
            views,
        ),
{
    let (newer, steps): (HashedPostState, Seq<RangeStep>) = choose|
        newer: HashedPostState,
        steps: Seq<RangeStep>,
    |
        {
            &&& #[trigger] newer_reverts.ensures(
                ((last + 1) as u64,),
                Ok::<HashedPostState, E>(newer),
            )
            &&& #[trigger] sources.walked::<P, E>(before, newer@, last, steps)
            &&& sources.ended_with(before, after, first, last, newer@, steps, outcome)
        };
    let views = crate::range_walk::step_changesets(steps);
    lemma_walk_settles::<P, E, H, R, W, C>(sources, before, newer@, last, steps);
    assert forall|i: int|
        #![trigger views[i]]
        0 <= i < views.len() implies block_is_settled::<P, E, H, W>(
        sources.block_hash,
        sources.wait,
        after,
        (first + i) as u64,
        views[i],
    ) by {
        let step = steps[i];
        assert(sources.block_hash.ensures(
            ((first + i) as u64,),
            Ok::<Option<B256>, E>(Some(step.block_hash)),
        ));
    }
    assert forall|n: u64| first <= n <= last implies #[trigger] can_read::<E, R>(
        sources.revert,
        n,
    ) by {
        let step = steps[n - first];
        assert(sources.revert.ensures((n,), Ok::<HashedPostState, E>(step.revert)));
    }
    views
}

/// A settled range stays settled in a cache that keeps what is in another.
proof fn lemma_kept_range_is_settled<P, E, H, W>(
    block_hash: H,
    wait: W,
    before: ChangesetCache<P>,
    after: ChangesetCache<P>,
    first: u64,
    last: u64,
    views: Seq<TrieUpdatesView>,
) where
    H: Fn(u64) -> Result<Option<B256>, E>,
    W: Fn(&P) -> Option<Arc<TrieUpdatesSorted>>,

    requires
        range_is_settled::<P, E, H, W>(block_hash, wait, before, first, last, views),
        after == before || keeps(wait, before, after),
    ensures
        range_is_settled::<P, E, H, W>(block_hash, wait, after, first, last, views),
{
    assert forall|i: int|
        #![trigger views[i]]
        0 <= i < views.len() implies block_is_settled::<P, E, H, W>(
        block_hash,
        wait,
        after,
        (first + i) as u64,
        views[i],
    ) by {
        let n = (first + i) as u64;
        assert(block_is_settled::<P, E, H, W>(block_hash, wait, before, n, views[i]));
        let hash = choose|hash: B256|
            {
                &&& #[trigger] block_hash.ensures((n,), Ok::<Option<B256>, E>(Some(hash)))
                &&& settled(wait, before.entries(), before.pending(), hash, views[i])
            };
        assert(settled(wait, after.entries(), after.pending(), hash, views[i]));
    }
}

/// Whether `again` asks the database and pending computations in the same way as `sources`. How it
/// computes is left open.
pub open spec fn same_but_for_compute<H, R, W, C, N>(
    sources: ChangesetSources<H, R, W, C>,
    again: ChangesetSources<H, R, W, N>,
) -> bool {
    &&& again.block_hash == sources.block_hash
    &&& again.revert == sources.revert
    &&& again.wait == sources.wait
}

/// Getting the changesets of a range again asks nothing of `compute`, succeeds, gives the same and
/// changes nothing.
///
/// `before_again` is the cache of the second call. It is the cache that the first call left, or one
/// that keeps what is in it. The second call is made with `sources_again`, whose `compute` can be
/// one that may never be called.
pub proof fn lemma_range_can_be_repeated<P, E, S, H, R, W, C, N>(
    sources: ChangesetSources<H, R, W, C>,
    sources_again: ChangesetSources<H, R, W, N>,
    newer_reverts: S,
    before: ChangesetCache<P>,
    after: ChangesetCache<P>,
    before_again: ChangesetCache<P>,
    checkpoint: Option<u64>,
    first: u64,
    last: u64,
    outcome: RangeOutcome<P, E>,
) where
    S: Fn(u64) -> Result<HashedPostState, E>,
    H: Fn(u64) -> Result<Option<B256>, E>,
    R: Fn(u64) -> Result<HashedPostState, E>,
    W: Fn(&P) -> Option<Arc<TrieUpdatesSorted>>,
    C: Fn(u64, &HashedPostState, &HashedPostState) -> Result<TrieUpdatesSorted, E>,
    N: Fn(u64, &HashedPostState, &HashedPostState) -> Result<TrieUpdatesSorted, E>,

    requires
        sources_repeat::<P, E, S, H, R, W, C>(sources, newer_reverts),
        same_but_for_compute(sources, sources_again),
        sources.range_served(newer_reverts, before, after, checkpoint, first, last, outcome),
        outcome.result is Ok,
        before_again == after || keeps(sources.wait, after, before_again),
    ensures
        sources_again.askable::<P, E>(
            before_again.entries(),
            before_again.pending(),
            first,
            last,
        ) && sources_again.changesets_in_order::<P, E>() ==> sources_again.usable::<P, E>(
            before_again.entries(),
            before_again.pending(),
            first,
            last,
        ),
        forall|after_again: ChangesetCache<P>, again: RangeOutcome<P, E>| #[trigger]
            sources_again.range_served(
                newer_reverts,
                before_again,
                after_again,
                checkpoint,
                first,
                last,
                again,
            ) ==> {
                &&& again.result is Ok
                &&& again.result->Ok_0@ == outcome.result->Ok_0@
                &&& after_again.entries() == before_again.entries()
                &&& after_again.lists() == before_again.lists()
                &&& after_again.pending() == before_again.pending()
                &&& again.woken@.len() == 0
            },
{
    let views = lemma_served_range_is_settled::<P, E, S, H, R, W, C>(
        sources,
        newer_reverts,
        before,
        after,
        checkpoint,
        first,
        last,
        outcome,
    );
    lemma_kept_range_is_settled::<P, E, H, W>(
        sources.block_hash,
        sources.wait,
        after,
        before_again,
        first,
        last,
        views,
    );
    if sources_again.askable::<P, E>(
        before_again.entries(),
        before_again.pending(),
        first,
        last,
    ) && sources_again.changesets_in_order::<P, E>() {
        lemma_settled_range_needs_no_computation::<P, E, H, R, W, N>(
            sources_again,
            before_again,
            first,
            last,
            views,
        );
    }
    assert forall|after_again: ChangesetCache<P>, again: RangeOutcome<P, E>| #[trigger]
        sources_again.range_served(
            newer_reverts,
            before_again,
            after_again,
            checkpoint,
            first,
            last,
            again,
        ) implies {
        &&& again.result is Ok
        &&& again.result->Ok_0@ == outcome.result->Ok_0@
        &&& after_again.entries() == before_again.entries()
        &&& after_again.lists() == before_again.lists()
        &&& after_again.pending() == before_again.pending()
        &&& again.woken@.len() == 0
    } by {
        lemma_settled_range::<P, E, S, H, R, W, N>(
            sources_again,
            newer_reverts,
            before_again,
            after_again,
            checkpoint,
            first,
            last,
            again,
            views,
        );
    }
}

/// After the newer and the older part of a range were got, getting the whole range asks nothing of
/// `compute`, succeeds, and gives the newer part overlaid with the older part.
///
/// The whole range is got with `sources_again`, whose `compute` can be one that may never be called.
pub proof fn lemma_range_is_newer_part_overlaid_by_older<P, E, S, H, R, W, C, N>(
    sources: ChangesetSources<H, R, W, C>,
    sources_again: ChangesetSources<H, R, W, N>,
    newer_reverts: S,
    start: ChangesetCache<P>,
    after_newer: ChangesetCache<P>,
    after_older: ChangesetCache<P>,
    checkpoint: Option<u64>,
    first: u64,
    middle: u64,
    last: u64,
    newer: RangeOutcome<P, E>,
    older: RangeOutcome<P, E>,
) where
    S: Fn(u64) -> Result<HashedPostState, E>,
    H: Fn(u64) -> Result<Option<B256>, E>,
    R: Fn(u64) -> Result<HashedPostState, E>,
    W: Fn(&P) -> Option<Arc<TrieUpdatesSorted>>,
    C: Fn(u64, &HashedPostState, &HashedPostState) -> Result<TrieUpdatesSorted, E>,
    N: Fn(u64, &HashedPostState, &HashedPostState) -> Result<TrieUpdatesSorted, E>,

    requires
        sources_repeat::<P, E, S, H, R, W, C>(sources, newer_reverts),
        same_but_for_compute(sources, sources_again),
        first <= middle < last,
        sources.range_served(
            newer_reverts,
            start,
            after_newer,
            checkpoint,
            (middle + 1) as u64,
            last,
            newer,
        ),
        newer.result is Ok,
        sources.range_served(
            newer_reverts,
            after_newer,
            after_older,
            checkpoint,
            first,
            middle,
            older,
        ),
        older.result is Ok,
    ensures
        sources_again.askable::<P, E>(
            after_older.entries(),
            after_older.pending(),
            first,
            last,
        ) && sources_again.changesets_in_order::<P, E>() ==> sources_again.usable::<P, E>(
            after_older.entries(),
            after_older.pending(),
            first,
            last,
        ),
        forall|after_whole: ChangesetCache<P>, whole: RangeOutcome<P, E>| #[trigger]
            sources_again.range_served(
                newer_reverts,
                after_older,
                after_whole,
                checkpoint,
                first,
                last,
                whole,
            ) ==> {
                &&& whole.result is Ok
                &&& whole.result->Ok_0@ == newer.result->Ok_0@.extend(older.result->Ok_0@)
                &&& after_whole.entries() == after_older.entries()
                &&& after_whole.lists() == after_older.lists()
                &&& after_whole.pending() == after_older.pending()
                &&& whole.woken@.len() == 0
            },
{
    let newer_views = lemma_served_range_is_settled::<P, E, S, H, R, W, C>(
        sources,
        newer_reverts,
        start,
        after_newer,
        checkpoint,
        (middle + 1) as u64,
        last,
        newer,
    );
    let older_views = lemma_served_range_is_settled::<P, E, S, H, R, W, C>(
        sources,
        newer_reverts,
        after_newer,
        after_older,
        checkpoint,
        first,
        middle,
        older,
    );
    lemma_kept_range_is_settled::<P, E, H, W>(
        sources.block_hash,
        sources.wait,
        after_newer,
        after_older,
        (middle + 1) as u64,
        last,
        newer_views,
    );
    let views = older_views + newer_views;
    assert forall|i: int|
        #![trigger views[i]]
        0 <= i < views.len() implies block_is_settled::<P, E, H, W>(
        sources.block_hash,
        sources.wait,
        after_older,
        (first + i) as u64,
        views[i],
    ) by {
        if i < older_views.len() {
            assert(views[i] == older_views[i]);
        } else {
            assert(views[i] == newer_views[i - older_views.len()]);
        }
    }
    if sources_again.askable::<P, E>(
        after_older.entries(),
        after_older.pending(),
        first,
        last,
    ) && sources_again.changesets_in_order::<P, E>() {
        lemma_settled_range_needs_no_computation::<P, E, H, R, W, N>(
            sources_again,
            after_older,
            first,
            last,
            views,
        );
    }
    crate::trie_updates::lemma_accumulated_changesets_split(older_views, newer_views);
    assert forall|after_whole: ChangesetCache<P>, whole: RangeOutcome<P, E>| #[trigger]
        sources_again.range_served(
            newer_reverts,
            after_older,
            after_whole,
            checkpoint,
            first,
            last,
            whole,
        ) implies {
        &&& whole.result is Ok
        &&& whole.result->Ok_0@ == newer.result->Ok_0@.extend(older.result->Ok_0@)
        &&& after_whole.entries() == after_older.entries()
        &&& after_whole.lists() == after_older.lists()
        &&& after_whole.pending() == after_older.pending()
        &&& whole.woken@.len() == 0
    } by {
        lemma_settled_range::<P, E, S, H, R, W, N>(
            sources_again,
            newer_reverts,
            after_older,
            after_whole,
            checkpoint,
            first,
            last,
            whole,
            views,
        );
    }
}

/// The steps of a walk only add entries. What each of them found in the cache or computed is cached
/// afterwards, and a computation stays pending unless its block was cached.
proof fn lemma_steps_are_cached_or_pending<P, E, H, R, W, C>(
    sources: ChangesetSources<H, R, W, C>,
    cache: ChangesetCache<P>,
    newer: HashedPostStateView,
    last: u64,
    steps: Seq<RangeStep>,
) where
    H: Fn(u64) -> Result<Option<B256>, E>,
    R: Fn(u64) -> Result<HashedPostState, E>,
    W: Fn(&P) -> Option<Arc<TrieUpdatesSorted>>,
    C: Fn(u64, &HashedPostState, &HashedPostState) -> Result<TrieUpdatesSorted, E>,

    requires
        sources.walked::<P, E>(cache, newer, last, steps),
    ensures
        ({
            let entries = crate::range_walk::entries_after(
                cache.entries(),
                last + 1 - steps.len(),
                steps,
            );
            let pending = crate::range_walk::pending_after(cache.pending(), steps);
            &&& forall|hash: B256| #[trigger]
                cache.entries().contains_key(hash) ==> entries.contains_key(hash) && entries[hash]
                    == cache.entries()[hash]
            &&& forall|hash: B256| #[trigger]
                cache.pending().contains_key(hash) ==> entries.contains_key(hash) || (
                pending.contains_key(hash) && pending[hash] == cache.pending()[hash])
            &&& forall|i: int|
                #![trigger steps[i]]
                0 <= i < steps.len() ==> entries.contains_key(steps[i].block_hash)
                    || cache.pending().contains_key(steps[i].block_hash)
        }),
    decreases steps.len(),
{
    if steps.len() > 0 {
        let above = steps.drop_first();
        let block_number: int = last + 1 - steps.len();
        let entries = crate::range_walk::entries_after(cache.entries(), block_number, steps);
        crate::chain_laws::lemma_walk_above::<P, E, H, R, W, C>(sources, cache, newer, last, steps);
        lemma_steps_are_cached_or_pending::<P, E, H, R, W, C>(sources, cache, newer, last, above);
        crate::range_walk::lemma_walk_only_caches_more(
            cache.entries(),
            cache.pending(),
            block_number + 1,
            above,
        );
        assert(sources.allows::<P, E>(
            crate::range_walk::entries_after(cache.entries(), block_number + 1, above),
            crate::range_walk::pending_after(cache.pending(), above),
            block_number as u64,
            steps[0],
        ));
        assert forall|i: int|
            #![trigger steps[i]]
            0 <= i < steps.len() implies entries.contains_key(steps[i].block_hash)
            || cache.pending().contains_key(steps[i].block_hash) by {
            if i > 0 {
                assert(above[i - 1] == steps[i]);
            }
        }
    }
}

/// After the changesets of a range were got, every block of it is cached, or its computation is still
/// pending under the handle that it had before. What was cached before is cached as it was.
pub proof fn lemma_range_is_cached_afterwards<P, E, S, H, R, W, C>(
    sources: ChangesetSources<H, R, W, C>,
    newer_reverts: S,
    before: ChangesetCache<P>,
    after: ChangesetCache<P>,
    checkpoint: Option<u64>,
    first: u64,
    last: u64,
    outcome: RangeOutcome<P, E>,
    block_number: u64,
    hash: B256,
) where
    S: Fn(u64) -> Result<HashedPostState, E>,
    H: Fn(u64) -> Result<Option<B256>, E>,
    R: Fn(u64) -> Result<HashedPostState, E>,
    W: Fn(&P) -> Option<Arc<TrieUpdatesSorted>>,
    C: Fn(u64, &HashedPostState, &HashedPostState) -> Result<TrieUpdatesSorted, E>,

    requires
        hashes_repeat::<E, H>(sources.block_hash),
        sources.range_served(newer_reverts, before, after, checkpoint, first, last, outcome),
        outcome.result is Ok,
        first <= block_number <= last,
        sources.block_hash.ensures((block_number,), Ok::<Option<B256>, E>(Some(hash))),
    ensures
        forall|other: B256| #[trigger]
            before.entries().contains_key(other) ==> after.entries().contains_key(other)
                && after.entries()[other] == before.entries()[other],
        after.entries().contains_key(hash) || {
            &&& before.pending().contains_key(hash)
            &&& after.pending().contains_key(hash)
            &&& after.pending()[hash] == before.pending()[hash]
        },
{
    let (newer, steps): (HashedPostState, Seq<RangeStep>) = choose|
        newer: HashedPostState,
        steps: Seq<RangeStep>,
    |
        {
            &&& #[trigger] newer_reverts.ensures(
                ((last + 1) as u64,),
                Ok::<HashedPostState, E>(newer),
            )
            &&& #[trigger] sources.walked::<P, E>(before, newer@, last, steps)
            &&& sources.ended_with(before, after, first, last, newer@, steps, outcome)
        };
    lemma_steps_are_cached_or_pending::<P, E, H, R, W, C>(sources, before, newer@, last, steps);
    let step = steps[block_number - first];
    assert(sources.block_hash.ensures(
        (block_number,),
        Ok::<Option<B256>, E>(Some(step.block_hash)),
    ));
}

} // verus!
