//! What holds of accumulated changesets when the database describes one chain.
//!
//! The functions on changesets take what they ask of the database as closures, and their contracts
//! allow every answer. The laws here are about answers that fit together: every block has one hash,
//! one revert and one set of changesets.

use crate::changeset_cache::{CacheEntry, ChangesetCache};
use crate::hashed_state::{HashedPostState, HashedPostStateView};
use crate::range_walk::{ChangesetSources, RangeOutcome, RangeStep};
use crate::trie_updates::{TrieUpdatesSorted, TrieUpdatesView};
use alloy_primitives::B256;
use std::sync::Arc;
use vstd::prelude::*;

verus! {

/// A chain of blocks up to a tip.
pub struct Chain {
    /// The highest block.
    pub tip: u64,
    /// The hash of each block.
    pub hash: spec_fn(u64) -> B256,
    /// The revert of each block.
    pub revert: spec_fn(u64) -> HashedPostStateView,
    /// The changesets of the block with a hash.
    pub changesets: spec_fn(B256) -> TrieUpdatesView,
}

impl Chain {
    /// The reverts of the blocks `first..=last`, the oldest block first.
    pub open spec fn reverts(self, first: int, last: int) -> Seq<HashedPostStateView> {
        Seq::new(
            if first <= last {
                (last - first + 1) as nat
            } else {
                0
            },
            |k: int| (self.revert)((first + k) as u64),
        )
    }

    /// The revert of all blocks above `block_number`, as it is read from scratch.
    pub open spec fn above(self, block_number: int) -> HashedPostStateView {
        crate::hashed_state::cumulative_revert(
            HashedPostStateView::empty(),
            self.reverts(block_number + 1, self.tip as int),
        )
    }

    /// The changesets of the blocks `first..=last`, the oldest block first.
    pub open spec fn block_changesets(self, first: int, last: int) -> Seq<TrieUpdatesView> {
        Seq::new(
            if first <= last {
                (last - first + 1) as nat
            } else {
                0
            },
            |k: int| (self.changesets)((self.hash)((first + k) as u64)),
        )
    }

    /// The accumulated changesets of the blocks `first..=last`.
    pub open spec fn accumulated(self, first: int, last: int) -> TrieUpdatesView {
        crate::trie_updates::accumulated_changesets(self.block_changesets(first, last))
    }

    /// Whether the reverts that are read are those of the chain.
    pub open spec fn gives_reverts<E, R, S>(self, revert: R, newer_reverts: S) -> bool where
        R: Fn(u64) -> Result<HashedPostState, E>,
        S: Fn(u64) -> Result<HashedPostState, E>,
     {
        &&& forall|n: u64, read: HashedPostState|
            n <= self.tip && #[trigger] revert.ensures((n,), Ok::<HashedPostState, E>(read))
                ==> read@ == (self.revert)(n)
        &&& forall|n: u64, read: HashedPostState|
            n <= self.tip + 1 && #[trigger] newer_reverts.ensures(
                (n,),
                Ok::<HashedPostState, E>(read),
            ) ==> read@ == self.above(n - 1)
    }

    /// Whether the hashes that are read are those of the chain.
    pub open spec fn gives_hashes<E, H>(self, block_hash: H) -> bool where
        H: Fn(u64) -> Result<Option<B256>, E>,
     {
        forall|n: u64, hash: B256|
            n <= self.tip && #[trigger] block_hash.ensures(
                (n,),
                Ok::<Option<B256>, E>(Some(hash)),
            ) ==> hash == (self.hash)(n)
    }

    /// Whether the changesets that are computed from the reverts of the chain are its changesets.
    pub open spec fn gives_changesets<E, C>(self, compute: C) -> bool where
        C: Fn(u64, &HashedPostState, &HashedPostState) -> Result<TrieUpdatesSorted, E>,
     {
        forall|n: u64, revert: HashedPostState, above: HashedPostState, computed: TrieUpdatesSorted|
            n <= self.tip && revert@ == (self.revert)(n) && above@ == self.above(n as int)
                && #[trigger] compute.ensures(
                (n, &revert, &above),
                Ok::<TrieUpdatesSorted, E>(computed),
            ) ==> computed@ == (self.changesets)((self.hash)(n))
    }

    /// Whether the sources give what the chain has.
    pub open spec fn gives<P, E, S, H, R, W, C>(
        self,
        sources: ChangesetSources<H, R, W, C>,
        newer_reverts: S,
    ) -> bool where
        S: Fn(u64) -> Result<HashedPostState, E>,
        H: Fn(u64) -> Result<Option<B256>, E>,
        R: Fn(u64) -> Result<HashedPostState, E>,
        W: Fn(&P) -> Option<Arc<TrieUpdatesSorted>>,
        C: Fn(u64, &HashedPostState, &HashedPostState) -> Result<TrieUpdatesSorted, E>,
     {
        &&& self.gives_hashes::<E, H>(sources.block_hash)
        &&& self.gives_reverts::<E, R, S>(sources.revert, newer_reverts)
        &&& self.gives_changesets::<E, C>(sources.compute)
    }

    /// Whether the changesets that are cached or pending for blocks of the chain are those that the
    /// chain has for them.
    pub open spec fn agrees<P, W>(
        self,
        entries: Map<B256, CacheEntry>,
        pending: Map<B256, P>,
        wait: W,
    ) -> bool where W: Fn(&P) -> Option<Arc<TrieUpdatesSorted>> {
        &&& forall|n: u64|
            #![trigger (self.hash)(n)]
            n <= self.tip && entries.contains_key((self.hash)(n)) ==> entries[(self.hash)(n)].1@
                == (self.changesets)((self.hash)(n))
        &&& forall|n: u64, changesets: Arc<TrieUpdatesSorted>|
            n <= self.tip && pending.contains_key((self.hash)(n)) && #[trigger] wait.ensures(
                (&pending[(self.hash)(n)],),
                Some(changesets),
            ) ==> changesets@ == (self.changesets)((self.hash)(n))
    }

    /// Whether `step` is what the chain has for a block.
    pub open spec fn has_step(self, block_number: int, step: RangeStep) -> bool {
        &&& step.block_hash == (self.hash)(block_number as u64)
        &&& step.revert@ == (self.revert)(block_number as u64)
        &&& step.cumulative@ == self.above(block_number)
        &&& step.changesets@ == (self.changesets)((self.hash)(block_number as u64))
    }
}

/// The revert of all blocks above a block, on top of that of all blocks above a later one.
proof fn lemma_above_splits(chain: Chain, block_number: int, last: int)
    requires
        block_number <= last <= chain.tip,
    ensures
        chain.above(block_number) == crate::hashed_state::cumulative_revert(
            chain.above(last),
            chain.reverts(block_number + 1, last),
        ),
{
    let tip = chain.tip as int;
    assert(chain.reverts(block_number + 1, tip) =~= chain.reverts(block_number + 1, last)
        + chain.reverts(last + 1, tip));
    crate::hashed_state::lemma_cumulative_revert_splits(
        HashedPostStateView::empty(),
        chain.reverts(block_number + 1, last),
        chain.reverts(last + 1, tip),
    );
}

/// Going down by one block extends the revert of all blocks above by the revert of that block alone.
pub proof fn lemma_above_grows(chain: Chain, block_number: u64)
    requires
        1 <= block_number <= chain.tip,
    ensures
        chain.above(block_number - 1) == chain.above(block_number as int).extend(
            (chain.revert)(block_number),
        ),
{
    let n = block_number as int;
    lemma_above_splits(chain, n - 1, n);
    assert(chain.reverts(n, n) =~= seq![(chain.revert)(block_number)] + Seq::<
        HashedPostStateView,
    >::empty());
    crate::hashed_state::lemma_cumulative_revert_grows(
        chain.above(n),
        Seq::empty(),
        (chain.revert)(block_number),
    );
}

/// The steps above the lowest one are a walk of their own.
pub(crate) proof fn lemma_walk_above<P, E, H, R, W, C>(
    sources: ChangesetSources<H, R, W, C>,
    cache: ChangesetCache<P>,
    newer: HashedPostStateView,
    last: u64,
    steps: Seq<RangeStep>,
) where
    H: Fn(u64) -> Result<Option<B256>, E>,
    R: Fn(u64) -> Result<HashedPostState, E>,
    W: Fn(&P) -> Option<Arc<TrieUpdatesSorted>>,
    C: Fn(u64, &HashedPostState, &HashedPostState) -> Result<TrieUpdatesSorted, E>,

    requires
        sources.walked::<P, E>(cache, newer, last, steps),
        steps.len() > 0,
    ensures
        sources.walked::<P, E>(cache, newer, last, steps.drop_first()),
        steps.skip(1) == steps.drop_first(),
{
    let above = steps.drop_first();
    assert(steps.skip(1) =~= above);
    assert forall|i: int|
        #![trigger above[i]]
        0 <= i < above.len() implies {
        let higher = above.skip(i + 1);
        let block_number = last + 1 - above.len() + i;
        &&& above[i].cumulative@ == crate::hashed_state::cumulative_revert(
            newer,
            crate::range_walk::step_reverts(higher),
        )
        &&& sources.allows::<P, E>(
            crate::range_walk::entries_after(cache.entries(), block_number + 1, higher),
            crate::range_walk::pending_after(cache.pending(), higher),
            block_number as u64,
            above[i],
        )
    } by {
        assert(above[i] == steps[i + 1]);
        assert(above.skip(i + 1) =~= steps.skip(i + 2));
    }
}

/// A walk over a chain finds at every block what the chain has for it, whatever is cached, and the
/// cache still agrees with the chain afterwards.
proof fn lemma_walk_follows_chain<P, E, S, H, R, W, C>(
    chain: Chain,
    sources: ChangesetSources<H, R, W, C>,
    newer_reverts: S,
    cache: ChangesetCache<P>,
    last: u64,
    steps: Seq<RangeStep>,
) where
    S: Fn(u64) -> Result<HashedPostState, E>,
    H: Fn(u64) -> Result<Option<B256>, E>,
    R: Fn(u64) -> Result<HashedPostState, E>,
    W: Fn(&P) -> Option<Arc<TrieUpdatesSorted>>,
    C: Fn(u64, &HashedPostState, &HashedPostState) -> Result<TrieUpdatesSorted, E>,

    requires
        chain.gives::<P, E, S, H, R, W, C>(sources, newer_reverts),
        chain.agrees(cache.entries(), cache.pending(), sources.wait),
        sources.walked::<P, E>(cache, chain.above(last as int), last, steps),
        last <= chain.tip,
        steps.len() <= last + 1,
    ensures
        forall|i: int|
            #![trigger steps[i]]
            0 <= i < steps.len() ==> chain.has_step(last + 1 - steps.len() + i, steps[i]),
        chain.agrees(
            crate::range_walk::entries_after(cache.entries(), last + 1 - steps.len(), steps),
            crate::range_walk::pending_after(cache.pending(), steps),
            sources.wait,
        ),
    decreases steps.len(),
{
    if steps.len() > 0 {
        let above = steps.drop_first();
        let step = steps[0];
        let block_number: int = last + 1 - steps.len();
        let entries = crate::range_walk::entries_after(cache.entries(), block_number + 1, above);
        let pending = crate::range_walk::pending_after(cache.pending(), above);
        lemma_walk_above::<P, E, H, R, W, C>(
            sources,
            cache,
            chain.above(last as int),
            last,
            steps,
        );
        lemma_walk_follows_chain::<P, E, S, H, R, W, C>(
            chain,
            sources,
            newer_reverts,
            cache,
            last,
            above,
        );
        assert forall|i: int| 0 <= i < above.len() implies above[i] == #[trigger] steps[i + 1] by {}
        assert(crate::range_walk::step_reverts(above) =~= chain.reverts(
            block_number + 1,
            last as int,
        )) by {
            assert forall|i: int| 0 <= i < above.len() implies #[trigger] above[i].revert@ == (
            chain.revert)((block_number + 1 + i) as u64) by {
                assert(chain.has_step(last + 1 - above.len() + i, above[i]));
            }
        }
        lemma_above_splits(chain, block_number, last as int);
        assert(step.cumulative@ == chain.above(block_number));
        assert(sources.allows::<P, E>(entries, pending, block_number as u64, step));
        assert(chain.has_step(block_number, step));
        assert forall|i: int|
            #![trigger steps[i]]
            0 <= i < steps.len() implies chain.has_step(last + 1 - steps.len() + i, steps[i]) by {
            if i > 0 {
                assert(above[i - 1] == steps[i]);
            }
        }
    }
}

/// The accumulated changesets of a range are those that the chain has, whichever of them were cached
/// or pending before. Afterwards the cache still agrees with the chain.
pub proof fn lemma_range_gives_the_chain<P, E, S, H, R, W, C>(
    chain: Chain,
    sources: ChangesetSources<H, R, W, C>,
    newer_reverts: S,
    before: ChangesetCache<P>,
    after: ChangesetCache<P>,
    checkpoint: Option<u64>,
    first: u64,
    last: u64,
    outcome: RangeOutcome<P, E>,
) where
    S: Fn(u64) -> Result<HashedPostState, E>,
    H: Fn(u64) -> Result<Option<B256>, E>,
    R: Fn(u64) -> Result<HashedPostState, E>,
    W: Fn(&P) -> Option<Arc<TrieUpdatesSorted>>,
    C: Fn(u64, &HashedPostState, &HashedPostState) -> Result<TrieUpdatesSorted, E>,

    requires
        chain.gives::<P, E, S, H, R, W, C>(sources, newer_reverts),
        chain.agrees(before.entries(), before.pending(), sources.wait),
        last <= chain.tip,
        last < u64::MAX,
        sources.range_served(newer_reverts, before, after, checkpoint, first, last, outcome),
        outcome.result is Ok,
    ensures
        outcome.result->Ok_0@ == chain.accumulated(first as int, last as int),
        chain.agrees(after.entries(), after.pending(), sources.wait),
{
    let (newer, steps): (HashedPostState, Seq<RangeStep>) = choose|
        newer: HashedPostState,
        steps: Seq<RangeStep>,
    |
        {
            &&& #[trigger] newer_reverts.ensures(
                ((last + 1) as u64,),
                Ok::<HashedPostState, E>(newer),
            )
            &&& #[trigger] sources.walked::<P, E>(before, newer@, last, steps)
            &&& sources.ended_with(before, after, first, last, newer@, steps, outcome)
        };
    assert(newer@ == chain.above(last as int));
    lemma_walk_follows_chain::<P, E, S, H, R, W, C>(
        chain,
        sources,
        newer_reverts,
        before,
        last,
        steps,
    );
    assert forall|i: int| 0 <= i < steps.len() implies #[trigger] steps[i].changesets@ == (
    chain.changesets)((chain.hash)((first + i) as u64)) by {
        assert(chain.has_step(last + 1 - steps.len() + i, steps[i]));
    }
    assert(crate::range_walk::step_changesets(steps) =~= chain.block_changesets(
        first as int,
        last as int,
    ));
}

/// The accumulated changesets of a range are those of its newer part, overlaid with those of its
/// older part, whichever caches the three were got through.
pub proof fn lemma_ranges_of_one_chain_compose<P, E, S, H, R, W, C>(
    chain: Chain,
    sources: ChangesetSources<H, R, W, C>,
    newer_reverts: S,
    before_newer: ChangesetCache<P>,
    after_newer: ChangesetCache<P>,
    before_older: ChangesetCache<P>,
    after_older: ChangesetCache<P>,
    before_whole: ChangesetCache<P>,
    after_whole: ChangesetCache<P>,
    checkpoint: Option<u64>,
    first: u64,
    middle: u64,
    last: u64,
    newer: RangeOutcome<P, E>,
    older: RangeOutcome<P, E>,
    whole: RangeOutcome<P, E>,
) where
    S: Fn(u64) -> Result<HashedPostState, E>,
    H: Fn(u64) -> Result<Option<B256>, E>,
    R: Fn(u64) -> Result<HashedPostState, E>,
    W: Fn(&P) -> Option<Arc<TrieUpdatesSorted>>,
    C: Fn(u64, &HashedPostState, &HashedPostState) -> Result<TrieUpdatesSorted, E>,

    requires
        chain.gives::<P, E, S, H, R, W, C>(sources, newer_reverts),
        chain.agrees(before_newer.entries(), before_newer.pending(), sources.wait),
        chain.agrees(before_older.entries(), before_older.pending(), sources.wait),
        chain.agrees(before_whole.entries(), before_whole.pending(), sources.wait),
        first <= middle < last <= chain.tip,
        last < u64::MAX,
        sources.range_served(
            newer_reverts,
            before_newer,
            after_newer,
            checkpoint,
            (middle + 1) as u64,
            last,
            newer,
        ),
        sources.range_served(
            newer_reverts,
            before_older,
            after_older,
            checkpoint,
            first,
            middle,
            older,
        ),
        sources.range_served(newer_reverts, before_whole, after_whole, checkpoint, first, last, whole),
        newer.result is Ok,
        older.result is Ok,
        whole.result is Ok,
    ensures
        whole.result->Ok_0@ == newer.result->Ok_0@.extend(older.result->Ok_0@),
{
    let (a, m, b) = (first as int, middle as int, last as int);
    lemma_range_gives_the_chain::<P, E, S, H, R, W, C>(
        chain,
        sources,
        newer_reverts,
        before_newer,
        after_newer,
        checkpoint,
        (middle + 1) as u64,
        last,
        newer,
    );
    lemma_range_gives_the_chain::<P, E, S, H, R, W, C>(
        chain,
        sources,
        newer_reverts,
        before_older,
        after_older,
        checkpoint,
        first,
        middle,
        older,
    );
    lemma_range_gives_the_chain::<P, E, S, H, R, W, C>(
        chain,
        sources,
        newer_reverts,
        before_whole,
        after_whole,
        checkpoint,
        first,
        last,
        whole,
    );
    assert(chain.block_changesets(a, b) =~= chain.block_changesets(a, m) + chain.block_changesets(
        m + 1,
        b,
    ));
    crate::trie_updates::lemma_accumulated_changesets_split(
        chain.block_changesets(a, m),
        chain.block_changesets(m + 1, b),
    );
}

/// The changesets that a walk computes for a block from the revert it carries along say the same as
/// those that are computed from reverts read from scratch.
///
/// `compute` is the computation of changesets from reverts, over tries that go by what their
/// arguments say. The computation from scratch succeeds where the reverts of all blocks above can be
/// read, and where what was read can be read again.
pub proof fn lemma_incremental_changesets_match_from_scratch<P, E, S, H, R, W, C, U, D>(
    chain: Chain,
    sources: ChangesetSources<H, R, W, C>,
    newer_reverts: S,
    tries: crate::block_changesets::TrieSources<U, D>,
    cache: ChangesetCache<P>,
    last: u64,
    steps: Seq<RangeStep>,
    i: int,
    checkpoint: Option<u64>,
    from_scratch: Result<TrieUpdatesSorted, crate::range_walk::ProviderError<E>>,
) where
    S: Fn(u64) -> Result<HashedPostState, E>,
    H: Fn(u64) -> Result<Option<B256>, E>,
    R: Fn(u64) -> Result<HashedPostState, E>,
    W: Fn(&P) -> Option<Arc<TrieUpdatesSorted>>,
    C: Fn(u64, &HashedPostState, &HashedPostState) -> Result<TrieUpdatesSorted, E>,
    U: Fn(&TrieUpdatesSorted, &HashedPostState, &HashedPostState) -> Result<TrieUpdatesSorted, E>,
    D: Fn(&TrieUpdatesSorted, &TrieUpdatesSorted) -> Result<TrieUpdatesSorted, E>,

    requires
        chain.gives_reverts::<E, R, S>(sources.revert, newer_reverts),
        crate::repeat_laws::reads_repeat::<E, R>(sources.revert),
        crate::repeat_laws::reads_repeat::<E, S>(newer_reverts),
        tries.go_by_views::<E>(),
        computes_from_reverts::<E, C, U, D>(sources.compute, tries),
        sources.walked::<P, E>(cache, chain.above(last as int), last, steps),
        last <= chain.tip,
        last < u64::MAX,
        steps.len() <= last + 1,
        0 <= i < steps.len(),
        steps[i].source is Computed,
        crate::range_walk::tip_error::<E>(
            checkpoint,
            (last + 1 - steps.len() + i) as u64,
        ) is None,
        crate::repeat_laws::can_read::<E, S>(
            newer_reverts,
            (last + 2 - steps.len() + i) as u64,
        ),
        crate::block_changesets::block_changesets_result(
            checkpoint,
            sources.revert,
            newer_reverts,
            sources.compute,
            (last + 1 - steps.len() + i) as u64,
            from_scratch,
        ),
    ensures
        steps[i].cumulative@ == chain.above(last + 1 - steps.len() + i),
        from_scratch is Ok,
        steps[i].changesets@ == from_scratch->Ok_0@,
{
    let block_number: int = last + 1 - steps.len() + i;
    let n = block_number as u64;
    let above = steps.skip(i + 1);
    assert forall|k: int| 0 <= k < above.len() implies #[trigger] above[k].revert@ == (
    chain.revert)((block_number + 1 + k) as u64) by {
        assert(above[k] == steps[i + 1 + k]);
    }
    assert(crate::range_walk::step_reverts(above) =~= chain.reverts(
        block_number + 1,
        last as int,
    ));
    lemma_above_splits(chain, block_number, last as int);
    let step = steps[i];
    assert(sources.revert.ensures((n,), Ok::<HashedPostState, E>(step.revert)));
    let (own, cumulative, computed): (
        HashedPostState,
        HashedPostState,
        Result<TrieUpdatesSorted, E>,
    ) = choose|
        own: HashedPostState,
        cumulative: HashedPostState,
        computed: Result<TrieUpdatesSorted, E>,
    |
        {
            &&& sources.revert.ensures((n,), Ok::<HashedPostState, E>(own))
            &&& newer_reverts.ensures(
                ((n + 1) as u64,),
                Ok::<HashedPostState, E>(cumulative),
            )
            &&& #[trigger] sources.compute.ensures((n, &own, &cumulative), computed)
            &&& match computed {
                Ok(changesets) => from_scratch == Ok::<
                    TrieUpdatesSorted,
                    crate::range_walk::ProviderError<E>,
                >(changesets),
                Err(_) => from_scratch is Err,
            }
        };
    crate::block_changesets::lemma_computation_goes_by_views::<E, U, D>(
        tries,
        step.revert,
        step.cumulative,
        &*step.changesets,
        own,
        cumulative,
        computed,
    );
}

/// Whether `compute` gives what the computation of changesets from reverts gives over `tries`.
pub open spec fn computes_from_reverts<E, C, U, D>(
    compute: C,
    tries: crate::block_changesets::TrieSources<U, D>,
) -> bool where
    C: Fn(u64, &HashedPostState, &HashedPostState) -> Result<TrieUpdatesSorted, E>,
    U: Fn(&TrieUpdatesSorted, &HashedPostState, &HashedPostState) -> Result<TrieUpdatesSorted, E>,
    D: Fn(&TrieUpdatesSorted, &TrieUpdatesSorted) -> Result<TrieUpdatesSorted, E>,
 {
    forall|
        n: u64,
        revert: HashedPostState,
        cumulative: HashedPostState,
        result: Result<TrieUpdatesSorted, E>,
    | #[trigger]
        compute.ensures((n, &revert, &cumulative), result) ==> exists|
            reverted: HashedPostState,
            no_nodes: TrieUpdatesSorted,
        | #[trigger]
            tries.computed_from(revert, cumulative, reverted, no_nodes, result)
}

} // verus!
