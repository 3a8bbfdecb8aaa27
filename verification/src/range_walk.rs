//! Accumulating the trie changesets of a range of blocks.
//!
//! The walk goes from the newest block of the range to the oldest, so that older values take
//! precedence. It carries the cumulative state revert along: at each block this is the revert of
//! all blocks above it, and it grows by the revert of one block per step.

use crate::changeset_cache::{CacheEntry, ChangesetCache, Served, Source};
use crate::hashed_state::HashedPostState;
use crate::trie_updates::TrieUpdatesSorted;
use alloy_primitives::B256;
use std::sync::Arc;
use vstd::prelude::*;

verus! {

/// The blocks `first..=last`.
#[derive(Clone, Copy, Debug, PartialEq, Eq)]
pub struct BlockRange {
    /// The first block.
    pub first: u64,
    /// The last block.
    pub last: u64,
}

/// Why changesets could not be provided. `E` is an error of the database.
#[derive(Clone, Debug, PartialEq, Eq)]
pub enum ProviderError<E> {
    /// Changesets are requested of a block for which the database cannot give them.
    InsufficientChangesets {
        /// The block that was asked for.
        requested: u64,
        /// The blocks that the database has.
        available: BlockRange,
    },
    /// The database has no hash for a block.
    BlockHashNotFound {
        /// The block that was asked for.
        block_number: u64,
    },
    /// The database failed.
    Other(E),
}

/// The highest block of the database, as the checkpoint of the last stage gives it.
///
/// `requested` is the block that is named in the error where there is no checkpoint.
pub fn database_tip<E>(checkpoint: Option<u64>, requested: u64) -> (tip: Result<
    u64,
    ProviderError<E>,
>)
    ensures
        tip == match checkpoint {
            Some(block_number) => Ok::<u64, ProviderError<E>>(block_number),
            None => Err(
                ProviderError::InsufficientChangesets {
                    requested,
                    available: BlockRange { first: 0, last: 0 },
                },
            ),
        },
{
    match checkpoint {
        Some(block_number) => Ok(block_number),
        None => Err(
            ProviderError::InsufficientChangesets {
                requested,
                available: BlockRange { first: 0, last: 0 },
            },
        ),
    }
}

/// What is wrong with asking for the changesets of `first..=last`, if something is.
pub open spec fn range_error<E>(
    checkpoint: Option<u64>,
    first: u64,
    last: u64,
) -> Option<ProviderError<E>> {
    match checkpoint {
        None => Some(
            ProviderError::InsufficientChangesets {
                requested: first,
                available: BlockRange { first: 0, last: 0 },
            },
        ),
        Some(tip) if last > tip => Some(
            ProviderError::InsufficientChangesets {
                requested: last,
                available: BlockRange { first: 0, last: tip },
            },
        ),
        Some(_) => None,
    }
}

/// Checks that the database, whose last stage has come to `checkpoint`, has all of `first..=last`.
pub fn check_range<E>(checkpoint: Option<u64>, first: u64, last: u64) -> (result: Result<
    (),
    ProviderError<E>,
>)
    ensures
        match range_error::<E>(checkpoint, first, last) {
            Some(error) => result == Err::<(), ProviderError<E>>(error),
            None => result is Ok,
        },
{
    let tip: u64 = match database_tip(checkpoint, first) {
        Ok(tip) => tip,
        Err(error) => return Err(error),
    };
    if last > tip {
        return Err(
            ProviderError::InsufficientChangesets {
                requested: last,
                available: BlockRange { first: 0, last: tip },
            },
        );
    }
    Ok(())
}

/// What is wrong with asking for the changesets of a block of the database, if something is: the
/// block is above the tip. Where there is no checkpoint, no tip is known that a block could exceed.
pub open spec fn tip_error<E>(checkpoint: Option<u64>, block_number: u64) -> Option<
    ProviderError<E>,
> {
    match checkpoint {
        Some(tip) if block_number > tip => Some(
            ProviderError::InsufficientChangesets {
                requested: block_number,
                available: BlockRange { first: 0, last: tip },
            },
        ),
        _ => None,
    }
}

/// Checks that a block does not exceed the tip of the database, where one is known.
pub fn check_block<E>(checkpoint: Option<u64>, block_number: u64) -> (result: Result<
    (),
    ProviderError<E>,
>)
    ensures
        match tip_error::<E>(checkpoint, block_number) {
            Some(error) => result == Err::<(), ProviderError<E>>(error),
            None => result is Ok,
        },
{
    match checkpoint {
        Some(_) => check_range(checkpoint, block_number, block_number),
        None => Ok(()),
    }
}

/// The hash of a block, given what the database has for it.
pub fn known_block_hash<H, E>(block_number: u64, found: Result<Option<H>, E>) -> (hash: Result<
    H,
    ProviderError<E>,
>)
    ensures
        hash == match found {
            Ok(Some(hash)) => Ok::<H, ProviderError<E>>(hash),
            Ok(None) => Err(ProviderError::BlockHashNotFound { block_number }),
            Err(error) => Err(ProviderError::Other(error)),
        },
{
    match found {
        Ok(Some(hash)) => Ok(hash),
        Ok(None) => Err(ProviderError::BlockHashNotFound { block_number }),
        Err(error) => Err(ProviderError::Other(error)),
    }
}

/// The number of blocks in `first..=last`.
pub open spec fn blocks_between(first: u64, last: u64) -> nat {
    if first <= last {
        (last - first + 1) as nat
    } else {
        0
    }
}

/// A walk over the blocks `first..=last`, from the newest to the oldest.
pub struct RangeWalk {
    /// The range.
    pub range: BlockRange,
    /// The block to visit next, or `None` at the end of the walk.
    pub next: Option<u64>,
    /// The revert of all blocks above the next one.
    pub cumulative: HashedPostState,
    /// The changesets of the visited blocks, put together.
    pub accumulated: TrieUpdatesSorted,
    /// The revert of all blocks above the range.
    pub newer: Ghost<crate::hashed_state::HashedPostStateView>,
    /// The reverts of the visited blocks, the oldest block first.
    pub reverts: Ghost<Seq<crate::hashed_state::HashedPostStateView>>,
    /// The changesets of the visited blocks, the oldest block first.
    pub changesets: Ghost<Seq<crate::trie_updates::TrieUpdatesView>>,
}

impl RangeWalk {
    /// Whether the state of the walk is what the visited blocks give.
    pub open spec fn wf(self) -> bool {
        let total = blocks_between(self.range.first, self.range.last);
        &&& self.accumulated.wf()
        &&& self.accumulated@ == crate::trie_updates::accumulated_changesets(self.changesets@)
        &&& self.cumulative@ == crate::hashed_state::cumulative_revert(self.newer@, self.reverts@)
        &&& self.reverts@.len() == self.changesets@.len()
        &&& self.changesets@.len() <= total
        &&& self.next is None <==> self.changesets@.len() == total
        &&& self.next matches Some(next) ==> next == self.range.last - self.changesets@.len()
    }

    /// Starts the walk. `newer` is the revert of all blocks above `last`.
    pub fn new(first: u64, last: u64, newer: HashedPostState) -> (walk: Self)
        ensures
            walk.wf(),
            walk.range == (BlockRange { first, last }),
            walk.next == if first <= last {
                Some(last)
            } else {
                None
            },
            walk.newer@ == newer@,
            walk.reverts@.len() == 0,
            walk.changesets@.len() == 0,
    {
        RangeWalk {
            range: BlockRange { first, last },
            next: if first <= last {
                Some(last)
            } else {
                None
            },
            newer: Ghost(newer@),
            cumulative: newer,
            accumulated: TrieUpdatesSorted::default(),
            reverts: Ghost(Seq::empty()),
            changesets: Ghost(Seq::empty()),
        }
    }

    /// Visits the next block, whose own revert is `revert` and whose changesets are `changesets`.
    pub fn advance(&mut self, revert: &HashedPostState, changesets: &TrieUpdatesSorted)
        requires
            old(self).wf(),
            old(self).next is Some,
            changesets.wf(),
        ensures
            final(self).wf(),
            final(self).range == old(self).range,
            final(self).newer == old(self).newer,
            final(self).reverts@ == seq![revert@] + old(self).reverts@,
            final(self).changesets@ == seq![changesets@] + old(self).changesets@,
            final(self).next == if old(self).next == Some(old(self).range.first) {
                None
            } else {
                Some((old(self).next->0 - 1) as u64)
            },
    {
        self.accumulated.extend_ref_and_sort(changesets);
        self.cumulative.extend_ref(revert);
        proof {
            crate::trie_updates::lemma_accumulated_changesets_grow(self.changesets@, changesets@);
            crate::hashed_state::lemma_cumulative_revert_grows(
                self.newer@,
                self.reverts@,
                revert@,
            );
        }
        self.reverts = Ghost(seq![revert@] + self.reverts@);
        self.changesets = Ghost(seq![changesets@] + self.changesets@);
        if let Some(block_number) = self.next {
            self.next = if block_number == self.range.first {
                None
            } else {
                Some(block_number - 1)
            };
        }
    }

    /// The accumulated changesets of the whole range.
    pub fn finish(self) -> (accumulated: TrieUpdatesSorted)
        requires
            self.wf(),
            self.next is None,
        ensures
            accumulated.wf(),
            accumulated@ == crate::trie_updates::accumulated_changesets(self.changesets@),
            self.changesets@.len() == blocks_between(self.range.first, self.range.last),
    {
        self.accumulated
    }
}

/// What happened at one block of a walk.
#[derive(Debug)]
pub struct RangeStep {
    /// The hash of the block.
    pub block_hash: B256,
    /// The revert of the block alone.
    pub revert: HashedPostState,
    /// The revert of all blocks above it.
    pub cumulative: HashedPostState,
    /// The changesets of the block.
    pub changesets: Arc<TrieUpdatesSorted>,
    /// Where they came from.
    pub source: Source,
}

/// The reverts of the visited blocks.
pub open spec fn step_reverts(steps: Seq<RangeStep>) -> Seq<
    crate::hashed_state::HashedPostStateView,
> {
    steps.map_values(|step: RangeStep| step.revert@)
}

/// The changesets of the visited blocks.
pub open spec fn step_changesets(steps: Seq<RangeStep>) -> Seq<
    crate::trie_updates::TrieUpdatesView,
> {
    steps.map_values(|step: RangeStep| step.changesets@)
}

/// The cache entries after `steps`, which come the oldest block first and begin at block `first`.
pub open spec fn entries_after(
    entries: Map<B256, CacheEntry>,
    first: int,
    steps: Seq<RangeStep>,
) -> Map<B256, CacheEntry>
    decreases steps.len(),
{
    if steps.len() == 0 {
        entries
    } else {
        let above = entries_after(entries, first + 1, steps.drop_first());
        let step = steps.first();
        if step.source is Computed {
            above.insert(step.block_hash, (first as u64, step.changesets))
        } else {
            above
        }
    }
}

/// The hashes that are listed under each number after `steps`, which come the oldest block first and
/// begin at block `first`.
pub open spec fn lists_after(
    lists: Map<u64, Seq<B256>>,
    first: int,
    steps: Seq<RangeStep>,
) -> Map<u64, Seq<B256>>
    decreases steps.len(),
{
    if steps.len() == 0 {
        lists
    } else {
        let above = lists_after(lists, first + 1, steps.drop_first());
        let step = steps.first();
        if step.source is Computed {
            crate::changeset_cache::with_hash(above, first as u64, step.block_hash)
        } else {
            above
        }
    }
}

/// The pending computations after `steps`: what was computed is no longer pending.
pub open spec fn pending_after<P>(pending: Map<B256, P>, steps: Seq<RangeStep>) -> Map<B256, P>
    decreases steps.len(),
{
    if steps.len() == 0 {
        pending
    } else {
        let above = pending_after(pending, steps.drop_first());
        let step = steps.first();
        if step.source is Computed {
            above.remove(step.block_hash)
        } else {
            above
        }
    }
}

/// The handles whose waiters are to be woken after `steps`, each with the changesets for them.
pub open spec fn woken_after<P>(pending: Map<B256, P>, steps: Seq<RangeStep>) -> Seq<
    (P, Arc<TrieUpdatesSorted>),
>
    decreases steps.len(),
{
    if steps.len() == 0 {
        Seq::empty()
    } else {
        let above = woken_after(pending, steps.drop_first());
        let left = pending_after(pending, steps.drop_first());
        let step = steps.first();
        if step.source is Computed && left.contains_key(step.block_hash) {
            above.push((left[step.block_hash], step.changesets))
        } else {
            above
        }
    }
}

/// What a walk asks of the database and of those who compute changesets.
pub struct ChangesetSources<H, R, W, C> {
    /// The hash of a block.
    pub block_hash: H,
    /// The revert of one block.
    pub revert: R,
    /// Waits for a pending computation. Gives `None` if it was cancelled.
    pub wait: W,
    /// Computes the changesets of a block from its revert and from the revert of all blocks above.
    pub compute: C,
}

impl<H, R, W, C> ChangesetSources<H, R, W, C> {
    /// Whether `step` is what happens at a block when the cache holds `entries` and `pending`.
    pub open spec fn allows<P, E>(
        self,
        entries: Map<B256, CacheEntry>,
        pending: Map<B256, P>,
        block_number: u64,
        step: RangeStep,
    ) -> bool where
        H: Fn(u64) -> Result<Option<B256>, E>,
        R: Fn(u64) -> Result<HashedPostState, E>,
        W: Fn(&P) -> Option<Arc<TrieUpdatesSorted>>,
        C: Fn(u64, &HashedPostState, &HashedPostState) -> Result<TrieUpdatesSorted, E>,
     {
        let hash = step.block_hash;
        &&& self.block_hash.ensures((block_number,), Ok::<Option<B256>, E>(Some(hash)))
        &&& self.revert.ensures((block_number,), Ok::<HashedPostState, E>(step.revert))
        &&& match step.source {
            Source::Cache => entries.contains_key(hash) && step.changesets == entries[hash].1,
            Source::Pending => {
                &&& !entries.contains_key(hash)
                &&& pending.contains_key(hash)
                &&& self.wait.ensures((&pending[hash],), Some(step.changesets))
            },
            Source::Computed => {
                &&& !entries.contains_key(hash)
                &&& pending.contains_key(hash) ==> self.wait.ensures(
                    (&pending[hash],),
                    None::<Arc<TrieUpdatesSorted>>,
                )
                &&& self.compute.ensures(
                    (block_number, &step.revert, &step.cumulative),
                    Ok::<TrieUpdatesSorted, E>(*step.changesets),
                )
            },
        }
    }

    /// Whether `steps`, which come the oldest block first and end at block `last`, are what happens
    /// on the way down from `last`: each step finds the cache as the steps above it left it, and
    /// the cumulative revert that their reverts give on top of `newer`.
    pub open spec fn walked<P, E>(
        self,
        cache: ChangesetCache<P>,
        newer: crate::hashed_state::HashedPostStateView,
        last: u64,
        steps: Seq<RangeStep>,
    ) -> bool where
        H: Fn(u64) -> Result<Option<B256>, E>,
        R: Fn(u64) -> Result<HashedPostState, E>,
        W: Fn(&P) -> Option<Arc<TrieUpdatesSorted>>,
        C: Fn(u64, &HashedPostState, &HashedPostState) -> Result<TrieUpdatesSorted, E>,
     {
        forall|i: int|
            #![trigger steps[i]]
            0 <= i < steps.len() ==> {
                let above = steps.skip(i + 1);
                let block_number = last + 1 - steps.len() + i;
                &&& steps[i].cumulative@ == crate::hashed_state::cumulative_revert(
                    newer,
                    step_reverts(above),
                )
                &&& self.allows::<P, E>(
                    entries_after(cache.entries(), block_number + 1, above),
                    pending_after(cache.pending(), above),
                    block_number as u64,
                    steps[i],
                )
            }
    }

    /// Whether the database can give the hash of a block.
    pub open spec fn has_hash<E>(self, block_number: u64) -> bool where
        H: Fn(u64) -> Result<Option<B256>, E>,
     {
        exists|hash: B256| #[trigger]
            self.block_hash.ensures((block_number,), Ok::<Option<B256>, E>(Some(hash)))
    }

    /// Whether `error` is what comes out at a block when the cache holds `entries` and `pending`.
    /// The hash of the block is asked for first, then its revert, and then its changesets.
    pub open spec fn fails_with<P, E>(
        self,
        entries: Map<B256, CacheEntry>,
        pending: Map<B256, P>,
        block_number: u64,
        cumulative: HashedPostState,
        error: ProviderError<E>,
    ) -> bool where
        H: Fn(u64) -> Result<Option<B256>, E>,
        R: Fn(u64) -> Result<HashedPostState, E>,
        W: Fn(&P) -> Option<Arc<TrieUpdatesSorted>>,
        C: Fn(u64, &HashedPostState, &HashedPostState) -> Result<TrieUpdatesSorted, E>,
     {
        match error {
            ProviderError::InsufficientChangesets { .. } => false,
            ProviderError::BlockHashNotFound { block_number: missing } => {
                &&& missing == block_number
                &&& self.block_hash.ensures((block_number,), Ok::<Option<B256>, E>(None))
            },
            ProviderError::Other(cause) => {
                ||| self.block_hash.ensures((block_number,), Err::<Option<B256>, E>(cause))
                ||| self.has_hash::<E>(block_number) && self.revert.ensures(
                    (block_number,),
                    Err::<HashedPostState, E>(cause),
                )
                ||| exists|hash: B256, revert: HashedPostState|
                    {
                        &&& #[trigger] self.block_hash.ensures(
                            (block_number,),
                            Ok::<Option<B256>, E>(Some(hash)),
                        )
                        &&& #[trigger] self.revert.ensures(
                            (block_number,),
                            Ok::<HashedPostState, E>(revert),
                        )
                        &&& !entries.contains_key(hash)
                        &&& pending.contains_key(hash) ==> self.wait.ensures(
                            (&pending[hash],),
                            None::<Arc<TrieUpdatesSorted>>,
                        )
                        &&& self.compute.ensures(
                            (block_number, &revert, &cumulative),
                            Err::<TrieUpdatesSorted, E>(cause),
                        )
                    }
            },
        }
    }

    /// Whether `outcome` and the cache `after` are what the steps of a walk over `first..=last` lead
    /// to. The steps end above the block at which the walk failed, if it failed.
    pub open spec fn ended_with<P, E>(
        self,
        before: ChangesetCache<P>,
        after: ChangesetCache<P>,
        first: u64,
        last: u64,
        newer: crate::hashed_state::HashedPostStateView,
        steps: Seq<RangeStep>,
        outcome: RangeOutcome<P, E>,
    ) -> bool where
        H: Fn(u64) -> Result<Option<B256>, E>,
        R: Fn(u64) -> Result<HashedPostState, E>,
        W: Fn(&P) -> Option<Arc<TrieUpdatesSorted>>,
        C: Fn(u64, &HashedPostState, &HashedPostState) -> Result<TrieUpdatesSorted, E>,
     {
        &&& after.entries() == entries_after(before.entries(), last + 1 - steps.len(), steps)
        &&& after.lists() == lists_after(before.lists(), last + 1 - steps.len(), steps)
        &&& after.pending() == pending_after(before.pending(), steps)
        &&& outcome.woken@ == woken_after(before.pending(), steps)
        &&& match outcome.result {
            Ok(accumulated) => {
                &&& steps.len() == blocks_between(first, last)
                &&& accumulated.wf()
                &&& accumulated@ == crate::trie_updates::accumulated_changesets(
                    step_changesets(steps),
                )
            },
            Err(error) => {
                &&& steps.len() < blocks_between(first, last)
                &&& exists|cumulative: HashedPostState|
                    {
                        &&& cumulative@ == crate::hashed_state::cumulative_revert(
                            newer,
                            step_reverts(steps),
                        )
                        &&& #[trigger] self.fails_with::<P, E>(
                            after.entries(),
                            after.pending(),
                            (last - steps.len()) as u64,
                            cumulative,
                            error,
                        )
                    }
            },
        }
    }

    /// Whether `outcome` and the cache `after` are what comes of asking for the accumulated
    /// changesets of `first..=last`: the range has to be in the database, then the revert of all
    /// blocks above it is read, and then the blocks are walked down.
    pub open spec fn range_served<P, E, S>(
        self,
        newer_reverts: S,
        before: ChangesetCache<P>,
        after: ChangesetCache<P>,
        checkpoint: Option<u64>,
        first: u64,
        last: u64,
        outcome: RangeOutcome<P, E>,
    ) -> bool where
        S: Fn(u64) -> Result<HashedPostState, E>,
        H: Fn(u64) -> Result<Option<B256>, E>,
        R: Fn(u64) -> Result<HashedPostState, E>,
        W: Fn(&P) -> Option<Arc<TrieUpdatesSorted>>,
        C: Fn(u64, &HashedPostState, &HashedPostState) -> Result<TrieUpdatesSorted, E>,
     {
        match range_error::<E>(checkpoint, first, last) {
            Some(error) => {
                &&& after == before
                &&& outcome.result == Err::<TrieUpdatesSorted, ProviderError<E>>(error)
                &&& outcome.woken@.len() == 0
            },
            None => {
                ||| {
                    &&& after == before
                    &&& outcome.result matches Err(ProviderError::Other(error))
                    &&& newer_reverts.ensures(
                        ((last + 1) as u64,),
                        Err::<HashedPostState, E>(error),
                    )
                    &&& outcome.woken@.len() == 0
                }
                ||| exists|newer: HashedPostState, steps: Seq<RangeStep>|
                    {
                        &&& #[trigger] newer_reverts.ensures(
                            ((last + 1) as u64,),
                            Ok::<HashedPostState, E>(newer),
                        )
                        &&& #[trigger] self.walked::<P, E>(before, newer@, last, steps)
                        &&& self.ended_with(before, after, first, last, newer@, steps, outcome)
                    }
            },
        }
    }

    /// Whether the sources can be asked what a walk over `first..=last` asks them when the cache holds
    /// `entries` and `pending`, and give changesets that are in order.
    ///
    /// The revert of a block is asked for where its hash is known. A pending computation is waited
    /// for only where the block is not cached, and `compute` is asked only where moreover no pending
    /// computation gives the changesets.
    pub open spec fn usable<P, E>(
        self,
        entries: Map<B256, CacheEntry>,
        pending: Map<B256, P>,
        first: u64,
        last: u64,
    ) -> bool where
        H: Fn(u64) -> Result<Option<B256>, E>,
        R: Fn(u64) -> Result<HashedPostState, E>,
        W: Fn(&P) -> Option<Arc<TrieUpdatesSorted>>,
        C: Fn(u64, &HashedPostState, &HashedPostState) -> Result<TrieUpdatesSorted, E>,
     {
        &&& self.askable::<P, E>(entries, pending, first, last)
        &&& forall|n: u64, hash: B256, revert: HashedPostState, cumulative: HashedPostState|
            first <= n <= last && #[trigger] self.block_hash.ensures(
                (n,),
                Ok::<Option<B256>, E>(Some(hash)),
            ) && self.revert.ensures((n,), Ok::<HashedPostState, E>(revert))
                && self.nobody_gives(entries, pending, hash) ==> #[trigger] self.compute.requires(
                (n, &revert, &cumulative),
            )
        &&& self.changesets_in_order::<P, E>()
    }

    /// Whether the sources other than `compute` can be asked what a walk over `first..=last` asks
    /// them.
    pub open spec fn askable<P, E>(
        self,
        entries: Map<B256, CacheEntry>,
        pending: Map<B256, P>,
        first: u64,
        last: u64,
    ) -> bool where
        H: Fn(u64) -> Result<Option<B256>, E>,
        R: Fn(u64) -> Result<HashedPostState, E>,
        W: Fn(&P) -> Option<Arc<TrieUpdatesSorted>>,
     {
        &&& forall|n: u64|
            #![trigger self.block_hash.requires((n,))]
            first <= n <= last ==> self.block_hash.requires((n,))
        &&& forall|n: u64, hash: B256|
            first <= n <= last && #[trigger] self.block_hash.ensures(
                (n,),
                Ok::<Option<B256>, E>(Some(hash)),
            ) ==> {
                &&& self.revert.requires((n,))
                &&& !entries.contains_key(hash) && pending.contains_key(hash)
                    ==> self.wait.requires((&pending[hash],))
            }
    }

    /// Whether the changesets of a block are not cached, and no pending computation gives them:
    /// there is none, or it was cancelled.
    pub open spec fn nobody_gives<P>(
        self,
        entries: Map<B256, CacheEntry>,
        pending: Map<B256, P>,
        hash: B256,
    ) -> bool where W: Fn(&P) -> Option<Arc<TrieUpdatesSorted>> {
        &&& !entries.contains_key(hash)
        &&& pending.contains_key(hash) ==> self.wait.ensures(
            (&pending[hash],),
            None::<Arc<TrieUpdatesSorted>>,
        )
    }

    /// Whether the changesets that are waited for or computed have their nodes sorted.
    pub open spec fn changesets_in_order<P, E>(self) -> bool where
        W: Fn(&P) -> Option<Arc<TrieUpdatesSorted>>,
        C: Fn(u64, &HashedPostState, &HashedPostState) -> Result<TrieUpdatesSorted, E>,
     {
        &&& forall|p: P, changesets: Arc<TrieUpdatesSorted>| #[trigger]
            self.wait.ensures((&p,), Some(changesets)) ==> changesets.wf()
        &&& forall|
            n: u64,
            revert: HashedPostState,
            cumulative: HashedPostState,
            updates: TrieUpdatesSorted,
        | #[trigger]
            self.compute.ensures((n, &revert, &cumulative), Ok::<TrieUpdatesSorted, E>(updates))
                ==> updates.wf()
    }
}

/// Whether a cache with `entries` and `pending` came to hold `later_entries` and `later_pending` by
/// caching blocks: entries stay, no computation is registered, and one that was pending still is,
/// unless its block is cached now.
pub open spec fn only_cached_more<P>(
    entries: Map<B256, CacheEntry>,
    pending: Map<B256, P>,
    later_entries: Map<B256, CacheEntry>,
    later_pending: Map<B256, P>,
) -> bool {
    &&& forall|hash: B256| #[trigger]
        entries.contains_key(hash) ==> later_entries.contains_key(hash)
    &&& forall|hash: B256| #[trigger]
        later_pending.contains_key(hash) ==> pending.contains_key(hash) && later_pending[hash]
            == pending[hash]
    &&& forall|hash: B256| #[trigger]
        pending.contains_key(hash) ==> later_entries.contains_key(hash)
            || later_pending.contains_key(hash)
}

/// A walk only caches more.
pub(crate) proof fn lemma_walk_only_caches_more<P>(
    entries: Map<B256, CacheEntry>,
    pending: Map<B256, P>,
    first: int,
    steps: Seq<RangeStep>,
)
    ensures
        only_cached_more(
            entries,
            pending,
            entries_after(entries, first, steps),
            pending_after(pending, steps),
        ),
    decreases steps.len(),
{
    if steps.len() > 0 {
        let above = steps.drop_first();
        let entries_above = entries_after(entries, first + 1, above);
        let pending_above = pending_after(pending, above);
        lemma_walk_only_caches_more(entries, pending, first + 1, above);
        assert forall|hash: B256| #[trigger]
            entries.contains_key(hash) implies entries_after(entries, first, steps).contains_key(
            hash,
        ) by {
            assert(entries_above.contains_key(hash));
        }
        assert forall|hash: B256| #[trigger]
            pending_after(pending, steps).contains_key(hash) implies pending.contains_key(hash)
            && pending_after(pending, steps)[hash] == pending[hash] by {
            assert(pending_above.contains_key(hash));
        }
        assert forall|hash: B256| #[trigger] pending.contains_key(hash) implies entries_after(
            entries,
            first,
            steps,
        ).contains_key(hash) || pending_after(pending, steps).contains_key(hash) by {
            assert(entries_above.contains_key(hash) || pending_above.contains_key(hash));
        }
    }
}

/// Sources that can be asked for a range can be asked for a part of it once more is cached.
pub(crate) proof fn lemma_usable_later<P, E, H, R, W, C>(
    sources: ChangesetSources<H, R, W, C>,
    entries: Map<B256, CacheEntry>,
    pending: Map<B256, P>,
    later_entries: Map<B256, CacheEntry>,
    later_pending: Map<B256, P>,
    first: u64,
    last: u64,
    part_first: u64,
    part_last: u64,
) where
    H: Fn(u64) -> Result<Option<B256>, E>,
    R: Fn(u64) -> Result<HashedPostState, E>,
    W: Fn(&P) -> Option<Arc<TrieUpdatesSorted>>,
    C: Fn(u64, &HashedPostState, &HashedPostState) -> Result<TrieUpdatesSorted, E>,

    requires
        sources.usable::<P, E>(entries, pending, first, last),
        only_cached_more(entries, pending, later_entries, later_pending),
        first <= part_first,
        part_last <= last,
    ensures
        sources.usable::<P, E>(later_entries, later_pending, part_first, part_last),
{
    assert forall|hash: B256| #[trigger]
        sources.nobody_gives(later_entries, later_pending, hash) implies sources.nobody_gives(
        entries,
        pending,
        hash,
    ) by {
        if pending.contains_key(hash) {
            assert(later_pending.contains_key(hash));
        }
    }
    assert forall|n: u64, hash: B256|
        part_first <= n <= part_last && #[trigger] sources.block_hash.ensures(
            (n,),
            Ok::<Option<B256>, E>(Some(hash)),
        ) implies {
        &&& sources.revert.requires((n,))
        &&& !later_entries.contains_key(hash) && later_pending.contains_key(hash)
            ==> sources.wait.requires((&later_pending[hash],))
    } by {
        if !later_entries.contains_key(hash) && later_pending.contains_key(hash) {
            assert(!entries.contains_key(hash) && pending.contains_key(hash));
        }
    }
}

/// What a walk over a range came to.
#[derive(Debug)]
pub struct RangeOutcome<P, E> {
    /// The accumulated changesets, or the error that ended the walk.
    pub result: Result<TrieUpdatesSorted, ProviderError<E>>,
    /// The handles whose waiters are to be woken, each with the changesets for them. There can be
    /// some even if the walk failed in the end.
    pub woken: Vec<(P, Arc<TrieUpdatesSorted>)>,
}

impl<P> ChangesetCache<P> {
    /// Gets the changesets of one block of a walk.
    fn serve_block<E, H, R, W, C>(
        &mut self,
        sources: &ChangesetSources<H, R, W, C>,
        block_number: u64,
        cumulative: &HashedPostState,
    ) -> (result: Result<(HashedPostState, Served<P>, Ghost<RangeStep>), ProviderError<E>>) where
        H: Fn(u64) -> Result<Option<B256>, E>,
        R: Fn(u64) -> Result<HashedPostState, E>,
        W: Fn(&P) -> Option<Arc<TrieUpdatesSorted>>,
        C: Fn(u64, &HashedPostState, &HashedPostState) -> Result<TrieUpdatesSorted, E>,

        requires
            old(self).wf(),
            sources.usable(
                old(self).entries(),
                old(self).pending(),
                block_number,
                block_number,
            ),
        ensures
            final(self).wf(),
            match result {
                Ok((revert, served, witness)) => {
                    let step = witness@;
                    &&& step.revert == revert
                    &&& step.cumulative == *cumulative
                    &&& step.changesets == served.changesets
                    &&& step.changesets.wf()
                    &&& sources.allows(old(self).entries(), old(self).pending(), block_number, step)
                    &&& final(self).entries() == entries_after(
                        old(self).entries(),
                        block_number as int,
                        seq![step],
                    )
                    &&& final(self).lists() == lists_after(
                        old(self).lists(),
                        block_number as int,
                        seq![step],
                    )
                    &&& final(self).pending() == pending_after(old(self).pending(), seq![step])
                    &&& served.woken == if step.source is Computed {
                        old(self).pending().get(step.block_hash)
                    } else {
                        None
                    }
                },
                Err(error) => {
                    &&& *final(self) == *old(self)
                    &&& sources.fails_with(
                        old(self).entries(),
                        old(self).pending(),
                        block_number,
                        *cumulative,
                        error,
                    )
                },
            },
    {
        let block_hash = match known_block_hash(block_number, (sources.block_hash)(block_number)) {
            Ok(hash) => hash,
            Err(error) => return Err(error),
        };
        let revert = match (sources.revert)(block_number) {
            Ok(revert) => revert,
            Err(error) => return Err(ProviderError::Other(error)),
        };
        let wait = |pending: &P| -> (outcome: Option<Arc<TrieUpdatesSorted>>)
            requires
                sources.wait.requires((pending,)),
            ensures
                sources.wait.ensures((pending,), outcome),
            { (sources.wait)(pending) };
        let compute = || -> (computed: Result<TrieUpdatesSorted, E>)
            requires
                sources.compute.requires((block_number, &revert, cumulative)),
            ensures
                sources.compute.ensures((block_number, &revert, cumulative), computed),
            { (sources.compute)(block_number, &revert, cumulative) };
        let served = self.get_or_compute_with(block_hash, block_number, wait, compute);
        match served {
            Ok(served) => {
                let ghost step = RangeStep {
                    block_hash,
                    revert,
                    cumulative: *cumulative,
                    changesets: served.changesets,
                    source: served.source,
                };
                proof {
                    assert(seq![step].drop_first() =~= Seq::<RangeStep>::empty());
                    reveal_with_fuel(entries_after, 2);
                    reveal_with_fuel(lists_after, 2);
                    reveal_with_fuel(pending_after, 2);
                }
                Ok((revert, served, Ghost(step)))
            },
            Err(error) => Err(ProviderError::Other(error)),
        }
    }

    /// Gets or computes the accumulated changesets of the blocks `first..=last`.
    ///
    /// `checkpoint` is how far the database has come, and `newer_reverts` gives the revert of all
    /// blocks from some block on. The changesets are accumulated from the newest block to the
    /// oldest, so that older values take precedence. The walk stops at the first failure, and what
    /// it cached until then stays cached.
    ///
    /// The cache is borrowed for the whole walk. Where computations are pending in other threads,
    /// a [`RangeWalk`] lets the cache go between the steps.
    pub fn get_or_compute_range<E, S, H, R, W, C>(
        &mut self,
        checkpoint: Option<u64>,
        first: u64,
        last: u64,
        newer_reverts: &S,
        sources: &ChangesetSources<H, R, W, C>,
    ) -> (outcome: RangeOutcome<P, E>) where
        S: Fn(u64) -> Result<HashedPostState, E>,
        H: Fn(u64) -> Result<Option<B256>, E>,
        R: Fn(u64) -> Result<HashedPostState, E>,
        W: Fn(&P) -> Option<Arc<TrieUpdatesSorted>>,
        C: Fn(u64, &HashedPostState, &HashedPostState) -> Result<TrieUpdatesSorted, E>,

        requires
            old(self).wf(),
            range_error::<E>(checkpoint, first, last) is None ==> {
                &&& last < u64::MAX
                &&& newer_reverts.requires(((last + 1) as u64,))
                &&& sources.usable::<P, E>(
                    old(self).entries(),
                    old(self).pending(),
                    first,
                    last,
                )
            },
        ensures
            final(self).wf(),
            sources.range_served(
                *newer_reverts,
                *old(self),
                *final(self),
                checkpoint,
                first,
                last,
                outcome,
            ),
    {
        let mut woken: Vec<(P, Arc<TrieUpdatesSorted>)> = Vec::new();
        if let Err(error) = check_range(checkpoint, first, last) {
            return RangeOutcome { result: Err(error), woken };
        }
        let newer = match newer_reverts(last + 1) {
            Ok(newer) => newer,
            Err(error) => return RangeOutcome { result: Err(ProviderError::Other(error)), woken },
        };
        let ghost newer_revert = newer;
        let ghost start = *self;
        let ghost mut steps: Seq<RangeStep> = Seq::empty();
        let mut walk = RangeWalk::new(first, last, newer);
        assert(step_reverts(steps) =~= walk.reverts@);
        assert(step_changesets(steps) =~= walk.changesets@);
        loop
            invariant
                self.wf(),
                walk.wf(),
                walk.range == (BlockRange { first, last }),
                walk.newer@ == newer_revert@,
                walk.reverts@ == step_reverts(steps),
                walk.changesets@ == step_changesets(steps),
                self.entries() == entries_after(start.entries(), last + 1 - steps.len(), steps),
                self.lists() == lists_after(start.lists(), last + 1 - steps.len(), steps),
                self.pending() == pending_after(start.pending(), steps),
                woken@ == woken_after(start.pending(), steps),
                sources.usable::<P, E>(start.entries(), start.pending(), first, last),
                sources.walked::<P, E>(start, newer_revert@, last, steps),
                last < u64::MAX,
                *old(self) == start,
                range_error::<E>(checkpoint, first, last) is None,
                newer_reverts.ensures(
                    ((last + 1) as u64,),
                    Ok::<HashedPostState, E>(newer_revert),
                ),
            decreases blocks_between(first, last) - steps.len(),
        {
            let block_number: u64 = match walk.next {
                Some(block_number) => block_number,
                None => {
                    return RangeOutcome { result: Ok(walk.finish()), woken };
                },
            };
            proof {
                lemma_walk_only_caches_more(
                    start.entries(),
                    start.pending(),
                    last + 1 - steps.len(),
                    steps,
                );
                lemma_usable_later::<P, E, H, R, W, C>(
                    *sources,
                    start.entries(),
                    start.pending(),
                    self.entries(),
                    self.pending(),
                    first,
                    last,
                    block_number,
                    block_number,
                );
            }
            let (revert, served, witness) = match self.serve_block(
                sources,
                block_number,
                &walk.cumulative,
            ) {
                Ok(served) => served,
                Err(error) => {
                    assert(sources.fails_with::<P, E>(
                        self.entries(),
                        self.pending(),
                        (last - steps.len()) as u64,
                        walk.cumulative,
                        error,
                    ));
                    let outcome = RangeOutcome { result: Err(error), woken };
                    assert(sources.ended_with(
                        start,
                        *self,
                        first,
                        last,
                        newer_revert@,
                        steps,
                        outcome,
                    ));
                    return outcome;
                },
            };
            let ghost step = witness@;
            let ghost visited = steps;
            proof {
                steps = seq![step] + visited;
                lemma_step_down(
                    start.entries(),
                    start.lists(),
                    block_number as int,
                    step,
                    visited,
                );
                lemma_pending_step_down(start.pending(), step, visited);
                assert forall|i: int|
                    #![trigger steps[i]]
                    0 <= i < steps.len() implies {
                    let above = steps.skip(i + 1);
                    let n = last + 1 - steps.len() + i;
                    &&& steps[i].cumulative@ == crate::hashed_state::cumulative_revert(
                        newer_revert@,
                        step_reverts(above),
                    )
                    &&& sources.allows::<P, E>(
                        entries_after(start.entries(), n + 1, above),
                        pending_after(start.pending(), above),
                        n as u64,
                        steps[i],
                    )
                } by {
                    if i == 0 {
                        assert(steps.skip(1) =~= visited);
                    } else {
                        assert(steps[i] == visited[i - 1]);
                        assert(steps.skip(i + 1) =~= visited.skip(i));
                    }
                }
                assert(seq![step].drop_first() =~= Seq::<RangeStep>::empty());
                reveal_with_fuel(woken_after, 2);
                reveal_with_fuel(pending_after, 2);
            }
            walk.advance(&revert, &served.changesets);
            if let Some(handle) = served.woken {
                woken.push((handle, served.changesets));
            }
        }
    }
}

/// One more step at the lower end of a walk.
proof fn lemma_step_down(
    entries: Map<B256, CacheEntry>,
    lists: Map<u64, Seq<B256>>,
    first: int,
    step: RangeStep,
    steps: Seq<RangeStep>,
)
    ensures
        entries_after(entries, first, seq![step] + steps) == entries_after(
            entries_after(entries, first + 1, steps),
            first,
            seq![step],
        ),
        lists_after(lists, first, seq![step] + steps) == lists_after(
            lists_after(lists, first + 1, steps),
            first,
            seq![step],
        ),
        step_reverts(seq![step] + steps) == seq![step.revert@] + step_reverts(steps),
        step_changesets(seq![step] + steps) == seq![step.changesets@] + step_changesets(steps),
{
    assert((seq![step] + steps).drop_first() =~= steps);
    assert(seq![step].drop_first() =~= Seq::<RangeStep>::empty());
    reveal_with_fuel(entries_after, 2);
    reveal_with_fuel(lists_after, 2);
    assert(step_reverts(seq![step] + steps) =~= seq![step.revert@] + step_reverts(steps));
    assert(step_changesets(seq![step] + steps) =~= seq![step.changesets@] + step_changesets(steps));
}

/// What is pending after one more step at the lower end of a walk, and whom it wakes.
proof fn lemma_pending_step_down<P>(pending: Map<B256, P>, step: RangeStep, steps: Seq<RangeStep>)
    ensures
        pending_after(pending, seq![step] + steps) == pending_after(
            pending_after(pending, steps),
            seq![step],
        ),
        woken_after(pending, seq![step] + steps) == woken_after(pending, steps) + woken_after(
            pending_after(pending, steps),
            seq![step],
        ),
{
    assert((seq![step] + steps).drop_first() =~= steps);
    assert(seq![step].drop_first() =~= Seq::<RangeStep>::empty());
    reveal_with_fuel(pending_after, 2);
    reveal_with_fuel(woken_after, 2);
    assert(woken_after(pending, seq![step] + steps) =~= woken_after(pending, steps) + woken_after(
        pending_after(pending, steps),
        seq![step],
    ));
}

/// The cumulative revert that a walk carries along is, at every block, the one that is read from
/// scratch for all blocks above it: `newer_reverts` are the reverts of the blocks above the range,
/// the oldest block first.
pub proof fn lemma_walk_matches_reading_from_scratch<P, E, H, R, W, C>(
    sources: ChangesetSources<H, R, W, C>,
    cache: ChangesetCache<P>,
    newer_reverts: Seq<crate::hashed_state::HashedPostStateView>,
    last: u64,
    steps: Seq<RangeStep>,
    i: int,
) where
    H: Fn(u64) -> Result<Option<B256>, E>,
    R: Fn(u64) -> Result<HashedPostState, E>,
    W: Fn(&P) -> Option<Arc<TrieUpdatesSorted>>,
    C: Fn(u64, &HashedPostState, &HashedPostState) -> Result<TrieUpdatesSorted, E>,

    requires
        sources.walked::<P, E>(
            cache,
            crate::hashed_state::cumulative_revert(
                crate::hashed_state::HashedPostStateView::empty(),
                newer_reverts,
            ),
            last,
            steps,
        ),
        0 <= i < steps.len(),
    ensures
        steps[i].cumulative@ == crate::hashed_state::cumulative_revert(
            crate::hashed_state::HashedPostStateView::empty(),
            step_reverts(steps.skip(i + 1)) + newer_reverts,
        ),
{
    crate::hashed_state::lemma_cumulative_revert_splits(
        crate::hashed_state::HashedPostStateView::empty(),
        step_reverts(steps.skip(i + 1)),
        newer_reverts,
    );
}

} // verus!
