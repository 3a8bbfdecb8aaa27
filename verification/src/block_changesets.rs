//! Computing the trie changesets of a block from state reverts.

use crate::changeset_cache::{ChangesetCache, Served, Source};
use crate::hashed_state::HashedPostState;
use crate::range_walk::{check_block, ChangesetSources, ProviderError};
use crate::trie_updates::TrieUpdatesSorted;
use alloy_primitives::B256;
use std::sync::Arc;
use vstd::prelude::*;

verus! {

/// What computes tries on top of the database.
pub struct TrieSources<U, D> {
    /// The trie updates that a state revert causes. The arguments are an overlay of trie nodes, the
    /// revert, and the state whose paths are looked at again.
    pub root_updates: U,
    /// The changesets of trie updates: what the updated nodes were. The arguments are an overlay of
    /// trie nodes, and the updates.
    pub changesets: D,
}

impl<U, D> TrieSources<U, D> {
    /// Whether `result` is what the changesets of a block come to, once `previous` gives the trie
    /// as it was before the block.
    pub open spec fn computed_on<E>(
        self,
        revert: HashedPostState,
        cumulative: HashedPostState,
        previous: TrieUpdatesSorted,
        result: Result<TrieUpdatesSorted, E>,
    ) -> bool where
        U: Fn(&TrieUpdatesSorted, &HashedPostState, &HashedPostState) -> Result<
            TrieUpdatesSorted,
            E,
        >,
        D: Fn(&TrieUpdatesSorted, &TrieUpdatesSorted) -> Result<TrieUpdatesSorted, E>,
     {
        ||| result matches Err(error) && self.root_updates.ensures(
            (&previous, &cumulative, &revert),
            Err::<TrieUpdatesSorted, E>(error),
        )
        ||| exists|updates: TrieUpdatesSorted|
            {
                &&& #[trigger] self.root_updates.ensures(
                    (&previous, &cumulative, &revert),
                    Ok::<TrieUpdatesSorted, E>(updates),
                )
                &&& self.changesets.ensures((&previous, &updates), result)
            }
    }

    /// Whether `result` is what comes out for a block whose own revert is `revert`, where
    /// `cumulative` is the revert of all blocks above it.
    ///
    /// `reverted` is the revert of the block and all blocks above it. It gives, with no overlay of
    /// nodes, the trie as it was before the block. On top of that trie, the paths that the block
    /// changed are computed as they were after the block, and the changesets say what they were
    /// before.
    pub open spec fn computed_from<E>(
        self,
        revert: HashedPostState,
        cumulative: HashedPostState,
        reverted: HashedPostState,
        no_nodes: TrieUpdatesSorted,
        result: Result<TrieUpdatesSorted, E>,
    ) -> bool where
        U: Fn(&TrieUpdatesSorted, &HashedPostState, &HashedPostState) -> Result<
            TrieUpdatesSorted,
            E,
        >,
        D: Fn(&TrieUpdatesSorted, &TrieUpdatesSorted) -> Result<TrieUpdatesSorted, E>,
     {
        &&& no_nodes@ == crate::trie_updates::TrieUpdatesView::empty()
        &&& reverted@ == cumulative@.extend(revert@)
        &&& {
            ||| result matches Err(error) && self.root_updates.ensures(
                (&no_nodes, &reverted, &reverted),
                Err::<TrieUpdatesSorted, E>(error),
            )
            ||| exists|previous: TrieUpdatesSorted|
                {
                    &&& #[trigger] self.root_updates.ensures(
                        (&no_nodes, &reverted, &reverted),
                        Ok::<TrieUpdatesSorted, E>(previous),
                    )
                    &&& self.computed_on(revert, cumulative, previous, result)
                }
        }
    }

    /// Whether what is computed, and whether it succeeds, depends on the views of the arguments
    /// alone.
    pub open spec fn go_by_views<E>(self) -> bool where
        U: Fn(&TrieUpdatesSorted, &HashedPostState, &HashedPostState) -> Result<
            TrieUpdatesSorted,
            E,
        >,
        D: Fn(&TrieUpdatesSorted, &TrieUpdatesSorted) -> Result<TrieUpdatesSorted, E>,
     {
        &&& forall|
            n1: TrieUpdatesSorted,
            s1: HashedPostState,
            p1: HashedPostState,
            r1: Result<TrieUpdatesSorted, E>,
            n2: TrieUpdatesSorted,
            s2: HashedPostState,
            p2: HashedPostState,
            r2: Result<TrieUpdatesSorted, E>,
        |
            n1@ == n2@ && s1@ == s2@ && p1@ == p2@ && r1 is Ok
                && #[trigger] self.root_updates.ensures((&n1, &s1, &p1), r1)
                && #[trigger] self.root_updates.ensures((&n2, &s2, &p2), r2) ==> r2 is Ok
                && r1->Ok_0@ == r2->Ok_0@
        &&& forall|
            n1: TrieUpdatesSorted,
            u1: TrieUpdatesSorted,
            r1: Result<TrieUpdatesSorted, E>,
            n2: TrieUpdatesSorted,
            u2: TrieUpdatesSorted,
            r2: Result<TrieUpdatesSorted, E>,
        |
            n1@ == n2@ && u1@ == u2@ && r1 is Ok
                && #[trigger] self.changesets.ensures((&n1, &u1), r1)
                && #[trigger] self.changesets.ensures((&n2, &u2), r2) ==> r2 is Ok && r1->Ok_0@
                == r2->Ok_0@
    }

    /// Whether every trie can be computed.
    pub open spec fn usable<E>(self) -> bool where
        U: Fn(&TrieUpdatesSorted, &HashedPostState, &HashedPostState) -> Result<
            TrieUpdatesSorted,
            E,
        >,
        D: Fn(&TrieUpdatesSorted, &TrieUpdatesSorted) -> Result<TrieUpdatesSorted, E>,
     {
        &&& forall|nodes: TrieUpdatesSorted, state: HashedPostState, paths: HashedPostState|
            #[trigger] self.root_updates.requires((&nodes, &state, &paths))
        &&& forall|nodes: TrieUpdatesSorted, updates: TrieUpdatesSorted| #[trigger]
            self.changesets.requires((&nodes, &updates))
    }
}

/// Computes the trie changesets of a block from its own revert and the revert of all blocks above
/// it.
pub fn compute_block_trie_changesets_from_reverts<E, U, D>(
    tries: &TrieSources<U, D>,
    revert: &HashedPostState,
    cumulative: &HashedPostState,
) -> (result: Result<TrieUpdatesSorted, E>) where
    U: Fn(&TrieUpdatesSorted, &HashedPostState, &HashedPostState) -> Result<TrieUpdatesSorted, E>,
    D: Fn(&TrieUpdatesSorted, &TrieUpdatesSorted) -> Result<TrieUpdatesSorted, E>,

    requires
        tries.usable::<E>(),
    ensures
        exists|reverted: HashedPostState, no_nodes: TrieUpdatesSorted| #[trigger]
            tries.computed_from(*revert, *cumulative, reverted, no_nodes, result),
{
    let mut reverted = cumulative.duplicate();
    reverted.extend_ref(revert);
    let no_nodes = TrieUpdatesSorted::default();
    let previous = match (tries.root_updates)(&no_nodes, &reverted, &reverted) {
        Ok(previous) => previous,
        Err(error) => {
            let result = Err(error);
            assert(tries.computed_from(*revert, *cumulative, reverted, no_nodes, result));
            return result;
        },
    };
    let result = match (tries.root_updates)(&previous, cumulative, revert) {
        Ok(updates) => (tries.changesets)(&previous, &updates),
        Err(error) => Err(error),
    };
    assert(tries.computed_on(*revert, *cumulative, previous, result));
    assert(tries.computed_from(*revert, *cumulative, reverted, no_nodes, result));
    result
}

/// Of two computations from reverts that say the same, the second succeeds if the first did, and
/// their changesets say the same.
pub proof fn lemma_computation_goes_by_views<E, U, D>(
    tries: TrieSources<U, D>,
    revert1: HashedPostState,
    cumulative1: HashedPostState,
    changesets1: &TrieUpdatesSorted,
    revert2: HashedPostState,
    cumulative2: HashedPostState,
    result2: Result<TrieUpdatesSorted, E>,
) where
    U: Fn(&TrieUpdatesSorted, &HashedPostState, &HashedPostState) -> Result<TrieUpdatesSorted, E>,
    D: Fn(&TrieUpdatesSorted, &TrieUpdatesSorted) -> Result<TrieUpdatesSorted, E>,

    requires
        tries.go_by_views::<E>(),
        revert1@ == revert2@,
        cumulative1@ == cumulative2@,
        exists|reverted: HashedPostState, no_nodes: TrieUpdatesSorted| #[trigger]
            tries.computed_from(
                revert1,
                cumulative1,
                reverted,
                no_nodes,
                Ok::<TrieUpdatesSorted, E>(*changesets1),
            ),
        exists|reverted: HashedPostState, no_nodes: TrieUpdatesSorted| #[trigger]
            tries.computed_from(
                revert2,
                cumulative2,
                reverted,
                no_nodes,
                result2,
            ),
    ensures
        result2 is Ok,
        changesets1@ == result2->Ok_0@,
{
}

/// Whether `result` is what `compute` gives for a block from the reverts in the database, or the
/// error of reading them. The revert of the block itself is read first, then the revert of all
/// blocks above it.
pub open spec fn computed_from_database<E, R, S, C>(
    revert: R,
    newer_reverts: S,
    compute: C,
    block_number: u64,
    result: Result<TrieUpdatesSorted, ProviderError<E>>,
) -> bool where
    R: Fn(u64) -> Result<HashedPostState, E>,
    S: Fn(u64) -> Result<HashedPostState, E>,
    C: Fn(u64, &HashedPostState, &HashedPostState) -> Result<TrieUpdatesSorted, E>,
 {
    ||| result matches Err(ProviderError::Other(error)) && revert.ensures(
        (block_number,),
        Err::<HashedPostState, E>(error),
    )
    ||| exists|own: HashedPostState|
        {
            &&& #[trigger] revert.ensures((block_number,), Ok::<HashedPostState, E>(own))
            &&& {
                ||| result matches Err(ProviderError::Other(error)) && newer_reverts.ensures(
                    ((block_number + 1) as u64,),
                    Err::<HashedPostState, E>(error),
                )
                ||| exists|cumulative: HashedPostState|
                    {
                        &&& #[trigger] newer_reverts.ensures(
                            ((block_number + 1) as u64,),
                            Ok::<HashedPostState, E>(cumulative),
                        )
                        &&& match result {
                            Ok(changesets) => compute.ensures(
                                (block_number, &own, &cumulative),
                                Ok::<TrieUpdatesSorted, E>(changesets),
                            ),
                            Err(ProviderError::Other(error)) => compute.ensures(
                                (block_number, &own, &cumulative),
                                Err::<TrieUpdatesSorted, E>(error),
                            ),
                            Err(_) => false,
                        }
                    }
            }
        }
}

/// Whether `result` is what the changesets of a block come to: the block must not exceed the tip of
/// the database, which is where its last stage has come to, if `checkpoint` says so.
pub open spec fn block_changesets_result<E, R, S, C>(
    checkpoint: Option<u64>,
    revert: R,
    newer_reverts: S,
    compute: C,
    block_number: u64,
    result: Result<TrieUpdatesSorted, ProviderError<E>>,
) -> bool where
    R: Fn(u64) -> Result<HashedPostState, E>,
    S: Fn(u64) -> Result<HashedPostState, E>,
    C: Fn(u64, &HashedPostState, &HashedPostState) -> Result<TrieUpdatesSorted, E>,
 {
    match crate::range_walk::tip_error::<E>(checkpoint, block_number) {
        Some(error) => result == Err::<TrieUpdatesSorted, ProviderError<E>>(error),
        None => computed_from_database(revert, newer_reverts, compute, block_number, result),
    }
}

/// Whether the changesets of a block can be computed from the reverts in the database: where the block
/// does not exceed the tip, the reverts can be asked for, and `compute` can be asked for what is made
/// of them.
pub open spec fn can_compute<E, R, S, C>(
    checkpoint: Option<u64>,
    block_number: u64,
    revert: R,
    newer_reverts: S,
    compute: C,
) -> bool where
    R: Fn(u64) -> Result<HashedPostState, E>,
    S: Fn(u64) -> Result<HashedPostState, E>,
    C: Fn(u64, &HashedPostState, &HashedPostState) -> Result<TrieUpdatesSorted, E>,
 {
    crate::range_walk::tip_error::<E>(checkpoint, block_number) is None ==> {
        &&& block_number < u64::MAX
        &&& revert.requires((block_number,))
        &&& newer_reverts.requires(((block_number + 1) as u64,))
        &&& forall|own: HashedPostState, cumulative: HashedPostState|
            revert.ensures((block_number,), Ok::<HashedPostState, E>(own))
                && newer_reverts.ensures(
                ((block_number + 1) as u64,),
                Ok::<HashedPostState, E>(cumulative),
            ) ==> #[trigger] compute.requires((block_number, &own, &cumulative))
    }
}

/// Computes the trie changesets of a block from the reverts in the database. `checkpoint` is where
/// its last stage has come to, if that is known, and `compute` is the computation from given
/// reverts.
pub fn compute_block_trie_changesets<E, R, S, C>(
    checkpoint: Option<u64>,
    block_number: u64,
    revert: &R,
    newer_reverts: &S,
    compute: &C,
) -> (result: Result<TrieUpdatesSorted, ProviderError<E>>) where
    R: Fn(u64) -> Result<HashedPostState, E>,
    S: Fn(u64) -> Result<HashedPostState, E>,
    C: Fn(u64, &HashedPostState, &HashedPostState) -> Result<TrieUpdatesSorted, E>,

    requires
        can_compute::<E, R, S, C>(checkpoint, block_number, *revert, *newer_reverts, *compute),
    ensures
        block_changesets_result(
            checkpoint,
            *revert,
            *newer_reverts,
            *compute,
            block_number,
            result,
        ),
{
    if let Err(error) = check_block(checkpoint, block_number) {
        return Err(error);
    }
    let own = match revert(block_number) {
        Ok(own) => own,
        Err(error) => return Err(ProviderError::Other(error)),
    };
    let cumulative = match newer_reverts(block_number + 1) {
        Ok(cumulative) => cumulative,
        Err(error) => return Err(ProviderError::Other(error)),
    };
    match compute(block_number, &own, &cumulative) {
        Ok(changesets) => Ok(changesets),
        Err(error) => Err(ProviderError::Other(error)),
    }
}

impl<H, R, W, C> ChangesetSources<H, R, W, C> {
    /// Whether `result` and the cache `after` are what comes of asking for the changesets of a
    /// block: the cache is asked first, then a pending computation, then the database.
    pub open spec fn block_served<P, E, S>(
        self,
        newer_reverts: S,
        before: ChangesetCache<P>,
        after: ChangesetCache<P>,
        checkpoint: Option<u64>,
        block_hash: B256,
        block_number: u64,
        result: Result<Served<P>, ProviderError<E>>,
    ) -> bool where
        S: Fn(u64) -> Result<HashedPostState, E>,
        R: Fn(u64) -> Result<HashedPostState, E>,
        W: Fn(&P) -> Option<Arc<TrieUpdatesSorted>>,
        C: Fn(u64, &HashedPostState, &HashedPostState) -> Result<TrieUpdatesSorted, E>,
     {
        match result {
            Ok(served) => match served.source {
                Source::Cache => {
                    &&& after == before
                    &&& before.entries().contains_key(block_hash)
                    &&& served.changesets == before.entries()[block_hash].1
                    &&& served.woken is None
                },
                Source::Pending => {
                    &&& after == before
                    &&& !before.entries().contains_key(block_hash)
                    &&& before.pending().contains_key(block_hash)
                    &&& self.wait.ensures(
                        (&before.pending()[block_hash],),
                        Some(served.changesets),
                    )
                    &&& served.woken is None
                },
                Source::Computed => {
                    &&& self.nobody_gives(before.entries(), before.pending(), block_hash)
                    &&& block_changesets_result(
                        checkpoint,
                        self.revert,
                        newer_reverts,
                        self.compute,
                        block_number,
                        Ok::<TrieUpdatesSorted, ProviderError<E>>(*served.changesets),
                    )
                    &&& after.entries() == before.entries().insert(
                        block_hash,
                        (block_number, served.changesets),
                    )
                    &&& after.lists() == crate::changeset_cache::with_hash(
                        before.lists(),
                        block_number,
                        block_hash,
                    )
                    &&& after.pending() == before.pending().remove(block_hash)
                    &&& served.woken == before.pending().get(block_hash)
                },
            },
            Err(error) => {
                &&& after == before
                &&& self.nobody_gives(before.entries(), before.pending(), block_hash)
                &&& block_changesets_result(
                    checkpoint,
                    self.revert,
                    newer_reverts,
                    self.compute,
                    block_number,
                    Err::<TrieUpdatesSorted, ProviderError<E>>(error),
                )
            },
        }
    }
}

impl<P> ChangesetCache<P> {
    /// Gets the changesets of a block from the cache, or from a pending computation, or computes
    /// them from the database and caches them.
    ///
    /// The cache is borrowed for the whole time. Where computations are pending in other threads,
    /// [`Self::lookup`] and [`Self::store_computed`] let the cache go in between.
    pub fn get_or_compute<E, S, H, R, W, C>(
        &mut self,
        block_hash: B256,
        block_number: u64,
        checkpoint: Option<u64>,
        newer_reverts: &S,
        sources: &ChangesetSources<H, R, W, C>,
    ) -> (result: Result<Served<P>, ProviderError<E>>) where
        S: Fn(u64) -> Result<HashedPostState, E>,
        H: Fn(u64) -> Result<Option<B256>, E>,
        R: Fn(u64) -> Result<HashedPostState, E>,
        W: Fn(&P) -> Option<Arc<TrieUpdatesSorted>>,
        C: Fn(u64, &HashedPostState, &HashedPostState) -> Result<TrieUpdatesSorted, E>,

        requires
            old(self).wf(),
            !old(self).entries().contains_key(block_hash) && old(self).pending().contains_key(
                block_hash,
            ) ==> sources.wait.requires((&old(self).pending()[block_hash],)),
            sources.nobody_gives(old(self).entries(), old(self).pending(), block_hash)
                ==> can_compute::<E, R, S, C>(
                checkpoint,
                block_number,
                sources.revert,
                *newer_reverts,
                sources.compute,
            ),
            sources.changesets_in_order::<P, E>(),
        ensures
            final(self).wf(),
            sources.block_served(
                *newer_reverts,
                *old(self),
                *final(self),
                checkpoint,
                block_hash,
                block_number,
                result,
            ),
            result matches Ok(served) ==> served.changesets.wf(),
    {
        let wait = |pending: &P| -> (outcome: Option<Arc<TrieUpdatesSorted>>)
            requires
                sources.wait.requires((pending,)),
            ensures
                sources.wait.ensures((pending,), outcome),
            { (sources.wait)(pending) };
        let compute = || -> (computed: Result<TrieUpdatesSorted, ProviderError<E>>)
            requires
                can_compute::<E, R, S, C>(
                    checkpoint,
                    block_number,
                    sources.revert,
                    *newer_reverts,
                    sources.compute,
                ),
            ensures
                block_changesets_result(
                    checkpoint,
                    sources.revert,
                    *newer_reverts,
                    sources.compute,
                    block_number,
                    computed,
                ),
            {
                compute_block_trie_changesets(
                    checkpoint,
                    block_number,
                    &sources.revert,
                    newer_reverts,
                    &sources.compute,
                )
            };
        self.get_or_compute_with(block_hash, block_number, wait, compute)
    }
}

} // verus!
