//! What the operations of the changeset cache give, in terms of what the cache holds before and
//! after.

use crate::changeset_cache::{
    CacheLookup, ChangesetCache, ChangesetCacheInner, ChangesetCacheMetrics, PendingChangesetGuard,
    Served,
};
use crate::trie_updates::TrieUpdatesSorted;
use alloy_primitives::B256;
use std::sync::Arc;
use vstd::prelude::*;

verus! {

/// Inserting changesets files them under their hash and lists the hash once, at the end, under its
/// number. Nothing else changes.
pub proof fn lemma_inner_insertion<P>(
    cache: &mut ChangesetCacheInner<P>,
    hash: B256,
    number: u64,
    changesets: Arc<TrieUpdatesSorted>,
    other: B256,
    other_number: u64,
)
    requires
        call_ensures(
            ChangesetCacheInner::<P>::insert,
            (cache, hash, number, changesets),
            (),
        ),
    ensures
        old(cache).wf() && changesets.wf() ==> call_requires(
            ChangesetCacheInner::<P>::insert,
            (cache, hash, number, changesets),
        ),
        final(cache).entries@.contains_key(hash),
        final(cache).entries@[hash].0 == number,
        final(cache).entries@[hash].1 == changesets,
        other != hash ==> (final(cache).entries@.contains_key(other) <==> old(cache).entries@.contains_key(other)),
        other != hash && old(cache).entries@.contains_key(other) ==> final(cache).entries@[other]
            == old(cache).entries@[other],
        final(cache).pending@ == old(cache).pending@,
        final(cache).block_numbers@.contains_key(number),
        final(cache).block_numbers@[number]@.last() == hash,
        final(cache).block_numbers@[number]@.drop_last() == if old(cache).block_numbers@.contains_key(number) {
            old(cache).block_numbers@[number]@
        } else {
            Seq::empty()
        },
        other_number != number ==> (final(cache).block_numbers@.contains_key(other_number) <==> old(cache).block_numbers@.contains_key(other_number)),
        other_number != number && old(cache).block_numbers@.contains_key(other_number) ==> final(cache).block_numbers@[other_number]@ == old(cache).block_numbers@[other_number]@,
{
    let before = crate::changeset_cache::hash_lists(old(cache).block_numbers@);
    let after = crate::changeset_cache::hash_lists(final(cache).block_numbers@);
    assert(after.contains_key(number));
    assert(after.contains_key(other_number) == final(cache).block_numbers@.contains_key(
        other_number,
    ));
    assert(before.contains_key(other_number) == old(cache).block_numbers@.contains_key(
        other_number,
    ));
    assert(before.contains_key(number) == old(cache).block_numbers@.contains_key(number));
    if before.contains_key(other_number) && other_number != number {
        assert(after[other_number] == before[other_number]);
    }
    if before.contains_key(number) {
        assert(after[number].drop_last() =~= before[number]);
    } else {
        assert(after[number].drop_last() =~= Seq::<B256>::empty());
    }
}

/// Evicting removes the blocks whose number is below the given one, and these alone, and says how
/// many they are. Pending computations stay.
pub proof fn lemma_inner_eviction<P>(
    cache: &mut ChangesetCacheInner<P>,
    up_to_block: u64,
    evicted: usize,
    hash: B256,
    number: u64,
)
    requires
        old(cache).wf(),
        call_ensures(ChangesetCacheInner::<P>::evict, (cache, up_to_block), evicted),
    ensures
        call_requires(ChangesetCacheInner::<P>::evict, (cache, up_to_block)),
        final(cache).entries@.contains_key(hash) <==> old(cache).entries@.contains_key(hash) && old(cache).entries@[hash].0 >= up_to_block,
        final(cache).entries@.contains_key(hash) ==> final(cache).entries@[hash] == old(cache).entries@[hash],
        evicted + final(cache).entries@.dom().len() == old(cache).entries@.dom().len(),
        evicted == 0 <==> final(cache).entries@ == old(cache).entries@,
        final(cache).pending@ == old(cache).pending@,
        final(cache).block_numbers@.contains_key(number) <==> old(cache).block_numbers@.contains_key(number) && number >= up_to_block,
        final(cache).block_numbers@.contains_key(number) ==> final(cache).block_numbers@[number]@
            == old(cache).block_numbers@[number]@,
{
    let before = crate::changeset_cache::hash_lists(old(cache).block_numbers@);
    let after = crate::changeset_cache::hash_lists(final(cache).block_numbers@);
    assert(after.contains_key(number) == final(cache).block_numbers@.contains_key(number));
    assert(before.contains_key(number) == old(cache).block_numbers@.contains_key(number));
    if after.contains_key(number) {
        assert(after[number] == before[number]);
    }
    let gone = old(cache).entries@.dom().difference(final(cache).entries@.dom());
    assert(final(cache).entries@.dom().subset_of(old(cache).entries@.dom()));
    if evicted == 0 {
        vstd::set_lib::lemma_subset_equality(
            final(cache).entries@.dom(),
            old(cache).entries@.dom(),
        );
        assert(final(cache).entries@ =~= old(cache).entries@);
    }
}

/// What is found for a block is what the cache holds for it, and it is found whenever the cache holds
/// something.
pub proof fn lemma_inner_lookup<P>(
    cache: ChangesetCacheInner<P>,
    hash: B256,
    found: Option<Arc<TrieUpdatesSorted>>,
)
    requires
        call_ensures(ChangesetCacheInner::<P>::get, (&cache, &hash), found),
    ensures
        found is Some <==> cache.entries@.contains_key(hash),
        found is Some ==> found->0 == cache.entries@[hash].1,
{
}

/// A new cache holds nothing, however it is made.
pub proof fn lemma_new_caches_are_empty<P>(
    inner: ChangesetCacheInner<P>,
    inner_default: ChangesetCacheInner<P>,
    cache: ChangesetCache<P>,
    cache_default: ChangesetCache<P>,
    hash: B256,
    number: u64,
)
    requires
        call_ensures(ChangesetCacheInner::<P>::new, (), inner),
        call_ensures(<ChangesetCacheInner<P> as Default>::default, (), inner_default),
        call_ensures(ChangesetCache::<P>::new, (), cache),
        call_ensures(<ChangesetCache<P> as Default>::default, (), cache_default),
    ensures
        !inner.entries@.contains_key(hash) && !inner.pending@.contains_key(hash)
            && !inner.block_numbers@.contains_key(number),
        !inner_default.entries@.contains_key(hash) && !inner_default.pending@.contains_key(hash)
            && !inner_default.block_numbers@.contains_key(number),
        !cache.inner.entries@.contains_key(hash) && !cache.inner.pending@.contains_key(hash)
            && !cache.inner.block_numbers@.contains_key(number),
        !cache_default.inner.entries@.contains_key(hash)
            && !cache_default.inner.pending@.contains_key(hash)
            && !cache_default.inner.block_numbers@.contains_key(number),
        inner.wf() && inner_default.wf() && cache.wf() && cache_default.wf(),
{
    assert(cache.lists().contains_key(number) == cache.inner.block_numbers@.contains_key(number));
    assert(cache_default.lists().contains_key(number)
        == cache_default.inner.block_numbers@.contains_key(number));
}

/// Inserting changesets files them under their hash, and lists the hash once more under its number.
/// What was pending for the block is over and is returned. Nothing else changes, and what is looked
/// up next for the block is what was inserted.
pub proof fn lemma_insertion<P>(
    cache: &mut ChangesetCache<P>,
    hash: B256,
    number: u64,
    changesets: Arc<TrieUpdatesSorted>,
    woken: Option<P>,
    other: B256,
    other_number: u64,
    found: Option<Arc<TrieUpdatesSorted>>,
)
    requires
        call_ensures(ChangesetCache::<P>::insert, (cache, hash, number, changesets), woken),
        call_ensures(ChangesetCache::<P>::get, (&*final(cache), &hash), found),
    ensures
        old(cache).wf() && changesets.wf() ==> call_requires(
            ChangesetCache::<P>::insert,
            (cache, hash, number, changesets),
        ),
        found == Some(changesets),
        final(cache).inner.entries@.contains_key(hash),
        final(cache).inner.entries@[hash] == (number, changesets),
        woken is Some <==> old(cache).inner.pending@.contains_key(hash),
        woken is Some ==> woken->0 == old(cache).inner.pending@[hash],
        !final(cache).inner.pending@.contains_key(hash),
        other != hash ==> {
            &&& final(cache).inner.entries@.contains_key(other) <==> old(cache).inner.entries@.contains_key(other)
            &&& old(cache).inner.entries@.contains_key(other) ==> final(cache).inner.entries@[other]
                == old(cache).inner.entries@[other]
            &&& final(cache).inner.pending@.contains_key(other) <==> old(cache).inner.pending@.contains_key(other)
            &&& old(cache).inner.pending@.contains_key(other) ==> final(cache).inner.pending@[other]
                == old(cache).inner.pending@[other]
        },
        final(cache).inner.block_numbers@.contains_key(number),
        final(cache).inner.block_numbers@[number]@.last() == hash,
        final(cache).inner.block_numbers@[number]@.drop_last() == if old(cache).inner.block_numbers@.contains_key(
            number,
        ) {
            old(cache).inner.block_numbers@[number]@
        } else {
            Seq::empty()
        },
        other_number != number ==> (final(cache).inner.block_numbers@.contains_key(other_number)
            <==> old(cache).inner.block_numbers@.contains_key(other_number)),
        other_number != number && old(cache).inner.block_numbers@.contains_key(other_number)
            ==> final(cache).inner.block_numbers@[other_number]@ == old(cache).inner.block_numbers@[other_number]@,
{
    let before = old(cache).lists();
    let after = final(cache).lists();
    assert(after.contains_key(number));
    assert(after.contains_key(other_number) == final(cache).inner.block_numbers@.contains_key(
        other_number,
    ));
    assert(before.contains_key(other_number) == old(cache).inner.block_numbers@.contains_key(
        other_number,
    ));
    assert(before.contains_key(number) == old(cache).inner.block_numbers@.contains_key(number));
    if before.contains_key(other_number) && other_number != number {
        assert(after[other_number] == before[other_number]);
    }
    if before.contains_key(number) {
        assert(after[number].drop_last() =~= before[number]);
    } else {
        assert(after[number].drop_last() =~= Seq::<B256>::empty());
    }
}

/// After an eviction exactly the blocks are found whose number is not below the given one, with what
/// the cache held for them.
pub proof fn lemma_eviction<P>(
    cache: &mut ChangesetCache<P>,
    up_to_block: u64,
    evicted: usize,
    hash: B256,
    found: Option<Arc<TrieUpdatesSorted>>,
)
    requires
        old(cache).wf(),
        call_ensures(ChangesetCache::<P>::evict, (cache, up_to_block), evicted),
        call_ensures(ChangesetCache::<P>::get, (&*final(cache), &hash), found),
    ensures
        call_requires(ChangesetCache::<P>::evict, (cache, up_to_block)),
        found is Some <==> old(cache).inner.entries@.contains_key(hash) && old(cache).inner.entries@[hash].0 >= up_to_block,
        found is Some ==> found->0 == old(cache).inner.entries@[hash].1 && final(cache).inner.entries@[hash] == old(cache).inner.entries@[hash],
        final(cache).inner.pending@ == old(cache).inner.pending@,
        evicted + final(cache).inner.entries@.dom().len() == old(cache).inner.entries@.dom().len(),
{
    crate::changeset_cache::lemma_evicted_count(old(cache).entries(), up_to_block);
}

/// A block is found in the cache before a pending computation of it is, and is missed only where
/// there is neither.
pub proof fn lemma_lookup<P>(
    cache: ChangesetCache<P>,
    hash: B256,
    found: CacheLookup<'_, P>,
    got: Option<Arc<TrieUpdatesSorted>>,
)
    requires
        call_ensures(ChangesetCache::<P>::lookup, (&cache, &hash), found),
        call_ensures(ChangesetCache::<P>::get, (&cache, &hash), got),
    ensures
        found is Hit <==> cache.inner.entries@.contains_key(hash),
        found is Hit <==> got is Some,
        found matches CacheLookup::Hit(changesets) ==> changesets == cache.inner.entries@[hash].1
            && got == Some(changesets),
        found is Pending <==> !cache.inner.entries@.contains_key(hash)
            && cache.inner.pending@.contains_key(hash),
        found matches CacheLookup::Pending(handle) ==> *handle == cache.inner.pending@[hash],
        found is Miss <==> !cache.inner.entries@.contains_key(hash)
            && !cache.inner.pending@.contains_key(hash),
{
}

/// The number of cached blocks.
pub proof fn lemma_length<P>(cache: ChangesetCache<P>, len: usize)
    requires
        cache.wf(),
        call_ensures(ChangesetCache::<P>::len, (&cache,), len),
    ensures
        len == cache.inner.entries@.dom().len(),
        len == 0 <==> forall|hash: B256| !#[trigger] cache.inner.entries@.contains_key(hash),
{
    if len == 0 {
        assert forall|hash: B256| !#[trigger] cache.inner.entries@.contains_key(hash) by {
            if cache.inner.entries@.contains_key(hash) {
                assert(cache.inner.entries@.dom().contains(hash));
                vstd::set_lib::lemma_len_subset(set![hash], cache.inner.entries@.dom());
                assert(set![hash].len() == 1);
            }
        }
    } else if forall|hash: B256| !#[trigger] cache.inner.entries@.contains_key(hash) {
        assert(cache.inner.entries@.dom() =~= Set::empty());
    }
}

/// Whether a hash is listed behind those that were listed under its number, and all else is listed as
/// it was.
pub open spec fn listed_behind<P>(
    before: ChangesetCache<P>,
    after: ChangesetCache<P>,
    number: u64,
    hash: B256,
) -> bool {
    &&& after.inner.block_numbers@.contains_key(number)
    &&& after.inner.block_numbers@[number]@ == (if before.inner.block_numbers@.contains_key(
        number,
    ) {
        before.inner.block_numbers@[number]@
    } else {
        Seq::empty()
    }).push(hash)
    &&& forall|other: u64|
        other != number ==> (#[trigger] after.inner.block_numbers@.contains_key(other)
            <==> before.inner.block_numbers@.contains_key(other))
    &&& forall|other: u64|
        other != number && #[trigger] after.inner.block_numbers@.contains_key(other)
            ==> after.inner.block_numbers@[other]@ == before.inner.block_numbers@[other]@
}

/// Whether all hashes are listed as they were.
pub open spec fn listed_the_same<P>(before: ChangesetCache<P>, after: ChangesetCache<P>) -> bool {
    &&& forall|number: u64| #[trigger]
        after.inner.block_numbers@.contains_key(number)
            <==> before.inner.block_numbers@.contains_key(number)
    &&& forall|number: u64| #[trigger]
        after.inner.block_numbers@.contains_key(number)
            ==> after.inner.block_numbers@[number]@ == before.inner.block_numbers@[number]@
}

/// A hash that is added to the lists is listed behind the others.
pub(crate) proof fn lemma_listed_behind<P>(
    before: ChangesetCache<P>,
    after: ChangesetCache<P>,
    number: u64,
    hash: B256,
)
    requires
        after.lists() == crate::changeset_cache::with_hash(before.lists(), number, hash),
    ensures
        listed_behind(before, after, number, hash),
{
    assert forall|other: u64| true implies {
        &&& #[trigger] after.inner.block_numbers@.contains_key(other)
            == after.lists().contains_key(other)
        &&& before.inner.block_numbers@.contains_key(other) == before.lists().contains_key(other)
    } by {}
    assert(after.lists().contains_key(number));
    assert(after.inner.block_numbers@.contains_key(number));
    assert(Seq::<B256>::empty().push(hash) =~= seq![hash]);
    assert(after.inner.block_numbers@[number]@ == after.lists()[number]);
    assert(before.inner.block_numbers@.contains_key(number) ==> before.lists()[number]
        == before.inner.block_numbers@[number]@);
    assert(before.inner.block_numbers@.contains_key(number) == before.lists().contains_key(number));
    assert forall|other: u64|
        other != number && #[trigger] after.inner.block_numbers@.contains_key(
            other,
        ) implies after.inner.block_numbers@[other]@ == before.inner.block_numbers@[other]@ by {
        assert(after.lists()[other] == before.lists()[other]);
    }
}

/// Lists that are the same list the same.
pub(crate) proof fn lemma_listed_the_same<P>(before: ChangesetCache<P>, after: ChangesetCache<P>)
    requires
        after.lists() == before.lists(),
    ensures
        listed_the_same(before, after),
{
    assert forall|number: u64| #[trigger]
        after.inner.block_numbers@.contains_key(number)
            <==> before.inner.block_numbers@.contains_key(number) by {
        assert(after.inner.block_numbers@.contains_key(number) == after.lists().contains_key(
            number,
        ));
        assert(before.inner.block_numbers@.contains_key(number) == before.lists().contains_key(
            number,
        ));
    }
    assert forall|number: u64| #[trigger]
        after.inner.block_numbers@.contains_key(
            number,
        ) implies after.inner.block_numbers@[number]@ == before.inner.block_numbers@[number]@ by {
        assert(after.lists()[number] == before.lists()[number]);
    }
}

/// A computation that is registered is what readers find for its block. The guard is for that block
/// and holds the other handle. What was registered before is returned, and nothing else changes.
pub proof fn lemma_registration<P>(
    cache: &mut ChangesetCache<P>,
    hash: B256,
    pending: P,
    own: P,
    guard: PendingChangesetGuard<P>,
    replaced: Option<P>,
    other: B256,
)
    requires
        call_ensures(
            ChangesetCache::<P>::register_pending,
            (cache, hash, pending, own),
            (guard, replaced),
        ),
    ensures
        old(cache).wf() ==> call_requires(
            ChangesetCache::<P>::register_pending,
            (cache, hash, pending, own),
        ),
        guard.block_hash == hash,
        guard.pending == Some(own),
        final(cache).inner.entries@ == old(cache).inner.entries@,
        final(cache).inner.pending@.contains_key(hash),
        final(cache).inner.pending@[hash] == pending,
        replaced is Some <==> old(cache).inner.pending@.contains_key(hash),
        replaced is Some ==> replaced->0 == old(cache).inner.pending@[hash],
        other != hash ==> (final(cache).inner.pending@.contains_key(other) <==> old(cache).inner.pending@.contains_key(other)),
        other != hash && old(cache).inner.pending@.contains_key(other) ==> final(cache).inner.pending@[other] == old(cache).inner.pending@[other],
        listed_the_same(*old(cache), *final(cache)),
{
    lemma_listed_the_same(*old(cache), *final(cache));
}

/// Resolving a guard caches the changesets under its hash and ends what is pending for the hash,
/// which is returned. The guard has nothing to give up after that.
pub proof fn lemma_resolution<P>(
    guard: &mut PendingChangesetGuard<P>,
    cache: &mut ChangesetCache<P>,
    number: u64,
    changesets: Arc<TrieUpdatesSorted>,
    woken: Option<P>,
    other: B256,
)
    requires
        call_ensures(
            PendingChangesetGuard::<P>::resolve,
            (guard, cache, number, changesets),
            woken,
        ),
    ensures
        ({
            let hash = old(guard).block_hash;
            &&& final(cache).inner.entries@.contains_key(hash)
            &&& final(cache).inner.entries@[hash] == (number, changesets)
            &&& !final(cache).inner.pending@.contains_key(hash)
            &&& woken is Some <==> old(cache).inner.pending@.contains_key(hash)
            &&& woken is Some ==> woken->0 == old(cache).inner.pending@[hash]
            &&& other != hash ==> {
                &&& final(cache).inner.entries@.contains_key(other) <==> old(cache).inner.entries@.contains_key(other)
                &&& old(cache).inner.entries@.contains_key(other) ==> final(cache).inner.entries@[other] == old(cache).inner.entries@[other]
                &&& final(cache).inner.pending@.contains_key(other) <==> old(cache).inner.pending@.contains_key(other)
                &&& old(cache).inner.pending@.contains_key(other) ==> final(cache).inner.pending@[other] == old(cache).inner.pending@[other]
            }
        }),
        final(guard).pending is None,
        final(guard).block_hash == old(guard).block_hash,
        listed_behind(*old(cache), *final(cache), number, old(guard).block_hash),
        old(cache).wf() && crate::overlay_laws::all_in_order(*changesets) ==> call_requires(
            PendingChangesetGuard::<P>::resolve,
            (guard, cache, number, changesets),
        ),
{
    lemma_listed_behind(*old(cache), *final(cache), number, old(guard).block_hash);
    crate::overlay_laws::lemma_wf_is_in_order(the_changesets(changesets));
}

/// What a handle of changesets holds.
spec fn the_changesets(changesets: Arc<TrieUpdatesSorted>) -> TrieUpdatesSorted {
    *changesets
}

/// Releasing a guard ends the registration of its block if it is its own, and then returns it. It
/// leaves any other registration as it is, and caches or evicts nothing. Releasing a guard that was
/// resolved or released before does nothing.
pub proof fn lemma_release<P, F: Fn(&P, &P) -> bool>(
    guard: &mut PendingChangesetGuard<P>,
    cache: &mut ChangesetCache<P>,
    same: F,
    cancelled: Option<P>,
    other: B256,
)
    requires
        call_ensures(PendingChangesetGuard::<P>::release::<F>, (guard, cache, same), cancelled),
    ensures
        final(cache).inner.entries@ == old(cache).inner.entries@,
        final(guard).pending is None,
        final(guard).block_hash == old(guard).block_hash,
        listed_the_same(*old(cache), *final(cache)),
        old(cache).wf() && (forall|p: P, q: P| #[trigger] same.requires((&p, &q))) ==> call_requires(
            PendingChangesetGuard::<P>::release::<F>,
            (guard, cache, same),
        ),
        old(cache).wf() && old(guard).pending is None ==> call_requires(
            PendingChangesetGuard::<P>::release::<F>,
            (guard, cache, same),
        ),
        ({
            let hash = old(guard).block_hash;
            let before = old(cache).inner.pending@;
            let after = final(cache).inner.pending@;
            &&& other != hash ==> (after.contains_key(other) <==> before.contains_key(other))
            &&& other != hash && before.contains_key(other) ==> after[other] == before[other]
            &&& old(guard).pending is None || !before.contains_key(hash) ==> cancelled is None
                && after == before
            &&& old(guard).pending is Some && before.contains_key(hash) ==> {
                let own = old(guard).pending->0;
                &&& cancelled is Some ==> cancelled->0 == before[hash] && !after.contains_key(hash)
                    && same.ensures((&before[hash], &own), true)
                &&& cancelled is None ==> after == before && same.ensures(
                    (&before[hash], &own),
                    false,
                )
            }
        }),
{
    lemma_listed_the_same(*old(cache), *final(cache));
}

/// Of a computation, success is cached and handed out with what was pending for the block, and a
/// failure leaves the cache alone.
pub proof fn lemma_computed_changesets_are_stored<P, E>(
    cache: &mut ChangesetCache<P>,
    hash: B256,
    number: u64,
    computed: Result<TrieUpdatesSorted, E>,
    result: Result<Served<P>, E>,
    other: B256,
)
    requires
        call_ensures(
            ChangesetCache::<P>::store_computed::<E>,
            (cache, hash, number, computed),
            result,
        ),
    ensures
        result is Ok <==> computed is Ok,
        computed is Err ==> result->Err_0 == computed->Err_0 && *final(cache) == *old(cache),
        computed is Ok ==> {
            let served = result->Ok_0;
            &&& *served.changesets == computed->Ok_0
            &&& final(cache).inner.entries@.contains_key(hash)
            &&& final(cache).inner.entries@[hash].0 == number
            &&& *final(cache).inner.entries@[hash].1 == computed->Ok_0
            &&& !final(cache).inner.pending@.contains_key(hash)
            &&& served.woken is Some <==> old(cache).inner.pending@.contains_key(hash)
            &&& served.woken is Some ==> served.woken->0 == old(cache).inner.pending@[hash]
            &&& other != hash ==> (final(cache).inner.entries@.contains_key(other) <==> old(cache).inner.entries@.contains_key(other))
            &&& other != hash && old(cache).inner.entries@.contains_key(other) ==> final(cache).inner.entries@[other] == old(cache).inner.entries@[other]
            &&& other != hash ==> (final(cache).inner.pending@.contains_key(other) <==> old(cache).inner.pending@.contains_key(other))
            &&& other != hash && old(cache).inner.pending@.contains_key(other) ==> final(cache).inner.pending@[other] == old(cache).inner.pending@[other]
            &&& listed_behind(*old(cache), *final(cache), number, hash)
        },
{
    if computed is Ok {
        lemma_listed_behind(*old(cache), *final(cache), number, hash);
    }
}

/// What is cached is given from the cache, and nobody is asked: neither `wait` nor `compute` need be
/// callable. What is pending and resolved is given from there, and `compute` need not be callable.
/// Otherwise it is computed, and a success is cached under the hash and the number.
pub proof fn lemma_cache_then_pending_then_computation<P, E, W, C>(
    cache: &mut ChangesetCache<P>,
    hash: B256,
    number: u64,
    wait: W,
    compute: C,
    result: Result<Served<P>, E>,
    changesets: Arc<TrieUpdatesSorted>,
    other: B256,
) where
    W: FnOnce(&P) -> Option<Arc<TrieUpdatesSorted>>,
    C: FnOnce() -> Result<TrieUpdatesSorted, E>,

    requires
        old(cache).wf(),
        forall|updates: TrieUpdatesSorted|
            compute.ensures((), Ok::<TrieUpdatesSorted, E>(updates)) ==> updates.wf(),
        call_ensures(
            ChangesetCache::<P>::get_or_compute_with::<E, W, C>,
            (cache, hash, number, wait, compute),
            result,
        ),
    ensures
        old(cache).inner.entries@.contains_key(hash) ==> {
            &&& call_requires(
                ChangesetCache::<P>::get_or_compute_with::<E, W, C>,
                (cache, hash, number, wait, compute),
            )
            &&& result is Ok
            &&& result->Ok_0.changesets == old(cache).inner.entries@[hash].1
            &&& result->Ok_0.woken is None
            &&& *final(cache) == *old(cache)
        },
        !old(cache).inner.entries@.contains_key(hash) && old(cache).inner.pending@.contains_key(hash)
            && wait.requires((&old(cache).inner.pending@[hash],)) && (forall|
            outcome: Option<Arc<TrieUpdatesSorted>>,
        | #[trigger]
            wait.ensures((&old(cache).inner.pending@[hash],), outcome) ==> outcome == Some(
                changesets,
            )) ==> {
            &&& call_requires(
                ChangesetCache::<P>::get_or_compute_with::<E, W, C>,
                (cache, hash, number, wait, compute),
            )
            &&& result is Ok
            &&& result->Ok_0.changesets == changesets
            &&& result->Ok_0.woken is None
            &&& *final(cache) == *old(cache)
        },
        !old(cache).inner.entries@.contains_key(hash) && (old(cache).inner.pending@.contains_key(
            hash,
        ) ==> forall|outcome: Option<Arc<TrieUpdatesSorted>>| #[trigger]
            wait.ensures((&old(cache).inner.pending@[hash],), outcome) ==> outcome is None) ==> {
            &&& match result {
                Ok(served) => {
                    &&& compute.ensures((), Ok::<TrieUpdatesSorted, E>(*served.changesets))
                    &&& final(cache).inner.entries@.contains_key(hash)
                    &&& final(cache).inner.entries@[hash] == (number, served.changesets)
                    &&& !final(cache).inner.pending@.contains_key(hash)
                    &&& served.woken is Some <==> old(cache).inner.pending@.contains_key(hash)
                    &&& served.woken is Some ==> served.woken->0 == old(cache).inner.pending@[hash]
                    &&& served.source is Computed
                    &&& listed_behind(*old(cache), *final(cache), number, hash)
                },
                Err(error) => {
                    &&& compute.ensures((), Err::<TrieUpdatesSorted, E>(error))
                    &&& *final(cache) == *old(cache)
                },
            }
            &&& other != hash ==> (final(cache).inner.entries@.contains_key(other) <==> old(cache).inner.entries@.contains_key(other))
            &&& other != hash && old(cache).inner.entries@.contains_key(other) ==> final(cache).inner.entries@[other] == old(cache).inner.entries@[other]
        },
        result is Ok ==> (result->Ok_0.source is Cache <==> old(cache).inner.entries@.contains_key(
            hash,
        )),
{
    if result is Ok && result->Ok_0.source is Computed {
        lemma_listed_behind(*old(cache), *final(cache), number, hash);
    }
}

/// A lookup that is counted finds what an uncounted one finds. It makes hits and misses together
/// larger by one: the hits if it found its block, and the misses otherwise.
pub proof fn lemma_lookups_are_counted<P>(
    cache: ChangesetCache<P>,
    hash: B256,
    metrics: &mut ChangesetCacheMetrics,
    found: Option<Arc<TrieUpdatesSorted>>,
)
    requires
        call_ensures(ChangesetCache::<P>::get_recorded, (&cache, &hash, metrics), found),
    ensures
        found is Some <==> cache.inner.entries@.contains_key(hash),
        found is Some ==> found->0 == cache.inner.entries@[hash].1,
        old(metrics).hits < u64::MAX && old(metrics).misses < u64::MAX ==> {
            &&& final(metrics).hits + final(metrics).misses == old(metrics).hits + old(metrics).misses + 1
            &&& final(metrics).hits > old(metrics).hits <==> found is Some
            &&& final(metrics).misses > old(metrics).misses <==> found is None
        },
        old(metrics).hits == u64::MAX && found is Some ==> final(metrics).hits == 0,
        old(metrics).misses == u64::MAX && found is None ==> final(metrics).misses == 0,
        final(metrics).evictions == old(metrics).evictions,
        final(metrics).size == old(metrics).size,
{
}

/// A hit is counted as a hit and a miss as a miss. Insertions and evictions keep the size, and
/// evictions that removed something count what they removed.
pub proof fn lemma_metrics(
    looked_up: &mut ChangesetCacheMetrics,
    hit: bool,
    inserted: &mut ChangesetCacheMetrics,
    evicted: &mut ChangesetCacheMetrics,
    count: usize,
    size: usize,
    fresh: ChangesetCacheMetrics,
)
    requires
        call_ensures(ChangesetCacheMetrics::record_lookup, (looked_up, hit), ()),
        call_ensures(ChangesetCacheMetrics::record_insertion, (inserted, size), ()),
        call_ensures(ChangesetCacheMetrics::record_eviction, (evicted, count, size), ()),
        call_ensures(<ChangesetCacheMetrics as Default>::default, (), fresh),
    ensures
        hit && old(looked_up).hits < u64::MAX ==> final(looked_up).hits == old(looked_up).hits + 1,
        !hit && old(looked_up).misses < u64::MAX ==> final(looked_up).misses == old(looked_up).misses + 1,
        hit ==> final(looked_up).misses == old(looked_up).misses,
        !hit ==> final(looked_up).hits == old(looked_up).hits,
        hit && old(looked_up).hits == u64::MAX ==> final(looked_up).hits == 0,
        !hit && old(looked_up).misses == u64::MAX ==> final(looked_up).misses == 0,
        old(evicted).evictions + count > u64::MAX ==> final(evicted).evictions + u64::MAX + 1 == old(evicted).evictions + count,
        final(looked_up).evictions == old(looked_up).evictions && final(looked_up).size == old(looked_up).size,
        final(inserted).size == size,
        final(inserted).hits == old(inserted).hits && final(inserted).misses == old(inserted).misses
            && final(inserted).evictions == old(inserted).evictions,
        old(evicted).evictions + count <= u64::MAX ==> final(evicted).evictions == old(evicted).evictions + count,
        count > 0 ==> final(evicted).size == size,
        count == 0 ==> *final(evicted) == *old(evicted),
        final(evicted).hits == old(evicted).hits && final(evicted).misses == old(evicted).misses,
        fresh.hits == 0 && fresh.misses == 0 && fresh.evictions == 0 && fresh.size == 0,
{
}

} // verus!
