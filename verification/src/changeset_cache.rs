//! In-memory cache of trie changesets with explicit eviction.

use crate::b256_map::{b256_map_get, b256_map_insert, b256_map_len, b256_map_remove};
use crate::trie_updates::TrieUpdatesSorted;
use alloy_primitives::map::B256Map;
use alloy_primitives::B256;
use std::collections::BTreeMap;
use std::sync::Arc;
use vstd::prelude::*;

verus! {

/// A cached changeset: the number of its block, and the trie changes.
pub type CacheEntry = (u64, Arc<TrieUpdatesSorted>);

/// The contents of the cache.
#[verifier::reject_recursive_types(P)]
#[derive(Debug)]
pub struct ChangesetCacheInner<P> {
    /// Cache entries: block hash -> (block number, changesets)
    pub entries: B256Map<CacheEntry>,
    /// Block number to hashes mapping for eviction
    pub block_numbers: BTreeMap<u64, Vec<B256>>,
    /// Pending changeset computations: block hash -> pending entry
    pub pending: B256Map<P>,
}

impl<P> Default for ChangesetCacheInner<P> {
    fn default() -> (cache: Self)
        ensures
            cache.wf(),
            cache.entries@ == Map::<B256, CacheEntry>::empty(),
            cache.block_numbers@ == Map::<u64, Vec<B256>>::empty(),
            cache.pending@ == Map::<B256, P>::empty(),
    {
        ChangesetCacheInner::new()
    }
}

/// The entries of blocks whose number is not below `up_to_block`.
pub open spec fn retained_entries(
    entries: Map<B256, CacheEntry>,
    up_to_block: u64,
) -> Map<B256, CacheEntry> {
    Map::new(
        |hash: B256| entries.contains_key(hash) && entries[hash].0 >= up_to_block,
        |hash: B256| entries[hash],
    )
}

/// The hashes of blocks whose number is below `up_to_block`.
pub open spec fn evicted_hashes(entries: Map<B256, CacheEntry>, up_to_block: u64) -> Set<B256> {
    Set::new(|hash: B256| entries.contains_key(hash) && entries[hash].0 < up_to_block)
}

/// An eviction parts the entries in those that are retained and those that are evicted.
pub(crate) proof fn lemma_evicted_count(entries: Map<B256, CacheEntry>, up_to_block: u64)
    requires
        entries.dom().finite(),
    ensures
        retained_entries(entries, up_to_block).dom().finite(),
        evicted_hashes(entries, up_to_block).len() + retained_entries(
            entries,
            up_to_block,
        ).dom().len() == entries.dom().len(),
{
    let retained = retained_entries(entries, up_to_block).dom();
    let evicted = evicted_hashes(entries, up_to_block);
    assert(retained.subset_of(entries.dom()) && evicted.subset_of(entries.dom()));
    vstd::set_lib::lemma_len_subset(retained, entries.dom());
    vstd::set_lib::lemma_len_subset(evicted, entries.dom());
    assert(evicted + retained =~= entries.dom());
    vstd::set_lib::lemma_set_disjoint_lens(evicted, retained);
}

/// The hashes that are listed under each number.
pub open spec fn hash_lists(block_numbers: Map<u64, Vec<B256>>) -> Map<u64, Seq<B256>> {
    Map::new(
        |number: u64| block_numbers.contains_key(number),
        |number: u64| block_numbers[number]@,
    )
}

/// `lists` with `hash` listed once more under `number`, behind the hashes that are listed there.
pub open spec fn with_hash(
    lists: Map<u64, Seq<B256>>,
    number: u64,
    hash: B256,
) -> Map<u64, Seq<B256>> {
    lists.insert(
        number,
        if lists.contains_key(number) {
            lists[number].push(hash)
        } else {
            seq![hash]
        },
    )
}

/// `lists` without the numbers below `up_to_block`.
pub open spec fn retained_lists(
    lists: Map<u64, Seq<B256>>,
    up_to_block: u64,
) -> Map<u64, Seq<B256>> {
    lists.restrict(Set::new(|number: u64| number >= up_to_block))
}

impl<P> ChangesetCacheInner<P> {
    /// The entries are finitely many, and every entry can be found again by its block number and
    /// has its nodes sorted.
    pub open spec fn wf(self) -> bool {
        &&& self.entries@.dom().finite()
        &&& forall|hash: B256| #[trigger]
            self.entries@.contains_key(hash) ==> {
                let number = self.entries@[hash].0;
                &&& self.block_numbers@.contains_key(number)
                &&& self.block_numbers@[number]@.contains(hash)
                &&& self.entries@[hash].1.wf()
            }
    }

    /// Creates a new empty cache.
    pub fn new() -> (cache: Self)
        ensures
            cache.wf(),
            cache.entries@ == Map::<B256, CacheEntry>::empty(),
            cache.block_numbers@ == Map::<u64, Vec<B256>>::empty(),
            cache.pending@ == Map::<B256, P>::empty(),
    {
        ChangesetCacheInner {
            entries: B256Map::default(),
            block_numbers: BTreeMap::new(),
            pending: B256Map::default(),
        }
    }

    /// The changesets of a block, if they are cached.
    pub fn get(&self, block_hash: &B256) -> (changesets: Option<Arc<TrieUpdatesSorted>>)
        ensures
            changesets is Some <==> self.entries@.contains_key(*block_hash),
            changesets matches Some(found) ==> found == self.entries@[*block_hash].1,
    {
        match b256_map_get(&self.entries, block_hash) {
            Some(entry) => Some(Arc::clone(&entry.1)),
            None => None,
        }
    }

    /// Puts the changesets of a block into the cache. Nothing is evicted.
    pub fn insert(&mut self, block_hash: B256, block_number: u64, changesets: Arc<TrieUpdatesSorted>)
        requires
            old(self).wf(),
            changesets.wf(),
        ensures
            final(self).wf(),
            final(self).entries@ == old(self).entries@.insert(
                block_hash,
                (block_number, changesets),
            ),
            hash_lists(final(self).block_numbers@) == with_hash(
                hash_lists(old(self).block_numbers@),
                block_number,
                block_hash,
            ),
            final(self).pending@ == old(self).pending@,
    {
        b256_map_insert(&mut self.entries, block_hash, (block_number, changesets));
        let mut hashes: Vec<B256> = match self.block_numbers.remove(&block_number) {
            Some(hashes) => hashes,
            None => Vec::new(),
        };
        let ghost known = hashes@;
        hashes.push(block_hash);
        self.block_numbers.insert(block_number, hashes);
        proof {
            assert(hashes@ =~= known.push(block_hash));
            assert(hash_lists(self.block_numbers@) =~= with_hash(
                hash_lists(old(self).block_numbers@),
                block_number,
                block_hash,
            ));
            assert(hashes@[known.len() as int] == block_hash);
            assert forall|hash: B256| #[trigger] self.entries@.contains_key(hash) implies {
                let number = self.entries@[hash].0;
                &&& self.block_numbers@.contains_key(number)
                &&& self.block_numbers@[number]@.contains(hash)
                &&& self.entries@[hash].1.wf()
            } by {
                if hash != block_hash {
                    assert(old(self).entries@.contains_key(hash));
                    if self.entries@[hash].0 == block_number {
                        let m = choose|m: int| 0 <= m < known.len() && known[m] == hash;
                        assert(hashes@[m] == hash);
                    }
                }
            }
        }
    }

    /// The block numbers below `up_to_block` under which hashes are listed.
    fn numbers_below(&self, up_to_block: u64) -> (numbers: Vec<u64>)
        ensures
            forall|number: u64| #[trigger]
                numbers@.contains(number) <==> self.block_numbers@.contains_key(number) && number
                    < up_to_block,
    {
        let mut numbers: Vec<u64> = Vec::new();
        let ghost all = vstd::std_specs::iter::IteratorSpec::remaining(
            &vstd::std_specs::btree::spec_keys_iter(&self.block_numbers),
        );
        for number in keys: self.block_numbers.keys()
            invariant
                keys.seq() == all,
                forall|n: u64| #[trigger]
                    numbers@.contains(n) <==> n < up_to_block && all.unref().take(
                        keys.index(),
                    ).contains(n),
        {
            let ghost before = numbers@;
            let ghost seen = all.unref().take(keys.index());
            if *number < up_to_block {
                numbers.push(*number);
            }
            proof {
                let after = all.unref().take(keys.index() + 1);
                assert(after =~= seen.push(*number));
                broadcast use vstd::seq_lib::group_seq_properties;
                assert forall|n: u64| #[trigger]
                    numbers@.contains(n) <==> n < up_to_block && after.contains(n) by {
                    assert(before.contains(n) <==> n < up_to_block && seen.contains(n));
                }
            }
        }
        proof {
            assert(all.unref().take(all.len() as int) =~= all.unref());
            assert forall|number: u64| #[trigger]
                numbers@.contains(number) <==> self.block_numbers@.contains_key(number) && number
                    < up_to_block by {
                assert(all.unref().contains(number) <==> all.unref().to_set().contains(number));
            }
        }
        numbers
    }

    /// Evicts the changesets of blocks below `up_to_block`. Those of other blocks are retained, and
    /// so are pending computations. Returns how many blocks were evicted.
    pub fn evict(&mut self, up_to_block: u64) -> (evicted: usize)
        requires
            old(self).wf(),
        ensures
            final(self).wf(),
            final(self).entries@ == retained_entries(old(self).entries@, up_to_block),
            hash_lists(final(self).block_numbers@) == retained_lists(
                hash_lists(old(self).block_numbers@),
                up_to_block,
            ),
            final(self).pending@ == old(self).pending@,
            evicted == old(self).entries@.dom().len() - final(self).entries@.dom().len(),
            evicted == evicted_hashes(old(self).entries@, up_to_block).len(),
    {
        let size: usize = b256_map_len(&self.entries);
        let numbers = self.numbers_below(up_to_block);
        let ghost start = *self;
        for i in 0..numbers.len()
            invariant
                start.wf(),
                forall|number: u64| #[trigger]
                    numbers@.contains(number) <==> start.block_numbers@.contains_key(number)
                        && number < up_to_block,
                self.pending@ == start.pending@,
                partly_evicted(start.entries@, self.entries@, up_to_block),
                self.block_numbers@ == start.block_numbers@.remove_keys(
                    numbers@.take(i as int).to_set(),
                ),
                forall|hash: B256|
                    start.entries@.contains_key(hash) && numbers@.take(i as int).contains(
                        start.entries@[hash].0,
                    ) ==> !(#[trigger] self.entries@.contains_key(hash)),
        {
            let number = numbers[i];
            let ghost done = numbers@.take(i as int);
            let ghost entries = self.entries@;
            proof {
                assert(numbers@.contains(number));
                broadcast use vstd::seq_lib::group_seq_properties;
                assert(numbers@.take(i + 1) =~= done.push(number));
            }
            match self.block_numbers.remove(&number) {
                Some(hashes) => {
                    self.evict_hashes(&hashes, up_to_block);
                    proof {
                        assert forall|hash: B256|
                            start.entries@.contains_key(hash) && numbers@.take(i + 1).contains(
                                start.entries@[hash].0,
                            ) implies !(#[trigger] self.entries@.contains_key(hash)) by {
                            if entries.contains_key(hash) && start.entries@[hash].0 == number {
                                assert(hashes@.contains(hash));
                            }
                        }
                    }
                },
                None => {},
            }
        }
        proof {
            assert(numbers@.take(numbers@.len() as int) =~= numbers@);
            assert(self.entries@ =~= retained_entries(start.entries@, up_to_block));
            assert(self.entries@.dom().subset_of(start.entries@.dom()));
            lemma_evicted_count(start.entries@, up_to_block);
            assert(self.block_numbers@ =~= start.block_numbers@.restrict(
                Set::new(|number: u64| number >= up_to_block),
            ));
            assert(hash_lists(self.block_numbers@) =~= retained_lists(
                hash_lists(start.block_numbers@),
                up_to_block,
            ));
        }
        size - b256_map_len(&self.entries)
    }

    /// Removes the entries of `hashes` whose block is below `up_to_block`.
    fn evict_hashes(&mut self, hashes: &Vec<B256>, up_to_block: u64)
        ensures
            final(self).block_numbers@ == old(self).block_numbers@,
            final(self).pending@ == old(self).pending@,
            partly_evicted(old(self).entries@, final(self).entries@, up_to_block),
            forall|hash: B256|
                hashes@.contains(hash) && old(self).entries@.contains_key(hash)
                    && old(self).entries@[hash].0 < up_to_block ==> !(
                #[trigger] final(self).entries@.contains_key(hash)),
    {
        let ghost start = *self;
        for i in 0..hashes.len()
            invariant
                self.block_numbers@ == start.block_numbers@,
                self.pending@ == start.pending@,
                partly_evicted(start.entries@, self.entries@, up_to_block),
                forall|m: int|
                    0 <= m < i && start.entries@.contains_key(#[trigger] hashes@[m])
                        && start.entries@[hashes@[m]].0 < up_to_block
                        ==> !self.entries@.contains_key(hashes@[m]),
        {
            let evict = match b256_map_get(&self.entries, &hashes[i]) {
                Some(entry) => entry.0 < up_to_block,
                None => false,
            };
            if evict {
                b256_map_remove(&mut self.entries, &hashes[i]);
            }
        }
    }
}

/// Whether `left` is what `entries` leaves after some entries of blocks below `up_to_block` are
/// removed, and no others.
spec fn partly_evicted(
    entries: Map<B256, CacheEntry>,
    left: Map<B256, CacheEntry>,
    up_to_block: u64,
) -> bool {
    &&& forall|hash: B256| #[trigger]
        left.contains_key(hash) ==> entries.contains_key(hash) && left[hash] == entries[hash]
    &&& forall|hash: B256| #[trigger]
        entries.contains_key(hash) ==> (entries[hash].0 >= up_to_block ==> left.contains_key(hash))
}

/// What the cache knows of a block.
#[derive(Debug)]
pub enum CacheLookup<'a, P> {
    /// The changesets are cached.
    Hit(Arc<TrieUpdatesSorted>),
    /// They are not cached, and somebody is computing them.
    Pending(&'a P),
    /// They have to be computed.
    Miss,
}

/// Where changesets came from.
#[derive(Clone, Copy, Debug, PartialEq, Eq)]
pub enum Source {
    /// The cache had them.
    Cache,
    /// A pending computation gave them.
    Pending,
    /// They were computed and put into the cache.
    Computed,
}

/// Changesets, and the pending computation that they settle, if there is one.
#[derive(Debug)]
pub struct Served<P> {
    /// The changesets.
    pub changesets: Arc<TrieUpdatesSorted>,
    /// Where they came from.
    pub source: Source,
    /// The handle whose waiters are to be woken with the changesets.
    pub woken: Option<P>,
}

/// Metrics of a changeset cache. The counters start again at zero when they overflow.
#[derive(Clone, Copy, Debug, PartialEq, Eq)]
pub struct ChangesetCacheMetrics {
    /// Number of lookups that found their block.
    pub hits: u64,
    /// Number of lookups that did not find their block.
    pub misses: u64,
    /// Number of blocks evicted.
    pub evictions: u64,
    /// Number of cached blocks.
    pub size: usize,
}

/// A counter that holds `count` after `more` were counted.
pub open spec fn counted(count: u64, more: int) -> int {
    (count + more) % 0x1_0000_0000_0000_0000
}

/// Whether `after` is what the metrics become by a lookup: a hit counts one hit, and a miss one
/// miss.
pub open spec fn metrics_after_lookup(
    before: ChangesetCacheMetrics,
    hit: bool,
    after: ChangesetCacheMetrics,
) -> bool {
    &&& after.hits == if hit {
        counted(before.hits, 1)
    } else {
        before.hits as int
    }
    &&& after.misses == if hit {
        before.misses as int
    } else {
        counted(before.misses, 1)
    }
    &&& after.evictions == before.evictions
    &&& after.size == before.size
}

impl Default for ChangesetCacheMetrics {
    fn default() -> (metrics: Self)
        ensures
            metrics == (ChangesetCacheMetrics { hits: 0, misses: 0, evictions: 0, size: 0 }),
    {
        ChangesetCacheMetrics { hits: 0, misses: 0, evictions: 0, size: 0 }
    }
}

impl ChangesetCacheMetrics {
    /// Counts a lookup.
    pub fn record_lookup(&mut self, hit: bool)
        ensures
            metrics_after_lookup(*old(self), hit, *final(self)),
    {
        if hit {
            self.hits = self.hits.wrapping_add(1);
        } else {
            self.misses = self.misses.wrapping_add(1);
        }
    }

    /// Notes the size of the cache after an insertion.
    pub fn record_insertion(&mut self, size: usize)
        ensures
            *final(self) == (ChangesetCacheMetrics { size, ..*old(self) }),
    {
        self.size = size;
    }

    /// Counts the blocks that an eviction removed and notes the size of the cache after it. An
    /// eviction that removed nothing leaves the metrics as they are.
    pub fn record_eviction(&mut self, evicted: usize, size: usize)
        ensures
            final(self).hits == old(self).hits,
            final(self).misses == old(self).misses,
            final(self).evictions == counted(old(self).evictions, evicted as int),
            final(self).size == if evicted > 0 {
                size
            } else {
                old(self).size
            },
    {
        if evicted > 0 {
            self.evictions = self.evictions.wrapping_add(evicted as u64);
            self.size = size;
        }
    }
}

/// Changeset cache together with the computations that are under way.
///
/// `P` is the handle of a pending computation, on which others can wait.
#[verifier::reject_recursive_types(P)]
#[derive(Debug)]
pub struct ChangesetCache<P> {
    /// The contents.
    pub inner: ChangesetCacheInner<P>,
}

impl<P> Default for ChangesetCache<P> {
    fn default() -> (cache: Self)
        ensures
            cache.wf(),
            cache.entries() == Map::<B256, CacheEntry>::empty(),
            cache.lists() == Map::<u64, Seq<B256>>::empty(),
            cache.pending() == Map::<B256, P>::empty(),
    {
        ChangesetCache::new()
    }
}

impl<P> ChangesetCache<P> {
    /// Whether the contents are in order.
    pub open spec fn wf(self) -> bool {
        self.inner.wf()
    }

    /// The cached entries.
    pub open spec fn entries(self) -> Map<B256, CacheEntry> {
        self.inner.entries@
    }

    /// The hashes that are listed under each block number.
    pub open spec fn lists(self) -> Map<u64, Seq<B256>> {
        hash_lists(self.inner.block_numbers@)
    }

    /// The computations that are under way.
    pub open spec fn pending(self) -> Map<B256, P> {
        self.inner.pending@
    }

    /// Creates a new cache.
    ///
    /// The cache has no capacity limit. [`Self::evict`] is what bounds it.
    pub fn new() -> (cache: Self)
        ensures
            cache.wf(),
            cache.entries() == Map::<B256, CacheEntry>::empty(),
            cache.lists() == Map::<u64, Seq<B256>>::empty(),
            cache.pending() == Map::<B256, P>::empty(),
    {
        let cache = ChangesetCache { inner: ChangesetCacheInner::new() };
        assert(cache.lists() =~= Map::empty());
        cache
    }

    /// The number of cached blocks.
    pub fn len(&self) -> (len: usize)
        requires
            self.wf(),
        ensures
            self.entries().dom().finite(),
            len == self.entries().dom().len(),
    {
        b256_map_len(&self.inner.entries)
    }

    /// Retrieves the changesets of a block by its hash, or `None` if they are not cached.
    pub fn get(&self, block_hash: &B256) -> (changesets: Option<Arc<TrieUpdatesSorted>>)
        ensures
            changesets is Some <==> self.entries().contains_key(*block_hash),
            changesets matches Some(found) ==> found == self.entries()[*block_hash].1,
    {
        self.inner.get(block_hash)
    }

    /// Retrieves the changesets of a block by its hash, and counts the lookup.
    pub fn get_recorded(
        &self,
        block_hash: &B256,
        metrics: &mut ChangesetCacheMetrics,
    ) -> (changesets: Option<Arc<TrieUpdatesSorted>>)
        ensures
            changesets is Some <==> self.entries().contains_key(*block_hash),
            changesets matches Some(found) ==> found == self.entries()[*block_hash].1,
            metrics_after_lookup(*old(metrics), changesets is Some, *final(metrics)),
    {
        let changesets = self.inner.get(block_hash);
        metrics.record_lookup(changesets.is_some());
        changesets
    }

    /// Inserts the changesets of a block. Nothing is evicted.
    ///
    /// A pending computation for the block is over with this. Its handle is returned, and its
    /// waiters are to be woken with the changesets.
    pub fn insert(
        &mut self,
        block_hash: B256,
        block_number: u64,
        changesets: Arc<TrieUpdatesSorted>,
    ) -> (woken: Option<P>)
        requires
            old(self).wf(),
            changesets.wf(),
        ensures
            final(self).wf(),
            final(self).entries() == old(self).entries().insert(
                block_hash,
                (block_number, changesets),
            ),
            final(self).lists() == with_hash(old(self).lists(), block_number, block_hash),
            final(self).pending() == old(self).pending().remove(block_hash),
            woken == old(self).pending().get(block_hash),
    {
        self.inner.insert(block_hash, block_number, changesets);
        b256_map_remove(&mut self.inner.pending, &block_hash)
    }

    /// Registers that the changesets of a block are being computed, so that readers can wait for
    /// them.
    ///
    /// `pending` and `own` are two handles of one computation: the first is for the readers, the
    /// second for the guard, which ends the registration. A computation that was registered before
    /// for the same block is replaced and returned.
    pub fn register_pending(
        &mut self,
        block_hash: B256,
        pending: P,
        own: P,
    ) -> (registered: (PendingChangesetGuard<P>, Option<P>))
        requires
            old(self).wf(),
        ensures
            final(self).wf(),
            final(self).entries() == old(self).entries(),
            final(self).lists() == old(self).lists(),
            final(self).pending() == old(self).pending().insert(block_hash, pending),
            registered.0 == (PendingChangesetGuard { block_hash, pending: Some(own) }),
            registered.1 == old(self).pending().get(block_hash),
    {
        let replaced = b256_map_insert(&mut self.inner.pending, block_hash, pending);
        (PendingChangesetGuard { block_hash, pending: Some(own) }, replaced)
    }

    /// Evicts the changesets of blocks whose number is below `up_to_block`. Those of blocks whose
    /// number is at least `up_to_block` are retained. Returns how many blocks were evicted.
    pub fn evict(&mut self, up_to_block: u64) -> (evicted: usize)
        requires
            old(self).wf(),
        ensures
            final(self).wf(),
            final(self).entries() == retained_entries(old(self).entries(), up_to_block),
            final(self).lists() == retained_lists(old(self).lists(), up_to_block),
            final(self).pending() == old(self).pending(),
            evicted == evicted_hashes(old(self).entries(), up_to_block).len(),
    {
        self.inner.evict(up_to_block)
    }

    /// The first step of getting changesets: a cached entry comes first, then a pending
    /// computation.
    pub fn lookup(&self, block_hash: &B256) -> (found: CacheLookup<'_, P>)
        ensures
            match found {
                CacheLookup::Hit(changesets) => {
                    &&& self.entries().contains_key(*block_hash)
                    &&& changesets == self.entries()[*block_hash].1
                },
                CacheLookup::Pending(pending) => {
                    &&& !self.entries().contains_key(*block_hash)
                    &&& self.pending().contains_key(*block_hash)
                    &&& *pending == self.pending()[*block_hash]
                },
                CacheLookup::Miss => {
                    &&& !self.entries().contains_key(*block_hash)
                    &&& !self.pending().contains_key(*block_hash)
                },
            },
    {
        match self.inner.get(block_hash) {
            Some(changesets) => CacheLookup::Hit(changesets),
            None => match b256_map_get(&self.inner.pending, block_hash) {
                Some(pending) => CacheLookup::Pending(pending),
                None => CacheLookup::Miss,
            },
        }
    }

    /// Whether `self` and `result` are what comes out when the changesets of a block had to be
    /// computed: a failure leaves the cache alone, and success is stored in it.
    pub open spec fn computed<E>(
        self,
        before: Self,
        block_hash: B256,
        block_number: u64,
        computed: Result<TrieUpdatesSorted, E>,
        result: Result<Served<P>, E>,
    ) -> bool {
        match computed {
            Err(error) => self == before && result == Err::<Served<P>, E>(error),
            Ok(updates) => {
                &&& result matches Ok(served)
                &&& *served.changesets == updates
                &&& served.source is Computed
                &&& served.woken == before.pending().get(block_hash)
                &&& self.entries() == before.entries().insert(
                    block_hash,
                    (block_number, served.changesets),
                )
                &&& self.lists() == with_hash(before.lists(), block_number, block_hash)
                &&& self.pending() == before.pending().remove(block_hash)
            },
        }
    }

    /// The last step of getting changesets that had to be computed.
    pub fn store_computed<E>(
        &mut self,
        block_hash: B256,
        block_number: u64,
        computed: Result<TrieUpdatesSorted, E>,
    ) -> (result: Result<Served<P>, E>)
        requires
            old(self).wf(),
            computed matches Ok(updates) ==> updates.wf(),
        ensures
            final(self).wf(),
            final(self).computed(*old(self), block_hash, block_number, computed, result),
    {
        match computed {
            Err(error) => Err(error),
            Ok(updates) => {
                let changesets = Arc::new(updates);
                let woken = self.insert(block_hash, block_number, Arc::clone(&changesets));
                Ok(Served { changesets, source: Source::Computed, woken })
            },
        }
    }

    /// Whether the changesets of a block are not cached, and no pending computation gives them:
    /// there is none, or it was cancelled.
    pub open spec fn nobody_has<W: FnOnce(&P) -> Option<Arc<TrieUpdatesSorted>>>(
        self,
        block_hash: B256,
        wait: W,
    ) -> bool {
        &&& !self.entries().contains_key(block_hash)
        &&& self.pending().contains_key(block_hash) ==> wait.ensures(
            (&self.pending()[block_hash],),
            None::<Arc<TrieUpdatesSorted>>,
        )
    }

    /// Gets changesets from the cache, else from a pending computation, else by computing them.
    ///
    /// `wait` waits for a pending computation and gives `None` if it was cancelled. `compute` runs
    /// only if neither the cache nor a pending computation has the changesets, and what it gives
    /// is cached.
    pub fn get_or_compute_with<E, W, C>(
        &mut self,
        block_hash: B256,
        block_number: u64,
        wait: W,
        compute: C,
    ) -> (result: Result<Served<P>, E>) where
        W: FnOnce(&P) -> Option<Arc<TrieUpdatesSorted>>,
        C: FnOnce() -> Result<TrieUpdatesSorted, E>,

        requires
            old(self).wf(),
            !old(self).entries().contains_key(block_hash) && old(self).pending().contains_key(
                block_hash,
            ) ==> wait.requires((&old(self).pending()[block_hash],)),
            old(self).nobody_has::<W>(block_hash, wait) ==> compute.requires(()),
            forall|updates: TrieUpdatesSorted|
                compute.ensures((), Ok::<TrieUpdatesSorted, E>(updates)) ==> updates.wf(),
        ensures
            final(self).wf(),
            match result {
                Ok(served) => match served.source {
                    Source::Cache => {
                        &&& *final(self) == *old(self)
                        &&& old(self).entries().contains_key(block_hash)
                        &&& served.changesets == old(self).entries()[block_hash].1
                        &&& served.woken is None
                    },
                    Source::Pending => {
                        &&& *final(self) == *old(self)
                        &&& !old(self).entries().contains_key(block_hash)
                        &&& old(self).pending().contains_key(block_hash)
                        &&& wait.ensures(
                            (&old(self).pending()[block_hash],),
                            Some(served.changesets),
                        )
                        &&& served.woken is None
                    },
                    Source::Computed => {
                        &&& old(self).nobody_has::<W>(block_hash, wait)
                        &&& compute.ensures((), Ok::<TrieUpdatesSorted, E>(*served.changesets))
                        &&& final(self).entries() == old(self).entries().insert(
                            block_hash,
                            (block_number, served.changesets),
                        )
                        &&& final(self).lists() == with_hash(
                            old(self).lists(),
                            block_number,
                            block_hash,
                        )
                        &&& final(self).pending() == old(self).pending().remove(block_hash)
                        &&& served.woken == old(self).pending().get(block_hash)
                    },
                },
                Err(error) => {
                    &&& *final(self) == *old(self)
                    &&& old(self).nobody_has::<W>(block_hash, wait)
                    &&& compute.ensures((), Err::<TrieUpdatesSorted, E>(error))
                },
            },
    {
        match self.lookup(&block_hash) {
            CacheLookup::Hit(changesets) => {
                return Ok(Served { changesets, source: Source::Cache, woken: None });
            },
            CacheLookup::Pending(pending) => {
                if let Some(changesets) = wait(pending) {
                    return Ok(Served { changesets, source: Source::Pending, woken: None });
                }
            },
            CacheLookup::Miss => {},
        }
        let computed = compute();
        self.store_computed(block_hash, block_number, computed)
    }
}

/// Guard for a pending changeset computation.
///
/// [`Self::resolve`] puts the computed changesets into the cache. A guard that is given up without
/// that is to be [released](Self::release), so that waiters compute the changesets themselves.
#[must_use]
#[derive(Debug)]
pub struct PendingChangesetGuard<P> {
    /// The block whose changesets are being computed.
    pub block_hash: B256,
    /// The computation, or `None` once it is resolved.
    pub pending: Option<P>,
}

impl<P> PendingChangesetGuard<P> {
    /// Resolves the pending computation: the changesets are put into the cache, and the handle
    /// whose waiters are to be woken with them is returned. Releasing the guard after that does
    /// nothing.
    pub fn resolve(
        &mut self,
        cache: &mut ChangesetCache<P>,
        block_number: u64,
        changesets: Arc<TrieUpdatesSorted>,
    ) -> (woken: Option<P>)
        requires
            old(cache).wf(),
            changesets.wf(),
        ensures
            final(cache).wf(),
            final(cache).entries() == old(cache).entries().insert(
                old(self).block_hash,
                (block_number, changesets),
            ),
            final(cache).lists() == with_hash(
                old(cache).lists(),
                block_number,
                old(self).block_hash,
            ),
            final(cache).pending() == old(cache).pending().remove(old(self).block_hash),
            woken == old(cache).pending().get(old(self).block_hash),
            *final(self) == (PendingChangesetGuard {
                block_hash: old(self).block_hash,
                pending: None::<P>,
            }),
    {
        let woken = cache.insert(self.block_hash, block_number, changesets);
        self.pending = None;
        woken
    }

    /// Gives the guard up. If the computation was not resolved and is still the registered one, as
    /// `same` tells, its registration ends, and it is returned to be cancelled. A registration
    /// that belongs to another guard stays.
    pub fn release<F: Fn(&P, &P) -> bool>(
        &mut self,
        cache: &mut ChangesetCache<P>,
        same: F,
    ) -> (cancelled: Option<P>)
        requires
            old(cache).wf(),
            old(self).pending is Some && old(cache).pending().contains_key(old(self).block_hash)
                ==> same.requires(
                (&old(cache).pending()[old(self).block_hash], &old(self).pending->0),
            ),
        ensures
            final(cache).wf(),
            final(cache).entries() == old(cache).entries(),
            final(cache).lists() == old(cache).lists(),
            *final(self) == (PendingChangesetGuard {
                block_hash: old(self).block_hash,
                pending: None::<P>,
            }),
            match old(self).pending {
                Some(own) if old(cache).pending().contains_key(old(self).block_hash) => {
                    let registered = old(cache).pending()[old(self).block_hash];
                    ||| {
                        &&& same.ensures((&registered, &own), true)
                        &&& cancelled == Some(registered)
                        &&& final(cache).pending() == old(cache).pending().remove(
                            old(self).block_hash,
                        )
                    }
                    ||| {
                        &&& same.ensures((&registered, &own), false)
                        &&& cancelled is None
                        &&& final(cache).pending() == old(cache).pending()
                    }
                },
                _ => cancelled is None && final(cache).pending() == old(cache).pending(),
            },
    {
        let own = match self.pending.take() {
            Some(own) => own,
            None => return None,
        };
        match b256_map_remove(&mut cache.inner.pending, &self.block_hash) {
            Some(registered) => {
                if same(&registered, &own) {
                    Some(registered)
                } else {
                    b256_map_insert(&mut cache.inner.pending, self.block_hash, registered);
                    assert(cache.pending() =~= old(cache).pending());
                    None
                }
            },
            None => {
                assert(cache.pending() =~= old(cache).pending());
                None
            },
        }
    }
}

/// What is left of `entries` after evictions up to each of `watermarks`.
pub open spec fn evicted_entries(
    entries: Map<B256, CacheEntry>,
    watermarks: Seq<u64>,
) -> Map<B256, CacheEntry>
    decreases watermarks.len(),
{
    if watermarks.len() == 0 {
        entries
    } else {
        retained_entries(
            evicted_entries(entries, watermarks.drop_last()),
            watermarks.last(),
        )
    }
}

/// An entry stays in the cache, unchanged, exactly until an eviction goes beyond the number of its
/// block.
pub proof fn lemma_entries_stay_until_evicted(
    entries: Map<B256, CacheEntry>,
    watermarks: Seq<u64>,
    hash: B256,
)
    ensures
        evicted_entries(entries, watermarks).contains_key(hash) <==> entries.contains_key(hash) && (
        forall|i: int| 0 <= i < watermarks.len() ==> #[trigger] watermarks[i] <= entries[hash].0),
        evicted_entries(entries, watermarks).contains_key(hash) ==> evicted_entries(
            entries,
            watermarks,
        )[hash] == entries[hash],
    decreases watermarks.len(),
{
    if watermarks.len() > 0 {
        let earlier = watermarks.drop_last();
        lemma_entries_stay_until_evicted(entries, earlier, hash);
        assert(watermarks[watermarks.len() - 1] == watermarks.last());
        assert forall|i: int| 0 <= i < earlier.len() implies earlier[i] == watermarks[i] by {}
        if entries.contains_key(hash) && watermarks.last() <= entries[hash].0 && (forall|i: int|
            0 <= i < earlier.len() ==> #[trigger] earlier[i] <= entries[hash].0) {
            assert forall|i: int| 0 <= i < watermarks.len() implies #[trigger] watermarks[i]
                <= entries[hash].0 by {
                if i < earlier.len() {
                    assert(earlier[i] <= entries[hash].0);
                }
            }
        }
    }
}

/// Changesets that were inserted are found under their hash, whatever was there before, and the
/// changesets of other blocks stay as they were, those of the same number included.
pub proof fn lemma_inserted_changesets_are_found(
    entries: Map<B256, CacheEntry>,
    hash: B256,
    entry: CacheEntry,
    other: B256,
)
    ensures
        entries.insert(hash, entry).contains_key(hash),
        entries.insert(hash, entry)[hash] == entry,
        other != hash ==> (entries.insert(hash, entry).contains_key(other) <==> entries.contains_key(
            other,
        )),
        other != hash && entries.contains_key(other) ==> entries.insert(hash, entry)[other]
            == entries[other],
{
}

/// Inserting a block that is not cached makes the cache larger by one, and inserting one that is
/// cached leaves its size. An eviction does not make it larger.
pub proof fn lemma_cache_size<P>(
    cache: ChangesetCache<P>,
    hash: B256,
    entry: CacheEntry,
    up_to_block: u64,
)
    requires
        cache.wf(),
    ensures
        cache.entries().insert(hash, entry).dom().len() == cache.entries().dom().len()
            + if cache.entries().contains_key(hash) {
            0int
        } else {
            1int
        },
        retained_entries(cache.entries(), up_to_block).dom().len() <= cache.entries().dom().len(),
{
    let entries = cache.entries();
    assert(entries.insert(hash, entry).dom() =~= entries.dom().insert(hash));
    assert(retained_entries(entries, up_to_block).dom().subset_of(entries.dom()));
    vstd::set_lib::lemma_len_subset(retained_entries(entries, up_to_block).dom(), entries.dom());
}

/// Two evictions leave what the further of them leaves.
pub proof fn lemma_evictions_compose(
    entries: Map<B256, CacheEntry>,
    first: u64,
    second: u64,
)
    ensures
        retained_entries(retained_entries(entries, first), second) == retained_entries(
            entries,
            if first <= second {
                second
            } else {
                first
            },
        ),
{
    assert(retained_entries(retained_entries(entries, first), second) =~= retained_entries(
        entries,
        if first <= second {
            second
        } else {
            first
        },
    ));
}

/// It does not matter whether a block is inserted before or after an eviction that retains it, so
/// blocks may be inserted out of order.
pub proof fn lemma_insertion_and_eviction_commute(
    entries: Map<B256, CacheEntry>,
    hash: B256,
    entry: CacheEntry,
    up_to_block: u64,
)
    requires
        entry.0 >= up_to_block,
    ensures
        retained_entries(entries.insert(hash, entry), up_to_block) == retained_entries(
            entries,
            up_to_block,
        ).insert(hash, entry),
{
    assert(retained_entries(entries.insert(hash, entry), up_to_block) =~= retained_entries(
        entries,
        up_to_block,
    ).insert(hash, entry));
}

/// A registration that is given up leaves the pending computations as they were before it, if none
/// was registered for the block.
pub proof fn lemma_released_registrations_leave_nothing<P>(
    pending: Map<B256, P>,
    hash: B256,
    handle: P,
)
    requires
        !pending.contains_key(hash),
    ensures
        pending.insert(hash, handle).remove(hash) == pending,
{
    assert(pending.insert(hash, handle).remove(hash) =~= pending);
}

/// A call that can change which changesets are cached.
pub enum CacheCall {
    /// Changesets of a block are inserted: directly, or because they had to be computed.
    Insert { block_hash: B256, entry: CacheEntry },
    /// The guard of a pending computation is resolved with changesets.
    Resolve { block_hash: B256, entry: CacheEntry },
    /// Blocks below a number are evicted.
    Evict { up_to_block: u64 },
}

impl CacheCall {
    /// Whether the call puts changesets of the block with this hash into the cache.
    pub open spec fn inserts(self, hash: B256) -> bool {
        match self {
            CacheCall::Insert { block_hash, .. } => block_hash == hash,
            CacheCall::Resolve { block_hash, .. } => block_hash == hash,
            CacheCall::Evict { .. } => false,
        }
    }

    /// What the call puts into the cache.
    pub open spec fn inserted(self) -> CacheEntry {
        match self {
            CacheCall::Insert { entry, .. } => entry,
            CacheCall::Resolve { entry, .. } => entry,
            CacheCall::Evict { .. } => arbitrary(),
        }
    }

    /// Whether the call evicts blocks with this number.
    pub open spec fn evicts(self, number: u64) -> bool {
        self matches CacheCall::Evict { up_to_block } && number < up_to_block
    }

    /// The entries after the call.
    pub open spec fn applied(self, entries: Map<B256, CacheEntry>) -> Map<B256, CacheEntry> {
        match self {
            CacheCall::Insert { block_hash, entry } => entries.insert(block_hash, entry),
            CacheCall::Resolve { block_hash, entry } => entries.insert(block_hash, entry),
            CacheCall::Evict { up_to_block } => retained_entries(entries, up_to_block),
        }
    }
}

/// The entries of a new cache after `calls`, the earliest call first.
pub open spec fn entries_after_calls(calls: Seq<CacheCall>) -> Map<B256, CacheEntry>
    decreases calls.len(),
{
    if calls.len() == 0 {
        Map::empty()
    } else {
        calls.last().applied(entries_after_calls(calls.drop_last()))
    }
}

/// Whether call `i` is the last one that inserts the block with this hash.
pub open spec fn is_last_insertion(calls: Seq<CacheCall>, hash: B256, i: int) -> bool {
    &&& 0 <= i < calls.len()
    &&& calls[i].inserts(hash)
    &&& forall|j: int| i < j < calls.len() ==> !(#[trigger] calls[j]).inserts(hash)
}

/// Whether what call `i` inserted was evicted since.
pub open spec fn is_evicted_since(calls: Seq<CacheCall>, i: int) -> bool {
    exists|j: int| i < j < calls.len() && (#[trigger] calls[j]).evicts(calls[i].inserted().0)
}

/// After any history of insertions, resolutions and evictions, the cache has for a block what was
/// last inserted for it, or nothing if nothing was inserted or it was evicted since.
pub proof fn lemma_cache_has_what_was_last_inserted(calls: Seq<CacheCall>, hash: B256)
    ensures
        entries_after_calls(calls).contains_key(hash) <==> exists|i: int| #[trigger]
            is_last_insertion(calls, hash, i) && !is_evicted_since(calls, i),
        forall|i: int| #[trigger]
            is_last_insertion(calls, hash, i) && entries_after_calls(calls).contains_key(hash)
                ==> entries_after_calls(calls)[hash] == calls[i].inserted(),
    decreases calls.len(),
{
    if calls.len() > 0 {
        let earlier = calls.drop_last();
        let last: int = calls.len() - 1;
        lemma_cache_has_what_was_last_inserted(earlier, hash);
        assert forall|i: int| 0 <= i < last implies #[trigger] earlier[i] == calls[i] by {}
        if calls[last].inserts(hash) {
            assert(is_last_insertion(calls, hash, last));
            assert forall|i: int| #[trigger] is_last_insertion(calls, hash, i) implies i == last by {
                assert(i < last ==> !calls[last].inserts(hash));
            }
        } else {
            assert forall|i: int| #[trigger] is_last_insertion(calls, hash, i)
                == is_last_insertion(earlier, hash, i) by {
                if is_last_insertion(earlier, hash, i) {
                    assert forall|j: int| i < j < calls.len() implies !(
                    #[trigger] calls[j]).inserts(hash) by {
                        if j < last {
                            assert(!earlier[j].inserts(hash));
                        }
                    }
                }
                if is_last_insertion(calls, hash, i) {
                    assert(i != last);
                    assert forall|j: int| i < j < earlier.len() implies !(
                    #[trigger] earlier[j]).inserts(hash) by {
                        assert(!calls[j].inserts(hash));
                    }
                }
            }
            assert forall|i: int| #[trigger] is_last_insertion(calls, hash, i) implies (
            is_evicted_since(calls, i) <==> is_evicted_since(earlier, i) || calls[last].evicts(
                calls[i].inserted().0,
            )) by {
                assert(earlier[i] == calls[i]);
                if is_evicted_since(earlier, i) {
                    let j = choose|j: int|
                        i < j < earlier.len() && (#[trigger] earlier[j]).evicts(
                            earlier[i].inserted().0,
                        );
                    assert(calls[j].evicts(calls[i].inserted().0));
                }
                if is_evicted_since(calls, i) && !calls[last].evicts(calls[i].inserted().0) {
                    let j = choose|j: int|
                        i < j < calls.len() && (#[trigger] calls[j]).evicts(
                            calls[i].inserted().0,
                        );
                    assert(earlier[j].evicts(earlier[i].inserted().0));
                }
            }
            if entries_after_calls(calls).contains_key(hash) {
                let i = choose|i: int| #[trigger]
                    is_last_insertion(earlier, hash, i) && !is_evicted_since(earlier, i);
                assert(is_last_insertion(calls, hash, i));
                assert(entries_after_calls(earlier)[hash] == calls[i].inserted());
                assert(!is_evicted_since(calls, i));
            }
            if exists|i: int| #[trigger]
                is_last_insertion(calls, hash, i) && !is_evicted_since(calls, i) {
                let i = choose|i: int| #[trigger]
                    is_last_insertion(calls, hash, i) && !is_evicted_since(calls, i);
                assert(is_last_insertion(earlier, hash, i) && !is_evicted_since(earlier, i));
                assert(entries_after_calls(earlier)[hash] == calls[i].inserted());
            }
        }
    }
}

} // verus!
