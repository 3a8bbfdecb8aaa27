//! State reverts by hashed key, and how one overlays another.
//!
//! A revert says what accounts and storage slots were before some blocks. Reverts of several
//! blocks are put together from the newest block to the oldest, each older one overlaying what is
//! there: the value from before all of the blocks is the one that the oldest of them recorded.

use crate::b256_map::{
    b256_map_get, b256_map_insert, b256_map_keys, b256_map_remove, extend_b256_map,
};
use crate::primitives::{Word, U256};
use alloy_primitives::map::B256Map;
use alloy_primitives::B256;
use vstd::prelude::*;

verus! {

/// An account of the state.
#[derive(Clone, Copy, Debug, PartialEq, Eq)]
pub struct Account {
    /// The number of transactions sent, or of contracts created.
    pub nonce: u64,
    /// The balance in wei.
    pub balance: U256,
    /// The hash of the code, where the account has code.
    pub bytecode_hash: Option<Word>,
}

/// The storage of one account by hashed slot.
#[derive(Clone, Debug, PartialEq, Eq)]
pub struct HashedStorage {
    /// Whether the storage is wiped before the values apply.
    pub wiped: bool,
    /// The value of each slot.
    pub storage: B256Map<U256>,
}

/// The storage of one account as a map.
#[verifier::ext_equal]
pub struct HashedStorageView {
    pub wiped: bool,
    pub storage: Map<B256, U256>,
}

impl HashedStorageView {
    /// This storage overlaid with `other`: a wipe in `other` drops what was there before, and
    /// otherwise `other` decides where both hold a slot.
    pub open spec fn extend(self, other: Self) -> Self {
        if other.wiped {
            other
        } else {
            HashedStorageView {
                wiped: self.wiped,
                storage: self.storage.union_prefer_right(other.storage),
            }
        }
    }
}

impl View for HashedStorage {
    type V = HashedStorageView;

    open spec fn view(&self) -> HashedStorageView {
        HashedStorageView { wiped: self.wiped, storage: self.storage@ }
    }
}

impl HashedStorage {
    /// Returns the same storage again.
    pub fn duplicate(&self) -> (result: Self)
        ensures
            result@ == self@,
    {
        let mut storage: B256Map<U256> = B256Map::default();
        extend_b256_map(&mut storage, &self.storage);
        assert(storage@ =~= self.storage@);
        HashedStorage { wiped: self.wiped, storage }
    }

    /// Overlays this storage with `other`.
    pub fn extend_ref(&mut self, other: &Self)
        ensures
            final(self)@ == old(self)@.extend(other@),
    {
        if other.wiped {
            *self = other.duplicate();
        } else {
            extend_b256_map(&mut self.storage, &other.storage);
        }
    }
}

/// Accounts and storages by hashed address.
#[derive(Clone, Debug, PartialEq, Eq)]
pub struct HashedPostState {
    /// Each account, or `None` where the account does not exist.
    pub accounts: B256Map<Option<Account>>,
    /// The storage of each account.
    pub storages: B256Map<HashedStorage>,
}

/// Accounts and storages as maps.
#[verifier::ext_equal]
pub struct HashedPostStateView {
    pub accounts: Map<B256, Option<Account>>,
    pub storages: Map<B256, HashedStorageView>,
}

/// The view of each storage.
pub open spec fn storages_view(storages: Map<B256, HashedStorage>) -> Map<B256, HashedStorageView> {
    Map::new(|address: B256| storages.contains_key(address), |address: B256| storages[address]@)
}

/// `storages` overlaid with `other`, account by account.
pub open spec fn extend_storages(
    storages: Map<B256, HashedStorageView>,
    other: Map<B256, HashedStorageView>,
) -> Map<B256, HashedStorageView> {
    Map::new(
        |address: B256| storages.contains_key(address) || other.contains_key(address),
        |address: B256|
            if !other.contains_key(address) {
                storages[address]
            } else if !storages.contains_key(address) {
                other[address]
            } else {
                storages[address].extend(other[address])
            },
    )
}

impl HashedPostStateView {
    /// Nothing.
    pub open spec fn empty() -> Self {
        HashedPostStateView { accounts: Map::empty(), storages: Map::empty() }
    }

    /// This state overlaid with `other`: where both hold an account, `other` decides, and each
    /// storage is overlaid on its own.
    pub open spec fn extend(self, other: Self) -> Self {
        HashedPostStateView {
            accounts: self.accounts.union_prefer_right(other.accounts),
            storages: extend_storages(self.storages, other.storages),
        }
    }

    /// What is said of an account, if anything.
    pub open spec fn account(self, address: B256) -> Option<Option<Account>> {
        if self.accounts.contains_key(address) {
            Some(self.accounts[address])
        } else {
            None
        }
    }

    /// What is said of a storage slot, if anything.
    pub open spec fn slot(self, address: B256, slot: B256) -> Option<U256> {
        if self.storages.contains_key(address) && self.storages[address].storage.contains_key(slot) {
            Some(self.storages[address].storage[slot])
        } else {
            None
        }
    }

    /// Whether the storage of an account is wiped.
    pub open spec fn wiped(self, address: B256) -> bool {
        self.storages.contains_key(address) && self.storages[address].wiped
    }
}

impl View for HashedPostState {
    type V = HashedPostStateView;

    open spec fn view(&self) -> HashedPostStateView {
        HashedPostStateView {
            accounts: self.accounts@,
            storages: storages_view(self.storages@),
        }
    }
}

impl Default for HashedPostState {
    fn default() -> (result: Self)
        ensures
            result@ == HashedPostStateView::empty(),
    {
        let result = HashedPostState { accounts: B256Map::default(), storages: B256Map::default() };
        assert(result@.storages =~= Map::empty());
        result
    }
}

impl HashedPostState {
    /// Returns the same state again.
    pub fn duplicate(&self) -> (result: Self)
        ensures
            result@ == self@,
    {
        let mut result = HashedPostState::default();
        result.extend_ref(self);
        assert(result@ =~= self@);
        result
    }

    /// Overlays this state with `other`, whose values take precedence.
    pub fn extend_ref(&mut self, other: &Self)
        ensures
            final(self)@ == old(self)@.extend(other@),
    {
        let ghost start = *self;
        extend_b256_map(&mut self.accounts, &other.accounts);
        let addresses = b256_map_keys(&other.storages);
        let ghost mine = storages_view(start.storages@);
        let ghost theirs = storages_view(other.storages@);
        assert(storages_view(self.storages@) =~= extend_storages(
            mine,
            theirs.restrict(addresses@.take(0).to_set()),
        ));
        for i in 0..addresses.len()
            invariant
                self.accounts@ == start@.extend(other@).accounts,
                addresses@.no_duplicates(),
                addresses@.to_set() == other.storages@.dom(),
                mine == storages_view(start.storages@),
                theirs == storages_view(other.storages@),
                storages_view(self.storages@) == extend_storages(
                    mine,
                    theirs.restrict(addresses@.take(i as int).to_set()),
                ),
        {
            let address = addresses[i];
            let ghost done = addresses@.take(i as int);
            let ghost before = self.storages@;
            proof {
                assert(addresses@.contains(address));
                assert(addresses@.to_set().contains(address));
                assert(!done.contains(address));
                crate::b256_map::lemma_take_to_set(addresses@, i as int);
                assert(storages_view(before).contains_key(address) == mine.contains_key(address));
                assert(mine.contains_key(address) ==> storages_view(before)[address]
                    == mine[address]);
            }
            if let Some(added) = b256_map_get(&other.storages, &address) {
                let storage = match b256_map_remove(&mut self.storages, &address) {
                    Some(existing) => {
                        let mut existing = existing;
                        existing.extend_ref(added);
                        existing
                    },
                    None => added.duplicate(),
                };
                assert(storage@ == extend_storages(mine, theirs)[address]);
                b256_map_insert(&mut self.storages, address, storage);
                assert(storages_view(self.storages@) =~= storages_view(before).insert(
                    address,
                    storage@,
                ));
            }
            assert(storages_view(self.storages@) =~= extend_storages(
                mine,
                theirs.restrict(addresses@.take(i + 1).to_set()),
            ));
        }
        assert(theirs.restrict(addresses@.take(addresses@.len() as int).to_set()) =~= theirs) by {
            assert(addresses@.take(addresses@.len() as int) =~= addresses@);
        }
    }
}

/// The reverts of consecutive blocks, the oldest block first, put together from the newest block
/// to the oldest on top of `newer`, the revert of all blocks after them.
pub open spec fn cumulative_revert(
    newer: HashedPostStateView,
    reverts: Seq<HashedPostStateView>,
) -> HashedPostStateView
    decreases reverts.len(),
{
    if reverts.len() == 0 {
        newer
    } else {
        cumulative_revert(newer, reverts.drop_first()).extend(reverts.first())
    }
}

/// What the oldest of the blocks that changed an account recorded of it. The blocks come the
/// oldest first.
pub open spec fn oldest_account(
    reverts: Seq<HashedPostStateView>,
    address: B256,
) -> Option<Option<Account>>
    decreases reverts.len(),
{
    if reverts.len() == 0 {
        None
    } else if reverts.first().account(address) is Some {
        reverts.first().account(address)
    } else {
        oldest_account(reverts.drop_first(), address)
    }
}

/// What the oldest of the blocks that changed a slot recorded of it. A block that wiped the
/// storage says of every slot what it was, so newer blocks are not asked.
pub open spec fn oldest_slot(
    reverts: Seq<HashedPostStateView>,
    address: B256,
    slot: B256,
) -> Option<U256>
    decreases reverts.len(),
{
    if reverts.len() == 0 {
        None
    } else if reverts.first().slot(address, slot) is Some || reverts.first().wiped(address) {
        reverts.first().slot(address, slot)
    } else {
        oldest_slot(reverts.drop_first(), address, slot)
    }
}

/// Moving down by one block extends the cumulative revert by the revert of that block alone, and
/// gives the cumulative revert that is read for the longer range from scratch.
pub proof fn lemma_cumulative_revert_grows(
    newer: HashedPostStateView,
    reverts: Seq<HashedPostStateView>,
    older: HashedPostStateView,
)
    ensures
        cumulative_revert(newer, seq![older] + reverts) == cumulative_revert(newer, reverts).extend(
            older,
        ),
{
    assert((seq![older] + reverts).drop_first() =~= reverts);
}

/// The revert of a longer range can be put together in two parts: the newer blocks first, then the
/// older blocks on top of what they gave.
pub proof fn lemma_cumulative_revert_splits(
    newer: HashedPostStateView,
    older_blocks: Seq<HashedPostStateView>,
    newer_blocks: Seq<HashedPostStateView>,
)
    ensures
        cumulative_revert(newer, older_blocks + newer_blocks) == cumulative_revert(
            cumulative_revert(newer, newer_blocks),
            older_blocks,
        ),
    decreases older_blocks.len(),
{
    if older_blocks.len() == 0 {
        assert(older_blocks + newer_blocks =~= newer_blocks);
    } else {
        assert((older_blocks + newer_blocks).drop_first() =~= older_blocks.drop_first()
            + newer_blocks);
        lemma_cumulative_revert_splits(newer, older_blocks.drop_first(), newer_blocks);
    }
}

/// In the reverts put together, the oldest occurrence of each account and of each slot wins.
pub proof fn lemma_cumulative_revert_is_oldest(
    reverts: Seq<HashedPostStateView>,
    address: B256,
    slot: B256,
)
    ensures
        cumulative_revert(HashedPostStateView::empty(), reverts).account(address) == oldest_account(
            reverts,
            address,
        ),
        cumulative_revert(HashedPostStateView::empty(), reverts).slot(address, slot) == oldest_slot(
            reverts,
            address,
            slot,
        ),
    decreases reverts.len(),
{
    if reverts.len() > 0 {
        lemma_cumulative_revert_is_oldest(reverts.drop_first(), address, slot);
    }
}

/// Overlaying is associative, and an empty state is neutral.
pub proof fn lemma_overlaying_states_is_associative(
    x: HashedPostStateView,
    y: HashedPostStateView,
    z: HashedPostStateView,
)
    ensures
        x.extend(y).extend(z) == x.extend(y.extend(z)),
        x.extend(HashedPostStateView::empty()) == x,
        HashedPostStateView::empty().extend(x) == x,
{
    assert forall|address: B256| #[trigger]
        x.extend(y).extend(z).storages.contains_key(address) implies x.extend(y).extend(
        z,
    ).storages[address] == x.extend(y.extend(z)).storages[address] by {
        if x.storages.contains_key(address) && y.storages.contains_key(address)
            && z.storages.contains_key(address) {
            let (a, b, c) = (x.storages[address], y.storages[address], z.storages[address]);
            assert(a.extend(b).extend(c) =~= a.extend(b.extend(c)));
        }
    }
    assert(x.extend(y).extend(z) =~= x.extend(y.extend(z)));
    assert(x.extend(HashedPostStateView::empty()) =~= x);
    assert(HashedPostStateView::empty().extend(x) =~= x);
}

/// The revert of a range on top of the revert of all newer blocks is the newer revert, overlaid
/// with the revert of the range alone.
pub proof fn lemma_cumulative_revert_overlays(
    newer: HashedPostStateView,
    reverts: Seq<HashedPostStateView>,
)
    ensures
        cumulative_revert(newer, reverts) == newer.extend(
            cumulative_revert(HashedPostStateView::empty(), reverts),
        ),
    decreases reverts.len(),
{
    if reverts.len() == 0 {
        lemma_overlaying_states_is_associative(newer, newer, newer);
    } else {
        lemma_cumulative_revert_overlays(newer, reverts.drop_first());
        lemma_overlaying_states_is_associative(
            newer,
            cumulative_revert(HashedPostStateView::empty(), reverts.drop_first()),
            reverts.first(),
        );
    }
}

} // verus!
