//! What overlaying trie changes and state reverts gives, in terms of what is listed before and after.

use crate::hashed_state::{HashedPostState, HashedStorage};
use crate::primitives::U256;
use crate::trie_updates::{
    BranchNodeCompact, Nibbles, NodeUpdate, StorageTrieUpdatesSorted, TrieUpdatesSorted,
};
use alloy_primitives::map::B256Map;
use alloy_primitives::B256;
use vstd::prelude::*;

verus! {

/// A path as a number: its nibbles, packed from the most significant end, count before its length.
pub open spec fn path_number(path: Nibbles) -> int {
    (path.high * 0x1_0000_0000_0000_0000_0000_0000_0000_0000 + path.low) * 256 + path.len
}

/// A path comes before another exactly where its number is smaller.
pub proof fn lemma_paths_are_ordered_as_numbers(x: Nibbles, y: Nibbles, result: bool)
    requires
        call_ensures(Nibbles::is_before, (&x, &y), result),
    ensures
        result <==> path_number(x) < path_number(y),
        x.before(y) <==> path_number(x) < path_number(y),
        path_number(x) == path_number(y) <==> x == y,
{
}

/// Whether `nodes` lists a path with a value.
pub open spec fn says(
    nodes: Seq<NodeUpdate>,
    path: Nibbles,
    value: Option<BranchNodeCompact>,
) -> bool {
    exists|i: int|
        0 <= i < nodes.len() && (#[trigger] nodes[i]).0 == path && nodes[i].1 == value
}

/// Whether `nodes` lists a path.
pub open spec fn names(nodes: Seq<NodeUpdate>, path: Nibbles) -> bool {
    exists|i: int| 0 <= i < nodes.len() && (#[trigger] nodes[i]).0 == path
}

/// Whether `nodes` lists paths in strictly increasing order.
pub open spec fn in_order(nodes: Seq<NodeUpdate>) -> bool {
    forall|i: int, j: int|
        0 <= i < j < nodes.len() ==> path_number((#[trigger] nodes[i]).0) < path_number(
            (#[trigger] nodes[j]).0,
        )
}

/// Whether all nodes of trie changes are listed in order.
pub open spec fn all_in_order(updates: TrieUpdatesSorted) -> bool {
    &&& in_order(updates.account_nodes@)
    &&& forall|address: B256| #[trigger]
        updates.storage_tries@.contains_key(address) ==> in_order(
            updates.storage_tries@[address].storage_nodes@,
        )
}

/// Whether trie changes list a node of a storage trie with a value.
pub open spec fn storage_says(
    updates: TrieUpdatesSorted,
    address: B256,
    path: Nibbles,
    value: Option<BranchNodeCompact>,
) -> bool {
    updates.storage_tries@.contains_key(address) && says(
        updates.storage_tries@[address].storage_nodes@,
        path,
        value,
    )
}

/// Whether trie changes list a node of a storage trie.
pub open spec fn storage_names(updates: TrieUpdatesSorted, address: B256, path: Nibbles) -> bool {
    updates.storage_tries@.contains_key(address) && names(
        updates.storage_tries@[address].storage_nodes@,
        path,
    )
}

/// Whether trie changes delete a storage trie.
pub open spec fn deletes(updates: TrieUpdatesSorted, address: B256) -> bool {
    updates.storage_tries@.contains_key(address) && updates.storage_tries@[address].is_deleted
}

/// Nodes are in order exactly where they are sorted.
pub(crate) proof fn lemma_sorted_is_in_order(nodes: Seq<NodeUpdate>)
    ensures
        crate::trie_updates::nodes_sorted(nodes) <==> in_order(nodes),
{
    assert forall|x: Nibbles, y: Nibbles| #[trigger] x.before(y) <==> path_number(x) < path_number(
        y,
    ) by {}
    if in_order(nodes) {
        assert forall|i: int, j: int| 0 <= i < j < nodes.len() implies (
        #[trigger] nodes[i]).0.before((#[trigger] nodes[j]).0) by {}
    }
    if crate::trie_updates::nodes_sorted(nodes) {
        assert forall|i: int, j: int| 0 <= i < j < nodes.len() implies path_number(
            (#[trigger] nodes[i]).0,
        ) < path_number((#[trigger] nodes[j]).0) by {
            assert(nodes[i].0.before(nodes[j].0));
        }
    }
}

/// Trie changes are in order exactly where they are well-formed.
pub(crate) proof fn lemma_wf_is_in_order(updates: TrieUpdatesSorted)
    ensures
        updates.wf() <==> all_in_order(updates),
{
    lemma_sorted_is_in_order(updates.account_nodes@);
    assert forall|address: B256| #[trigger]
        updates.storage_tries@.contains_key(address) implies (updates.storage_tries@[address].wf()
        <==> in_order(updates.storage_tries@[address].storage_nodes@)) by {
        lemma_sorted_is_in_order(updates.storage_tries@[address].storage_nodes@);
    }
}

/// Nodes in order say of each path that they list one thing.
pub(crate) proof fn lemma_map_of_nodes(
    nodes: Seq<NodeUpdate>,
    path: Nibbles,
    value: Option<BranchNodeCompact>,
)
    requires
        in_order(nodes),
    ensures
        crate::trie_updates::node_map(nodes).contains_key(path) <==> names(nodes, path),
        says(nodes, path, value) <==> crate::trie_updates::node_map(nodes).contains_key(path)
            && crate::trie_updates::node_map(nodes)[path] == value,
    decreases nodes.len(),
{
    if nodes.len() > 0 {
        let front = nodes.drop_last();
        let last = nodes.len() - 1;
        assert(in_order(front)) by {
            assert forall|i: int, j: int| 0 <= i < j < front.len() implies path_number(
                (#[trigger] front[i]).0,
            ) < path_number((#[trigger] front[j]).0) by {
                assert(front[i] == nodes[i] && front[j] == nodes[j]);
            }
        }
        lemma_map_of_nodes(front, path, value);
        assert(nodes[last] == nodes.last());
        if says(front, path, value) {
            let i = choose|i: int|
                0 <= i < front.len() && (#[trigger] front[i]).0 == path && front[i].1 == value;
            assert(nodes[i].0 == path && nodes[i].1 == value);
        }
        if names(front, path) {
            let i = choose|i: int| 0 <= i < front.len() && (#[trigger] front[i]).0 == path;
            assert(nodes[i].0 == path);
            assert(path_number(nodes[i].0) < path_number(nodes[last].0));
        }
        if says(nodes, path, value) {
            let i = choose|i: int|
                0 <= i < nodes.len() && (#[trigger] nodes[i]).0 == path && nodes[i].1 == value;
            if i < last {
                assert(front[i].0 == path && front[i].1 == value);
            }
        }
        if names(nodes, path) {
            let i = choose|i: int| 0 <= i < nodes.len() && (#[trigger] nodes[i]).0 == path;
            if i < last {
                assert(front[i].0 == path);
            }
        }
    }
}

/// Overlaying a list of nodes with another gives, of each path, what the other says, or else what was
/// there, and nothing else. The nodes are in order again.
pub proof fn lemma_overlaid_nodes(
    target: &mut Vec<NodeUpdate>,
    other: Vec<NodeUpdate>,
    path: Nibbles,
    value: Option<BranchNodeCompact>,
)
    requires
        in_order(old(target)@),
        in_order(other@),
        call_ensures(crate::trie_updates::extend_sorted_vec, (target, &other), ()),
    ensures
        call_requires(crate::trie_updates::extend_sorted_vec, (target, &other)),
        in_order(final(target)@),
        says(final(target)@, path, value) <==> says(other@, path, value) || (!names(other@, path)
            && says(old(target)@, path, value)),
{
    lemma_sorted_is_in_order(old(target)@);
    lemma_sorted_is_in_order(other@);
    lemma_sorted_is_in_order(final(target)@);
    lemma_map_of_nodes(old(target)@, path, value);
    lemma_map_of_nodes(other@, path, value);
    lemma_map_of_nodes(final(target)@, path, value);
}

/// Overlaying the changes of a storage trie with others drops what was there where the others delete
/// the trie, and otherwise lets the others decide where both list a node.
pub proof fn lemma_overlaid_storage_trie(
    target: &mut StorageTrieUpdatesSorted,
    other: StorageTrieUpdatesSorted,
    path: Nibbles,
    value: Option<BranchNodeCompact>,
)
    requires
        in_order(old(target).storage_nodes@),
        in_order(other.storage_nodes@),
        call_ensures(StorageTrieUpdatesSorted::extend_ref, (target, &other), ()),
    ensures
        call_requires(StorageTrieUpdatesSorted::extend_ref, (target, &other)),
        in_order(final(target).storage_nodes@),
        final(target).is_deleted <==> old(target).is_deleted || other.is_deleted,
        says(final(target).storage_nodes@, path, value) <==> says(other.storage_nodes@, path, value)
            || (!other.is_deleted && !names(other.storage_nodes@, path) && says(
            old(target).storage_nodes@,
            path,
            value,
        )),
{
    lemma_sorted_is_in_order(old(target).storage_nodes@);
    lemma_sorted_is_in_order(other.storage_nodes@);
    lemma_sorted_is_in_order(final(target).storage_nodes@);
    lemma_map_of_nodes(old(target).storage_nodes@, path, value);
    lemma_map_of_nodes(other.storage_nodes@, path, value);
    lemma_map_of_nodes(final(target).storage_nodes@, path, value);
}

/// What trie changes list of a storage trie is what their view says of it.
pub(crate) proof fn lemma_view_of_storage(
    updates: TrieUpdatesSorted,
    address: B256,
    path: Nibbles,
    value: Option<BranchNodeCompact>,
)
    requires
        all_in_order(updates),
    ensures
        storage_says(updates, address, path, value) <==> updates@.storage_node(address, path)
            == Some(value),
        storage_names(updates, address, path) <==> updates@.storage_node(address, path) is Some,
        deletes(updates, address) <==> updates@.deleted(address),
        updates.storage_tries@.contains_key(address) <==> updates@.storage_tries.contains_key(
            address,
        ),
{
    assert(updates@.storage_tries.contains_key(address) == updates.storage_tries@.contains_key(
        address,
    ));
    if updates.storage_tries@.contains_key(address) {
        lemma_map_of_nodes(updates.storage_tries@[address].storage_nodes@, path, value);
    }
}

/// What trie changes list of the account trie is what their view says of it.
pub(crate) proof fn lemma_view_of_accounts(
    updates: TrieUpdatesSorted,
    path: Nibbles,
    value: Option<BranchNodeCompact>,
)
    requires
        all_in_order(updates),
    ensures
        says(updates.account_nodes@, path, value) <==> updates@.account_node(path) == Some(value),
        names(updates.account_nodes@, path) <==> updates@.account_node(path) is Some,
{
    lemma_map_of_nodes(updates.account_nodes@, path, value);
}

/// Overlaying trie changes with others gives, of each account node, what the others say or else what
/// was there. Of a storage trie that the others delete, only what they say remains; of any other, the
/// others decide where both list a node. All nodes are in order again.
pub proof fn lemma_overlaid_updates(
    target: &mut TrieUpdatesSorted,
    other: TrieUpdatesSorted,
    address: B256,
    path: Nibbles,
    value: Option<BranchNodeCompact>,
)
    requires
        all_in_order(*old(target)),
        all_in_order(other),
        call_ensures(TrieUpdatesSorted::extend_ref_and_sort, (target, &other), ()),
    ensures
        call_requires(TrieUpdatesSorted::extend_ref_and_sort, (target, &other)),
        all_in_order(*final(target)),
        says(final(target).account_nodes@, path, value) <==> says(other.account_nodes@, path, value)
            || (!names(other.account_nodes@, path) && says(old(target).account_nodes@, path, value)),
        storage_says(*final(target), address, path, value) <==> storage_says(
            other,
            address,
            path,
            value,
        ) || (!deletes(other, address) && !storage_names(other, address, path) && storage_says(
            *old(target),
            address,
            path,
            value,
        )),
        deletes(*final(target), address) <==> deletes(*old(target), address) || deletes(
            other,
            address,
        ),
        final(target).storage_tries@.contains_key(address) <==> old(target).storage_tries@.contains_key(address) || other.storage_tries@.contains_key(address),
{
    lemma_wf_is_in_order(*old(target));
    lemma_wf_is_in_order(other);
    lemma_wf_is_in_order(*final(target));
    lemma_view_of_accounts(*old(target), path, value);
    lemma_view_of_accounts(other, path, value);
    lemma_view_of_accounts(*final(target), path, value);
    lemma_view_of_storage(*old(target), address, path, value);
    lemma_view_of_storage(other, address, path, value);
    lemma_view_of_storage(*final(target), address, path, value);
}

/// Whether the nodes are in order is told for all trie changes.
pub proof fn lemma_sortedness_is_told(updates: TrieUpdatesSorted, result: bool)
    requires
        call_ensures(TrieUpdatesSorted::is_sorted, (&updates,), result),
    ensures
        result <==> all_in_order(updates),
{
    lemma_wf_is_in_order(updates);
}

/// Trie changes are made of the parts that are given, by default of none. What is shared is the same
/// again.
pub proof fn lemma_made_and_shared_updates(
    account_nodes: Vec<NodeUpdate>,
    storage_tries: B256Map<StorageTrieUpdatesSorted>,
    made: TrieUpdatesSorted,
    fresh: TrieUpdatesSorted,
    trie: StorageTrieUpdatesSorted,
    trie_again: StorageTrieUpdatesSorted,
    node: BranchNodeCompact,
    node_again: BranchNodeCompact,
    address: B256,
    path: Nibbles,
    value: Option<BranchNodeCompact>,
)
    requires
        call_ensures(TrieUpdatesSorted::new, (account_nodes, storage_tries), made),
        call_ensures(<TrieUpdatesSorted as Default>::default, (), fresh),
        in_order(trie.storage_nodes@),
        call_ensures(StorageTrieUpdatesSorted::share, (&trie,), trie_again),
        call_ensures(BranchNodeCompact::share, (&node,), node_again),
    ensures
        made.account_nodes@ == account_nodes@,
        made.storage_tries@ == storage_tries@,
        !names(fresh.account_nodes@, path),
        !fresh.storage_tries@.contains_key(address),
        node_again == node,
        trie_again.is_deleted == trie.is_deleted,
        in_order(trie_again.storage_nodes@),
        says(trie_again.storage_nodes@, path, value) <==> says(trie.storage_nodes@, path, value),
{
    lemma_wf_is_in_order(fresh);
    lemma_view_of_accounts(fresh, path, value);
    lemma_view_of_storage(fresh, address, path, value);
    lemma_sorted_is_in_order(trie.storage_nodes@);
    lemma_sorted_is_in_order(trie_again.storage_nodes@);
    lemma_map_of_nodes(trie.storage_nodes@, path, value);
    lemma_map_of_nodes(trie_again.storage_nodes@, path, value);
}

/// Overlaying a map with another keeps what the other does not hold and takes what it holds.
pub proof fn lemma_overlaid_map<V: Copy>(
    target: &mut B256Map<V>,
    other: B256Map<V>,
    key: B256,
)
    requires
        call_ensures(crate::b256_map::extend_b256_map::<V>, (target, &other), ()),
    ensures
        final(target)@.contains_key(key) <==> old(target)@.contains_key(key) || other@.contains_key(
            key,
        ),
        other@.contains_key(key) ==> final(target)@[key] == other@[key],
        old(target)@.contains_key(key) && !other@.contains_key(key) ==> final(target)@[key] == old(target)@[key],
{
}

/// What a state says of a slot, if anything.
pub open spec fn slot_of(state: HashedPostState, address: B256, slot: B256) -> Option<U256> {
    if state.storages@.contains_key(address) && state.storages@[address].storage@.contains_key(
        slot,
    ) {
        Some(state.storages@[address].storage@[slot])
    } else {
        None
    }
}

/// Whether a state wipes the storage of an account.
pub open spec fn wipes(state: HashedPostState, address: B256) -> bool {
    state.storages@.contains_key(address) && state.storages@[address].wiped
}

/// What a state says of its storages is what its view says of them.
pub(crate) proof fn lemma_view_of_state(state: HashedPostState, address: B256, slot: B256)
    ensures
        slot_of(state, address, slot) == state@.slot(address, slot),
        wipes(state, address) <==> state@.wiped(address),
        state.storages@.contains_key(address) <==> state@.storages.contains_key(address),
        state.accounts@ == state@.accounts,
{
    assert(state@.storages.contains_key(address) == state.storages@.contains_key(address));
}

/// Overlaying a state with another gives, of each account, what the other says or else what was there.
/// Of a storage that the other wipes, only what it says remains; of any other, the other decides where
/// both hold a slot.
pub proof fn lemma_overlaid_state(
    target: &mut HashedPostState,
    other: HashedPostState,
    address: B256,
    slot: B256,
)
    requires
        call_ensures(HashedPostState::extend_ref, (target, &other), ()),
    ensures
        final(target).accounts@.contains_key(address) <==> old(target).accounts@.contains_key(address) || other.accounts@.contains_key(address),
        other.accounts@.contains_key(address) ==> final(target).accounts@[address]
            == other.accounts@[address],
        old(target).accounts@.contains_key(address) && !other.accounts@.contains_key(address)
            ==> final(target).accounts@[address] == old(target).accounts@[address],
        slot_of(*final(target), address, slot) == if slot_of(other, address, slot) is Some || wipes(
            other,
            address,
        ) {
            slot_of(other, address, slot)
        } else {
            slot_of(*old(target), address, slot)
        },
        wipes(*final(target), address) <==> wipes(*old(target), address) || wipes(other, address),
        final(target).storages@.contains_key(address) <==> old(target).storages@.contains_key(address) || other.storages@.contains_key(address),
{
    lemma_view_of_state(*old(target), address, slot);
    lemma_view_of_state(other, address, slot);
    lemma_view_of_state(*final(target), address, slot);
}

/// Overlaying one storage with another.
pub proof fn lemma_overlaid_storage(target: &mut HashedStorage, other: HashedStorage, slot: B256)
    requires
        call_ensures(HashedStorage::extend_ref, (target, &other), ()),
    ensures
        final(target).wiped <==> old(target).wiped || other.wiped,
        final(target).storage@.contains_key(slot) <==> other.storage@.contains_key(slot) || (
        !other.wiped && old(target).storage@.contains_key(slot)),
        other.storage@.contains_key(slot) ==> final(target).storage@[slot] == other.storage@[slot],
        final(target).storage@.contains_key(slot) && !other.storage@.contains_key(slot) ==> final(target).storage@[slot] == old(target).storage@[slot],
{
}

/// A state that is duplicated says the same again, and a default state says nothing.
pub proof fn lemma_duplicated_states(
    state: HashedPostState,
    again: HashedPostState,
    storage: HashedStorage,
    storage_again: HashedStorage,
    fresh: HashedPostState,
    address: B256,
    slot: B256,
)
    requires
        call_ensures(HashedPostState::duplicate, (&state,), again),
        call_ensures(HashedStorage::duplicate, (&storage,), storage_again),
        call_ensures(<HashedPostState as Default>::default, (), fresh),
    ensures
        again.accounts@ == state.accounts@,
        slot_of(again, address, slot) == slot_of(state, address, slot),
        wipes(again, address) == wipes(state, address),
        again.storages@.contains_key(address) == state.storages@.contains_key(address),
        storage_again.wiped == storage.wiped,
        storage_again.storage@ == storage.storage@,
        !fresh.accounts@.contains_key(address),
        !fresh.storages@.contains_key(address),
{
    lemma_view_of_state(state, address, slot);
    lemma_view_of_state(again, address, slot);
    lemma_view_of_state(fresh, address, slot);
}

/// Whether two states say the same.
pub open spec fn same_state(state: HashedPostState, other: HashedPostState) -> bool {
    &&& forall|address: B256| #[trigger]
        state.accounts@.contains_key(address) <==> other.accounts@.contains_key(address)
    &&& forall|address: B256| #[trigger]
        state.accounts@.contains_key(address) ==> state.accounts@[address]
            == other.accounts@[address]
    &&& forall|address: B256| #[trigger]
        state.storages@.contains_key(address) <==> other.storages@.contains_key(address)
    &&& forall|address: B256| #[trigger] wipes(state, address) <==> wipes(other, address)
    &&& forall|address: B256, slot: B256| #[trigger]
        slot_of(state, address, slot) == slot_of(other, address, slot)
}

/// Whether `result` is `base` overlaid with `top`: `top` decides where both say something, and of a
/// storage that `top` wipes nothing of `base` remains.
pub open spec fn state_overlaid(
    base: HashedPostState,
    top: HashedPostState,
    result: HashedPostState,
) -> bool {
    &&& forall|address: B256| #[trigger]
        result.accounts@.contains_key(address) <==> base.accounts@.contains_key(address)
            || top.accounts@.contains_key(address)
    &&& forall|address: B256| #[trigger]
        result.accounts@.contains_key(address) ==> result.accounts@[address]
            == if top.accounts@.contains_key(address) {
            top.accounts@[address]
        } else {
            base.accounts@[address]
        }
    &&& forall|address: B256| #[trigger]
        result.storages@.contains_key(address) <==> base.storages@.contains_key(address)
            || top.storages@.contains_key(address)
    &&& forall|address: B256| #[trigger]
        wipes(result, address) <==> wipes(base, address) || wipes(top, address)
    &&& forall|address: B256, slot: B256| #[trigger]
        slot_of(result, address, slot) == if slot_of(top, address, slot) is Some || wipes(
            top,
            address,
        ) {
            slot_of(top, address, slot)
        } else {
            slot_of(base, address, slot)
        }
}

/// Whether two sets of trie changes say the same, with all nodes in order.
pub open spec fn same_updates(updates: TrieUpdatesSorted, other: TrieUpdatesSorted) -> bool {
    &&& all_in_order(updates)
    &&& all_in_order(other)
    &&& forall|path: Nibbles, value: Option<BranchNodeCompact>| #[trigger]
        says(updates.account_nodes@, path, value) <==> says(other.account_nodes@, path, value)
    &&& forall|address: B256| #[trigger]
        updates.storage_tries@.contains_key(address) <==> other.storage_tries@.contains_key(address)
    &&& forall|address: B256| #[trigger] deletes(updates, address) <==> deletes(other, address)
    &&& forall|address: B256, path: Nibbles, value: Option<BranchNodeCompact>| #[trigger]
        storage_says(updates, address, path, value) <==> storage_says(other, address, path, value)
}

/// Whether `result` is `base` overlaid with `top`, with all nodes in order: `top` decides where both
/// list a node, and of a storage trie that `top` deletes nothing of `base` remains.
pub open spec fn updates_overlaid(
    base: TrieUpdatesSorted,
    top: TrieUpdatesSorted,
    result: TrieUpdatesSorted,
) -> bool {
    &&& all_in_order(result)
    &&& forall|path: Nibbles, value: Option<BranchNodeCompact>| #[trigger]
        says(result.account_nodes@, path, value) <==> says(top.account_nodes@, path, value) || (
        !names(top.account_nodes@, path) && says(base.account_nodes@, path, value))
    &&& forall|address: B256| #[trigger]
        result.storage_tries@.contains_key(address) <==> base.storage_tries@.contains_key(address)
            || top.storage_tries@.contains_key(address)
    &&& forall|address: B256| #[trigger]
        deletes(result, address) <==> deletes(base, address) || deletes(top, address)
    &&& forall|address: B256, path: Nibbles, value: Option<BranchNodeCompact>| #[trigger]
        storage_says(result, address, path, value) <==> storage_says(top, address, path, value) || (
        !deletes(top, address) && !storage_names(top, address, path) && storage_says(
            base,
            address,
            path,
            value,
        ))
}

/// States with the same view say the same.
pub(crate) proof fn lemma_same_views(state: HashedPostState, other: HashedPostState)
    requires
        state@ == other@,
    ensures
        same_state(state, other),
{
    assert forall|address: B256, slot: B256| true implies {
        &&& #[trigger] slot_of(state, address, slot) == slot_of(other, address, slot)
        &&& wipes(state, address) <==> wipes(other, address)
        &&& state.storages@.contains_key(address) <==> other.storages@.contains_key(address)
    } by {
        lemma_view_of_state(state, address, slot);
        lemma_view_of_state(other, address, slot);
    }
    assert forall|address: B256| true implies {
        &&& #[trigger] wipes(state, address) <==> wipes(other, address)
        &&& state.storages@.contains_key(address) <==> other.storages@.contains_key(address)
        &&& state.accounts@ == other.accounts@
    } by {
        lemma_view_of_state(state, address, address);
        lemma_view_of_state(other, address, address);
    }
    assert forall|address: B256| #[trigger]
        state.storages@.contains_key(address) <==> other.storages@.contains_key(address) by {
        assert(wipes(state, address) <==> wipes(other, address));
    }
    assert(state@.accounts == other@.accounts);
}

/// A state whose view is extended is overlaid.
pub(crate) proof fn lemma_extended_state(
    base: HashedPostState,
    top: HashedPostState,
    result: HashedPostState,
)
    requires
        result@ == base@.extend(top@),
    ensures
        state_overlaid(base, top, result),
{
    assert(result.accounts@ == base.accounts@.union_prefer_right(top.accounts@));
    assert forall|address: B256, slot: B256| #[trigger]
        slot_of(result, address, slot) == if slot_of(top, address, slot) is Some || wipes(
            top,
            address,
        ) {
            slot_of(top, address, slot)
        } else {
            slot_of(base, address, slot)
        } by {
        lemma_view_of_state(base, address, slot);
        lemma_view_of_state(top, address, slot);
        lemma_view_of_state(result, address, slot);
    }
    assert forall|address: B256| #[trigger]
        wipes(result, address) <==> wipes(base, address) || wipes(top, address) by {
        lemma_view_of_state(base, address, address);
        lemma_view_of_state(top, address, address);
        lemma_view_of_state(result, address, address);
    }
    assert forall|address: B256| #[trigger]
        result.storages@.contains_key(address) <==> base.storages@.contains_key(address)
            || top.storages@.contains_key(address) by {
        lemma_view_of_state(base, address, address);
        lemma_view_of_state(top, address, address);
        lemma_view_of_state(result, address, address);
    }
}

/// Trie changes with the same view say the same.
pub(crate) proof fn lemma_same_update_views(updates: TrieUpdatesSorted, other: TrieUpdatesSorted)
    requires
        updates.wf(),
        other.wf(),
        updates@ == other@,
    ensures
        same_updates(updates, other),
{
    lemma_wf_is_in_order(updates);
    lemma_wf_is_in_order(other);
    assert forall|path: Nibbles, value: Option<BranchNodeCompact>| #[trigger]
        says(updates.account_nodes@, path, value) <==> says(other.account_nodes@, path, value) by {
        lemma_view_of_accounts(updates, path, value);
        lemma_view_of_accounts(other, path, value);
    }
    assert forall|address: B256, path: Nibbles, value: Option<BranchNodeCompact>| #[trigger]
        storage_says(updates, address, path, value) <==> storage_says(
            other,
            address,
            path,
            value,
        ) by {
        lemma_view_of_storage(updates, address, path, value);
        lemma_view_of_storage(other, address, path, value);
    }
    let any: Nibbles = arbitrary();
    assert forall|address: B256| #[trigger]
        updates.storage_tries@.contains_key(address) <==> other.storage_tries@.contains_key(
            address,
        ) by {
        lemma_view_of_storage(updates, address, any, None);
        lemma_view_of_storage(other, address, any, None);
    }
    assert forall|address: B256| #[trigger] deletes(updates, address) <==> deletes(
        other,
        address,
    ) by {
        lemma_view_of_storage(updates, address, any, None);
        lemma_view_of_storage(other, address, any, None);
    }
}

/// Trie changes whose view is extended are overlaid.
pub(crate) proof fn lemma_extended_updates(
    base: TrieUpdatesSorted,
    top: TrieUpdatesSorted,
    result: TrieUpdatesSorted,
)
    requires
        base.wf(),
        top.wf(),
        result.wf(),
        result@ == base@.extend(top@),
    ensures
        updates_overlaid(base, top, result),
{
    lemma_wf_is_in_order(base);
    lemma_wf_is_in_order(top);
    lemma_wf_is_in_order(result);
    assert forall|path: Nibbles, value: Option<BranchNodeCompact>| #[trigger]
        says(result.account_nodes@, path, value) <==> says(top.account_nodes@, path, value) || (
        !names(top.account_nodes@, path) && says(base.account_nodes@, path, value)) by {
        lemma_view_of_accounts(base, path, value);
        lemma_view_of_accounts(top, path, value);
        lemma_view_of_accounts(result, path, value);
    }
    assert forall|address: B256, path: Nibbles, value: Option<BranchNodeCompact>| #[trigger]
        storage_says(result, address, path, value) <==> storage_says(top, address, path, value) || (
        !deletes(top, address) && !storage_names(top, address, path) && storage_says(
            base,
            address,
            path,
            value,
        )) by {
        lemma_view_of_storage(base, address, path, value);
        lemma_view_of_storage(top, address, path, value);
        lemma_view_of_storage(result, address, path, value);
    }
    let any: Nibbles = arbitrary();
    assert forall|address: B256| #[trigger]
        result.storage_tries@.contains_key(address) <==> base.storage_tries@.contains_key(address)
            || top.storage_tries@.contains_key(address) by {
        lemma_view_of_storage(base, address, any, None);
        lemma_view_of_storage(top, address, any, None);
        lemma_view_of_storage(result, address, any, None);
    }
    assert forall|address: B256| #[trigger]
        deletes(result, address) <==> deletes(base, address) || deletes(top, address) by {
        lemma_view_of_storage(base, address, any, None);
        lemma_view_of_storage(top, address, any, None);
        lemma_view_of_storage(result, address, any, None);
    }
}

} // verus!
