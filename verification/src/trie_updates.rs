//! Sorted trie updates and how one set of them overlays another.

use crate::b256_map::{b256_map_get, b256_map_insert, b256_map_keys, b256_map_remove};
use alloy_primitives::map::B256Map;
use alloy_primitives::B256;
use std::sync::Arc;
use vstd::prelude::*;

verus! {

/// The path of a trie node: up to 64 nibbles, packed from the most significant end of two
/// 128-bit words, and their number.
///
/// Paths are ordered by `high`, then by `low`, then by `len`.
#[derive(Clone, Copy, Debug, PartialEq, Eq, Structural)]
pub struct Nibbles {
    /// The first 32 nibbles.
    pub high: u128,
    /// The last 32 nibbles.
    pub low: u128,
    /// The number of nibbles.
    pub len: u8,
}

impl Nibbles {
    /// Whether this path comes strictly before `other`.
    pub open spec fn before(self, other: Self) -> bool {
        ||| self.high < other.high
        ||| self.high == other.high && self.low < other.low
        ||| self.high == other.high && self.low == other.low && self.len < other.len
    }

    /// Tests whether this path comes strictly before `other`.
    pub fn is_before(&self, other: &Self) -> (result: bool)
        ensures
            result == self.before(*other),
    {
        if self.high != other.high {
            self.high < other.high
        } else if self.low != other.low {
            self.low < other.low
        } else {
            self.len < other.len
        }
    }
}

/// A stored branch node of a trie.
#[derive(Clone, Debug, PartialEq, Eq)]
pub struct BranchNodeCompact {
    /// Which children the branch has.
    pub state_mask: u16,
    /// Which children are stored branch nodes themselves.
    pub tree_mask: u16,
    /// Which children have their hash in `hashes`.
    pub hash_mask: u16,
    /// The hashes of those children.
    pub hashes: Arc<Vec<B256>>,
    /// The hash of the node itself, where it is a root.
    pub root_hash: Option<B256>,
}

impl BranchNodeCompact {
    /// Returns the same node again. The hashes are shared.
    pub fn share(&self) -> (node: Self)
        ensures
            node == *self,
    {
        BranchNodeCompact {
            state_mask: self.state_mask,
            tree_mask: self.tree_mask,
            hash_mask: self.hash_mask,
            hashes: Arc::clone(&self.hashes),
            root_hash: self.root_hash,
        }
    }
}

/// A change of one trie node: its path and its value, or `None` where the node is removed.
pub type NodeUpdate = (Nibbles, Option<BranchNodeCompact>);

/// Whether the paths of `nodes` are strictly increasing.
pub open spec fn nodes_sorted(nodes: Seq<NodeUpdate>) -> bool {
    forall|i: int, j: int|
        0 <= i < j < nodes.len() ==> (#[trigger] nodes[i]).0.before((#[trigger] nodes[j]).0)
}

/// Tests whether the paths of `nodes` are strictly increasing.
fn are_nodes_sorted(nodes: &Vec<NodeUpdate>) -> (result: bool)
    ensures
        result == nodes_sorted(nodes@),
{
    if nodes.len() == 0 {
        return true;
    }
    for i in 1..nodes.len()
        invariant
            nodes_sorted(nodes@.take(i as int)),
    {
        if !nodes[i - 1].0.is_before(&nodes[i].0) {
            assert(!nodes@[i - 1].0.before(nodes@[i as int].0));
            return false;
        }
        let ghost seen = nodes@.take(i as int);
        assert forall|m: int, n: int| 0 <= m < n < i + 1 implies (#[trigger] nodes@.take(
            i + 1,
        )[m]).0.before((#[trigger] nodes@.take(i + 1)[n]).0) by {
            if n < i {
                assert(seen[m].0.before(seen[n].0));
            } else if m < i - 1 {
                assert(seen[m].0.before(seen[i - 1].0));
            }
        }
    }
    assert(nodes@.take(nodes@.len() as int) =~= nodes@);
    true
}

/// What `nodes` says of each path that it names.
pub open spec fn node_map(nodes: Seq<NodeUpdate>) -> Map<Nibbles, Option<BranchNodeCompact>>
    decreases nodes.len(),
{
    if nodes.len() == 0 {
        Map::empty()
    } else {
        node_map(nodes.drop_last()).insert(nodes.last().0, nodes.last().1)
    }
}

/// The paths that `node_map` knows are those that occur in the sequence.
pub(crate) proof fn lemma_node_map_paths(nodes: Seq<NodeUpdate>, path: Nibbles)
    ensures
        node_map(nodes).contains_key(path) <==> exists|i: int|
            0 <= i < nodes.len() && (#[trigger] nodes[i]).0 == path,
    decreases nodes.len(),
{
    if nodes.len() > 0 {
        lemma_node_map_paths(nodes.drop_last(), path);
        if node_map(nodes).contains_key(path) && path != nodes.last().0 {
            let i = choose|i: int|
                0 <= i < nodes.drop_last().len() && (#[trigger] nodes.drop_last()[i]).0 == path;
            assert(nodes[i].0 == path);
        }
        if exists|i: int| 0 <= i < nodes.len() && (#[trigger] nodes[i]).0 == path {
            let i = choose|i: int| 0 <= i < nodes.len() && (#[trigger] nodes[i]).0 == path;
            if i < nodes.len() - 1 {
                assert(nodes.drop_last()[i].0 == path);
            }
        }
    }
}

/// Returns the same update again.
fn share_update(update: &NodeUpdate) -> (result: NodeUpdate)
    ensures
        result == *update,
{
    let node: Option<BranchNodeCompact> = match &update.1 {
        Some(node) => Some(node.share()),
        None => None,
    };
    (update.0, node)
}

/// Returns the same updates again.
fn share_updates(updates: &Vec<NodeUpdate>) -> (result: Vec<NodeUpdate>)
    ensures
        result@ == updates@,
{
    let mut result: Vec<NodeUpdate> = Vec::new();
    for i in 0..updates.len()
        invariant
            result@ == updates@.take(i as int),
    {
        result.push(share_update(&updates[i]));
        assert(updates@.take(i + 1) =~= updates@.take(i as int).push(updates@[i as int]));
    }
    assert(updates@.take(updates@.len() as int) =~= updates@);
    result
}

/// Overlays `target` with `other`, both sorted: the result is sorted again, names the paths of
/// both, and has the value of `other` where both name a path.
pub fn extend_sorted_vec(target: &mut Vec<NodeUpdate>, other: &Vec<NodeUpdate>)
    requires
        nodes_sorted(old(target)@),
        nodes_sorted(other@),
    ensures
        nodes_sorted(final(target)@),
        node_map(final(target)@) == node_map(old(target)@).union_prefer_right(node_map(other@)),
{
    let ghost left = target@;
    let mut merged: Vec<NodeUpdate> = Vec::new();
    let mut i: usize = 0;
    let mut j: usize = 0;
    proof {
        assert(node_map(left.take(0)) =~= Map::empty());
        assert(node_map(other@.take(0)) =~= Map::empty());
        assert(node_map(merged@) =~= node_map(left.take(0)).union_prefer_right(
            node_map(other@.take(0)),
        ));
    }
    while i < target.len() || j < other.len()
        invariant
            target@ == left,
            nodes_sorted(left),
            nodes_sorted(other@),
            i <= left.len(),
            j <= other@.len(),
            nodes_sorted(merged@),
            forall|m: int|
                0 <= m < merged@.len() ==> {
                    &&& i < left.len() ==> (#[trigger] merged@[m]).0.before(left[i as int].0)
                    &&& j < other@.len() ==> merged@[m].0.before(other@[j as int].0)
                },
            node_map(merged@) == node_map(left.take(i as int)).union_prefer_right(
                node_map(other@.take(j as int)),
            ),
        decreases left.len() - i + other@.len() - j,
    {
        let take_left = j >= other.len() || (i < target.len() && target[i].0.is_before(&other[j].0));
        let ghost before = merged@;
        if take_left {
            merged.push(share_update(&target[i]));
            proof {
                lemma_push_node(before, left[i as int]);
                lemma_take_node(left, i as int);
                lemma_node_map_paths(before, left[i as int].0);
                assert(!node_map(before).contains_key(left[i as int].0));
                assert(node_map(merged@) =~= node_map(left.take(i + 1)).union_prefer_right(
                    node_map(other@.take(j as int)),
                ));
            }
            i = i + 1;
        } else {
            let same = i < target.len() && target[i].0 == other[j].0;
            merged.push(share_update(&other[j]));
            proof {
                lemma_push_node(before, other@[j as int]);
                lemma_take_node(other@, j as int);
                if same {
                    lemma_take_node(left, i as int);
                    assert(node_map(merged@) =~= node_map(left.take(i + 1)).union_prefer_right(
                        node_map(other@.take(j + 1)),
                    ));
                } else {
                    assert(node_map(merged@) =~= node_map(left.take(i as int)).union_prefer_right(
                        node_map(other@.take(j + 1)),
                    ));
                }
            }
            if same {
                i = i + 1;
            }
            j = j + 1;
        }
    }
    proof {
        assert(left.take(left.len() as int) =~= left);
        assert(other@.take(other@.len() as int) =~= other@);
    }
    *target = merged;
}

proof fn lemma_push_node(nodes: Seq<NodeUpdate>, update: NodeUpdate)
    ensures
        node_map(nodes.push(update)) == node_map(nodes).insert(update.0, update.1),
{
    assert(nodes.push(update).drop_last() =~= nodes);
}

proof fn lemma_take_node(nodes: Seq<NodeUpdate>, i: int)
    requires
        0 <= i < nodes.len(),
    ensures
        node_map(nodes.take(i + 1)) == node_map(nodes.take(i)).insert(nodes[i].0, nodes[i].1),
{
    assert(nodes.take(i + 1) =~= nodes.take(i).push(nodes[i]));
    lemma_push_node(nodes.take(i), nodes[i]);
}

/// The changes of one storage trie.
#[derive(Clone, Debug, PartialEq, Eq)]
pub struct StorageTrieUpdatesSorted {
    /// Whether the trie is deleted before the changes apply.
    pub is_deleted: bool,
    /// The changed nodes, sorted by path.
    pub storage_nodes: Vec<NodeUpdate>,
}

/// The changes of one storage trie as a map from paths to nodes.
#[verifier::ext_equal]
pub struct StorageTrieView {
    pub is_deleted: bool,
    pub storage_nodes: Map<Nibbles, Option<BranchNodeCompact>>,
}

impl StorageTrieView {
    /// These changes overlaid with `other`: a deletion in `other` drops what was there before, and
    /// otherwise `other` decides where both name a path.
    pub open spec fn extend(self, other: Self) -> Self {
        if other.is_deleted {
            other
        } else {
            StorageTrieView {
                is_deleted: self.is_deleted,
                storage_nodes: self.storage_nodes.union_prefer_right(other.storage_nodes),
            }
        }
    }
}

impl View for StorageTrieUpdatesSorted {
    type V = StorageTrieView;

    open spec fn view(&self) -> StorageTrieView {
        StorageTrieView {
            is_deleted: self.is_deleted,
            storage_nodes: node_map(self.storage_nodes@),
        }
    }
}

impl StorageTrieUpdatesSorted {
    /// Whether the nodes are sorted by path.
    pub open spec fn wf(self) -> bool {
        nodes_sorted(self.storage_nodes@)
    }

    /// Returns the same changes again.
    pub fn share(&self) -> (result: Self)
        ensures
            result.is_deleted == self.is_deleted,
            result.storage_nodes@ == self.storage_nodes@,
    {
        StorageTrieUpdatesSorted {
            is_deleted: self.is_deleted,
            storage_nodes: share_updates(&self.storage_nodes),
        }
    }

    /// Overlays these changes with `other`.
    pub fn extend_ref(&mut self, other: &Self)
        requires
            old(self).wf(),
            other.wf(),
        ensures
            final(self).wf(),
            final(self)@ == old(self)@.extend(other@),
    {
        if other.is_deleted {
            *self = other.share();
        } else {
            extend_sorted_vec(&mut self.storage_nodes, &other.storage_nodes);
        }
    }
}

/// The changes of the account trie and of the storage tries.
#[derive(Clone, Debug, PartialEq, Eq)]
pub struct TrieUpdatesSorted {
    /// The changed nodes of the account trie, sorted by path.
    pub account_nodes: Vec<NodeUpdate>,
    /// The changes of each storage trie, by hashed address.
    pub storage_tries: B256Map<StorageTrieUpdatesSorted>,
}

/// Trie changes as maps.
#[verifier::ext_equal]
pub struct TrieUpdatesView {
    pub account_nodes: Map<Nibbles, Option<BranchNodeCompact>>,
    pub storage_tries: Map<B256, StorageTrieView>,
}

/// The view of each storage trie.
pub open spec fn storage_tries_view(
    tries: Map<B256, StorageTrieUpdatesSorted>,
) -> Map<B256, StorageTrieView> {
    Map::new(|address: B256| tries.contains_key(address), |address: B256| tries[address]@)
}

/// `tries` overlaid with `other`, trie by trie.
pub open spec fn extend_storage_tries(
    tries: Map<B256, StorageTrieView>,
    other: Map<B256, StorageTrieView>,
) -> Map<B256, StorageTrieView> {
    Map::new(
        |address: B256| tries.contains_key(address) || other.contains_key(address),
        |address: B256|
            if !other.contains_key(address) {
                tries[address]
            } else if !tries.contains_key(address) {
                other[address]
            } else {
                tries[address].extend(other[address])
            },
    )
}

impl TrieUpdatesView {
    /// No changes.
    pub open spec fn empty() -> Self {
        TrieUpdatesView { account_nodes: Map::empty(), storage_tries: Map::empty() }
    }

    /// What is said of an account node, if anything.
    pub open spec fn account_node(self, path: Nibbles) -> Option<Option<BranchNodeCompact>> {
        if self.account_nodes.contains_key(path) {
            Some(self.account_nodes[path])
        } else {
            None
        }
    }

    /// What is said of a storage node, if anything.
    pub open spec fn storage_node(
        self,
        address: B256,
        path: Nibbles,
    ) -> Option<Option<BranchNodeCompact>> {
        if self.storage_tries.contains_key(address)
            && self.storage_tries[address].storage_nodes.contains_key(path) {
            Some(self.storage_tries[address].storage_nodes[path])
        } else {
            None
        }
    }

    /// Whether a storage trie is deleted.
    pub open spec fn deleted(self, address: B256) -> bool {
        self.storage_tries.contains_key(address) && self.storage_tries[address].is_deleted
    }

    /// These changes overlaid with `other`: where both name an account node, `other` decides, and
    /// each storage trie is overlaid on its own.
    pub open spec fn extend(self, other: Self) -> Self {
        TrieUpdatesView {
            account_nodes: self.account_nodes.union_prefer_right(other.account_nodes),
            storage_tries: extend_storage_tries(self.storage_tries, other.storage_tries),
        }
    }
}

impl View for TrieUpdatesSorted {
    type V = TrieUpdatesView;

    open spec fn view(&self) -> TrieUpdatesView {
        TrieUpdatesView {
            account_nodes: node_map(self.account_nodes@),
            storage_tries: storage_tries_view(self.storage_tries@),
        }
    }
}

impl Default for TrieUpdatesSorted {
    fn default() -> (result: Self)
        ensures
            result.wf(),
            result@ == TrieUpdatesView::empty(),
    {
        let result = TrieUpdatesSorted {
            account_nodes: Vec::new(),
            storage_tries: B256Map::default(),
        };
        assert(result@.storage_tries =~= Map::empty());
        result
    }
}

impl TrieUpdatesSorted {
    /// Whether all nodes are sorted by path.
    pub open spec fn wf(self) -> bool {
        &&& nodes_sorted(self.account_nodes@)
        &&& forall|address: B256| #[trigger]
            self.storage_tries@.contains_key(address) ==> self.storage_tries@[address].wf()
    }

    /// Trie changes made of their parts.
    pub fn new(
        account_nodes: Vec<NodeUpdate>,
        storage_tries: B256Map<StorageTrieUpdatesSorted>,
    ) -> (result: Self)
        ensures
            result.account_nodes == account_nodes,
            result.storage_tries == storage_tries,
    {
        TrieUpdatesSorted { account_nodes, storage_tries }
    }

    /// Tests whether all nodes are sorted by path.
    pub fn is_sorted(&self) -> (result: bool)
        ensures
            result == self.wf(),
    {
        if !are_nodes_sorted(&self.account_nodes) {
            return false;
        }
        let addresses = b256_map_keys(&self.storage_tries);
        for i in 0..addresses.len()
            invariant
                addresses@.to_set() == self.storage_tries@.dom(),
                forall|m: int|
                    0 <= m < i ==> self.storage_tries@[#[trigger] addresses@[m]].wf(),
        {
            assert(addresses@.contains(addresses@[i as int]));
            assert(addresses@.to_set().contains(addresses@[i as int]));
            if let Some(trie) = b256_map_get(&self.storage_tries, &addresses[i]) {
                if !are_nodes_sorted(&trie.storage_nodes) {
                    assert(self.storage_tries@.contains_key(addresses@[i as int]));
                    return false;
                }
            }
        }
        assert forall|address: B256| #[trigger]
            self.storage_tries@.contains_key(address) implies self.storage_tries@[address].wf() by {
            assert(addresses@.to_set().contains(address));
            let m = choose|m: int| 0 <= m < addresses@.len() && addresses@[m] == address;
            assert(addresses@[m] == address);
        }
        true
    }

    /// Overlays these changes with `other`, whose values take precedence.
    pub fn extend_ref_and_sort(&mut self, other: &Self)
        requires
            old(self).wf(),
            other.wf(),
        ensures
            final(self).wf(),
            final(self)@ == old(self)@.extend(other@),
    {
        let ghost start = *self;
        extend_sorted_vec(&mut self.account_nodes, &other.account_nodes);
        let addresses = b256_map_keys(&other.storage_tries);
        let ghost mine = storage_tries_view(start.storage_tries@);
        let ghost theirs = storage_tries_view(other.storage_tries@);
        assert(storage_tries_view(self.storage_tries@) =~= extend_storage_tries(
            mine,
            theirs.restrict(addresses@.take(0).to_set()),
        ));
        for i in 0..addresses.len()
            invariant
                other.wf(),
                self.wf(),
                node_map(self.account_nodes@) == start@.extend(other@).account_nodes,
                addresses@.no_duplicates(),
                addresses@.to_set() == other.storage_tries@.dom(),
                mine == storage_tries_view(start.storage_tries@),
                theirs == storage_tries_view(other.storage_tries@),
                storage_tries_view(self.storage_tries@) == extend_storage_tries(
                    mine,
                    theirs.restrict(addresses@.take(i as int).to_set()),
                ),
        {
            let address = addresses[i];
            let ghost done = addresses@.take(i as int);
            proof {
                assert(addresses@.contains(address));
                assert(addresses@.to_set().contains(address));
                assert(!done.contains(address));
                crate::b256_map::lemma_take_to_set(addresses@, i as int);
            }
            let ghost before = self.storage_tries@;
            let trie = match b256_map_get(&other.storage_tries, &address) {
                Some(added) => match b256_map_remove(&mut self.storage_tries, &address) {
                    Some(existing) => {
                        let mut existing = existing;
                        existing.extend_ref(added);
                        existing
                    },
                    None => added.share(),
                },
                None => return,
            };
            proof {
                assert(storage_tries_view(before).contains_key(address) == mine.contains_key(
                    address,
                ));
                assert(mine.contains_key(address) ==> storage_tries_view(before)[address]
                    == mine[address]);
            }
            assert(trie@ == extend_storage_tries(mine, theirs)[address]);
            b256_map_insert(&mut self.storage_tries, address, trie);
            assert(storage_tries_view(self.storage_tries@) =~= storage_tries_view(before).insert(
                address,
                trie@,
            ));
            assert(storage_tries_view(self.storage_tries@) =~= extend_storage_tries(
                mine,
                theirs.restrict(addresses@.take(i + 1).to_set()),
            ));
        }
        assert(theirs.restrict(addresses@.take(addresses@.len() as int).to_set()) =~= theirs) by {
            assert(addresses@.take(addresses@.len() as int) =~= addresses@);
        }
    }
}

/// The changesets of consecutive blocks, the oldest block first, accumulated from the newest block
/// to the oldest.
pub open spec fn accumulated_changesets(changesets: Seq<TrieUpdatesView>) -> TrieUpdatesView
    decreases changesets.len(),
{
    if changesets.len() == 0 {
        TrieUpdatesView::empty()
    } else {
        accumulated_changesets(changesets.drop_first()).extend(changesets.first())
    }
}

/// What the oldest of the blocks that changed an account node recorded of it. The blocks come the
/// oldest first.
pub open spec fn oldest_account_node(
    changesets: Seq<TrieUpdatesView>,
    path: Nibbles,
) -> Option<Option<BranchNodeCompact>>
    decreases changesets.len(),
{
    if changesets.len() == 0 {
        None
    } else if changesets.first().account_node(path) is Some {
        changesets.first().account_node(path)
    } else {
        oldest_account_node(changesets.drop_first(), path)
    }
}

/// What the oldest of the blocks that changed a storage node recorded of it. A block that deleted
/// the trie says of every node what it was, so newer blocks are not asked.
pub open spec fn oldest_storage_node(
    changesets: Seq<TrieUpdatesView>,
    address: B256,
    path: Nibbles,
) -> Option<Option<BranchNodeCompact>>
    decreases changesets.len(),
{
    if changesets.len() == 0 {
        None
    } else if changesets.first().storage_node(address, path) is Some || changesets.first().deleted(
        address,
    ) {
        changesets.first().storage_node(address, path)
    } else {
        oldest_storage_node(changesets.drop_first(), address, path)
    }
}

/// Accumulating one more block, older than the rest, overlays what is there with its changesets.
pub proof fn lemma_accumulated_changesets_grow(
    changesets: Seq<TrieUpdatesView>,
    older: TrieUpdatesView,
)
    ensures
        accumulated_changesets(seq![older] + changesets) == accumulated_changesets(
            changesets,
        ).extend(older),
{
    assert((seq![older] + changesets).drop_first() =~= changesets);
}

/// In accumulated changesets older values take precedence: of each node they say what the oldest
/// block that changed it recorded.
pub proof fn lemma_accumulated_changesets_are_oldest(
    changesets: Seq<TrieUpdatesView>,
    address: B256,
    path: Nibbles,
)
    ensures
        accumulated_changesets(changesets).account_node(path) == oldest_account_node(
            changesets,
            path,
        ),
        accumulated_changesets(changesets).storage_node(address, path) == oldest_storage_node(
            changesets,
            address,
            path,
        ),
    decreases changesets.len(),
{
    if changesets.len() > 0 {
        lemma_accumulated_changesets_are_oldest(changesets.drop_first(), address, path);
    }
}

/// Overlaying is associative, and no changes are neutral.
pub proof fn lemma_overlaying_updates_is_associative(
    x: TrieUpdatesView,
    y: TrieUpdatesView,
    z: TrieUpdatesView,
)
    ensures
        x.extend(y).extend(z) == x.extend(y.extend(z)),
        x.extend(TrieUpdatesView::empty()) == x,
        TrieUpdatesView::empty().extend(x) == x,
{
    assert forall|address: B256| #[trigger]
        x.extend(y).extend(z).storage_tries.contains_key(address) implies x.extend(y).extend(
        z,
    ).storage_tries[address] == x.extend(y.extend(z)).storage_tries[address] by {
        if x.storage_tries.contains_key(address) && y.storage_tries.contains_key(address)
            && z.storage_tries.contains_key(address) {
            let (a, b, c) = (
                x.storage_tries[address],
                y.storage_tries[address],
                z.storage_tries[address],
            );
            assert(a.extend(b).extend(c) =~= a.extend(b.extend(c)));
        }
    }
    assert(x.extend(y).extend(z) =~= x.extend(y.extend(z)));
    assert(x.extend(TrieUpdatesView::empty()) =~= x);
    assert(TrieUpdatesView::empty().extend(x) =~= x);
}

/// The accumulated changesets of a range are those of its newer part, overlaid with those of its
/// older part.
pub proof fn lemma_accumulated_changesets_split(
    older: Seq<TrieUpdatesView>,
    newer: Seq<TrieUpdatesView>,
)
    ensures
        accumulated_changesets(older + newer) == accumulated_changesets(newer).extend(
            accumulated_changesets(older),
        ),
    decreases older.len(),
{
    if older.len() == 0 {
        assert(older + newer =~= newer);
        lemma_overlaying_updates_is_associative(
            accumulated_changesets(newer),
            TrieUpdatesView::empty(),
            TrieUpdatesView::empty(),
        );
    } else {
        assert((older + newer).drop_first() =~= older.drop_first() + newer);
        lemma_accumulated_changesets_split(older.drop_first(), newer);
        lemma_overlaying_updates_is_associative(
            accumulated_changesets(newer),
            accumulated_changesets(older.drop_first()),
            older.first(),
        );
    }
}

} // verus!
