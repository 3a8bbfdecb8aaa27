//! Hash maps keyed by 32-byte hashes.
//!
//! [`B256Map`] comes from `alloy_primitives`: a `std` hash map whose keys are [`B256`] values and
//! whose hasher is tuned for fixed-size byte strings. The functions here are the operations that
//! this crate performs on such maps. Their contracts speak of the map's view, a mathematical map
//! from hashes to values.

use alloy_primitives::map::B256Map;
use alloy_primitives::B256;
use vstd::prelude::*;

verus! {

/// `alloy_primitives::FixedBytes`, a byte string of fixed length. A value of it is carried around
/// and compared as a whole; its bytes are not modelled.
#[verifier::external_type_specification]
#[verifier::external_body]
pub struct ExFixedBytes<const N: usize>(alloy_primitives::FixedBytes<N>);

/// `alloy_primitives::map::FbBuildHasher`, the hasher of a [`B256Map`].
#[verifier::external_type_specification]
#[verifier::external_body]
pub struct ExFbBuildHasher<const N: usize>(alloy_primitives::map::FbBuildHasher<N>);

/// Calls `B256Map::get`: the value that the map holds for `key`, if it holds one.
#[verifier::external_body]
pub(crate) fn b256_map_get<'a, V>(map: &'a B256Map<V>, key: &B256) -> (value: Option<&'a V>)
    ensures
        value is Some <==> map@.contains_key(*key),
        value matches Some(v) ==> *v == map@[*key],
{
    map.get(key)
}

/// Calls `B256Map::insert`: afterwards the map holds `value` for `key` and is unchanged elsewhere.
/// The result is the value that `key` had before, if it had one.
#[verifier::external_body]
pub(crate) fn b256_map_insert<V>(map: &mut B256Map<V>, key: B256, value: V) -> (replaced: Option<V>)
    ensures
        final(map)@ == old(map)@.insert(key, value),
        replaced is Some <==> old(map)@.contains_key(key),
        replaced matches Some(v) ==> v == old(map)@[key],
{
    map.insert(key, value)
}

/// Calls `B256Map::remove`: afterwards the map holds nothing for `key` and is unchanged elsewhere.
/// The result is the value that `key` had before, if it had one.
#[verifier::external_body]
pub(crate) fn b256_map_remove<V>(map: &mut B256Map<V>, key: &B256) -> (removed: Option<V>)
    ensures
        final(map)@ == old(map)@.remove(*key),
        removed is Some <==> old(map)@.contains_key(*key),
        removed matches Some(v) ==> v == old(map)@[*key],
{
    map.remove(key)
}

/// Calls `B256Map::len`: the number of keys.
#[verifier::external_body]
pub(crate) fn b256_map_len<V>(map: &B256Map<V>) -> (len: usize)
    ensures
        len == map@.dom().len(),
{
    map.len()
}

/// Calls `B256Map::keys`: every key of the map once, in an order that is not specified.
#[verifier::external_body]
pub(crate) fn b256_map_keys<V>(map: &B256Map<V>) -> (keys: Vec<B256>)
    ensures
        keys@.no_duplicates(),
        keys@.to_set() == map@.dom(),
{
    map.keys().copied().collect()
}

/// Overlays `target` with `other`: the value of `other` wins where both hold a key.
pub fn extend_b256_map<V: Copy>(target: &mut B256Map<V>, other: &B256Map<V>)
    ensures
        final(target)@ == old(target)@.union_prefer_right(other@),
{
    let keys = b256_map_keys(other);
    let ghost start = target@;
    assert(start =~= start.union_prefer_right(other@.restrict(keys@.take(0).to_set())));
    for i in 0..keys.len()
        invariant
            keys@.to_set() == other@.dom(),
            target@ == start.union_prefer_right(other@.restrict(keys@.take(i as int).to_set())),
    {
        proof {
            assert(keys@.contains(keys@[i as int]));
            assert(keys@.to_set().contains(keys@[i as int]));
            lemma_take_to_set(keys@, i as int);
        }
        if let Some(value) = b256_map_get(other, &keys[i]) {
            b256_map_insert(target, keys[i], *value);
        }
        assert(target@ =~= start.union_prefer_right(
            other@.restrict(keys@.take(i + 1).to_set()),
        ));
    }
    assert(other@.restrict(keys@.take(keys@.len() as int).to_set()) =~= other@) by {
        assert(keys@.take(keys@.len() as int) =~= keys@);
    }
}

/// Walking one step further along a sequence of keys adds one key to those seen.
pub(crate) proof fn lemma_take_to_set(keys: Seq<B256>, i: int)
    requires
        0 <= i < keys.len(),
    ensures
        keys.take(i + 1).to_set() == keys.take(i).to_set().insert(keys[i]),
{
    let before = keys.take(i);
    let after = keys.take(i + 1);
    assert forall|key: B256| after.to_set().contains(key) == before.to_set().insert(
        keys[i],
    ).contains(key) by {
        if after.contains(key) && key != keys[i] {
            let m = choose|m: int| 0 <= m < after.len() && after[m] == key;
            assert(before[m] == key);
        }
        if before.contains(key) {
            let m = choose|m: int| 0 <= m < before.len() && before[m] == key;
            assert(after[m] == key);
        }
        assert(after[i] == keys[i]);
    }
    assert(after.to_set() =~= before.to_set().insert(keys[i]));
}

} // verus!
