//! The compact encoding of numbers and accounts.
//!
//! `reth_codecs` defines and performs the encoding. Numbers are written most significant byte
//! first, without leading zero bytes, so their length has to be known to read them. An account
//! starts with two bytes that hold the lengths of its fields.

use crate::hashed_state::Account;
use crate::primitives::{Word, U256};
use reth_codecs::Compact;
use vstd::prelude::*;

verus! {

/// The bytes of a number, most significant byte first, without leading zero bytes.
pub open spec fn minimal_be(value: nat) -> Seq<u8>
    decreases value,
{
    if value == 0 {
        Seq::empty()
    } else {
        minimal_be(value / 256).push((value % 256) as u8)
    }
}

/// Calls `<alloy_primitives::U256 as reth_codecs::Compact>::to_compact`: appends the bytes of the
/// number without leading zero bytes, and returns how many these are.
#[verifier::external_body]
pub(crate) fn u256_to_compact(value: &U256, buf: &mut Vec<u8>) -> (len: usize)
    ensures
        final(buf)@ == old(buf)@ + minimal_be(value@),
        len == minimal_be(value@).len(),
{
    alloy_primitives::U256::from_be_bytes(value.be_bytes).to_compact(buf)
}

/// Calls `<alloy_primitives::U256 as reth_codecs::Compact>::from_compact`: reads a number from the
/// first `len` bytes, and returns it with the bytes behind them.
#[verifier::external_body]
pub(crate) fn u256_from_compact(buf: &[u8], len: usize) -> (read: (U256, &[u8]))
    requires
        len <= 32,
        len <= buf@.len(),
    ensures
        read.0@ == crate::primitives::be_value(buf@.take(len as int)),
        read.1@ == buf@.skip(len as int),
{
    let (value, rest) = alloy_primitives::U256::from_compact(buf, len);
    (U256 { be_bytes: value.to_be_bytes() }, rest)
}

/// The bytes of a code hash, if there is one.
pub open spec fn hash_bytes(hash: Option<Word>) -> Seq<u8> {
    match hash {
        Some(hash) => hash@,
        None => Seq::empty(),
    }
}

/// The encoding of an account. The lengths of the nonce and of the balance, and whether there is a
/// code hash, take four bits, six bits and one bit of the two leading bytes, from the lowest bit of
/// the first byte on.
pub open spec fn account_encoding(account: Account) -> Seq<u8> {
    let nonce = minimal_be(account.nonce as nat);
    let balance = minimal_be(account.balance@);
    let hash = hash_bytes(account.bytecode_hash);
    seq![
        (nonce.len() + 16 * (balance.len() % 16)) as u8,
        (balance.len() / 16 + if account.bytecode_hash is Some {
            4int
        } else {
            0int
        }) as u8,
    ] + nonce + balance + hash
}

/// How many bytes the nonce takes, as the leading bytes of an account say.
pub open spec fn nonce_len(bytes: Seq<u8>) -> int {
    bytes[0] as int % 16
}

/// How many bytes the balance takes, as the leading bytes of an account say.
pub open spec fn balance_len(bytes: Seq<u8>) -> int {
    bytes[0] as int / 16 + 16 * (bytes[1] as int % 4)
}

/// Whether there is a code hash, as the leading bytes of an account say.
pub open spec fn has_hash(bytes: Seq<u8>) -> bool {
    bytes[1] as int / 4 % 2 == 1
}

/// How many bytes an account takes, as its leading bytes say.
pub open spec fn account_len(bytes: Seq<u8>) -> int {
    2 + nonce_len(bytes) + balance_len(bytes) + if has_hash(bytes) {
        32int
    } else {
        0int
    }
}

/// Whether an account can be read from `bytes`: its leading bytes give lengths that the fields can
/// have, and the bytes are all there.
pub open spec fn account_readable(bytes: Seq<u8>) -> bool {
    &&& 2 <= bytes.len()
    &&& nonce_len(bytes) <= 8
    &&& balance_len(bytes) <= 32
    &&& account_len(bytes) <= bytes.len()
}

/// Whether `account` is what is read from `bytes`.
pub open spec fn account_read(bytes: Seq<u8>, account: Account) -> bool {
    let nonce_end = 2 + nonce_len(bytes);
    let balance_end = nonce_end + balance_len(bytes);
    &&& account.nonce == crate::primitives::be_value(bytes.subrange(2, nonce_end))
    &&& account.balance@ == crate::primitives::be_value(bytes.subrange(nonce_end, balance_end))
    &&& match account.bytecode_hash {
        Some(hash) => has_hash(bytes) && hash@ == bytes.subrange(balance_end, balance_end + 32),
        None => !has_hash(bytes),
    }
}

/// Calls `<reth_primitives_traits::Account as reth_codecs::Compact>::to_compact`: appends the
/// encoding of the account, and returns its length.
#[verifier::external_body]
pub(crate) fn account_to_compact(account: &Account, buf: &mut Vec<u8>) -> (len: usize)
    ensures
        final(buf)@ == old(buf)@ + account_encoding(*account),
        len == account_encoding(*account).len(),
{
    reth_primitives_traits::Account {
        nonce: account.nonce,
        balance: alloy_primitives::U256::from_be_bytes(account.balance.be_bytes),
        bytecode_hash: account.bytecode_hash.map(alloy_primitives::B256::new),
    }.to_compact(buf)
}

/// Calls `<reth_primitives_traits::Account as reth_codecs::Compact>::from_compact`: reads an
/// account, and returns it with the bytes behind it. Where the account ends, its leading bytes say;
/// `len` has no influence.
#[verifier::external_body]
pub(crate) fn account_from_compact(buf: &[u8], len: usize) -> (read: (Account, &[u8]))
    requires
        account_readable(buf@),
    ensures
        account_read(buf@, read.0),
        read.1@ == buf@.skip(account_len(buf@)),
{
    let (account, rest) = reth_primitives_traits::Account::from_compact(buf, len);
    let balance = U256 { be_bytes: account.balance.to_be_bytes() };
    let bytecode_hash = account.bytecode_hash.map(|hash| hash.0);
    (Account { nonce: account.nonce, balance, bytecode_hash }, rest)
}

/// Whether an account can be read from `bytes`.
pub fn can_read_account(bytes: &[u8]) -> (result: bool)
    ensures
        result == account_readable(bytes@),
{
    if bytes.len() < 2 {
        return false;
    }
    let nonce: usize = (bytes[0] % 16) as usize;
    let balance: usize = (bytes[0] / 16) as usize + 16 * (bytes[1] % 4) as usize;
    let hash: usize = if bytes[1] / 4 % 2 == 1 {
        32
    } else {
        0
    };
    nonce <= 8 && balance <= 32 && 2 + nonce + balance + hash <= bytes.len()
}

/// A number comes back from its bytes.
pub proof fn lemma_minimal_be_spells(value: nat)
    ensures
        crate::primitives::be_value(minimal_be(value)) == value,
    decreases value,
{
    if value > 0 {
        lemma_minimal_be_spells(value / 256);
        assert(minimal_be(value).drop_last() =~= minimal_be(value / 256));
    }
}

/// The bytes of a number are no more than any spelling of it takes.
pub proof fn lemma_minimal_be_is_short(bytes: Seq<u8>)
    ensures
        minimal_be(crate::primitives::be_value(bytes)).len() <= bytes.len(),
    decreases bytes.len(),
{
    let value = crate::primitives::be_value(bytes);
    if bytes.len() > 0 && value > 0 {
        lemma_minimal_be_is_short(bytes.drop_last());
        assert(value / 256 == crate::primitives::be_value(bytes.drop_last()));
    }
}

/// A number that fits into some bytes takes no more than these.
proof fn lemma_minimal_be_fits(value: nat, bytes: nat)
    requires
        value < vstd::arithmetic::power::pow(256, bytes),
    ensures
        minimal_be(value).len() <= bytes,
    decreases bytes,
{
    vstd::arithmetic::power::lemma_pow0(256);
    if value > 0 {
        vstd::arithmetic::power::lemma_pow_adds(256, 1, (bytes - 1) as nat);
        vstd::arithmetic::power::lemma_pow1(256);
        assert(value / 256 < vstd::arithmetic::power::pow(256, (bytes - 1) as nat));
        lemma_minimal_be_fits(value / 256, (bytes - 1) as nat);
    }
}

/// The bytes of a nonce are at most eight.
proof fn lemma_nonce_is_short(nonce: u64)
    ensures
        minimal_be(nonce as nat).len() <= 8,
{
    assert(vstd::arithmetic::power::pow(256, 8) == 0x1_0000_0000_0000_0000) by {
        reveal_with_fuel(vstd::arithmetic::power::pow, 9);
    }
    lemma_minimal_be_fits(nonce as nat, 8);
}

/// Byte strings of one length that spell the same number are the same.
pub proof fn lemma_be_value_is_injective(x: Seq<u8>, y: Seq<u8>)
    requires
        x.len() == y.len(),
        crate::primitives::be_value(x) == crate::primitives::be_value(y),
    ensures
        x == y,
    decreases x.len(),
{
    if x.len() > 0 {
        lemma_be_value_is_injective(x.drop_last(), y.drop_last());
        assert(x =~= x.drop_last().push(x.last()));
        assert(y =~= y.drop_last().push(y.last()));
    } else {
        assert(x =~= y);
    }
}

/// Two 256-bit numbers with the same value are the same.
pub proof fn lemma_u256_is_its_value(x: U256, y: U256)
    requires
        x@ == y@,
    ensures
        x == y,
{
    lemma_be_value_is_injective(x.be_bytes@, y.be_bytes@);
    assert(x.be_bytes =~= y.be_bytes);
}

/// The encoding of an account is between two and 74 bytes long.
pub proof fn lemma_account_encoding_is_short(account: Account)
    ensures
        2 <= account_encoding(account).len() <= 74,
{
    lemma_nonce_is_short(account.nonce);
    lemma_minimal_be_is_short(account.balance.be_bytes@);
}

/// An encoded account can be read again, whatever is behind it: what is read is the account that was
/// encoded, and reading stops where its encoding ends.
pub proof fn lemma_account_comes_back(account: Account, behind: Seq<u8>)
    ensures
        account_readable(account_encoding(account) + behind),
        account_len(account_encoding(account) + behind) == account_encoding(account).len(),
        account_read(account_encoding(account) + behind, account),
        forall|read: Account| #[trigger]
            account_read(account_encoding(account) + behind, read) ==> read == account,
{
    let nonce = minimal_be(account.nonce as nat);
    let balance = minimal_be(account.balance@);
    let hash = hash_bytes(account.bytecode_hash);
    let bytes = account_encoding(account) + behind;
    lemma_nonce_is_short(account.nonce);
    lemma_minimal_be_is_short(account.balance.be_bytes@);
    lemma_minimal_be_spells(account.nonce as nat);
    lemma_minimal_be_spells(account.balance@);
    assert(nonce_len(bytes) == nonce.len());
    assert(balance_len(bytes) == balance.len());
    assert(has_hash(bytes) == account.bytecode_hash is Some);
    let nonce_end: int = 2 + nonce.len() as int;
    let balance_end: int = nonce_end + balance.len();
    assert(bytes.subrange(2, nonce_end) =~= nonce);
    assert(bytes.subrange(nonce_end, balance_end) =~= balance);
    assert(account.bytecode_hash is Some ==> bytes.subrange(balance_end, balance_end + 32) =~= hash);
    assert forall|read: Account| #[trigger] account_read(bytes, read) implies read == account by {
        lemma_u256_is_its_value(read.balance, account.balance);
        if account.bytecode_hash is Some {
            assert(read.bytecode_hash->0@ =~= account.bytecode_hash->0@);
            assert(read.bytecode_hash->0 =~= account.bytecode_hash->0);
        }
    }
}

} // verus!
