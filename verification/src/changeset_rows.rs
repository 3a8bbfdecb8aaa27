//! Rows of the changeset segments of static files.
//!
//! The fixed-size key fields come first and are written as they are, so that rows can be sought by
//! them. Only what comes behind them is encoded compactly.

use crate::compact::{
    account_from_compact, account_to_compact, can_read_account, u256_from_compact, u256_to_compact,
};
use crate::hashed_state::Account;
use crate::primitives::{Address, Word, U256};
use vstd::prelude::*;
use vstd::slice::slice_subrange;
use vstd::string::{StrSliceExecFns, StringExecFns};

verus! {

/// A changeset row is shorter than every row of its segment.
///
/// A row of that kind comes of a torn read of a static file while rows are appended to it, so the
/// read can be tried again.
#[derive(Clone, Copy, Debug, PartialEq, Eq)]
pub struct TruncatedChangesetRow {
    /// The segment that the row belongs to.
    pub segment: &'static str,
    /// The length of the row.
    pub len: usize,
    /// The length of the shortest row of the segment.
    pub min: usize,
}

/// A number in decimal.
pub open spec fn decimal(number: nat) -> Seq<char>
    decreases number,
{
    if number < 10 {
        seq!["0123456789"@[number as int]]
    } else {
        decimal(number / 10).push("0123456789"@[(number % 10) as int])
    }
}

/// Appends a number in decimal.
fn append_decimal(text: &mut String, number: usize)
    ensures
        final(text)@ == old(text)@ + decimal(number as nat),
    decreases number,
{
    proof {
        reveal_strlit("0123456789");
    }
    if number >= 10 {
        append_decimal(text, number / 10);
    }
    let digit: usize = number % 10;
    text.append("0123456789".substring_char(digit, digit + 1));
    assert(text@ =~= old(text)@ + decimal(number as nat));
}

impl TruncatedChangesetRow {
    /// The error in words.
    pub fn message(&self) -> (text: String)
        ensures
            text@ == "truncated "@ + self.segment@ + " changeset row: buffer length "@ + decimal(
                self.len as nat,
            ) + " is below the structural minimum "@ + decimal(self.min as nat)
                + " (likely a torn read of a static file being concurrently appended)"@,
    {
        let mut text: String = String::from_str("truncated ");
        text.append(self.segment);
        text.append(" changeset row: buffer length ");
        append_decimal(&mut text, self.len);
        text.append(" is below the structural minimum ");
        append_decimal(&mut text, self.min);
        text.append(" (likely a torn read of a static file being concurrently appended)");
        text
    }
}

/// Copies the first 20 bytes.
fn address_at_start(bytes: &[u8]) -> (address: Address)
    requires
        bytes@.len() >= 20,
    ensures
        address@ == bytes@.take(20),
{
    let mut address: Address = [0u8; 20];
    for i in 0..20usize
        invariant
            bytes@.len() >= 20,
            forall|m: int| 0 <= m < i ==> address@[m] == bytes@[m],
    {
        address[i] = bytes[i];
    }
    assert(address@ =~= bytes@.take(20));
    address
}

/// Copies the first 32 bytes.
fn word_at_start(bytes: &[u8]) -> (word: Word)
    requires
        bytes@.len() >= 32,
    ensures
        word@ == bytes@.take(32),
{
    let mut word: Word = [0u8; 32];
    for i in 0..32usize
        invariant
            bytes@.len() >= 32,
            forall|m: int| 0 <= m < i ==> word@[m] == bytes@[m],
    {
        word[i] = bytes[i];
    }
    assert(word@ =~= bytes@.take(32));
    word
}

/// The length of the shortest row of an account: its address alone.
pub const ACCOUNT_BEFORE_TX_MIN_LEN: usize = 20;

/// An account as it was before a transaction.
#[derive(Clone, Debug, PartialEq, Eq)]
pub struct AccountBeforeTx {
    /// The address of the account. It is the subkey of the row.
    pub address: Address,
    /// The account, or `None` if it did not exist.
    pub info: Option<Account>,
}

/// The encoding of an account, or nothing if there is none.
pub open spec fn info_encoding(info: Option<Account>) -> Seq<u8> {
    match info {
        Some(account) => crate::compact::account_encoding(account),
        None => Seq::empty(),
    }
}

impl Default for AccountBeforeTx {
    fn default() -> (row: Self)
        ensures
            row.address@ == Seq::new(20, |i: int| 0u8),
            row.info is None,
    {
        let row = AccountBeforeTx { address: [0u8; 20], info: None };
        assert(row.address@ =~= Seq::new(20, |i: int| 0u8));
        row
    }
}

impl AccountBeforeTx {
    /// The bytes of the row.
    pub open spec fn encoding(self) -> Seq<u8> {
        self.address@ + info_encoding(self.info)
    }

    /// Whether a row of `len` bytes can be read at the start of `bytes`.
    pub open spec fn readable(bytes: Seq<u8>, len: int) -> bool {
        &&& ACCOUNT_BEFORE_TX_MIN_LEN <= len
        &&& ACCOUNT_BEFORE_TX_MIN_LEN <= bytes.len()
        &&& len > ACCOUNT_BEFORE_TX_MIN_LEN ==> crate::compact::account_readable(bytes.skip(20))
    }

    /// Whether this is the row of `len` bytes that is read at the start of `bytes`. Where the row
    /// has no bytes behind the address, there is no account.
    pub open spec fn read_from(self, bytes: Seq<u8>, len: int) -> bool {
        &&& self.address@ == bytes.take(20)
        &&& match self.info {
            Some(account) => len > 20 && crate::compact::account_read(bytes.skip(20), account),
            None => len == 20,
        }
    }

    /// How many bytes reading a row of `len` bytes takes from the start of `bytes`.
    pub open spec fn read_len(bytes: Seq<u8>, len: int) -> int {
        if len > 20 {
            20 + crate::compact::account_len(bytes.skip(20))
        } else {
            20
        }
    }

    /// The key by which rows of one block are sought.
    pub fn get_subkey(&self) -> (subkey: Address)
        ensures
            subkey == self.address,
    {
        self.address
    }

    /// Appends the row to `buf` and returns its length.
    pub fn to_compact(&self, buf: &mut Vec<u8>) -> (len: usize)
        ensures
            final(buf)@ == old(buf)@ + self.encoding(),
            len == self.encoding().len(),
    {
        buf.extend_from_slice(self.address.as_slice());
        assert(buf@ =~= old(buf)@ + self.address@);
        let account_len: usize = match &self.info {
            Some(account) => {
                proof {
                    crate::compact::lemma_account_encoding_is_short(*account);
                }
                account_to_compact(account, buf)
            },
            None => 0,
        };
        assert(buf@ =~= old(buf)@ + self.encoding());
        account_len + 20
    }

    /// Reads a row of `len` bytes from the start of `buf`, and returns it with the bytes behind it.
    pub fn from_compact(buf: &[u8], len: usize) -> (read: (Self, &[u8]))
        requires
            AccountBeforeTx::readable(buf@, len as int),
        ensures
            read.0.read_from(buf@, len as int),
            read.1@ == buf@.skip(AccountBeforeTx::read_len(buf@, len as int)),
    {
        let address = address_at_start(buf);
        let rest = slice_subrange(buf, 20, buf.len());
        assert(rest@ =~= buf@.skip(20));
        if len - 20 > 0 {
            let (account, behind) = account_from_compact(rest, len - 20);
            assert(behind@ =~= buf@.skip(AccountBeforeTx::read_len(buf@, len as int)));
            (AccountBeforeTx { address, info: Some(account) }, behind)
        } else {
            (AccountBeforeTx { address, info: None }, rest)
        }
    }

    /// Appends the row to `buf`.
    pub fn compress_to_buf(&self, buf: &mut Vec<u8>)
        ensures
            final(buf)@ == old(buf)@ + self.encoding(),
    {
        let _ = self.to_compact(buf);
    }

    /// The bytes of the row.
    pub fn compress(&self) -> (bytes: Vec<u8>)
        ensures
            bytes@ == self.encoding(),
    {
        let mut bytes: Vec<u8> = Vec::new();
        self.compress_to_buf(&mut bytes);
        assert(bytes@ =~= self.encoding());
        bytes
    }

    /// Whether [`Self::decompress`] may be called: bytes that are long enough have to hold an
    /// account behind the address, or nothing.
    pub fn can_decompress(value: &[u8]) -> (result: bool)
        ensures
            result == (value@.len() < ACCOUNT_BEFORE_TX_MIN_LEN || AccountBeforeTx::readable(
                value@,
                value@.len() as int,
            )),
    {
        if value.len() <= ACCOUNT_BEFORE_TX_MIN_LEN {
            return true;
        }
        let rest = slice_subrange(value, 20, value.len());
        assert(rest@ =~= value@.skip(20));
        can_read_account(rest)
    }

    /// Reads a row that takes the whole of `value`. Bytes that are shorter than every row are
    /// refused.
    pub fn decompress(value: &[u8]) -> (result: Result<Self, TruncatedChangesetRow>)
        requires
            value@.len() < ACCOUNT_BEFORE_TX_MIN_LEN || AccountBeforeTx::readable(
                value@,
                value@.len() as int,
            ),
        ensures
            match result {
                Ok(row) => {
                    &&& value@.len() >= ACCOUNT_BEFORE_TX_MIN_LEN
                    &&& row.read_from(value@, value@.len() as int)
                },
                Err(error) => {
                    &&& value@.len() < ACCOUNT_BEFORE_TX_MIN_LEN
                    &&& error.segment@ == "AccountChangeSets"@
                    &&& error.len == value@.len()
                    &&& error.min == ACCOUNT_BEFORE_TX_MIN_LEN
                },
            },
    {
        if value.len() < ACCOUNT_BEFORE_TX_MIN_LEN {
            return Err(
                TruncatedChangesetRow {
                    segment: "AccountChangeSets",
                    len: value.len(),
                    min: ACCOUNT_BEFORE_TX_MIN_LEN,
                },
            );
        }
        let (row, _) = AccountBeforeTx::from_compact(value, value.len());
        Ok(row)
    }
}

/// The length of the shortest row of a storage slot: its address and its key.
pub const STORAGE_BEFORE_TX_MIN_LEN: usize = 52;

/// A storage slot as it was before a transaction.
#[derive(Clone, Copy, Debug, PartialEq, Eq)]
pub struct StorageBeforeTx {
    /// The address of the account.
    pub address: Address,
    /// The key of the slot. It is the subkey of the row.
    pub key: Word,
    /// The value of the slot.
    pub value: U256,
}

impl Default for StorageBeforeTx {
    fn default() -> (row: Self)
        ensures
            row.address@ == Seq::new(20, |i: int| 0u8),
            row.key@ == Seq::new(32, |i: int| 0u8),
            row.value.be_bytes@ == Seq::new(32, |i: int| 0u8),
    {
        let row = StorageBeforeTx {
            address: [0u8; 20],
            key: [0u8; 32],
            value: U256 { be_bytes: [0u8; 32] },
        };
        assert(row.address@ =~= Seq::new(20, |i: int| 0u8));
        assert(row.key@ =~= Seq::new(32, |i: int| 0u8));
        assert(row.value.be_bytes@ =~= Seq::new(32, |i: int| 0u8));
        row
    }
}

impl StorageBeforeTx {
    /// The bytes of the row.
    pub open spec fn encoding(self) -> Seq<u8> {
        self.address@ + self.key@ + crate::compact::minimal_be(self.value@)
    }

    /// Whether a row of `len` bytes can be read at the start of `bytes`: no value is longer than 32
    /// bytes, and the bytes are all there.
    pub open spec fn readable(bytes: Seq<u8>, len: int) -> bool {
        STORAGE_BEFORE_TX_MIN_LEN <= len <= STORAGE_BEFORE_TX_MIN_LEN + 32 && len <= bytes.len()
    }

    /// Whether this is the row of `len` bytes that is read at the start of `bytes`.
    pub open spec fn read_from(self, bytes: Seq<u8>, len: int) -> bool {
        &&& self.address@ == bytes.take(20)
        &&& self.key@ == bytes.subrange(20, 52)
        &&& self.value@ == crate::primitives::be_value(bytes.subrange(52, len))
    }

    /// The key by which rows of one account are sought.
    pub fn get_subkey(&self) -> (subkey: Word)
        ensures
            subkey == self.key,
    {
        self.key
    }

    /// Appends the row to `buf` and returns its length.
    pub fn to_compact(&self, buf: &mut Vec<u8>) -> (len: usize)
        ensures
            final(buf)@ == old(buf)@ + self.encoding(),
            len == self.encoding().len(),
    {
        buf.extend_from_slice(self.address.as_slice());
        buf.extend_from_slice(self.key.as_slice());
        assert(buf@ =~= old(buf)@ + self.address@ + self.key@);
        proof {
            crate::compact::lemma_minimal_be_is_short(self.value.be_bytes@);
        }
        let value_len: usize = u256_to_compact(&self.value, buf);
        assert(buf@ =~= old(buf)@ + self.encoding());
        value_len + 52
    }

    /// Reads a row of `len` bytes from the start of `buf`, and returns it with the bytes behind it.
    pub fn from_compact(buf: &[u8], len: usize) -> (read: (Self, &[u8]))
        requires
            StorageBeforeTx::readable(buf@, len as int),
        ensures
            read.0.read_from(buf@, len as int),
            read.1@ == buf@.skip(len as int),
    {
        let address = address_at_start(buf);
        let key = word_at_start(slice_subrange(buf, 20, buf.len()));
        assert(key@ =~= buf@.subrange(20, 52));
        let (value, behind) = u256_from_compact(slice_subrange(buf, 52, buf.len()), len - 52);
        assert(buf@.subrange(52, buf@.len() as int).take(len - 52) =~= buf@.subrange(
            52,
            len as int,
        ));
        assert(behind@ =~= buf@.skip(len as int));
        (StorageBeforeTx { address, key, value }, behind)
    }

    /// Appends the row to `buf`.
    pub fn compress_to_buf(&self, buf: &mut Vec<u8>)
        ensures
            final(buf)@ == old(buf)@ + self.encoding(),
    {
        let _ = self.to_compact(buf);
    }

    /// The bytes of the row.
    pub fn compress(&self) -> (bytes: Vec<u8>)
        ensures
            bytes@ == self.encoding(),
    {
        let mut bytes: Vec<u8> = Vec::new();
        self.compress_to_buf(&mut bytes);
        assert(bytes@ =~= self.encoding());
        bytes
    }

    /// Whether [`Self::decompress`] may be called: no row is so long that its value would not fit.
    pub fn can_decompress(value: &[u8]) -> (result: bool)
        ensures
            result == (value@.len() < STORAGE_BEFORE_TX_MIN_LEN || StorageBeforeTx::readable(
                value@,
                value@.len() as int,
            )),
    {
        value.len() <= STORAGE_BEFORE_TX_MIN_LEN + 32
    }

    /// Reads a row that takes the whole of `value`. Bytes that are shorter than every row are
    /// refused.
    pub fn decompress(value: &[u8]) -> (result: Result<Self, TruncatedChangesetRow>)
        requires
            value@.len() < STORAGE_BEFORE_TX_MIN_LEN || StorageBeforeTx::readable(
                value@,
                value@.len() as int,
            ),
        ensures
            match result {
                Ok(row) => {
                    &&& value@.len() >= STORAGE_BEFORE_TX_MIN_LEN
                    &&& row.read_from(value@, value@.len() as int)
                },
                Err(error) => {
                    &&& value@.len() < STORAGE_BEFORE_TX_MIN_LEN
                    &&& error.segment@ == "StorageChangeSets"@
                    &&& error.len == value@.len()
                    &&& error.min == STORAGE_BEFORE_TX_MIN_LEN
                },
            },
    {
        if value.len() < STORAGE_BEFORE_TX_MIN_LEN {
            return Err(
                TruncatedChangesetRow {
                    segment: "StorageChangeSets",
                    len: value.len(),
                    min: STORAGE_BEFORE_TX_MIN_LEN,
                },
            );
        }
        let (row, _) = StorageBeforeTx::from_compact(value, value.len());
        Ok(row)
    }
}

/// Every account row comes back from its bytes: they can be read, what is read is the row, and no
/// byte is left over.
pub proof fn lemma_account_row_comes_back(row: AccountBeforeTx)
    ensures
        AccountBeforeTx::readable(row.encoding(), row.encoding().len() as int),
        row.read_from(row.encoding(), row.encoding().len() as int),
        AccountBeforeTx::read_len(row.encoding(), row.encoding().len() as int)
            == row.encoding().len(),
        forall|read: AccountBeforeTx| #[trigger]
            read.read_from(row.encoding(), row.encoding().len() as int) ==> read == row,
{
    let bytes = row.encoding();
    let len = bytes.len() as int;
    assert(bytes.take(20) =~= row.address@);
    assert(bytes.skip(20) =~= info_encoding(row.info));
    if let Some(account) = row.info {
        crate::compact::lemma_account_comes_back(account, Seq::empty());
        crate::compact::lemma_account_encoding_is_short(account);
        assert(bytes.skip(20) =~= crate::compact::account_encoding(account) + Seq::<u8>::empty());
    }
    assert forall|read: AccountBeforeTx| #[trigger] read.read_from(bytes, len) implies read
        == row by {
        assert(read.address =~= row.address);
    }
}

/// Every storage row comes back from its bytes: they can be read, and what is read is the row.
pub proof fn lemma_storage_row_comes_back(row: StorageBeforeTx)
    ensures
        StorageBeforeTx::readable(row.encoding(), row.encoding().len() as int),
        row.read_from(row.encoding(), row.encoding().len() as int),
        forall|read: StorageBeforeTx| #[trigger]
            read.read_from(row.encoding(), row.encoding().len() as int) ==> read == row,
{
    let bytes = row.encoding();
    let len = bytes.len() as int;
    crate::compact::lemma_minimal_be_is_short(row.value.be_bytes@);
    crate::compact::lemma_minimal_be_spells(row.value@);
    assert(bytes.take(20) =~= row.address@);
    assert(bytes.subrange(20, 52) =~= row.key@);
    assert(bytes.subrange(52, len) =~= crate::compact::minimal_be(row.value@));
    assert forall|read: StorageBeforeTx| #[trigger] read.read_from(bytes, len) implies read
        == row by {
        assert(read.address =~= row.address);
        assert(read.key =~= row.key);
        crate::compact::lemma_u256_is_its_value(read.value, row.value);
    }
}

/// No account row is shorter than the address, and rows of that length are those without an
/// account. The address is at the start, as it is.
pub proof fn lemma_account_rows_start_with_the_subkey(row: AccountBeforeTx)
    ensures
        row.encoding().len() >= ACCOUNT_BEFORE_TX_MIN_LEN,
        row.encoding().len() == ACCOUNT_BEFORE_TX_MIN_LEN <==> row.info is None,
        row.encoding().take(20) == row.address@,
{
    assert(row.encoding().take(20) =~= row.address@);
    if let Some(account) = row.info {
        crate::compact::lemma_account_encoding_is_short(account);
    }
}

/// No storage row is shorter than the address and the key, and rows of that length are those with
/// the value zero. The address and the key are at the start, as they are.
pub proof fn lemma_storage_rows_start_with_the_keys(row: StorageBeforeTx)
    ensures
        row.encoding().len() >= STORAGE_BEFORE_TX_MIN_LEN,
        row.encoding().len() == STORAGE_BEFORE_TX_MIN_LEN <==> row.value@ == 0,
        row.encoding().take(20) == row.address@,
        row.encoding().subrange(20, 52) == row.key@,
{
    assert(row.encoding().take(20) =~= row.address@);
    assert(row.encoding().subrange(20, 52) =~= row.key@);
}

} // verus!
