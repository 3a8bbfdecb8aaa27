//! What writing and reading changeset rows gives, in terms of the rows and of their bytes.

use crate::changeset_rows::{AccountBeforeTx, StorageBeforeTx, TruncatedChangesetRow};
use crate::primitives::{Address, Word};
use vstd::prelude::*;

verus! {

/// The bytes of an account row are the address as it is and, behind it, the encoded account, or
/// nothing where there is none. The row can be read again, and what is read is the row.
pub proof fn lemma_account_rows_are_written_and_read(
    row: AccountBeforeTx,
    bytes: Vec<u8>,
    value: &[u8],
    result: Result<AccountBeforeTx, TruncatedChangesetRow>,
)
    requires
        call_ensures(AccountBeforeTx::compress, (&row,), bytes),
        value@ == bytes@,
        call_ensures(AccountBeforeTx::decompress, (value,), result),
    ensures
        call_requires(AccountBeforeTx::decompress, (value,)),
        result == Ok::<AccountBeforeTx, TruncatedChangesetRow>(row),
        bytes@.len() >= 20,
        bytes@.take(20) == row.address@,
        bytes@.len() == 20 <==> row.info is None,
        row.info matches Some(account) ==> bytes@.skip(20) == crate::compact::account_encoding(
            account,
        ),
{
    crate::changeset_rows::lemma_account_row_comes_back(row);
    crate::changeset_rows::lemma_account_rows_start_with_the_subkey(row);
    if let Some(account) = row.info {
        assert(bytes@.skip(20) =~= crate::compact::account_encoding(account));
    }
}

/// Rows with different addresses or different accounts have different bytes.
pub proof fn lemma_account_rows_differ(
    row1: AccountBeforeTx,
    row2: AccountBeforeTx,
    bytes1: Vec<u8>,
    bytes2: Vec<u8>,
)
    requires
        call_ensures(AccountBeforeTx::compress, (&row1,), bytes1),
        call_ensures(AccountBeforeTx::compress, (&row2,), bytes2),
        bytes1@ == bytes2@,
    ensures
        row1 == row2,
{
    crate::changeset_rows::lemma_account_row_comes_back(row1);
    crate::changeset_rows::lemma_account_row_comes_back(row2);
    assert(row2.read_from(row1.encoding(), row1.encoding().len() as int));
}

/// Whether an account can be behind an address in a row: the lengths that its leading bytes give are
/// possible, and its bytes are all there.
pub open spec fn account_fits(row: Seq<u8>) -> bool {
    let nonce = row[20] as int % 16;
    let balance = row[20] as int / 16 + 16 * (row[21] as int % 4);
    let hash = 32 * (row[21] as int / 4 % 2);
    row.len() >= 22 && nonce <= 8 && balance <= 32 && 22 + nonce + balance + hash <= row.len()
}

/// Bytes are refused as an account row exactly where they are shorter than an address, and the error
/// says how long they are. Of other bytes, the first 20 are the address, and there is an account
/// exactly where bytes are behind it: its fields are what those bytes spell.
pub proof fn lemma_account_rows_that_are_read(
    value: &[u8],
    result: Result<AccountBeforeTx, TruncatedChangesetRow>,
)
    requires
        value@.len() <= 20 || account_fits(value@),
        call_ensures(AccountBeforeTx::decompress, (value,), result),
    ensures
        call_requires(AccountBeforeTx::decompress, (value,)),
        result is Err <==> value@.len() < 20,
        result matches Err(error) ==> {
            &&& error.len == value@.len()
            &&& error.min == 20
            &&& error.segment@ == "AccountChangeSets"@
        },
        result matches Ok(row) ==> {
            &&& row.address@ == value@.take(20)
            &&& row.info is None <==> value@.len() == 20
            &&& row.info matches Some(account) ==> {
                let nonce = value@[20] as int % 16;
                let balance = value@[20] as int / 16 + 16 * (value@[21] as int % 4);
                &&& account.nonce == crate::primitives::be_value(value@.subrange(22, 22 + nonce))
                &&& account.balance@ == crate::primitives::be_value(
                    value@.subrange(22 + nonce, 22 + nonce + balance),
                )
                &&& account.bytecode_hash is Some <==> value@[21] as int / 4 % 2 == 1
                &&& account.bytecode_hash is Some ==> account.bytecode_hash->0@ == value@.subrange(
                    22 + nonce + balance,
                    54 + nonce + balance,
                )
            }
        },
{
    if value@.len() > 20 {
        let behind = value@.skip(20);
        let nonce = value@[20] as int % 16;
        let balance = value@[20] as int / 16 + 16 * (value@[21] as int % 4);
        assert(behind[0] == value@[20]);
        assert(behind[1] == value@[21]);
        assert(behind.subrange(2, 2 + nonce) =~= value@.subrange(22, 22 + nonce));
        assert(behind.subrange(2 + nonce, 2 + nonce + balance) =~= value@.subrange(
            22 + nonce,
            22 + nonce + balance,
        ));
        if value@[21] as int / 4 % 2 == 1 {
            assert(behind.subrange(2 + nonce + balance, 34 + nonce + balance) =~= value@.subrange(
                22 + nonce + balance,
                54 + nonce + balance,
            ));
        }
    }
}

/// Whether an account row can be read is told for all bytes.
pub proof fn lemma_readable_account_rows(value: &[u8], result: bool)
    requires
        call_ensures(AccountBeforeTx::can_decompress, (value,), result),
    ensures
        result <==> value@.len() <= 20 || account_fits(value@),
        result ==> call_requires(AccountBeforeTx::decompress, (value,)),
{
    if value@.len() >= 22 {
        assert(value@.skip(20)[0] == value@[20]);
        assert(value@.skip(20)[1] == value@[21]);
    }
}

/// Writing an account row behind other bytes leaves those as they are. What is written is what the
/// row is by itself, and its length is returned. It is read back from between other bytes, and the
/// bytes behind it are left.
pub proof fn lemma_account_rows_among_other_bytes(
    row: AccountBeforeTx,
    alone: Vec<u8>,
    buf: &mut Vec<u8>,
    buf2: &mut Vec<u8>,
    len: usize,
    bytes: &[u8],
    read: (AccountBeforeTx, &[u8]),
)
    requires
        call_ensures(AccountBeforeTx::compress, (&row,), alone),
        call_ensures(AccountBeforeTx::to_compact, (&row, buf), len),
        call_ensures(AccountBeforeTx::compress_to_buf, (&row, buf2), ()),
        bytes@.len() >= alone@.len(),
        bytes@.take(alone@.len() as int) == alone@,
        call_ensures(AccountBeforeTx::from_compact, (bytes, len), read),
    ensures
        final(buf)@ == old(buf)@ + alone@,
        final(buf2)@ == old(buf2)@ + alone@,
        len == alone@.len(),
        call_requires(AccountBeforeTx::from_compact, (bytes, len)),
        read.0 == row,
        read.1@ == bytes@.skip(alone@.len() as int),
{
    let n = alone@.len() as int;
    let tail = bytes@.skip(n);
    assert(bytes@ =~= alone@ + tail);
    assert(bytes@.take(20) =~= row.address@);
    if let Some(account) = row.info {
        crate::compact::lemma_account_comes_back(account, tail);
        crate::compact::lemma_account_encoding_is_short(account);
        assert(bytes@.skip(20) =~= crate::compact::account_encoding(account) + tail);
    }
    assert(read.0.address@ =~= row.address@);
    assert(read.0.address =~= row.address);
}

/// The bytes of a storage row are the address and the key as they are and, behind them, bytes that
/// spell the value and do not start with a zero byte. The row can be read again, and what is read is
/// the row.
pub proof fn lemma_storage_rows_are_written_and_read(
    row: StorageBeforeTx,
    bytes: Vec<u8>,
    value: &[u8],
    result: Result<StorageBeforeTx, TruncatedChangesetRow>,
)
    requires
        call_ensures(StorageBeforeTx::compress, (&row,), bytes),
        value@ == bytes@,
        call_ensures(StorageBeforeTx::decompress, (value,), result),
    ensures
        call_requires(StorageBeforeTx::decompress, (value,)),
        result == Ok::<StorageBeforeTx, TruncatedChangesetRow>(row),
        52 <= bytes@.len() <= 84,
        bytes@.take(20) == row.address@,
        bytes@.subrange(20, 52) == row.key@,
        crate::primitives::be_value(bytes@.skip(52)) == row.value@,
        bytes@.len() > 52 ==> bytes@[52] != 0,
        bytes@.len() == 52 <==> row.value@ == 0,
{
    crate::changeset_rows::lemma_storage_row_comes_back(row);
    crate::changeset_rows::lemma_storage_rows_start_with_the_keys(row);
    crate::number_laws::lemma_numbers_are_written_without_leading_zeros(row.value@);
    assert(bytes@.skip(52) =~= crate::compact::minimal_be(row.value@));
    crate::compact::lemma_minimal_be_is_short(row.value.be_bytes@);
}

/// Rows with different addresses, keys or values have different bytes.
pub proof fn lemma_storage_rows_differ(
    row1: StorageBeforeTx,
    row2: StorageBeforeTx,
    bytes1: Vec<u8>,
    bytes2: Vec<u8>,
)
    requires
        call_ensures(StorageBeforeTx::compress, (&row1,), bytes1),
        call_ensures(StorageBeforeTx::compress, (&row2,), bytes2),
        bytes1@ == bytes2@,
    ensures
        row1 == row2,
{
    crate::changeset_rows::lemma_storage_row_comes_back(row1);
    crate::changeset_rows::lemma_storage_row_comes_back(row2);
    assert(row2.read_from(row1.encoding(), row1.encoding().len() as int));
}

/// Bytes are refused as a storage row exactly where they are shorter than an address and a key, and
/// the error says how long they are. Of other bytes, the first 20 are the address, the next 32 the
/// key, and the rest spells the value.
pub proof fn lemma_storage_rows_that_are_read(
    value: &[u8],
    result: Result<StorageBeforeTx, TruncatedChangesetRow>,
)
    requires
        value@.len() <= 84,
        call_ensures(StorageBeforeTx::decompress, (value,), result),
    ensures
        call_requires(StorageBeforeTx::decompress, (value,)),
        result is Err <==> value@.len() < 52,
        result matches Err(error) ==> {
            &&& error.len == value@.len()
            &&& error.min == 52
            &&& error.segment@ == "StorageChangeSets"@
        },
        result matches Ok(row) ==> {
            &&& row.address@ == value@.take(20)
            &&& row.key@ == value@.subrange(20, 52)
            &&& row.value@ == crate::primitives::be_value(value@.skip(52))
        },
{
    if value@.len() >= 52 {
        assert(value@.subrange(52, value@.len() as int) =~= value@.skip(52));
    }
}

/// Whether a storage row can be read is told for all bytes.
pub proof fn lemma_readable_storage_rows(value: &[u8], result: bool)
    requires
        call_ensures(StorageBeforeTx::can_decompress, (value,), result),
    ensures
        result <==> value@.len() <= 84,
        result ==> call_requires(StorageBeforeTx::decompress, (value,)),
{
}

/// Writing a storage row behind other bytes leaves those as they are. What is written is what the row
/// is by itself, and its length is returned. It is read back from between other bytes, and the bytes
/// behind it are left.
pub proof fn lemma_storage_rows_among_other_bytes(
    row: StorageBeforeTx,
    alone: Vec<u8>,
    buf: &mut Vec<u8>,
    buf2: &mut Vec<u8>,
    len: usize,
    bytes: &[u8],
    read: (StorageBeforeTx, &[u8]),
)
    requires
        call_ensures(StorageBeforeTx::compress, (&row,), alone),
        call_ensures(StorageBeforeTx::to_compact, (&row, buf), len),
        call_ensures(StorageBeforeTx::compress_to_buf, (&row, buf2), ()),
        bytes@.len() >= alone@.len(),
        bytes@.take(alone@.len() as int) == alone@,
        call_ensures(StorageBeforeTx::from_compact, (bytes, len), read),
    ensures
        final(buf)@ == old(buf)@ + alone@,
        final(buf2)@ == old(buf2)@ + alone@,
        len == alone@.len(),
        call_requires(StorageBeforeTx::from_compact, (bytes, len)),
        read.0 == row,
        read.1@ == bytes@.skip(alone@.len() as int),
{
    let n = alone@.len() as int;
    crate::changeset_rows::lemma_storage_row_comes_back(row);
    assert(bytes@.take(20) =~= alone@.take(20));
    assert(bytes@.subrange(20, 52) =~= alone@.subrange(20, 52));
    assert(bytes@.subrange(52, n) =~= alone@.subrange(52, n));
    assert(read.0.read_from(alone@, n));
}

/// Of bytes that hold an account row of some length, the first 20 are the address. Where the row is
/// longer, an account is behind it, and the bytes that are left are those behind the account.
pub proof fn lemma_account_rows_at_the_start(
    bytes: &[u8],
    len: usize,
    read: (AccountBeforeTx, &[u8]),
)
    requires
        len >= 20,
        bytes@.len() >= 20,
        len > 20 ==> account_fits(bytes@),
        call_ensures(AccountBeforeTx::from_compact, (bytes, len), read),
    ensures
        call_requires(AccountBeforeTx::from_compact, (bytes, len)),
        read.0.address@ == bytes@.take(20),
        read.0.info is None <==> len == 20,
        len == 20 ==> read.1@ == bytes@.skip(20),
        len > 20 ==> {
            let nonce = bytes@[20] as int % 16;
            let balance = bytes@[20] as int / 16 + 16 * (bytes@[21] as int % 4);
            let hash = 32 * (bytes@[21] as int / 4 % 2);
            let account = read.0.info->0;
            &&& read.1@ == bytes@.skip(22 + nonce + balance + hash)
            &&& account.nonce == crate::primitives::be_value(bytes@.subrange(22, 22 + nonce))
            &&& account.balance@ == crate::primitives::be_value(
                bytes@.subrange(22 + nonce, 22 + nonce + balance),
            )
            &&& account.bytecode_hash is Some <==> hash == 32
            &&& account.bytecode_hash is Some ==> account.bytecode_hash->0@ == bytes@.subrange(
                22 + nonce + balance,
                54 + nonce + balance,
            )
        },
{
    if len > 20 {
        let behind = bytes@.skip(20);
        let nonce = bytes@[20] as int % 16;
        let balance = bytes@[20] as int / 16 + 16 * (bytes@[21] as int % 4);
        assert(behind[0] == bytes@[20]);
        assert(behind[1] == bytes@[21]);
        assert(behind.subrange(2, 2 + nonce) =~= bytes@.subrange(22, 22 + nonce));
        assert(behind.subrange(2 + nonce, 2 + nonce + balance) =~= bytes@.subrange(
            22 + nonce,
            22 + nonce + balance,
        ));
        if bytes@[21] as int / 4 % 2 == 1 {
            assert(behind.subrange(2 + nonce + balance, 34 + nonce + balance) =~= bytes@.subrange(
                22 + nonce + balance,
                54 + nonce + balance,
            ));
        }
    }
}

/// Of bytes that hold a storage row of some length, the first 20 are the address, the next 32 the key,
/// and the rest of the row spells the value. The bytes that are left are those behind the row.
pub proof fn lemma_storage_rows_at_the_start(
    bytes: &[u8],
    len: usize,
    read: (StorageBeforeTx, &[u8]),
)
    requires
        52 <= len <= 84,
        len <= bytes@.len(),
        call_ensures(StorageBeforeTx::from_compact, (bytes, len), read),
    ensures
        call_requires(StorageBeforeTx::from_compact, (bytes, len)),
        read.0.address@ == bytes@.take(20),
        read.0.key@ == bytes@.subrange(20, 52),
        read.0.value@ == crate::primitives::be_value(bytes@.subrange(52, len as int)),
        read.1@ == bytes@.skip(len as int),
{
}

/// The subkey of an account row is its address, and that of a storage row its key. Default rows are
/// all zeros.
pub proof fn lemma_subkeys_and_defaults(
    account: AccountBeforeTx,
    storage: StorageBeforeTx,
    address: Address,
    key: Word,
    no_account: AccountBeforeTx,
    no_storage: StorageBeforeTx,
)
    requires
        call_ensures(AccountBeforeTx::get_subkey, (&account,), address),
        call_ensures(StorageBeforeTx::get_subkey, (&storage,), key),
        call_ensures(<AccountBeforeTx as Default>::default, (), no_account),
        call_ensures(<StorageBeforeTx as Default>::default, (), no_storage),
    ensures
        address@ == account.address@,
        key@ == storage.key@,
        no_account.info is None,
        no_storage.value@ == 0,
        forall|i: int| 0 <= i < 20 ==> #[trigger] no_account.address@[i] == 0,
        forall|i: int| 0 <= i < 20 ==> #[trigger] no_storage.address@[i] == 0,
        forall|i: int| 0 <= i < 32 ==> #[trigger] no_storage.key@[i] == 0,
{
    crate::primitives::lemma_be_value_of_zeros(no_storage.value.be_bytes@);
}

/// The number that a text of decimal digits spells.
pub open spec fn digits_value(text: Seq<char>) -> int
    decreases text.len(),
{
    if text.len() == 0 {
        0
    } else {
        10 * digits_value(text.drop_last()) + (text.last() as u32 - '0' as u32)
    }
}

/// A number is written by decimal digits that spell it. Only zero starts with the digit zero.
pub proof fn lemma_decimal_spells(number: nat)
    ensures
        digits_value(crate::changeset_rows::decimal(number)) == number,
        crate::changeset_rows::decimal(number).len() > 0,
        forall|i: int|
            0 <= i < crate::changeset_rows::decimal(number).len() ==> '0' as u32 <= (
            #[trigger] crate::changeset_rows::decimal(number)[i]) as u32 <= '9' as u32,
        number > 0 ==> crate::changeset_rows::decimal(number)[0] != '0',
    decreases number,
{
    reveal_strlit("0123456789");
    let text = crate::changeset_rows::decimal(number);
    if number >= 10 {
        let front = crate::changeset_rows::decimal(number / 10);
        lemma_decimal_spells(number / 10);
        assert(text.drop_last() =~= front);
        assert(text[0] == front[0]);
    } else {
        assert(text.drop_last() =~= Seq::<char>::empty());
        assert(digits_value(text.drop_last()) == 0);
    }
}

/// The message of a refused row names the segment, the length of the row and the least length, in
/// this order, each as it is.
pub proof fn lemma_message_names_everything(error: TruncatedChangesetRow, text: String)
    requires
        call_ensures(TruncatedChangesetRow::message, (&error,), text),
    ensures
        exists|len: Seq<char>, min: Seq<char>|
            {
                &&& digits_value(len) == error.len
                &&& digits_value(min) == error.min
                &&& text@ == #[trigger] ("truncated "@ + error.segment@
                    + " changeset row: buffer length "@ + len
                    + " is below the structural minimum "@ + min
                    + " (likely a torn read of a static file being concurrently appended)"@)
            },
{
    lemma_decimal_spells(error.len as nat);
    lemma_decimal_spells(error.min as nat);
    let len = crate::changeset_rows::decimal(error.len as nat);
    let min = crate::changeset_rows::decimal(error.min as nat);
    assert(text@ == "truncated "@ + error.segment@ + " changeset row: buffer length "@ + len
        + " is below the structural minimum "@ + min
        + " (likely a torn read of a static file being concurrently appended)"@);
}

} // verus!
