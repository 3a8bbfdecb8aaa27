use reth_components::changeset_rows::{
    AccountBeforeTx, StorageBeforeTx, TruncatedChangesetRow, ACCOUNT_BEFORE_TX_MIN_LEN,
    STORAGE_BEFORE_TX_MIN_LEN,
};
use reth_components::hashed_state::Account;
use reth_components::primitives::U256;

#[test]
fn accounts_decompress_minimal_row_ok() {
    let row = AccountBeforeTx { address: [0; 20], info: None };
    let bytes = row.clone().compress();
    assert_eq!(bytes.len(), ACCOUNT_BEFORE_TX_MIN_LEN);
    assert_eq!(AccountBeforeTx::decompress(&bytes).unwrap(), row);
}

#[test]
fn decompress_roundtrip_with_info() {
    let row = AccountBeforeTx {
        address: [0x11; 20],
        info: Some(Account { nonce: 7, balance: U256::from_u64(42), bytecode_hash: None }),
    };
    let bytes = row.clone().compress();
    assert!(bytes.len() >= ACCOUNT_BEFORE_TX_MIN_LEN);
    assert_eq!(AccountBeforeTx::decompress(&bytes).unwrap(), row);
}

#[test]
fn accounts_decompress_empty_errors() {
    assert!(AccountBeforeTx::decompress(&[]).is_err());
}

#[test]
fn accounts_decompress_short_errors() {
    for len in [1usize, 10, 19] {
        let buf = vec![0u8; len];
        assert!(
            AccountBeforeTx::decompress(&buf).is_err(),
            "expected error for buffer of length {len}"
        );
    }
}

#[test]
fn storage_decompress_minimal_row_ok() {
    let row = StorageBeforeTx { address: [0; 20], key: [0; 32], value: U256::default() };
    let bytes = row.compress();
    assert_eq!(bytes.len(), STORAGE_BEFORE_TX_MIN_LEN);
    assert_eq!(StorageBeforeTx::decompress(&bytes).unwrap(), row);
}

#[test]
fn decompress_roundtrip_nonzero() {
    let row = StorageBeforeTx {
        address: [0xab; 20],
        key: [0xcd; 32],
        value: U256::from_u64(0x1234_5678u64),
    };
    let bytes = row.compress();
    assert!(bytes.len() >= STORAGE_BEFORE_TX_MIN_LEN);
    assert_eq!(StorageBeforeTx::decompress(&bytes).unwrap(), row);
}

#[test]
fn storage_decompress_empty_errors() {
    assert!(StorageBeforeTx::decompress(&[]).is_err());
}

#[test]
fn storage_decompress_short_errors() {
    for len in [1usize, 20, 51] {
        let buf = vec![0u8; len];
        assert!(
            StorageBeforeTx::decompress(&buf).is_err(),
            "expected error for buffer of length {len}"
        );
    }
}

/// A balance that takes all 32 bytes.
fn large_balance() -> U256 {
    let mut be_bytes = [0u8; 32];
    for (i, byte) in be_bytes.iter_mut().enumerate() {
        *byte = i as u8 + 1;
    }
    U256 { be_bytes }
}

#[test]
fn an_account_row_has_these_bytes() {
    let row = AccountBeforeTx {
        address: [0x11; 20],
        info: Some(Account {
            nonce: 0x0102,
            balance: U256::from_u64(0x2a00),
            bytecode_hash: Some([0x33; 32]),
        }),
    };
    let mut expected = vec![0x11u8; 20];
    // Two bytes of nonce, two bytes of balance, and a hash.
    expected.extend([0x22, 0x04, 0x01, 0x02, 0x2a, 0x00]);
    expected.extend([0x33; 32]);
    assert_eq!(row.compress(), expected);
    assert_eq!(AccountBeforeTx::decompress(&expected), Ok(row));
}

#[test]
fn the_longest_account_row_has_these_bytes() {
    let row = AccountBeforeTx {
        address: [0x11; 20],
        info: Some(Account {
            nonce: u64::MAX,
            balance: large_balance(),
            bytecode_hash: Some([0x33; 32]),
        }),
    };
    let mut expected = vec![0x11u8; 20];
    expected.extend([0x08, 0x06]);
    expected.extend([0xff; 8]);
    expected.extend(large_balance().be_bytes);
    expected.extend([0x33; 32]);
    assert_eq!(expected.len(), 20 + 74);
    assert_eq!(row.compress(), expected);
    assert_eq!(AccountBeforeTx::decompress(&expected), Ok(row));
}

#[test]
fn an_account_without_anything_takes_two_bytes() {
    let row = AccountBeforeTx {
        address: [0x11; 20],
        info: Some(Account { nonce: 0, balance: U256::default(), bytecode_hash: None }),
    };
    let mut expected = vec![0x11u8; 20];
    expected.extend([0, 0]);
    assert_eq!(row.compress(), expected);
    assert_eq!(AccountBeforeTx::decompress(&expected), Ok(row));
}

#[test]
fn a_storage_row_has_these_bytes() {
    let row = StorageBeforeTx {
        address: [0xab; 20],
        key: [0xcd; 32],
        value: U256::from_u64(0x0100_0000),
    };
    let mut expected = vec![0xabu8; 20];
    expected.extend([0xcd; 32]);
    expected.extend([1, 0, 0, 0]);
    assert_eq!(row.compress(), expected);
    assert_eq!(StorageBeforeTx::decompress(&expected), Ok(row));
}

#[test]
fn a_row_with_the_largest_value_comes_back() {
    let row = StorageBeforeTx { address: [1; 20], key: [2; 32], value: U256 { be_bytes: [0xff; 32] } };
    let bytes = row.compress();
    assert_eq!(bytes.len(), STORAGE_BEFORE_TX_MIN_LEN + 32);
    assert!(StorageBeforeTx::can_decompress(&bytes));
    assert_eq!(StorageBeforeTx::decompress(&bytes), Ok(row));
}

#[test]
fn the_bytes_behind_a_row_are_left() {
    let account = AccountBeforeTx {
        address: [0x11; 20],
        info: Some(Account { nonce: 7, balance: U256::from_u64(42), bytecode_hash: None }),
    };
    let mut bytes = vec![9u8];
    let len = account.to_compact(&mut bytes);
    assert_eq!(len, bytes.len() - 1);
    bytes.extend([5, 6]);
    let (read, behind) = AccountBeforeTx::from_compact(&bytes[1..], len);
    assert_eq!(read, account);
    assert_eq!(behind, &[5u8, 6][..]);

    let storage = StorageBeforeTx { address: [1; 20], key: [2; 32], value: U256::from_u64(300) };
    let mut bytes = Vec::new();
    let len = storage.to_compact(&mut bytes);
    assert_eq!(len, 54);
    bytes.extend([5, 6]);
    let (read, behind) = StorageBeforeTx::from_compact(&bytes, len);
    assert_eq!(read, storage);
    assert_eq!(behind, &[5u8, 6][..]);
}

#[test]
fn rows_that_cannot_be_read_are_told() {
    // The nonce would take nine bytes.
    let mut bytes = vec![0u8; 20];
    bytes.extend([0x09, 0x00]);
    bytes.extend([0u8; 40]);
    assert!(!AccountBeforeTx::can_decompress(&bytes));
    // The balance would take 33 bytes.
    let mut bytes = vec![0u8; 20];
    bytes.extend([0x10, 0x02]);
    bytes.extend([0u8; 40]);
    assert!(!AccountBeforeTx::can_decompress(&bytes));
    // The hash is cut off.
    let mut bytes = vec![0u8; 20];
    bytes.extend([0x00, 0x04]);
    bytes.extend([0u8; 31]);
    assert!(!AccountBeforeTx::can_decompress(&bytes));
    bytes.push(0);
    assert!(AccountBeforeTx::can_decompress(&bytes));
    assert!(AccountBeforeTx::can_decompress(&[0; 3]));
    assert!(!StorageBeforeTx::can_decompress(&[0; 85]));
}

#[test]
fn rows_are_sought_by_their_subkeys() {
    let account = AccountBeforeTx { address: [0x11; 20], info: None };
    assert_eq!(account.get_subkey(), [0x11; 20]);
    let storage = StorageBeforeTx { address: [1; 20], key: [2; 32], value: U256::default() };
    assert_eq!(storage.get_subkey(), [2; 32]);
    assert_eq!(&storage.compress()[..20], &[1u8; 20][..]);
    assert_eq!(&storage.compress()[20..52], &[2u8; 32][..]);
}

#[test]
fn truncated_rows_are_explained() {
    let error = AccountBeforeTx::decompress(&[0; 19]).unwrap_err();
    assert_eq!(
        error,
        TruncatedChangesetRow { segment: "AccountChangeSets", len: 19, min: 20 }
    );
    let error = StorageBeforeTx::decompress(&[]).unwrap_err();
    assert_eq!(
        error.message(),
        "truncated StorageChangeSets changeset row: buffer length 0 is below the structural \
         minimum 52 (likely a torn read of a static file being concurrently appended)"
    );
    let long = TruncatedChangesetRow { segment: "x", len: 1_234_567_890, min: 10 };
    assert!(long.message().contains("buffer length 1234567890 is below"));
}

#[test]
fn default_rows_are_zero() {
    assert_eq!(AccountBeforeTx::default(), AccountBeforeTx { address: [0; 20], info: None });
    assert_eq!(
        StorageBeforeTx::default(),
        StorageBeforeTx { address: [0; 20], key: [0; 32], value: U256::from_u64(0) }
    );
}
