use reth_components::changeset_rows::{AccountBeforeTx, TruncatedChangesetRow};
use reth_components::static_file_cursor::{CursorError, KeyOrNumber, StaticFileCursor};

type Row = Result<Option<Vec<Vec<u8>>>, String>;

#[test]
fn a_row_is_read_by_its_number() {
    let cursor = StaticFileCursor::new(2, Some(100), 1);
    assert_eq!(cursor.number(), Some(101));
    let row = cursor.get(101.into(), 7, |row: usize, mask: usize| -> Row {
        assert_eq!((row, mask), (1, 7));
        Ok(Some(vec![vec![1], vec![2]]))
    });
    assert_eq!(row, Ok(Some(vec![vec![1], vec![2]])));
}

#[test]
fn absent_rows_are_none() {
    let unread = |_: usize, _: usize| -> Row { panic!("there is nothing to read") };
    let key = [1u8; 32];
    assert_eq!(StaticFileCursor::new(0, Some(0), 0).get(0.into(), 1, unread), Ok(None));
    assert_eq!(StaticFileCursor::new(0, Some(0), 0).get((&key).into(), 1, unread), Ok(None));
    assert_eq!(StaticFileCursor::new(2, Some(100), 0).get(99.into(), 1, unread), Ok(None));
    assert_eq!(StaticFileCursor::new(2, None, 0).get(99.into(), 1, unread), Ok(None));
    assert_eq!(StaticFileCursor::new(2, None, 5).number(), None);
    let past = |_: usize, _: usize| -> Row { Ok(None) };
    assert_eq!(StaticFileCursor::new(2, Some(100), 0).get(200.into(), 1, past), Ok(None));
}

#[test]
fn get_one_propagates_file_errors() {
    let cursor = StaticFileCursor::new(2, Some(0), 0);
    let value = cursor.get_one(
        0.into(),
        1,
        |_: usize, _: usize| -> Row { Ok(Some(vec![vec![0; 20]])) },
        AccountBeforeTx::decompress,
    );
    assert_eq!(value, Ok(Some(AccountBeforeTx::default())));
    let result = cursor.get_one(
        0.into(),
        1,
        |_: usize, _: usize| -> Row { Err("inconsistent data".to_string()) },
        AccountBeforeTx::decompress,
    );
    assert_eq!(result, Err(CursorError::File("inconsistent data".to_string())));
    let torn = cursor.get_one(
        0.into(),
        1,
        |_: usize, _: usize| -> Row { Ok(Some(vec![vec![]])) },
        AccountBeforeTx::decompress,
    );
    assert_eq!(
        torn,
        Err(CursorError::Decode(TruncatedChangesetRow {
            segment: "AccountChangeSets",
            len: 0,
            min: 20,
        }))
    );
}

#[test]
fn columns_are_decoded_in_order() {
    let cursor = StaticFileCursor::new(2, Some(0), 0);
    let read = |_: usize, _: usize| -> Row { Ok(Some(vec![vec![1], vec![2], vec![3]])) };
    let ok = |column: &[u8]| -> Result<u8, u8> { Ok(column[0]) };
    let bad = |column: &[u8]| -> Result<u8, u8> { Err(column[0]) };
    assert_eq!(cursor.get_two(1.into(), 3, read, ok, ok), Ok(Some((1, 2))));
    assert_eq!(cursor.get_two(1.into(), 3, read, bad, bad), Err(CursorError::Decode(1)));
    assert_eq!(cursor.get_two(1.into(), 3, read, ok, bad), Err(CursorError::Decode(2)));
    assert_eq!(cursor.get_three(1.into(), 7, read, ok, ok, ok), Ok(Some((1, 2, 3))));
    assert_eq!(cursor.get_three(1.into(), 7, read, ok, ok, bad), Err(CursorError::Decode(3)));
    assert_eq!(cursor.get_three(1.into(), 7, read, ok, bad, bad), Err(CursorError::Decode(2)));
}

#[test]
fn numbers_and_keys_are_told_apart() {
    let key = [5u8; 32];
    assert_eq!(KeyOrNumber::from(&key), KeyOrNumber::Key(&key[..]));
    assert_eq!(KeyOrNumber::from(9), KeyOrNumber::Number(9));
}
