//! What reading a row of a static file gives, in terms of the file and of the number asked for.

use crate::primitives::Word;
use crate::static_file_cursor::{CursorError, KeyOrNumber, StaticFileCursor};
use vstd::prelude::*;

verus! {

/// The row of the number `start + k` is row `k`, counted from the first row of the file, wherever the
/// cursor stands. What the file gives for that row is what is returned, errors included.
pub proof fn lemma_rows_are_counted_from_the_start<E, F>(
    cursor: StaticFileCursor,
    start: u64,
    k: u64,
    mask: usize,
    read_row: F,
    row: Result<Option<Vec<Vec<u8>>>, E>,
) where F: FnOnce(usize, usize) -> Result<Option<Vec<Vec<u8>>>, E>
    requires
        cursor.rows > 0,
        cursor.start == Some(start),
        start + k <= u64::MAX,
    ensures
        cursor.row_of((start + k) as u64) == Some(k as usize),
        read_row.requires((k as usize, mask)) ==> call_requires(
            StaticFileCursor::get::<E, F>,
            (&cursor, KeyOrNumber::Number((start + k) as u64), mask, read_row),
        ),
        call_ensures(
            StaticFileCursor::get::<E, F>,
            (&cursor, KeyOrNumber::Number((start + k) as u64), mask, read_row),
            row,
        ) ==> read_row.ensures((k as usize, mask), row),
{
}

/// Which row is read for a number does not depend on where the cursor stands.
pub proof fn lemma_rows_do_not_depend_on_the_position<E, F>(
    cursor: StaticFileCursor,
    row_index: u64,
    number: u64,
    mask: usize,
    read_row: F,
    row: Result<Option<Vec<Vec<u8>>>, E>,
) where F: FnOnce(usize, usize) -> Result<Option<Vec<Vec<u8>>>, E>
    requires
        call_ensures(
            StaticFileCursor::get::<E, F>,
            (&cursor, KeyOrNumber::Number(number), mask, read_row),
            row,
        ),
    ensures
        (StaticFileCursor { row_index, ..cursor }).row_of(number) == cursor.row_of(number),
        (StaticFileCursor { row_index, ..cursor }).row_read(
            KeyOrNumber::Number(number),
            mask,
            read_row,
            row,
        ),
{
}

/// Two numbers of the file that differ by `d` are in rows that differ by `d`.
pub proof fn lemma_rows_keep_distances(cursor: StaticFileCursor, number: u64, d: u64)
    requires
        cursor.row_of(number) is Some,
        cursor.start is Some,
        number - cursor.start->0 + d <= usize::MAX,
        number + d <= u64::MAX,
    ensures
        cursor.row_of((number + d) as u64) is Some,
        cursor.row_of((number + d) as u64)->0 == cursor.row_of(number)->0 + d,
{
}

/// There is no row, and no error, for a number below the start, in an empty file, and in a file whose
/// rows have no numbers. Nothing is read from the file for it. An empty file has no row for a key
/// either.
pub proof fn lemma_absent_rows<E, F>(
    cursor: StaticFileCursor,
    key_or_num: KeyOrNumber<'_>,
    mask: usize,
    read_row: F,
    row: Result<Option<Vec<Vec<u8>>>, E>,
) where F: FnOnce(usize, usize) -> Result<Option<Vec<Vec<u8>>>, E>
    requires
        cursor.rows == 0 || (key_or_num matches KeyOrNumber::Number(number) && (
        cursor.start is None || number < cursor.start->0)),
    ensures
        call_requires(StaticFileCursor::get::<E, F>, (&cursor, key_or_num, mask, read_row)),
        call_ensures(StaticFileCursor::get::<E, F>, (&cursor, key_or_num, mask, read_row), row)
            ==> row == Ok::<Option<Vec<Vec<u8>>>, E>(None),
{
}

/// A cursor stands at the number of its row, and reading that number reads its row.
pub proof fn lemma_a_cursor_finds_its_own_row<E, F>(
    cursor: StaticFileCursor,
    number: Option<u64>,
    mask: usize,
    read_row: F,
    row: Result<Option<Vec<Vec<u8>>>, E>,
) where F: FnOnce(usize, usize) -> Result<Option<Vec<Vec<u8>>>, E>
    requires
        call_ensures(StaticFileCursor::number, (&cursor,), number),
    ensures
        number is Some <==> cursor.start is Some,
        cursor.start is Some && cursor.start->0 + cursor.row_index <= u64::MAX ==> {
            &&& number->0 == cursor.start->0 + cursor.row_index
            &&& cursor.rows > 0 && call_ensures(
                StaticFileCursor::get::<E, F>,
                (&cursor, KeyOrNumber::Number(number->0), mask, read_row),
                row,
            ) ==> read_row.ensures((cursor.row_index as usize, mask), row)
        },
{
}

/// A cursor is made of the facts that it is given.
pub proof fn lemma_new_cursor(
    rows: usize,
    start: Option<u64>,
    row_index: u64,
    cursor: StaticFileCursor,
)
    requires
        call_ensures(StaticFileCursor::new, (rows, start, row_index), cursor),
    ensures
        cursor.rows == rows,
        cursor.start == start,
        cursor.row_index == row_index,
{
}

/// Whether the file gives for a row `columns` and nothing else.
pub open spec fn only_gives<E, F>(
    read_row: F,
    index: usize,
    mask: usize,
    given: Result<Option<Vec<Vec<u8>>>, E>,
) -> bool where F: FnOnce(usize, usize) -> Result<Option<Vec<Vec<u8>>>, E> {
    forall|row: Result<Option<Vec<Vec<u8>>>, E>| #[trigger]
        read_row.ensures((index, mask), row) ==> row == given
}

/// Whether some bytes that are the column decode to `value`.
pub open spec fn column_gives<A, X, D>(decode: D, column: Seq<u8>, value: Result<A, X>) -> bool where
    D: FnOnce(&[u8]) -> Result<A, X>,
 {
    exists|bytes: &[u8]| bytes@ == column && #[trigger] decode.ensures((bytes,), value)
}

/// Whether a column can be decoded.
pub open spec fn column_succeeds<A, X, D>(decode: D, column: Seq<u8>) -> bool where
    D: FnOnce(&[u8]) -> Result<A, X>,
 {
    exists|value: A| #[trigger] column_gives(decode, column, Ok::<A, X>(value))
}

/// One column is decoded from the first column of the row, two from the first two and three from the
/// first three, in order. The first failure of a decoder is handed on, and those behind it are not
/// asked.
pub proof fn lemma_columns_are_decoded_in_order<A, B, C, E, X, F, D1, D2, D3>(
    cursor: StaticFileCursor,
    start: u64,
    k: u64,
    mask: usize,
    read_row: F,
    first: D1,
    second: D2,
    third: D3,
    columns: Vec<Vec<u8>>,
    one: Result<Option<A>, CursorError<E, X>>,
    two: Result<Option<(A, B)>, CursorError<E, X>>,
    three: Result<Option<(A, B, C)>, CursorError<E, X>>,
) where
    F: FnOnce(usize, usize) -> Result<Option<Vec<Vec<u8>>>, E>,
    D1: FnOnce(&[u8]) -> Result<A, X>,
    D2: FnOnce(&[u8]) -> Result<B, X>,
    D3: FnOnce(&[u8]) -> Result<C, X>,

    requires
        cursor.rows > 0,
        cursor.start == Some(start),
        start + k <= u64::MAX,
        only_gives::<E, F>(read_row, k as usize, mask, Ok(Some(columns))),
        call_ensures(
            StaticFileCursor::get_one::<A, E, X, F, D1>,
            (&cursor, KeyOrNumber::Number((start + k) as u64), mask, read_row, first),
            one,
        ),
        call_ensures(
            StaticFileCursor::get_two::<A, B, E, X, F, D1, D2>,
            (&cursor, KeyOrNumber::Number((start + k) as u64), mask, read_row, first, second),
            two,
        ),
        call_ensures(
            StaticFileCursor::get_three::<A, B, C, E, X, F, D1, D2, D3>,
            (
                &cursor,
                KeyOrNumber::Number((start + k) as u64),
                mask,
                read_row,
                first,
                second,
                third,
            ),
            three,
        ),
    ensures
        match one {
            Ok(value) => value matches Some(a) && column_gives(first, columns@[0]@, Ok::<A, X>(a)),
            Err(error) => error matches CursorError::Decode(x) && column_gives(
                first,
                columns@[0]@,
                Err::<A, X>(x),
            ),
        },
        match two {
            Ok(value) => value matches Some((a, b)) && column_gives(
                first,
                columns@[0]@,
                Ok::<A, X>(a),
            ) && column_gives(second, columns@[1]@, Ok::<B, X>(b)),
            Err(error) => error matches CursorError::Decode(x) && (column_gives(
                first,
                columns@[0]@,
                Err::<A, X>(x),
            ) || (column_succeeds::<A, X, D1>(first, columns@[0]@) && column_gives(
                second,
                columns@[1]@,
                Err::<B, X>(x),
            ))),
        },
        match three {
            Ok(value) => value matches Some((a, b, c)) && column_gives(
                first,
                columns@[0]@,
                Ok::<A, X>(a),
            ) && column_gives(second, columns@[1]@, Ok::<B, X>(b)) && column_gives(
                third,
                columns@[2]@,
                Ok::<C, X>(c),
            ),
            Err(error) => error matches CursorError::Decode(x) && (column_gives(
                first,
                columns@[0]@,
                Err::<A, X>(x),
            ) || (column_succeeds::<A, X, D1>(first, columns@[0]@) && column_gives(
                second,
                columns@[1]@,
                Err::<B, X>(x),
            )) || (column_succeeds::<A, X, D1>(first, columns@[0]@) && column_succeeds::<B, X, D2>(
                second,
                columns@[1]@,
            ) && column_gives(third, columns@[2]@, Err::<C, X>(x)))),
        },
        columns@.len() >= 3 && read_row.requires((k as usize, mask)) && (forall|bytes: &[u8]|
            #![trigger first.requires((bytes,))]
            #![trigger second.requires((bytes,))]
            #![trigger third.requires((bytes,))]
            first.requires((bytes,)) && second.requires((bytes,)) && third.requires((bytes,)))
            ==> {
            &&& call_requires(
                StaticFileCursor::get_one::<A, E, X, F, D1>,
                (&cursor, KeyOrNumber::Number((start + k) as u64), mask, read_row, first),
            )
            &&& call_requires(
                StaticFileCursor::get_two::<A, B, E, X, F, D1, D2>,
                (&cursor, KeyOrNumber::Number((start + k) as u64), mask, read_row, first, second),
            )
            &&& call_requires(
                StaticFileCursor::get_three::<A, B, C, E, X, F, D1, D2, D3>,
                (
                    &cursor,
                    KeyOrNumber::Number((start + k) as u64),
                    mask,
                    read_row,
                    first,
                    second,
                    third,
                ),
            )
        },
{
    lemma_columns::<A, X, D1>(first, columns@[0]@);
    lemma_columns::<B, X, D2>(second, columns@[1]@);
    lemma_columns::<C, X, D3>(third, columns@[2]@);
}

/// What a column gives and whether it can be decoded.
proof fn lemma_columns<A, X, D>(decode: D, column: Seq<u8>) where D: FnOnce(&[u8]) -> Result<A, X>
    ensures
        forall|value: Result<A, X>| #[trigger]
            crate::static_file_cursor::decoded(decode, column, value) ==> column_gives(
                decode,
                column,
                value,
            ),
        crate::static_file_cursor::decodes::<A, X, D>(decode, column) ==> column_succeeds::<
            A,
            X,
            D,
        >(decode, column),
{
    if crate::static_file_cursor::decodes::<A, X, D>(decode, column) {
        let value = choose|value: A| #[trigger]
            crate::static_file_cursor::decoded(decode, column, Ok::<A, X>(value));
        assert(column_gives(decode, column, Ok::<A, X>(value)));
    }
}

/// What is not a row of the file is handed on by all of them: an error of the file stays that error,
/// and a row that the file does not have stays absent.
pub proof fn lemma_missing_rows_and_errors_are_handed_on<A, B, C, E, X, F, D1, D2, D3>(
    cursor: StaticFileCursor,
    start: u64,
    k: u64,
    mask: usize,
    read_row: F,
    first: D1,
    second: D2,
    third: D3,
    given: Result<Option<Vec<Vec<u8>>>, E>,
    one: Result<Option<A>, CursorError<E, X>>,
    two: Result<Option<(A, B)>, CursorError<E, X>>,
    three: Result<Option<(A, B, C)>, CursorError<E, X>>,
) where
    F: FnOnce(usize, usize) -> Result<Option<Vec<Vec<u8>>>, E>,
    D1: FnOnce(&[u8]) -> Result<A, X>,
    D2: FnOnce(&[u8]) -> Result<B, X>,
    D3: FnOnce(&[u8]) -> Result<C, X>,

    requires
        cursor.rows > 0,
        cursor.start == Some(start),
        start + k <= u64::MAX,
        only_gives::<E, F>(read_row, k as usize, mask, given),
        given matches Ok(row) ==> row is None,
        call_ensures(
            StaticFileCursor::get_one::<A, E, X, F, D1>,
            (&cursor, KeyOrNumber::Number((start + k) as u64), mask, read_row, first),
            one,
        ),
        call_ensures(
            StaticFileCursor::get_two::<A, B, E, X, F, D1, D2>,
            (&cursor, KeyOrNumber::Number((start + k) as u64), mask, read_row, first, second),
            two,
        ),
        call_ensures(
            StaticFileCursor::get_three::<A, B, C, E, X, F, D1, D2, D3>,
            (
                &cursor,
                KeyOrNumber::Number((start + k) as u64),
                mask,
                read_row,
                first,
                second,
                third,
            ),
            three,
        ),
    ensures
        given is Ok <==> one is Ok,
        given is Ok <==> two is Ok,
        given is Ok <==> three is Ok,
        given is Ok ==> one->Ok_0 is None && two->Ok_0 is None && three->Ok_0 is None,
        given is Err ==> one->Err_0 == CursorError::<E, X>::File(given->Err_0) && two->Err_0
            == CursorError::<E, X>::File(given->Err_0) && three->Err_0
            == CursorError::<E, X>::File(given->Err_0),
{
}

/// Where there is no row, none of them decodes anything, and nothing need be callable.
pub proof fn lemma_absent_rows_are_not_decoded<A, B, C, E, X, F, D1, D2, D3>(
    cursor: StaticFileCursor,
    number: u64,
    mask: usize,
    read_row: F,
    first: D1,
    second: D2,
    third: D3,
    one: Result<Option<A>, CursorError<E, X>>,
    two: Result<Option<(A, B)>, CursorError<E, X>>,
    three: Result<Option<(A, B, C)>, CursorError<E, X>>,
) where
    F: FnOnce(usize, usize) -> Result<Option<Vec<Vec<u8>>>, E>,
    D1: FnOnce(&[u8]) -> Result<A, X>,
    D2: FnOnce(&[u8]) -> Result<B, X>,
    D3: FnOnce(&[u8]) -> Result<C, X>,

    requires
        cursor.rows == 0 || cursor.start is None || number < cursor.start->0,
        call_ensures(
            StaticFileCursor::get_one::<A, E, X, F, D1>,
            (&cursor, KeyOrNumber::Number(number), mask, read_row, first),
            one,
        ),
        call_ensures(
            StaticFileCursor::get_two::<A, B, E, X, F, D1, D2>,
            (&cursor, KeyOrNumber::Number(number), mask, read_row, first, second),
            two,
        ),
        call_ensures(
            StaticFileCursor::get_three::<A, B, C, E, X, F, D1, D2, D3>,
            (&cursor, KeyOrNumber::Number(number), mask, read_row, first, second, third),
            three,
        ),
    ensures
        call_requires(
            StaticFileCursor::get_one::<A, E, X, F, D1>,
            (&cursor, KeyOrNumber::Number(number), mask, read_row, first),
        ),
        call_requires(
            StaticFileCursor::get_two::<A, B, E, X, F, D1, D2>,
            (&cursor, KeyOrNumber::Number(number), mask, read_row, first, second),
        ),
        call_requires(
            StaticFileCursor::get_three::<A, B, C, E, X, F, D1, D2, D3>,
            (&cursor, KeyOrNumber::Number(number), mask, read_row, first, second, third),
        ),
        one is Ok && one->Ok_0 is None,
        two is Ok && two->Ok_0 is None,
        three is Ok && three->Ok_0 is None,
{
}

/// A number is taken as a number, and the bytes of a hash as a key.
pub proof fn lemma_numbers_and_keys(
    number: u64,
    key: &Word,
    from_number: KeyOrNumber<'_>,
    from_key: KeyOrNumber<'_>,
)
    requires
        call_ensures(<KeyOrNumber<'_> as From<u64>>::from, (number,), from_number),
        call_ensures(<KeyOrNumber<'_> as From<&Word>>::from, (key,), from_key),
    ensures
        from_number == KeyOrNumber::Number(number),
        from_key matches KeyOrNumber::Key(bytes) && bytes@ == key@,
{
}

} // verus!
