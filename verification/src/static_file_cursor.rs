//! Reading rows of a static file segment by block or transaction number.

use crate::primitives::Word;
use vstd::prelude::*;

verus! {

/// Either a key or a block or transaction number.
#[derive(Clone, Copy, Debug, PartialEq, Eq)]
pub enum KeyOrNumber<'a> {
    /// Bytes used as a key, such as the hash of a block or a transaction.
    Key(&'a [u8]),
    /// The number of a block or a transaction.
    Number(u64),
}

impl<'a> From<&'a Word> for KeyOrNumber<'a> {
    fn from(value: &'a Word) -> (result: Self) {
        let key = value.as_slice();
        assert(key =~= vstd::array::spec_array_as_slice(value));
        KeyOrNumber::Key(key)
    }
}

impl From<u64> for KeyOrNumber<'_> {
    fn from(value: u64) -> (result: Self) {
        KeyOrNumber::Number(value)
    }
}

impl<'a> vstd::std_specs::convert::FromSpecImpl<&'a Word> for KeyOrNumber<'a> {
    open spec fn obeys_from_spec() -> bool {
        true
    }

    open spec fn from_spec(value: &'a Word) -> Self {
        KeyOrNumber::Key(vstd::array::spec_array_as_slice(value))
    }
}

impl vstd::std_specs::convert::FromSpecImpl<u64> for KeyOrNumber<'_> {
    open spec fn obeys_from_spec() -> bool {
        true
    }

    open spec fn from_spec(value: u64) -> Self {
        KeyOrNumber::Number(value)
    }
}

/// Why a row could not be read. `E` is an error of the file, `X` an error of decoding a column.
#[derive(Clone, Debug, PartialEq, Eq)]
pub enum CursorError<E, X> {
    /// The file could not be read, for example because rows are being appended to it.
    File(E),
    /// A column could not be decoded.
    Decode(X),
}

/// Cursor of a static file segment.
#[derive(Clone, Copy, Debug, PartialEq, Eq)]
pub struct StaticFileCursor {
    /// How many rows the file has.
    pub rows: usize,
    /// The number of the first row, where the segment has one.
    pub start: Option<u64>,
    /// The row at which the cursor stands.
    pub row_index: u64,
}

impl StaticFileCursor {
    /// A cursor over a file with `rows` rows, of which the first has the number `start`.
    pub fn new(rows: usize, start: Option<u64>, row_index: u64) -> (cursor: Self)
        ensures
            cursor == (StaticFileCursor { rows, start, row_index }),
    {
        StaticFileCursor { rows, start, row_index }
    }

    /// The number at which the cursor stands.
    pub fn number(&self) -> (number: Option<u64>)
        requires
            self.start matches Some(start) ==> self.row_index + start <= u64::MAX,
        ensures
            number == match self.start {
                Some(start) => Some((self.row_index + start) as u64),
                None => None,
            },
    {
        match self.start {
            Some(start) => Some(self.row_index + start),
            None => None,
        }
    }

    /// The row of the file that holds a number, or `None` if no row can hold it: the file is empty,
    /// it starts behind the number, or its rows have no numbers.
    pub open spec fn row_of(self, number: u64) -> Option<usize> {
        match self.start {
            Some(start) if self.rows > 0 && start <= number => Some(
                (number - start) as u64 as usize,
            ),
            _ => None,
        }
    }

    /// Whether `row` is what reading the row of `key_or_num` gives. An error of the file is never
    /// taken for an absent row.
    pub open spec fn row_read<E, F>(
        self,
        key_or_num: KeyOrNumber<'_>,
        mask: usize,
        read_row: F,
        row: Result<Option<Vec<Vec<u8>>>, E>,
    ) -> bool where F: FnOnce(usize, usize) -> Result<Option<Vec<Vec<u8>>>, E> {
        match key_or_num {
            KeyOrNumber::Number(number) => match self.row_of(number) {
                Some(index) => read_row.ensures((index, mask), row),
                None => row matches Ok(None),
            },
            KeyOrNumber::Key(_) => row matches Ok(None),
        }
    }

    /// Whether `read_row` can be asked for the row of `key_or_num`. Rows are not found by key,
    /// except that an empty file has none.
    pub open spec fn can_read<E, F>(
        self,
        key_or_num: KeyOrNumber<'_>,
        mask: usize,
        read_row: F,
    ) -> bool where F: FnOnce(usize, usize) -> Result<Option<Vec<Vec<u8>>>, E> {
        match key_or_num {
            KeyOrNumber::Number(number) => self.row_of(number) matches Some(index)
                ==> read_row.requires((index, mask)),
            KeyOrNumber::Key(_) => self.rows == 0,
        }
    }

    /// Gets the columns of a row that `mask` selects. `read_row` reads a row of the file by its
    /// index and the mask, and gives `None` if there is no such row.
    pub fn get<E, F>(&self, key_or_num: KeyOrNumber<'_>, mask: usize, read_row: F) -> (row: Result<
        Option<Vec<Vec<u8>>>,
        E,
    >) where F: FnOnce(usize, usize) -> Result<Option<Vec<Vec<u8>>>, E>
        requires
            self.can_read(key_or_num, mask, read_row),
        ensures
            self.row_read(key_or_num, mask, read_row, row),
    {
        if self.rows == 0 {
            return Ok(None);
        }
        match key_or_num {
            KeyOrNumber::Key(_) => Ok(None),
            KeyOrNumber::Number(number) => match self.start {
                Some(start) => {
                    if start > number {
                        return Ok(None);
                    }
                    let offset: u64 = number - start;
                    read_row(offset as usize, mask)
                },
                None => Ok(None),
            },
        }
    }

    /// Gets one column of a row.
    pub fn get_one<A, E, X, F, D>(
        &self,
        key_or_num: KeyOrNumber<'_>,
        mask: usize,
        read_row: F,
        first: D,
    ) -> (value: Result<Option<A>, CursorError<E, X>>) where
        F: FnOnce(usize, usize) -> Result<Option<Vec<Vec<u8>>>, E>,
        D: FnOnce(&[u8]) -> Result<A, X>,

        requires
            self.can_read(key_or_num, mask, read_row),
            forall|columns: Vec<Vec<u8>>| #[trigger]
                self.row_read(
                    key_or_num,
                    mask,
                    read_row,
                    Ok::<Option<Vec<Vec<u8>>>, E>(Some(columns)),
                ) ==> {
                    &&& columns@.len() >= 1
                    &&& can_decode(first, columns@[0]@)
                },
        ensures
            exists|row: Result<Option<Vec<Vec<u8>>>, E>|
                {
                    &&& #[trigger] self.row_read(key_or_num, mask, read_row, row)
                    &&& match row {
                        Err(error) => value == Err::<Option<A>, CursorError<E, X>>(
                            CursorError::File(error),
                        ),
                        Ok(None) => value == Ok::<Option<A>, CursorError<E, X>>(None),
                        Ok(Some(columns)) => match value {
                            Ok(Some(a)) => decoded(first, columns@[0]@, Ok::<A, X>(a)),
                            Err(CursorError::Decode(error)) => decoded(
                                first,
                                columns@[0]@,
                                Err::<A, X>(error),
                            ),
                            _ => false,
                        },
                    }
                },
    {
        let row = self.get(key_or_num, mask, read_row);
        let ghost read = row;
        assert(self.row_read(key_or_num, mask, read_row, read));
        match row {
            Ok(Some(columns)) => match first(columns[0].as_slice()) {
                Ok(a) => Ok(Some(a)),
                Err(error) => Err(CursorError::Decode(error)),
            },
            Ok(None) => Ok(None),
            Err(error) => Err(CursorError::File(error)),
        }
    }

    /// Gets two columns of a row. They are decoded in order, and the first failure ends it.
    pub fn get_two<A, B, E, X, F, D1, D2>(
        &self,
        key_or_num: KeyOrNumber<'_>,
        mask: usize,
        read_row: F,
        first: D1,
        second: D2,
    ) -> (value: Result<Option<(A, B)>, CursorError<E, X>>) where
        F: FnOnce(usize, usize) -> Result<Option<Vec<Vec<u8>>>, E>,
        D1: FnOnce(&[u8]) -> Result<A, X>,
        D2: FnOnce(&[u8]) -> Result<B, X>,

        requires
            self.can_read(key_or_num, mask, read_row),
            forall|columns: Vec<Vec<u8>>| #[trigger]
                self.row_read(
                    key_or_num,
                    mask,
                    read_row,
                    Ok::<Option<Vec<Vec<u8>>>, E>(Some(columns)),
                ) ==> {
                    &&& columns@.len() >= 2
                    &&& can_decode(first, columns@[0]@)
                    &&& can_decode(second, columns@[1]@)
                },
        ensures
            exists|row: Result<Option<Vec<Vec<u8>>>, E>|
                {
                    &&& #[trigger] self.row_read(key_or_num, mask, read_row, row)
                    &&& match row {
                        Err(error) => value == Err::<Option<(A, B)>, CursorError<E, X>>(
                            CursorError::File(error),
                        ),
                        Ok(None) => value == Ok::<Option<(A, B)>, CursorError<E, X>>(None),
                        Ok(Some(columns)) => match value {
                            Ok(Some((a, b))) => {
                                &&& decoded(first, columns@[0]@, Ok::<A, X>(a))
                                &&& decoded(second, columns@[1]@, Ok::<B, X>(b))
                            },
                            Err(CursorError::Decode(error)) => {
                                ||| decoded(first, columns@[0]@, Err::<A, X>(error))
                                ||| decodes::<A, X, D1>(first, columns@[0]@)
                                    && decoded(second, columns@[1]@, Err::<B, X>(error))
                            },
                            _ => false,
                        },
                    }
                },
    {
        let row = self.get(key_or_num, mask, read_row);
        let ghost read = row;
        assert(self.row_read(key_or_num, mask, read_row, read));
        match row {
            Ok(Some(columns)) => {
                let a = match first(columns[0].as_slice()) {
                    Ok(value) => value,
                    Err(error) => return Err(CursorError::Decode(error)),
                };
                assert(decoded(first, columns@[0]@, Ok::<A, X>(a)));
                match second(columns[1].as_slice()) {
                    Ok(b) => Ok(Some((a, b))),
                    Err(error) => Err(CursorError::Decode(error)),
                }
            },
            Ok(None) => Ok(None),
            Err(error) => Err(CursorError::File(error)),
        }
    }

    /// Gets three columns of a row. They are decoded in order, and the first failure ends it.
    pub fn get_three<A, B, C, E, X, F, D1, D2, D3>(
        &self,
        key_or_num: KeyOrNumber<'_>,
        mask: usize,
        read_row: F,
        first: D1,
        second: D2,
        third: D3,
    ) -> (value: Result<Option<(A, B, C)>, CursorError<E, X>>) where
        F: FnOnce(usize, usize) -> Result<Option<Vec<Vec<u8>>>, E>,
        D1: FnOnce(&[u8]) -> Result<A, X>,
        D2: FnOnce(&[u8]) -> Result<B, X>,
        D3: FnOnce(&[u8]) -> Result<C, X>,

        requires
            self.can_read(key_or_num, mask, read_row),
            forall|columns: Vec<Vec<u8>>| #[trigger]
                self.row_read(
                    key_or_num,
                    mask,
                    read_row,
                    Ok::<Option<Vec<Vec<u8>>>, E>(Some(columns)),
                ) ==> {
                    &&& columns@.len() >= 3
                    &&& can_decode(first, columns@[0]@)
                    &&& can_decode(second, columns@[1]@)
                    &&& can_decode(third, columns@[2]@)
                },
        ensures
            exists|row: Result<Option<Vec<Vec<u8>>>, E>|
                {
                    &&& #[trigger] self.row_read(key_or_num, mask, read_row, row)
                    &&& match row {
                        Err(error) => value == Err::<Option<(A, B, C)>, CursorError<E, X>>(
                            CursorError::File(error),
                        ),
                        Ok(None) => value == Ok::<Option<(A, B, C)>, CursorError<E, X>>(None),
                        Ok(Some(columns)) => match value {
                            Ok(Some((a, b, c))) => {
                                &&& decoded(first, columns@[0]@, Ok::<A, X>(a))
                                &&& decoded(second, columns@[1]@, Ok::<B, X>(b))
                                &&& decoded(third, columns@[2]@, Ok::<C, X>(c))
                            },
                            Err(CursorError::Decode(error)) => {
                                ||| decoded(first, columns@[0]@, Err::<A, X>(error))
                                ||| decodes::<A, X, D1>(first, columns@[0]@)
                                    && decoded(second, columns@[1]@, Err::<B, X>(error))
                                ||| decodes::<A, X, D1>(first, columns@[0]@)
                                    && decodes::<B, X, D2>(second, columns@[1]@)
                                    && decoded(third, columns@[2]@, Err::<C, X>(error))
                            },
                            _ => false,
                        },
                    }
                },
    {
        let row = self.get(key_or_num, mask, read_row);
        let ghost read = row;
        assert(self.row_read(key_or_num, mask, read_row, read));
        match row {
            Ok(Some(columns)) => {
                let a = match first(columns[0].as_slice()) {
                    Ok(value) => value,
                    Err(error) => return Err(CursorError::Decode(error)),
                };
                assert(decoded(first, columns@[0]@, Ok::<A, X>(a)));
                let b = match second(columns[1].as_slice()) {
                    Ok(value) => value,
                    Err(error) => return Err(CursorError::Decode(error)),
                };
                assert(decoded(second, columns@[1]@, Ok::<B, X>(b)));
                match third(columns[2].as_slice()) {
                    Ok(c) => Ok(Some((a, b, c))),
                    Err(error) => Err(CursorError::Decode(error)),
                }
            },
            Ok(None) => Ok(None),
            Err(error) => Err(CursorError::File(error)),
        }
    }
}

/// Whether `decode` can be asked for a column.
pub open spec fn can_decode<A, X, D>(decode: D, column: Seq<u8>) -> bool where
    D: FnOnce(&[u8]) -> Result<A, X>,
 {
    forall|bytes: &[u8]| bytes@ == column ==> #[trigger] decode.requires((bytes,))
}

/// Whether `result` is what `decode` gives for a column.
pub open spec fn decoded<A, X, D>(decode: D, column: Seq<u8>, result: Result<A, X>) -> bool where
    D: FnOnce(&[u8]) -> Result<A, X>,
 {
    exists|bytes: &[u8]| bytes@ == column && #[trigger] decode.ensures((bytes,), result)
}

/// Whether `decode` can succeed on a column.
pub open spec fn decodes<A, X, D>(decode: D, column: Seq<u8>) -> bool where
    D: FnOnce(&[u8]) -> Result<A, X>,
 {
    exists|value: A| #[trigger] decoded(decode, column, Ok::<A, X>(value))
}

/// The number at which a cursor stands is that of the row at which it stands.
pub proof fn lemma_number_names_its_row(cursor: StaticFileCursor, start: u64)
    requires
        cursor.rows > 0,
        cursor.start == Some(start),
        cursor.row_index + start <= u64::MAX,
    ensures
        cursor.row_of((cursor.row_index + start) as u64) == Some(cursor.row_index as usize),
{
}

} // verus!
