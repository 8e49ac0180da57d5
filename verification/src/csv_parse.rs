//! The row-oriented interface: the same tokenizer, with rows for records and
//! a header section that ends before its line feed.

use crate::error::CsvError;
use crate::column::column_fields;
use crate::header::{
    bytes_equal, has_no_title, is_first_index_of, parse_header_record_str, text_bytes,
    titles_are_text,
};
use crate::parse_record::{
    bytes_of, find_start_of_next_record, lemma_next_record_start_bounds, next_record_start,
    parse_record_fields, record_fields, LINE_FEED,
};
use crate::chunks::{record_aligned_chunks, split_csv_buffer_into_record_aligned_chunks};
use crate::records::{records_of, CsvRecord, CsvRecords, CsvRecordsIter};
use crate::sections::CsvBufferSections;
use vstd::prelude::*;
use vstd::string::StringSliceAdditionalSpecFns;
use vstd::utf8::valid_utf8;

pub use crate::parse_record::{
    find_end_of_quoted_field, find_end_of_simple_field, handle_potentially_trailing_comma,
};

verus! {

/// A buffer, or a part of one, parsed into rows and their fields.
pub struct CsvRows<'b> {
    records: CsvRecords<'b>,
}

impl<'b> View for CsvRows<'b> {
    type V = Seq<Seq<Seq<u8>>>;

    closed spec fn view(&self) -> Seq<Seq<Seq<u8>>> {
        self.records@
    }
}

/// The fields of one row.
pub struct CsvRow<'r, 'b> {
    pub fields: &'r [&'b [u8]],
}

impl<'r, 'b> View for CsvRow<'r, 'b> {
    type V = Seq<Seq<u8>>;

    open spec fn view(&self) -> Seq<Seq<u8>> {
        bytes_of(self.fields@)
    }
}

/// A cursor over the rows of a buffer, in order.
pub struct CsvRowsIter<'r, 'b> {
    records: CsvRecordsIter<'r, 'b>,
}

/// Reads the column titles from the header row, as text. Fails if a title is
/// not valid UTF-8.
pub fn parse_header_row_str<'a>(header_row: &'a [u8]) -> (titles: Result<Vec<&'a str>, CsvError>)
    ensures
        match titles {
            Ok(texts) => titles_are_text(record_fields(header_row@, 0)) && text_bytes(texts@)
                == record_fields(header_row@, 0),
            Err(e) => !titles_are_text(record_fields(header_row@, 0)) && e
                == CsvError::InvalidUtf8,
        },
{
    parse_header_record_str(header_row)
}

/// Where the header row ends: at the first line feed, or at the end of a
/// buffer without a line feed.
pub open spec fn header_row_end(buf: Seq<u8>) -> int {
    if buf.contains(LINE_FEED) {
        next_record_start(buf, 0) - 1
    } else {
        buf.len() as int
    }
}

/// Cuts the buffer at its first line feed: the header is what stands before
/// the line feed, the data what stands after it. The line feed itself belongs
/// to neither. Without a line feed the whole buffer is header and the data is
/// empty.
pub fn split_header_and_data<'a>(buffer: &'a [u8]) -> (sections: CsvBufferSections<'a>)
    ensures
        sections.header@ == buffer@.subrange(0, header_row_end(buffer@)),
        sections.data@ == buffer@.subrange(next_record_start(buffer@, 0), buffer@.len() as int),
        !sections.header@.contains(LINE_FEED),
        buffer@.contains(LINE_FEED) ==> sections.header@.push(LINE_FEED) + sections.data@
            == buffer@,
        !buffer@.contains(LINE_FEED) ==> sections.header@ == buffer@ && sections.data@.len() == 0,
{
    let ghost buf = buffer@;
    let data_start: usize = find_start_of_next_record(buffer, 0);
    let ends_with_line_feed: bool = data_start > 0 && buffer[data_start - 1] == LINE_FEED;
    proof {
        lemma_next_record_start_bounds(buf, 0);
        if ends_with_line_feed {
            assert(buf.contains(LINE_FEED)) by {
                assert(buf[data_start - 1] == LINE_FEED);
            }
        } else {
            assert(!buf.contains(LINE_FEED)) by {
                if buf.contains(LINE_FEED) {
                    let i = choose|i: int| 0 <= i < buf.len() && buf[i] == LINE_FEED;
                    if i < data_start - 1 {
                        assert(buf[i] != LINE_FEED);
                    }
                }
            }
        }
    }
    let header_end_i: usize = if ends_with_line_feed {
        data_start - 1
    } else {
        data_start
    };
    let sections = CsvBufferSections {
        header: &buffer[0..header_end_i],
        data: &buffer[data_start..buffer.len()],
    };
    proof {
        if ends_with_line_feed {
            assert(sections.header@.push(LINE_FEED) + sections.data@ =~= buf);
        } else {
            assert(sections.header@ =~= buf);
        }
        assert(!sections.header@.contains(LINE_FEED)) by {
            if sections.header@.contains(LINE_FEED) {
                let k = choose|k: int|
                    0 <= k < sections.header@.len() && sections.header@[k] == LINE_FEED;
                assert(buf[k] != LINE_FEED);
            }
        }
    }
    sections
}

/// Splits the buffer into chunks of about `approximate_chunk_size` bytes, each
/// ending where a line ends.
pub fn split_csv_buffer_into_line_aligned_chunks<'a>(
    buffer: &'a [u8],
    approximate_chunk_size: usize,
) -> (chunks: Vec<&'a [u8]>)
    ensures
        bytes_of(chunks@) == record_aligned_chunks(buffer@, approximate_chunk_size as nat),
{
    split_csv_buffer_into_record_aligned_chunks(buffer, approximate_chunk_size)
}

/// Appends the fields of the row that starts at `start` to `fields` and
/// returns the index of the first byte after the row.
pub fn parse_row_fields<'a>(buffer: &'a [u8], start: usize, fields: &mut Vec<&'a [u8]>) -> (next:
    usize)
    ensures
        bytes_of(final(fields)@) == bytes_of(old(fields)@) + record_fields(
            buffer@,
            start as int,
        ),
        next == next_record_start(buffer@, start as int),
{
    parse_record_fields(buffer, start, fields)
}

impl<'b> CsvRows<'b> {
    /// Splits the given buffer into rows and their fields.
    pub fn from_buffer(buffer: &'b [u8]) -> (rows: Self)
        ensures
            rows@ == records_of(buffer@),
    {
        CsvRows { records: CsvRecords::from_buffer(buffer) }
    }

    /// A cursor that stands before the first row.
    pub fn iter<'r>(&'r self) -> (iter: CsvRowsIter<'r, 'b>)
        ensures
            iter.rows() == self@,
            iter.position() == 0,
    {
        CsvRowsIter { records: self.records.iter() }
    }

    /// The number of rows.
    pub fn len(&self) -> (n: usize)
        ensures
            n == self@.len(),
    {
        self.records.len()
    }

    /// The row at index `row`, counted from 0.
    pub fn row<'r>(&'r self, row: usize) -> (fields: CsvRow<'r, 'b>)
        requires
            row < self@.len(),
        ensures
            fields@ == self@[row as int],
    {
        CsvRow { fields: self.records.record(row).fields }
    }
}

impl<'r, 'b> CsvRow<'r, 'b> {
    /// The number of fields in this row.
    pub fn len(&self) -> (n: usize)
        ensures
            n == self@.len(),
    {
        self.fields.len()
    }

    /// The field in column `column_i`, or `None` if the row has no such
    /// column.
    pub fn column(&self, column_i: usize) -> (field: Option<&'b [u8]>)
        ensures
            column_i < self@.len() ==> field.is_some() && field.unwrap()@ == self@[column_i as int],
            column_i >= self@.len() ==> field.is_none(),
    {
        CsvRecord { fields: self.fields }.column(column_i)
    }
}

impl<'r, 'b> CsvRowsIter<'r, 'b> {
    /// The rows that the cursor runs over.
    pub closed spec fn rows(&self) -> Seq<Seq<Seq<u8>>> {
        self.records.records()
    }

    /// The number of rows that the cursor has handed out.
    pub closed spec fn position(&self) -> nat {
        self.records.position()
    }

    /// The next row, or `None` when all have been handed out.
    pub fn next(&mut self) -> (row: Option<CsvRow<'r, 'b>>)
        ensures
            final(self).rows() == old(self).rows(),
            old(self).position() < old(self).rows().len() ==> row.is_some() && row.unwrap()@
                == old(self).rows()[old(self).position() as int] && final(self).position() == old(
                self,
            ).position() + 1,
            old(self).position() >= old(self).rows().len() ==> row.is_none()
                && final(self).position() == old(self).position(),
    {
        match self.records.next() {
            Some(record) => Some(CsvRow { fields: record.fields }),
            None => None,
        }
    }
}


/// The index of the first title that is equal to `column_name`, or `None` if
/// there is no such title.
pub fn get_optional_column_index(column_titles: &[&str], column_name: &str) -> (index: Option<
    usize,
>)
    ensures
        match index {
            Some(i) => is_first_index_of(
                text_bytes(column_titles@),
                column_name.spec_bytes(),
                i as int,
            ),
            None => has_no_title(text_bytes(column_titles@), column_name.spec_bytes()),
        },
{
    let name = column_name.as_bytes();
    let mut i: usize = 0;
    while i < column_titles.len()
        invariant
            name@ == column_name.spec_bytes(),
            i <= column_titles@.len(),
            forall|j: int| 0 <= j < i ==> #[trigger] text_bytes(column_titles@)[j] != name@,
        decreases column_titles@.len() - i,
    {
        if bytes_equal(column_titles[i].as_bytes(), name) {
            return Some(i);
        }
        i += 1;
    }
    None
}

/// The index of the first title that is equal to `column_name`. Fails with
/// the name of the column if there is no such title.
pub fn get_required_column_index(column_titles: &[&str], column_name: &str) -> (index: Result<
    usize,
    CsvError,
>)
    ensures
        match index {
            Ok(i) => is_first_index_of(
                text_bytes(column_titles@),
                column_name.spec_bytes(),
                i as int,
            ),
            Err(CsvError::MissingRequiredColumn(name)) => has_no_title(
                text_bytes(column_titles@),
                column_name.spec_bytes(),
            ) && name@ == column_name@,
            Err(_) => false,
        },
{
    match get_optional_column_index(column_titles, column_name) {
        Some(i) => Ok(i),
        None => Err(CsvError::MissingRequiredColumn(column_name.to_owned())),
    }
}

/// Whether `f`, given a text made of these bytes, can return `outcome`.
pub open spec fn may_give<'a, T, F: Fn(&'a str) -> Result<T, CsvError>>(
    f: F,
    field: Seq<u8>,
    outcome: Result<T, CsvError>,
) -> bool {
    exists|text: &'a str| #[trigger] text.spec_bytes() == field && call_ensures(f, (text,), outcome)
}

/// Decodes column `column_i` of every row with `f`, in row order. Rows without
/// that column are decoded from an empty text. Stops at the first field that
/// is not valid UTF-8, or that `f` fails on.
pub fn load_column<'a, T, F: Fn(&'a str) -> Result<T, CsvError>>(
    rows: &CsvRows<'a>,
    column_i: usize,
    f: F,
) -> (column: Result<Vec<T>, CsvError>)
    requires
        forall|text: &'a str| call_requires(f, (text,)),
    ensures
        match column {
            Ok(values) => {
                &&& values@.len() == rows@.len()
                &&& forall|r: int|
                    0 <= r < values@.len() ==> may_give(
                        f,
                        column_fields(rows@, column_i as int)[r],
                        Ok(#[trigger] values@[r]),
                    )
            },
            Err(e) => exists|r: int|
                0 <= r < rows@.len() && {
                    let field = #[trigger] column_fields(rows@, column_i as int)[r];
                    if valid_utf8(field) {
                        may_give(f, field, Err::<T, CsvError>(e))
                    } else {
                        e == CsvError::InvalidUtf8
                    }
                },
        },
{
    let ghost fields = column_fields(rows@, column_i as int);
    let count: usize = rows.len();
    let mut data: Vec<T> = Vec::with_capacity(count);
    let mut i: usize = 0;
    while i < count
        invariant
            count == rows@.len(),
            fields == column_fields(rows@, column_i as int),
            forall|text: &'a str| call_requires(f, (text,)),
            i <= count,
            data@.len() == i,
            forall|r: int| 0 <= r < i ==> may_give(f, fields[r], Ok(#[trigger] data@[r])),
        decreases count - i,
    {
        let row = rows.row(i);
        let column_buffer: &'a [u8] = match row.column(column_i) {
            Some(field) => field,
            None => &[],
        };
        assert(column_buffer@ =~= fields[i as int]);
        let column_str: &'a str = match core::str::from_utf8(column_buffer) {
            Ok(text) => text,
            Err(_) => {
                return Err(CsvError::InvalidUtf8);
            },
        };
        match f(column_str) {
            Ok(value) => {
                data.push(value);
            },
            Err(e) => {
                assert(may_give(f, fields[i as int], Err::<T, CsvError>(e)));
                return Err(e);
            },
        }
        i += 1;
    }
    Ok(data)
}

} // verus!
