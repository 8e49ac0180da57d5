//! A whole document, tokenized chunk by chunk, from which typed columns are
//! decoded.
//!
//! The chunks are tokenized and decoded side by side on the threads of the
//! global pool. What comes out is what a single pass over the buffer gives.

use crate::chunks::{
    lemma_chunk_invariance, lemma_records_in_window, record_aligned_chunks, records_by_chunk,
    split_csv_buffer_into_record_aligned_chunks,
};
use crate::column::{
    column_fields, columns_by_part, is_column_at, lemma_column_fields_by_part, may_decode_to,
    parse_column_value,
};
use crate::field::{column_accepted, column_decoded, ParseCsvField};
use crate::flatten::lemma_flatten_take_step;
use crate::header::{lemma_title_index, parse_header, title_index, CsvHeader};
use crate::merge::{
    concat_column_chunks, lemma_flatten_all, lemma_flatten_no_longer, lemma_flatten_pairwise,
    merge_column_chunks, part_values,
};
use crate::parse_record::{
    bytes_of, lemma_next_record_start_bounds, lemma_record_fields_in_window, next_record_start,
    record_fields,
};
use crate::records::{lemma_record_count_bound, records_from, records_of, CsvRecords};
use crate::sections::split_header_and_data;
use rayon::iter::{IntoParallelRefIterator, ParallelIterator};
use vstd::prelude::*;
use vstd::string::StringSliceAdditionalSpecFns;

verus! {

/// The target size of a chunk, in bytes, where none is given.
pub const DEFAULT_CHUNK_SIZE: usize = 262144;

/// What a document holds: the titles of its columns, and its records.
pub struct DocumentView {
    /// The column titles, in order.
    pub titles: Seq<Seq<u8>>,
    /// The records below the header line, in order.
    pub records: Seq<Seq<Seq<u8>>>,
}

/// What the document in a buffer holds: the fields of the first line are the
/// titles, and every further line is a record, as a single pass over the
/// buffer gives them.
pub open spec fn document_of(buf: Seq<u8>) -> DocumentView {
    DocumentView {
        titles: record_fields(buf, 0),
        records: records_from(buf, next_record_start(buf, 0)),
    }
}

/// The fields of the column with title `name`, one for each record, if the
/// document has such a column.
pub open spec fn fields_by_title(document: DocumentView, name: Seq<u8>) -> Option<Seq<Seq<u8>>> {
    match title_index(document.titles, name) {
        Some(i) => Some(column_fields(document.records, i)),
        None => None,
    }
}

/// Whether the column with title `name` is there and every field of it can be
/// decoded as a `T`.
pub open spec fn is_decodable<'a, T: ParseCsvField<'a>>(
    document: DocumentView,
    name: Seq<u8>,
) -> bool {
    match fields_by_title(document, name) {
        Some(fields) => column_accepted::<T>(fields),
        None => false,
    }
}

/// Whether `column` is what the column with title `name` decodes to: its
/// values row by row, or nothing if the column is not there or has a field
/// that cannot be decoded.
pub open spec fn is_column_of<'a, T: ParseCsvField<'a>>(
    document: DocumentView,
    name: Seq<u8>,
    column: Option<Vec<T>>,
) -> bool {
    match column {
        Some(values) => is_decodable::<T>(document, name) && column_decoded::<T>(
            fields_by_title(document, name).unwrap(),
            values@,
        ),
        None => !is_decodable::<T>(document, name),
    }
}

/// The records that each store holds.
pub open spec fn store_records(stores: Seq<CsvRecords>) -> Seq<Seq<Seq<Seq<u8>>>> {
    Seq::new(stores.len(), |k: int| stores[k]@)
}

/// Tokenizes every chunk, on the threads of the global pool. `par_iter`,
/// `map` and `collect` of rayon hand back one result for each item, in the
/// order of the items; each result is what `CsvRecords::from_buffer` returns
/// for its chunk.
#[verifier::external_body]
fn tokenize_chunks<'a>(chunks: &Vec<&'a [u8]>) -> (stores: Vec<CsvRecords<'a>>)
    ensures
        stores@.len() == chunks@.len(),
        forall|k: int|
            0 <= k < chunks@.len() ==> (#[trigger] stores@[k])@ == records_of(chunks@[k]@),
{
    chunks.par_iter().map(|chunk| CsvRecords::from_buffer(chunk)).collect()
}

/// Whether `column` is what `decode` can make of the fields of a column:
/// values that it can return for them, row by row, or nothing if it can fail
/// on one of them.
pub open spec fn is_decoded_with<'a, T, F: Fn(&'a [u8]) -> Result<T, ()>>(
    decode: F,
    fields: Seq<Seq<u8>>,
    column: Option<Vec<T>>,
) -> bool {
    match column {
        Some(values) => {
            &&& values@.len() == fields.len()
            &&& forall|r: int|
                0 <= r < fields.len() ==> may_decode_to(
                    decode,
                    fields[r],
                    Ok(#[trigger] values@[r]),
                )
        },
        None => exists|r: int|
            0 <= r < fields.len() && may_decode_to(decode, #[trigger] fields[r], Err::<T, ()>(())),
    }
}

/// Decodes one column of one chunk with `decode`; `None` if it fails on a
/// field.
pub fn parse_column_value_or_absent<'a, T, F: Fn(&'a [u8]) -> Result<T, ()>>(
    records: &CsvRecords<'a>,
    column_i: usize,
    decode: &F,
) -> (column: Option<Vec<T>>)
    requires
        forall|buffer: &'a [u8]| call_requires(*decode, (buffer,)),
    ensures
        is_decoded_with(*decode, column_fields(records@, column_i as int), column),
{
    match parse_column_value(records, column_i, decode) {
        Ok(values) => Some(values),
        Err(_) => None,
    }
}

/// Decodes one column of every chunk with `decode`, on the threads of the
/// global pool. `par_iter`, `map` and `collect` of rayon hand back one result
/// for each item, in the order of the items; each result is what
/// `parse_column_value_or_absent` returns for its chunk.
#[verifier::external_body]
fn decode_chunks_with<'a, T: Send, F: Fn(&'a [u8]) -> Result<T, ()> + Sync>(
    stores: &Vec<CsvRecords<'a>>,
    column_i: usize,
    decode: &F,
) -> (parts: Vec<Option<Vec<T>>>)
    requires
        forall|buffer: &'a [u8]| call_requires(*decode, (buffer,)),
    ensures
        parts@.len() == stores@.len(),
        forall|k: int|
            0 <= k < stores@.len() ==> is_decoded_with(
                *decode,
                column_fields(stores@[k]@, column_i as int),
                #[trigger] parts@[k],
            ),
{
    stores.par_iter().map(
        |records| parse_column_value_or_absent(records, column_i, decode),
    ).collect()
}

/// The column of a whole buffer is the columns of its chunks, one after the
/// other, and the chunks hold no more records than the buffer has bytes.
proof fn lemma_column_by_chunk(data: Seq<u8>, approximate_size: nat, column_i: int)
    ensures
        column_fields(records_of(data), column_i) == columns_by_part(
            records_by_chunk(data, approximate_size),
            column_i,
        ).flatten(),
        records_by_chunk(data, approximate_size).flatten().len() <= data.len(),
{
    lemma_chunk_invariance(data, approximate_size);
    lemma_record_count_bound(data, 0);
    lemma_column_fields_by_part(records_by_chunk(data, approximate_size), column_i);
}

/// A document: its column titles, and the records below the header line,
/// tokenized chunk by chunk.
pub struct CsvDocument<'a> {
    header: CsvHeader<'a>,
    data: &'a [u8],
    approximate_chunk_size: usize,
    stores: Vec<CsvRecords<'a>>,
}

impl<'a> View for CsvDocument<'a> {
    type V = DocumentView;

    closed spec fn view(&self) -> DocumentView {
        DocumentView { titles: self.header@, records: records_of(self.data@) }
    }
}

impl<'a> CsvDocument<'a> {
    #[verifier::type_invariant]
    spec fn well_formed(&self) -> bool {
        store_records(self.stores@) == records_by_chunk(
            self.data@,
            self.approximate_chunk_size as nat,
        )
    }

    /// Reads a document: the first line is the header, each further line is a
    /// record. The data is cut into chunks of about `approximate_chunk_size`
    /// bytes, which affects the speed only.
    pub fn from_buffer(buffer: &'a [u8], approximate_chunk_size: usize) -> (document: Self)
        ensures
            document@ == document_of(buffer@),
    {
        let sections = split_header_and_data(buffer);
        let header = parse_header(sections.header);
        let chunks = split_csv_buffer_into_record_aligned_chunks(
            sections.data,
            approximate_chunk_size,
        );
        let stores = tokenize_chunks(&chunks);
        proof {
            let buf = buffer@;
            let cut = next_record_start(buf, 0);
            lemma_next_record_start_bounds(buf, 0);
            lemma_record_fields_in_window(buf, 0, cut, 0);
            lemma_records_in_window(buf, cut, buf.len() as int, cut);
            assert(records_from(buf, buf.len() as int) =~= Seq::empty());
            assert(records_from(buf, cut) =~= records_of(sections.data@));
            assert(store_records(stores@) =~= records_by_chunk(
                sections.data@,
                approximate_chunk_size as nat,
            )) by {
                assert(bytes_of(chunks@) == record_aligned_chunks(
                    sections.data@,
                    approximate_chunk_size as nat,
                ));
                assert forall|k: int| 0 <= k < stores@.len() implies store_records(stores@)[k]
                    == records_by_chunk(sections.data@, approximate_chunk_size as nat)[k] by {
                    assert(bytes_of(chunks@)[k] == chunks@[k]@);
                }
            }
        }
        CsvDocument { header, data: sections.data, approximate_chunk_size, stores }
    }

    /// The header of the document.
    pub fn header(&self) -> (header: &CsvHeader<'a>)
        ensures
            header@ == self@.titles,
    {
        &self.header
    }

    /// The number of records below the header line.
    pub fn record_count(&self) -> (count: usize)
        ensures
            count == self@.records.len(),
    {
        let ghost parts = store_records(self.stores@);
        proof {
            use_type_invariant(self);
            lemma_chunk_invariance(self.data@, self.approximate_chunk_size as nat);
            lemma_record_count_bound(self.data@, 0);
            assert(self.data@.len() == self.data.len());
            assert(parts.take(0).flatten() =~= Seq::empty());
        }
        let mut count: usize = 0;
        let mut k: usize = 0;
        while k < self.stores.len()
            invariant
                parts == store_records(self.stores@),
                parts.flatten().len() <= usize::MAX,
                k <= self.stores@.len(),
                count == parts.take(k as int).flatten().len(),
            decreases self.stores@.len() - k,
        {
            proof {
                lemma_flatten_take_step(parts, k as int);
            }
            count += self.stores[k].len();
            k += 1;
        }
        assert(parts.take(k as int) =~= parts);
        count
    }

    /// Decodes column `column_i` of every record as a `T`, in record order.
    /// Records without that column are decoded from an empty field.
    ///
    /// The column is all or nothing: a single field that is not accepted
    /// makes the whole column absent.
    pub fn column<T: ParseCsvField<'a> + Send>(&self, column_i: usize) -> (column: Option<Vec<T>>)
        ensures
            column is Some <==> column_accepted::<T>(
                column_fields(self@.records, column_i as int),
            ),
            column is Some ==> column_decoded::<T>(
                column_fields(self@.records, column_i as int),
                column->Some_0@,
            ),
    {
        let decode = |buffer: &'a [u8]| -> (value: Result<T, ()>)
            ensures
                value is Ok <==> T::accepts(buffer@),
                value is Ok ==> T::decodes_to(buffer@, value->Ok_0),
            { T::parse_csv_field(buffer) };
        let parts = decode_chunks_with(&self.stores, column_i, &decode);
        proof {
            assert forall|k: int| 0 <= k < parts@.len() implies ((#[trigger] parts@[k]) is Some
                <==> column_accepted::<T>(column_fields(self.stores@[k]@, column_i as int))) && (
            parts@[k] is Some ==> column_decoded::<T>(
                column_fields(self.stores@[k]@, column_i as int),
                parts@[k]->Some_0@,
            )) by {
                let chunk = column_fields(self.stores@[k]@, column_i as int);
                assert(is_decoded_with(decode, chunk, parts@[k]));
                if parts@[k] is Some {
                    let values = parts@[k]->Some_0;
                    assert forall|r: int| 0 <= r < chunk.len() implies T::accepts(
                        #[trigger] chunk[r],
                    ) && T::decodes_to(chunk[r], values@[r]) by {
                        assert(may_decode_to(decode, chunk[r], Ok(values@[r])));
                    }
                } else {
                    let r = choose|r: int|
                        0 <= r < chunk.len() && may_decode_to(
                            decode,
                            #[trigger] chunk[r],
                            Err::<T, ()>(()),
                        );
                    assert(!T::accepts(chunk[r]));
                }
            }
        }
        let ghost records = store_records(self.stores@);
        let ghost fields = columns_by_part(records, column_i as int);
        let ghost values = part_values(parts@);
        proof {
            use_type_invariant(self);
            lemma_column_by_chunk(
                self.data@,
                self.approximate_chunk_size as nat,
                column_i as int,
            );
            assert(self.data@.len() == self.data.len());
            assert forall|k: int| 0 <= k < values.len() implies (#[trigger] values[k]).len()
                <= records[k].len() by {
                if parts@[k] is Some {
                    assert(column_decoded::<T>(fields[k], parts@[k]->Some_0@));
                }
            }
            lemma_flatten_no_longer(values, records);
        }
        let merged = merge_column_chunks(&parts);
        proof {
            let accepts = |field: Seq<u8>| T::accepts(field);
            lemma_flatten_all(fields, accepts);
            if merged is Some {
                assert forall|k: int, j: int|
                    0 <= k < fields.len() && 0 <= j < fields[k].len() implies accepts(
                    #[trigger] fields[k][j],
                ) by {
                    assert(parts@[k] is Some);
                    assert(column_accepted::<T>(fields[k]));
                }
                let decodes = |field: Seq<u8>, value: T| T::decodes_to(field, value);
                assert forall|k: int| 0 <= k < fields.len() implies (#[trigger] fields[k]).len()
                    == values[k].len() by {
                    assert(parts@[k] is Some);
                    assert(column_decoded::<T>(fields[k], parts@[k]->Some_0@));
                }
                assert forall|k: int, j: int|
                    0 <= k < fields.len() && 0 <= j < fields[k].len() implies decodes(
                    #[trigger] fields[k][j],
                    #[trigger] values[k][j],
                ) by {
                    assert(parts@[k] is Some);
                    assert(column_decoded::<T>(fields[k], parts@[k]->Some_0@));
                }
                lemma_flatten_pairwise(fields, values, decodes);
                let column = merged->Some_0@;
                assert forall|r: int| 0 <= r < fields.flatten().len() implies T::decodes_to(
                    fields.flatten()[r],
                    #[trigger] column[r],
                ) by {
                    assert(decodes(fields.flatten()[r], values.flatten()[r]));
                    T::lemma_clone_decodes_alike(
                        fields.flatten()[r],
                        values.flatten()[r],
                        column[r],
                    );
                }
            } else {
                let k = choose|k: int| 0 <= k < parts@.len() && !((#[trigger] parts@[k]) is Some);
                assert(!column_accepted::<T>(fields[k]));
                let j = choose|j: int|
                    0 <= j < fields[k].len() && !T::accepts(#[trigger] fields[k][j]);
                assert(!accepts(fields[k][j]));
            }
        }
        merged
    }

    /// Decodes column `column_i` of every record with `decode`, in record
    /// order. Records without that column are decoded from an empty field.
    ///
    /// The column is all or nothing: a single field that `decode` fails on
    /// makes the whole column absent.
    pub fn column_with<T: Send, F: Fn(&'a [u8]) -> Result<T, ()> + Sync>(
        &self,
        column_i: usize,
        decode: F,
    ) -> (column: Option<Vec<T>>)
        requires
            forall|buffer: &'a [u8]| call_requires(decode, (buffer,)),
        ensures
            is_decoded_with(decode, column_fields(self@.records, column_i as int), column),
    {
        let parts = decode_chunks_with(&self.stores, column_i, &decode);
        let ghost records = store_records(self.stores@);
        let ghost fields = columns_by_part(records, column_i as int);
        let ghost values = part_values(parts@);
        let ghost fails = |field: Seq<u8>| may_decode_to(decode, field, Err::<T, ()>(()));
        let ghost gives = |field: Seq<u8>, value: T| may_decode_to(decode, field, Ok(value));
        proof {
            use_type_invariant(self);
            lemma_column_by_chunk(
                self.data@,
                self.approximate_chunk_size as nat,
                column_i as int,
            );
            assert(self.data@.len() == self.data.len());
            assert forall|k: int| 0 <= k < values.len() implies (#[trigger] values[k]).len()
                <= records[k].len() by {
                assert(is_decoded_with(decode, fields[k], parts@[k]));
            }
            lemma_flatten_no_longer(values, records);
            if forall|k: int| 0 <= k < parts@.len() ==> (#[trigger] parts@[k]) is Some {
                assert forall|k: int| 0 <= k < fields.len() implies (#[trigger] fields[k]).len()
                    == values[k].len() by {
                    assert(is_decoded_with(decode, fields[k], parts@[k]));
                }
                assert forall|k: int, j: int|
                    0 <= k < fields.len() && 0 <= j < fields[k].len() implies gives(
                    #[trigger] fields[k][j],
                    #[trigger] values[k][j],
                ) by {
                    assert(is_decoded_with(decode, fields[k], parts@[k]));
                }
                lemma_flatten_pairwise(fields, values, gives);
            } else {
                let k = choose|k: int| 0 <= k < parts@.len() && !((#[trigger] parts@[k]) is Some);
                assert(is_decoded_with(decode, fields[k], parts@[k]));
                let j = choose|j: int| 0 <= j < fields[k].len() && fails(#[trigger] fields[k][j]);
                let holds = |field: Seq<u8>| !fails(field);
                lemma_flatten_all(fields, holds);
                assert(!holds(fields[k][j]));
                let r = choose|r: int|
                    0 <= r < fields.flatten().len() && !holds(#[trigger] fields.flatten()[r]);
                assert(fails(fields.flatten()[r]));
            }
        }
        concat_column_chunks(parts)
    }

    /// Decodes the column at `index` as a `T`, if there is an index. The
    /// column is absent if there is none, or if a single field of the column
    /// is not accepted.
    pub fn optional_column<T: ParseCsvField<'a> + Send>(&self, index: Option<usize>) -> (column:
        Option<Vec<T>>)
        ensures
            is_column_at::<T>(self@.records, index, column),
    {
        match index {
            Some(column_i) => self.column::<T>(column_i),
            None => None,
        }
    }

    /// Decodes the first column with the given title as a `T`, in record
    /// order. The column is absent if the header has no such title, or if a
    /// single field of the column is not accepted.
    pub fn column_by_title<T: ParseCsvField<'a> + Send>(&self, title: &str) -> (column: Option<
        Vec<T>,
    >)
        ensures
            is_column_of::<T>(self@, title.spec_bytes(), column),
    {
        proof {
            lemma_title_index(self@.titles, title.spec_bytes());
        }
        self.optional_column::<T>(self.header.get_column_index(title))
    }
}

} // verus!
