//! The schema pipeline: from a buffer and a list of named columns, required
//! or optional, to a table of typed columns.

use crate::column::is_column_at;
use crate::document::{document_of, is_column_of, is_decodable, CsvDocument, DocumentView};
use crate::error::CsvError;
use crate::field::ParseCsvField;
use crate::header::{lemma_title_index, parse_document_header, title_index, CsvHeader};
use rayon::iter::{IntoParallelRefIterator, ParallelIterator};
use vstd::prelude::*;
use vstd::utf8::encode_utf8;

verus! {

/// One column that a table is to have.
pub struct ColumnSchema {
    /// The title of the column in the header.
    pub name: String,
    /// Whether the table cannot do without the column.
    pub required: bool,
}

/// For each column of a schema, where the header has it, if at all.
pub struct ResolvedHeader {
    pub indices: Vec<Option<usize>>,
}

/// The columns of a table, in the order of its schema, and the number of its
/// records. An optional column that the header does not have, or that has a
/// field that cannot be decoded, is absent.
pub struct Table<T> {
    pub columns: Vec<Option<Vec<T>>>,
    pub record_count: usize,
}

impl ColumnSchema {
    /// The bytes of the title.
    pub open spec fn name_bytes(&self) -> Seq<u8> {
        encode_utf8(self.name@)
    }

    /// A column that the table cannot do without.
    pub fn required(name: &str) -> (column: Self)
        ensures
            column.name@ == name@,
            column.required,
    {
        ColumnSchema { name: name.to_owned(), required: true }
    }

    /// A column that the table can do without.
    pub fn optional(name: &str) -> (column: Self)
        ensures
            column.name@ == name@,
            !column.required,
    {
        ColumnSchema { name: name.to_owned(), required: false }
    }
}

/// Whether column `e` of the schema is required and has no title in the
/// header.
pub open spec fn is_missing(titles: Seq<Seq<u8>>, schema: Seq<ColumnSchema>, e: int) -> bool {
    schema[e].required && title_index(titles, schema[e].name_bytes()).is_none()
}

/// Whether column `e` of the schema is the first that is required and has no
/// title in the header.
pub open spec fn is_first_missing(titles: Seq<Seq<u8>>, schema: Seq<ColumnSchema>, e: int) -> bool {
    &&& 0 <= e < schema.len()
    &&& is_missing(titles, schema, e)
    &&& forall|d: int| 0 <= d < e ==> !is_missing(titles, schema, d)
}

/// Whether no required column of the schema lacks a title in the header.
pub open spec fn nothing_missing(titles: Seq<Seq<u8>>, schema: Seq<ColumnSchema>) -> bool {
    forall|e: int| 0 <= e < schema.len() ==> !is_missing(titles, schema, e)
}

/// Whether column `e` of the schema is required and cannot be decoded.
pub open spec fn is_undecodable<'a, T: ParseCsvField<'a>>(
    document: DocumentView,
    schema: Seq<ColumnSchema>,
    e: int,
) -> bool {
    schema[e].required && !is_decodable::<T>(document, schema[e].name_bytes())
}

/// Whether column `e` of the schema is the first that is required and cannot
/// be decoded.
pub open spec fn is_first_undecodable<'a, T: ParseCsvField<'a>>(
    document: DocumentView,
    schema: Seq<ColumnSchema>,
    e: int,
) -> bool {
    &&& 0 <= e < schema.len()
    &&& is_undecodable::<T>(document, schema, e)
    &&& forall|d: int| 0 <= d < e ==> !is_undecodable::<T>(document, schema, d)
}

/// Whether every required column of the schema can be decoded.
pub open spec fn all_decodable<'a, T: ParseCsvField<'a>>(
    document: DocumentView,
    schema: Seq<ColumnSchema>,
) -> bool {
    forall|e: int| 0 <= e < schema.len() ==> !is_undecodable::<T>(document, schema, e)
}

/// Whether `indices` tells, for each column of the schema, where the header
/// has it.
pub open spec fn is_resolved(
    titles: Seq<Seq<u8>>,
    schema: Seq<ColumnSchema>,
    indices: Seq<Option<usize>>,
) -> bool {
    &&& indices.len() == schema.len()
    &&& forall|e: int|
        0 <= e < schema.len() ==> match #[trigger] indices[e] {
            Some(i) => title_index(titles, schema[e].name_bytes()) == Some(i as int),
            None => title_index(titles, schema[e].name_bytes()).is_none(),
        }
}

/// Whether `table` is the table that the schema describes over these titles
/// and records.
pub open spec fn is_table_of<'a, T: ParseCsvField<'a>>(
    document: DocumentView,
    schema: Seq<ColumnSchema>,
    table: Table<T>,
) -> bool {
    &&& table.record_count == document.records.len()
    &&& table.columns@.len() == schema.len()
    &&& forall|e: int|
        0 <= e < schema.len() ==> is_column_of::<T>(
            document,
            schema[e].name_bytes(),
            #[trigger] table.columns@[e],
        )
}

/// Finds each column of the schema in the header. Fails with the name of the
/// first required column that the header does not have.
pub fn resolve_header(header: &CsvHeader, schema: &Vec<ColumnSchema>) -> (resolved: Result<
    ResolvedHeader,
    CsvError,
>)
    ensures
        match resolved {
            Ok(found) => nothing_missing(header@, schema@) && is_resolved(
                header@,
                schema@,
                found.indices@,
            ),
            Err(CsvError::MissingRequiredColumn(name)) => exists|e: int|
                is_first_missing(header@, schema@, e) && name@ == schema@[e].name@,
            Err(_) => false,
        },
{
    let mut indices: Vec<Option<usize>> = Vec::with_capacity(schema.len());
    let mut e: usize = 0;
    while e < schema.len()
        invariant
            e <= schema@.len(),
            indices@.len() == e,
            forall|d: int| 0 <= d < e ==> !is_missing(header@, schema@, d),
            forall|d: int|
                0 <= d < e ==> match #[trigger] indices@[d] {
                    Some(i) => title_index(header@, schema@[d].name_bytes()) == Some(i as int),
                    None => title_index(header@, schema@[d].name_bytes()).is_none(),
                },
        decreases schema@.len() - e,
    {
        let index = header.get_column_index(schema[e].name.as_str());
        proof {
            lemma_title_index(header@, schema@[e as int].name_bytes());
        }
        if index.is_none() && schema[e].required {
            assert(is_first_missing(header@, schema@, e as int));
            return Err(CsvError::MissingRequiredColumn(schema[e].name.clone()));
        }
        indices.push(index);
        e += 1;
    }
    Ok(ResolvedHeader { indices })
}

/// Decodes the columns at the given indices, side by side on the threads of
/// the global pool. `par_iter`, `map` and `collect` of rayon hand back one
/// result for each item, in the order of the items; each result is what
/// `CsvDocument::optional_column` returns for its index.
#[verifier::external_body]
fn decode_columns<'a, T: ParseCsvField<'a> + Send>(
    document: &CsvDocument<'a>,
    indices: &Vec<Option<usize>>,
) -> (columns: Vec<Option<Vec<T>>>)
    ensures
        columns@.len() == indices@.len(),
        forall|e: int|
            0 <= e < indices@.len() ==> is_column_at::<T>(
                document@.records,
                indices@[e],
                #[trigger] columns@[e],
            ),
{
    indices.par_iter().map(|index| document.optional_column::<T>(*index)).collect()
}

/// Reads a table from a buffer: the first line is the header, each further
/// line is a record, and every column of the schema is decoded as a `T`.
///
/// A required column that the header lacks fails the whole table, before any
/// field is decoded; so does a required column with a field that cannot be
/// decoded. An optional column is absent from the table in either case,
/// whole. The chunk size affects the speed only.
pub fn parse_table<'a, T: ParseCsvField<'a> + Send>(
    buffer: &'a [u8],
    schema: &Vec<ColumnSchema>,
    approximate_chunk_size: usize,
) -> (parsed: Result<Table<T>, CsvError>)
    ensures
        match parsed {
            Ok(table) => {
                &&& nothing_missing(document_of(buffer@).titles, schema@)
                &&& all_decodable::<T>(document_of(buffer@), schema@)
                &&& is_table_of::<T>(document_of(buffer@), schema@, table)
            },
            Err(CsvError::MissingRequiredColumn(name)) => exists|e: int|
                is_first_missing(document_of(buffer@).titles, schema@, e) && name@
                    == schema@[e].name@,
            Err(CsvError::FieldDecodeError(name)) => nothing_missing(
                document_of(buffer@).titles,
                schema@,
            ) && exists|e: int|
                is_first_undecodable::<T>(document_of(buffer@), schema@, e) && name@
                    == schema@[e].name@,
            Err(CsvError::InvalidUtf8) => false,
        },
{
    // The header is resolved before any record is read.
    let header = parse_document_header(buffer);
    assert(header@ == document_of(buffer@).titles);
    let resolved = match resolve_header(&header, schema) {
        Ok(found) => found,
        Err(e) => {
            return Err(e);
        },
    };
    let document = CsvDocument::from_buffer(buffer, approximate_chunk_size);
    let columns = decode_columns::<T>(&document, &resolved.indices);
    assert forall|e: int| 0 <= e < schema@.len() implies is_column_of::<T>(
        document@,
        schema@[e].name_bytes(),
        #[trigger] columns@[e],
    ) by {
        assert(is_column_at::<T>(document@.records, resolved.indices@[e], columns@[e]));
    }
    let mut e: usize = 0;
    while e < schema.len()
        invariant
            document@ == document_of(buffer@),
            nothing_missing(document@.titles, schema@),
            e <= schema@.len(),
            columns@.len() == schema@.len(),
            forall|d: int| 0 <= d < e ==> !is_undecodable::<T>(document@, schema@, d),
            forall|d: int|
                0 <= d < schema@.len() ==> is_column_of::<T>(
                    document@,
                    schema@[d].name_bytes(),
                    #[trigger] columns@[d],
                ),
        decreases schema@.len() - e,
    {
        if columns[e].is_none() && schema[e].required {
            assert(is_first_undecodable::<T>(document@, schema@, e as int));
            return Err(CsvError::FieldDecodeError(schema[e].name.clone()));
        }
        e += 1;
    }
    Ok(Table { columns, record_count: document.record_count() })
}

} // verus!
