//! Column materialization: one column of a record store, decoded row by row.

use crate::field::{column_accepted, column_decoded, ParseCsvField};
use crate::merge::lemma_flatten_map;
use crate::records::CsvRecords;
use vstd::prelude::*;

verus! {

/// The field that a record has in column `column_i`. A record that is too
/// short has an empty field there.
pub open spec fn field_or_empty(record: Seq<Seq<u8>>, column_i: int) -> Seq<u8> {
    if 0 <= column_i < record.len() {
        record[column_i]
    } else {
        Seq::empty()
    }
}

/// The fields of column `column_i`, one for each record.
pub open spec fn column_fields(records: Seq<Seq<Seq<u8>>>, column_i: int) -> Seq<Seq<u8>> {
    Seq::new(records.len(), |r: int| field_or_empty(records[r], column_i))
}

/// The fields of column `column_i` in each part of the records, part by part.
pub open spec fn columns_by_part(
    parts: Seq<Seq<Seq<Seq<u8>>>>,
    column_i: int,
) -> Seq<Seq<Seq<u8>>> {
    Seq::new(parts.len(), |k: int| column_fields(parts[k], column_i))
}

/// A column of records that come in parts is the columns of the parts, one
/// after the other.
pub proof fn lemma_column_fields_by_part(parts: Seq<Seq<Seq<Seq<u8>>>>, column_i: int)
    ensures
        column_fields(parts.flatten(), column_i) == columns_by_part(parts, column_i).flatten(),
{
    let pick = |record: Seq<Seq<u8>>| field_or_empty(record, column_i);
    lemma_flatten_map(parts, pick);
    assert(parts.flatten().map_values(pick) =~= column_fields(parts.flatten(), column_i));
    assert(parts.map_values(|part: Seq<Seq<Seq<u8>>>| part.map_values(pick)) =~= columns_by_part(
        parts,
        column_i,
    )) by {
        assert forall|k: int| 0 <= k < parts.len() implies #[trigger] parts[k].map_values(pick)
            == column_fields(parts[k], column_i) by {
            assert(parts[k].map_values(pick) =~= column_fields(parts[k], column_i));
        }
    }
}

/// Whether `column` is what the column at `index` decodes to: its values row
/// by row, or nothing if there is no index or the column has a field that
/// cannot be decoded.
pub open spec fn is_column_at<'a, T: ParseCsvField<'a>>(
    records: Seq<Seq<Seq<u8>>>,
    index: Option<usize>,
    column: Option<Vec<T>>,
) -> bool {
    match (index, column) {
        (Some(i), Some(values)) => column_accepted::<T>(column_fields(records, i as int))
            && column_decoded::<T>(column_fields(records, i as int), values@),
        (Some(i), None) => !column_accepted::<T>(column_fields(records, i as int)),
        (None, Some(_)) => false,
        (None, None) => true,
    }
}

/// Whether `decode`, given a field with these bytes, can return `outcome`.
pub open spec fn may_decode_to<'a, T, F: Fn(&'a [u8]) -> Result<T, ()>>(
    decode: F,
    field: Seq<u8>,
    outcome: Result<T, ()>,
) -> bool {
    exists|buffer: &'a [u8]| #[trigger] buffer@ == field && call_ensures(decode, (buffer,), outcome)
}

/// Decodes column `column_i` of every record with `parse_field`, in record
/// order. Records without that column are decoded from an empty field. Stops
/// at the first field that `parse_field` fails on.
pub fn parse_column_value<'a, T, F: Fn(&'a [u8]) -> Result<T, ()>>(
    records: &CsvRecords<'a>,
    column_i: usize,
    parse_field: F,
) -> (column: Result<Vec<T>, ()>)
    requires
        forall|buffer: &'a [u8]| call_requires(parse_field, (buffer,)),
    ensures
        match column {
            Ok(values) => {
                &&& values@.len() == records@.len()
                &&& forall|r: int|
                    0 <= r < values@.len() ==> may_decode_to(
                        parse_field,
                        column_fields(records@, column_i as int)[r],
                        Ok(#[trigger] values@[r]),
                    )
            },
            Err(_) => exists|r: int|
                0 <= r < records@.len() && may_decode_to(
                    parse_field,
                    #[trigger] column_fields(records@, column_i as int)[r],
                    Err::<T, ()>(()),
                ),
        },
{
    let ghost fields = column_fields(records@, column_i as int);
    let count: usize = records.len();
    let mut data: Vec<T> = Vec::with_capacity(count);
    let mut i: usize = 0;
    while i < count
        invariant
            count == records@.len(),
            fields == column_fields(records@, column_i as int),
            forall|buffer: &'a [u8]| call_requires(parse_field, (buffer,)),
            i <= count,
            data@.len() == i,
            forall|r: int|
                0 <= r < i ==> may_decode_to(parse_field, fields[r], Ok(#[trigger] data@[r])),
        decreases count - i,
    {
        let record = records.record(i);
        let column_buffer: &'a [u8] = match record.column(column_i) {
            Some(field) => field,
            None => &[],
        };
        assert(column_buffer@ =~= fields[i as int]);
        match parse_field(column_buffer) {
            Ok(value) => {
                data.push(value);
            },
            Err(e) => {
                assert(may_decode_to(parse_field, fields[i as int], Err::<T, ()>(())));
                return Err(e);
            },
        }
        i += 1;
    }
    Ok(data)
}

/// Decodes column `column_i` of every record as a `T`. Records without that
/// column are decoded from an empty field. Fails if any field of the column is
/// not accepted.
pub fn parse_column<'a, T: ParseCsvField<'a>>(records: &CsvRecords<'a>, column_i: usize) -> (column:
    Result<Vec<T>, ()>)
    ensures
        column is Ok <==> column_accepted::<T>(column_fields(records@, column_i as int)),
        column is Ok ==> column_decoded::<T>(
            column_fields(records@, column_i as int),
            column->Ok_0@,
        ),
{
    let decode = |buffer: &'a [u8]| -> (value: Result<T, ()>)
        ensures
            value is Ok <==> T::accepts(buffer@),
            value is Ok ==> T::decodes_to(buffer@, value->Ok_0),
        { T::parse_csv_field(buffer) };
    let column = parse_column_value(records, column_i, decode);
    proof {
        let fields = column_fields(records@, column_i as int);
        if column is Ok {
            let values = column->Ok_0;
            assert forall|r: int| 0 <= r < fields.len() implies T::accepts(#[trigger] fields[r])
                && T::decodes_to(fields[r], values@[r]) by {
                assert(may_decode_to(decode, fields[r], Ok(values@[r])));
            }
        } else {
            let r = choose|r: int|
                0 <= r < records@.len() && may_decode_to(
                    decode,
                    #[trigger] fields[r],
                    Err::<T, ()>(()),
                );
            assert(!T::accepts(fields[r]));
        }
    }
    column
}

} // verus!
