//! The record store: a chunk of a buffer, tokenized into records and fields.

use crate::parse_record::{
    bytes_of, lemma_next_record_start_bounds, next_record_start, parse_record_fields,
    record_fields,
};
use vstd::prelude::*;

verus! {

/// The records of the buffer from index `start` on, in order, each as the
/// sequence of its fields. A record ends with its line feed or with the
/// buffer; an empty line is a record without fields.
pub open spec fn records_from(buf: Seq<u8>, start: int) -> Seq<Seq<Seq<u8>>>
    decreases buf.len() - start,
{
    if start < 0 || start >= buf.len() {
        Seq::empty()
    } else {
        proof {
            lemma_next_record_start_bounds(buf, start);
        }
        seq![record_fields(buf, start)] + records_from(buf, next_record_start(buf, start))
    }
}

/// All records of a buffer.
pub open spec fn records_of(buf: Seq<u8>) -> Seq<Seq<Seq<u8>>> {
    records_from(buf, 0)
}

/// A buffer holds at most as many records as bytes.
pub proof fn lemma_record_count_bound(buf: Seq<u8>, start: int)
    requires
        0 <= start <= buf.len(),
    ensures
        records_from(buf, start).len() <= buf.len() - start,
    decreases buf.len() - start,
{
    if start < buf.len() {
        lemma_next_record_start_bounds(buf, start);
        lemma_record_count_bound(buf, next_record_start(buf, start));
    }
}

/// The records that an offsets array cuts out of a flat array of fields.
pub open spec fn records_by_offsets(offsets: Seq<usize>, fields: Seq<&[u8]>) -> Seq<Seq<Seq<u8>>> {
    Seq::new(
        (offsets.len() - 1) as nat,
        |r: int| bytes_of(fields.subrange(offsets[r] as int, offsets[r + 1] as int)),
    )
}

/// Whether an offsets array describes records over `field_count` fields: it
/// starts at 0, never decreases and ends at `field_count`.
pub open spec fn offsets_well_formed(offsets: Seq<usize>, field_count: nat) -> bool {
    &&& offsets.len() >= 1
    &&& offsets[0] == 0
    &&& offsets.last() == field_count
    &&& forall|r: int| 0 <= r < offsets.len() - 1 ==> #[trigger] offsets[r] <= offsets[r + 1]
}

/// A buffer, or a part of one, parsed into records and their fields. The
/// fields borrow from the buffer; nothing is copied.
pub struct CsvRecords<'a> {
    /// Consecutive values bound the fields of one record within `fields`. One
    /// longer than the number of records.
    offsets: Vec<usize>,
    /// The fields of all records, one after the other.
    fields: Vec<&'a [u8]>,
}

impl<'a> View for CsvRecords<'a> {
    type V = Seq<Seq<Seq<u8>>>;

    closed spec fn view(&self) -> Seq<Seq<Seq<u8>>> {
        records_by_offsets(self.offsets@, self.fields@)
    }
}

/// The fields of one record.
pub struct CsvRecord<'r, 'a> {
    pub fields: &'r [&'a [u8]],
}

impl<'r, 'a> View for CsvRecord<'r, 'a> {
    type V = Seq<Seq<u8>>;

    open spec fn view(&self) -> Seq<Seq<u8>> {
        bytes_of(self.fields@)
    }
}

/// A cursor over the records of a store, in order.
pub struct CsvRecordsIter<'r, 'a> {
    records: &'r CsvRecords<'a>,
    i: usize,
}

proof fn lemma_offsets_ordered(offsets: Seq<usize>, field_count: nat, r: int, s: int)
    requires
        offsets_well_formed(offsets, field_count),
        0 <= r <= s < offsets.len(),
    ensures
        offsets[r] <= offsets[s] <= field_count,
    decreases offsets.len() - r,
{
    if r < offsets.len() - 1 {
        assert(offsets[r] <= offsets[r + 1]);
        if r < s {
            lemma_offsets_ordered(offsets, field_count, r + 1, s);
        } else {
            lemma_offsets_ordered(offsets, field_count, r + 1, r + 1);
        }
    }
}

impl<'a> CsvRecords<'a> {
    #[verifier::type_invariant]
    spec fn well_formed(&self) -> bool {
        offsets_well_formed(self.offsets@, self.fields@.len())
    }

    /// Splits the given buffer into records and their fields.
    pub fn from_buffer(buffer: &'a [u8]) -> (records: Self)
        ensures
            records@ == records_of(buffer@),
    {
        let mut offsets: Vec<usize> = Vec::new();
        let mut fields: Vec<&'a [u8]> = Vec::new();

        offsets.push(0);
        let mut start: usize = 0;
        assert(records_by_offsets(offsets@, fields@) =~= Seq::empty());
        while start < buffer.len()
            invariant
                start <= buffer@.len(),
                offsets_well_formed(offsets@, fields@.len()),
                records_by_offsets(offsets@, fields@) + records_from(buffer@, start as int)
                    == records_of(buffer@),
            decreases buffer@.len() - start,
        {
            let ghost before = fields@;
            let ghost cuts = offsets@;
            let ghost at = start as int;
            start = parse_record_fields(buffer, start, &mut fields);
            offsets.push(fields.len());
            proof {
                lemma_next_record_start_bounds(buffer@, at);
                let record = record_fields(buffer@, at);
                assert(bytes_of(fields@) == bytes_of(before) + record);
                assert(fields@.len() == bytes_of(fields@).len());
                assert(before.len() == bytes_of(before).len());
                assert forall|r: int| 0 <= r < cuts.len() - 1 implies #[trigger] records_by_offsets(
                    offsets@,
                    fields@,
                )[r] == records_by_offsets(cuts, before)[r] by {
                    lemma_offsets_ordered(cuts, before.len(), r, r + 1);
                    let lo = cuts[r] as int;
                    let hi = cuts[r + 1] as int;
                    assert forall|k: int| lo <= k < hi implies fields@[k]@ == before[k]@ by {
                        assert(bytes_of(fields@)[k] == bytes_of(before)[k]);
                    }
                    assert(bytes_of(fields@.subrange(lo, hi)) =~= bytes_of(
                        before.subrange(lo, hi),
                    ));
                }
                let lo = before.len() as int;
                let hi = fields@.len() as int;
                assert forall|k: int| 0 <= k < hi - lo implies fields@[lo + k]@ == record[k] by {
                    assert(bytes_of(fields@)[lo + k] == record[k]);
                }
                assert(bytes_of(fields@.subrange(lo, hi)) =~= record);
                assert(records_by_offsets(offsets@, fields@) =~= records_by_offsets(
                    cuts,
                    before,
                ).push(record));
                assert(records_by_offsets(offsets@, fields@) + records_from(buffer@, start as int)
                    =~= records_by_offsets(cuts, before) + records_from(buffer@, at));
            }
        }
        assert(records_by_offsets(offsets@, fields@) + Seq::empty() =~= records_by_offsets(
            offsets@,
            fields@,
        ));
        CsvRecords { offsets, fields }
    }

    /// The number of records.
    pub fn len(&self) -> (n: usize)
        ensures
            n == self@.len(),
    {
        proof {
            use_type_invariant(self);
        }
        self.offsets.len() - 1
    }

    /// The record at index `i`, counted from 0.
    pub fn record<'r>(&'r self, i: usize) -> (record: CsvRecord<'r, 'a>)
        requires
            i < self@.len(),
        ensures
            record@ == self@[i as int],
    {
        proof {
            use_type_invariant(self);
            assert(self@.len() == self.offsets.len() - 1);
            lemma_offsets_ordered(self.offsets@, self.fields@.len(), i as int, i + 1);
        }
        let start: usize = self.offsets[i];
        let end: usize = self.offsets[i + 1];
        CsvRecord { fields: vstd::slice::slice_subrange(self.fields.as_slice(), start, end) }
    }

    /// A cursor that stands before the first record.
    pub fn iter<'r>(&'r self) -> (iter: CsvRecordsIter<'r, 'a>)
        ensures
            iter.records() == self@,
            iter.position() == 0,
    {
        CsvRecordsIter { records: self, i: 0 }
    }
}

impl<'a> Default for CsvRecords<'a> {
    /// A store without records.
    fn default() -> (records: Self)
        ensures
            records@ == Seq::<Seq<Seq<u8>>>::empty(),
    {
        let mut offsets: Vec<usize> = Vec::new();
        offsets.push(0);
        let records = CsvRecords { offsets, fields: Vec::new() };
        assert(records@ =~= Seq::empty());
        records
    }
}

impl<'r, 'a> CsvRecord<'r, 'a> {
    /// The number of fields in this record.
    pub fn len(&self) -> (n: usize)
        ensures
            n == self@.len(),
    {
        self.fields.len()
    }

    /// The field in column `column_i`, or `None` if the record has no such
    /// column.
    pub fn column(&self, column_i: usize) -> (field: Option<&'a [u8]>)
        ensures
            column_i < self@.len() ==> field.is_some() && field.unwrap()@ == self@[column_i as int],
            column_i >= self@.len() ==> field.is_none(),
    {
        if column_i < self.fields.len() {
            Some(self.fields[column_i])
        } else {
            None
        }
    }
}

impl<'r, 'a> CsvRecordsIter<'r, 'a> {
    /// The records that the cursor runs over.
    pub closed spec fn records(&self) -> Seq<Seq<Seq<u8>>> {
        self.records@
    }

    /// The number of records that the cursor has handed out.
    pub closed spec fn position(&self) -> nat {
        self.i as nat
    }

    /// The next record, or `None` when all have been handed out.
    pub fn next(&mut self) -> (record: Option<CsvRecord<'r, 'a>>)
        ensures
            final(self).records() == old(self).records(),
            old(self).position() < old(self).records().len() ==> record.is_some()
                && record.unwrap()@ == old(self).records()[old(self).position() as int]
                && final(self).position() == old(self).position() + 1,
            old(self).position() >= old(self).records().len() ==> record.is_none()
                && final(self).position() == old(self).position(),
    {
        if self.i >= self.records.len() {
            return None;
        }
        let record = self.records.record(self.i);
        self.i += 1;
        Some(record)
    }
}

} // verus!
