//! The chunk splitter: cuts a buffer into parts of about equal size, each
//! ending where a record ends, so that the parts can be tokenized on their own.

use crate::parse_record::{
    bytes_of, find_start_of_next_record, lemma_next_record_start_at_most,
    lemma_next_record_start_bounds, lemma_next_record_start_in_window,
    lemma_record_fields_in_window, next_record_start, record_fields, window_holds_record,
    LINE_FEED,
};
use crate::records::{records_from, records_of};
use vstd::prelude::*;
use vstd::seq_lib::lemma_flatten_concat;

verus! {

/// Where the chunk that starts at `start` ends: at the start of the first
/// record that begins at or after `start + approximate_size`, or at the end of
/// the buffer.
pub open spec fn chunk_end(buf: Seq<u8>, start: int, approximate_size: nat) -> int {
    next_record_start(
        buf,
        if start + approximate_size < buf.len() {
            start + approximate_size
        } else {
            buf.len() as int
        },
    )
}

/// The chunks that the buffer is cut into from index `start` on.
pub open spec fn chunks_from(buf: Seq<u8>, start: int, approximate_size: nat) -> Seq<Seq<u8>>
    decreases buf.len() - start,
{
    if start < 0 || start >= buf.len() {
        Seq::empty()
    } else {
        let end = chunk_end(buf, start, approximate_size);
        proof {
            lemma_chunk_end_bounds(buf, start, approximate_size);
        }
        seq![buf.subrange(start, end)] + chunks_from(buf, end, approximate_size)
    }
}

/// The chunks that a buffer is cut into, in order.
pub open spec fn record_aligned_chunks(buf: Seq<u8>, approximate_size: nat) -> Seq<Seq<u8>> {
    chunks_from(buf, 0, approximate_size)
}

/// Whether a record can start at index `i`: at the end of the buffer, or
/// right after a line feed.
pub open spec fn is_record_boundary(buf: Seq<u8>, i: int) -> bool {
    i == buf.len() || (0 < i < buf.len() && buf[i - 1] == LINE_FEED)
}

/// All fields of a buffer, record after record.
pub open spec fn fields_of(buf: Seq<u8>) -> Seq<Seq<u8>> {
    records_of(buf).flatten()
}

/// The records of each chunk of a buffer, chunk by chunk.
pub open spec fn records_by_chunk(buf: Seq<u8>, approximate_size: nat) -> Seq<Seq<Seq<Seq<u8>>>> {
    record_aligned_chunks(buf, approximate_size).map_values(|chunk: Seq<u8>| records_of(chunk))
}

/// The fields of each chunk of a buffer, chunk by chunk.
pub open spec fn fields_by_chunk(buf: Seq<u8>, approximate_size: nat) -> Seq<Seq<Seq<u8>>> {
    record_aligned_chunks(buf, approximate_size).map_values(|chunk: Seq<u8>| fields_of(chunk))
}

/// A chunk is never empty, ends within the buffer, and ends where a record
/// ends.
pub proof fn lemma_chunk_end_bounds(buf: Seq<u8>, start: int, approximate_size: nat)
    requires
        0 <= start < buf.len(),
    ensures
        start < chunk_end(buf, start, approximate_size) <= buf.len(),
        is_record_boundary(buf, chunk_end(buf, start, approximate_size)),
{
    let target = if start + approximate_size < buf.len() {
        start + approximate_size
    } else {
        buf.len() as int
    };
    lemma_next_record_start_bounds(buf, target);
}

/// Splits the buffer into chunks of about `approximate_chunk_size` bytes. Each
/// chunk ends where a record ends, so a size of 0 gives one chunk per record.
pub fn split_csv_buffer_into_record_aligned_chunks<'a>(
    buffer: &'a [u8],
    approximate_chunk_size: usize,
) -> (chunks: Vec<&'a [u8]>)
    ensures
        bytes_of(chunks@) == record_aligned_chunks(buffer@, approximate_chunk_size as nat),
{
    let ghost buf = buffer@;
    let ghost size = approximate_chunk_size as nat;
    let mut chunks: Vec<&'a [u8]> = Vec::new();
    let mut next_chunk_start: usize = 0;
    assert(bytes_of(chunks@) + chunks_from(buf, 0, size) =~= chunks_from(buf, 0, size));
    while next_chunk_start < buffer.len()
        invariant
            buf == buffer@,
            size == approximate_chunk_size,
            next_chunk_start <= buf.len(),
            bytes_of(chunks@) + chunks_from(buf, next_chunk_start as int, size)
                == record_aligned_chunks(buf, size),
        decreases buf.len() - next_chunk_start,
    {
        let ghost before = chunks@;
        let ghost start = next_chunk_start as int;
        let approximate_chunk_end: usize = if approximate_chunk_size < buffer.len()
            - next_chunk_start {
            next_chunk_start + approximate_chunk_size
        } else {
            buffer.len()
        };
        let chunk_end: usize = find_start_of_next_record(buffer, approximate_chunk_end);
        proof {
            lemma_chunk_end_bounds(buf, start, size);
        }
        chunks.push(&buffer[next_chunk_start..chunk_end]);
        next_chunk_start = chunk_end;
        proof {
            let chunk = buf.subrange(start, chunk_end as int);
            assert(bytes_of(chunks@) =~= bytes_of(before).push(chunk));
            assert(bytes_of(chunks@) + chunks_from(buf, chunk_end as int, size) =~= bytes_of(before)
                + (seq![chunk] + chunks_from(buf, chunk_end as int, size)));
        }
    }
    assert(bytes_of(chunks@) + Seq::<Seq<u8>>::empty() =~= bytes_of(chunks@));
    chunks
}

/// The chunks, put together in order, are the buffer: nothing is lost and
/// nothing is read twice.
pub proof fn lemma_chunks_cover_buffer(buf: Seq<u8>, approximate_size: nat)
    ensures
        record_aligned_chunks(buf, approximate_size).flatten() == buf,
{
    lemma_chunks_cover_from(buf, 0, approximate_size);
    assert(buf.subrange(0, buf.len() as int) =~= buf);
}

proof fn lemma_chunks_cover_from(buf: Seq<u8>, start: int, approximate_size: nat)
    requires
        0 <= start <= buf.len(),
    ensures
        chunks_from(buf, start, approximate_size).flatten() == buf.subrange(
            start,
            buf.len() as int,
        ),
    decreases buf.len() - start,
{
    if start < buf.len() {
        let end = chunk_end(buf, start, approximate_size);
        lemma_chunk_end_bounds(buf, start, approximate_size);
        lemma_chunks_cover_from(buf, end, approximate_size);
        let rest = chunks_from(buf, end, approximate_size);
        lemma_flatten_concat(seq![buf.subrange(start, end)], rest);
        seq![buf.subrange(start, end)].lemma_flatten_one_element();
        assert(buf.subrange(start, end) + buf.subrange(end, buf.len() as int) =~= buf.subrange(
            start,
            buf.len() as int,
        ));
    } else {
        assert(buf.subrange(start, buf.len() as int) =~= Seq::<u8>::empty());
    }
}

/// Every chunk ends where a record ends: with a line feed, or with the buffer.
pub proof fn lemma_chunks_end_with_records(buf: Seq<u8>, approximate_size: nat, k: int)
    requires
        0 <= k < record_aligned_chunks(buf, approximate_size).len(),
    ensures
        record_aligned_chunks(buf, approximate_size)[k].len() > 0,
        k < record_aligned_chunks(buf, approximate_size).len() - 1 ==> record_aligned_chunks(
            buf,
            approximate_size,
        )[k].last() == LINE_FEED,
{
    lemma_chunks_end_from(buf, 0, approximate_size, k);
}

proof fn lemma_chunks_end_from(buf: Seq<u8>, start: int, approximate_size: nat, k: int)
    requires
        0 <= start <= buf.len(),
        0 <= k < chunks_from(buf, start, approximate_size).len(),
    ensures
        chunks_from(buf, start, approximate_size)[k].len() > 0,
        k < chunks_from(buf, start, approximate_size).len() - 1 ==> chunks_from(
            buf,
            start,
            approximate_size,
        )[k].last() == LINE_FEED,
    decreases buf.len() - start,
{
    if start < buf.len() {
        let end = chunk_end(buf, start, approximate_size);
        lemma_chunk_end_bounds(buf, start, approximate_size);
        let chunk = buf.subrange(start, end);
        let rest = chunks_from(buf, end, approximate_size);
        assert(chunks_from(buf, start, approximate_size) == seq![chunk] + rest);
        if k > 0 {
            lemma_chunks_end_from(buf, end, approximate_size, k - 1);
            assert((seq![chunk] + rest)[k] == rest[k - 1]);
        } else if rest.len() > 0 {
            assert(end < buf.len());
            assert(chunk.last() == buf[end - 1]);
        }
    }
}

/// Within a window that ends where a record ends, the records are those that
/// the whole buffer has there.
pub proof fn lemma_records_in_window(buf: Seq<u8>, from: int, to: int, i: int)
    requires
        0 <= from <= i <= to <= buf.len(),
        is_record_boundary(buf, to),
    ensures
        records_from(buf, i) == records_from(buf.subrange(from, to), i - from) + records_from(
            buf,
            to,
        ),
    decreases to - i,
{
    let win = buf.subrange(from, to);
    if i < to {
        if to < buf.len() {
            lemma_next_record_start_at_most(buf, i, to - 1);
        }
        lemma_next_record_start_bounds(buf, i);
        assert(window_holds_record(buf, from, to, i));
        let next = next_record_start(buf, i);
        lemma_record_fields_in_window(buf, from, to, i);
        lemma_next_record_start_in_window(buf, from, to, i);
        lemma_records_in_window(buf, from, to, next);
        assert(records_from(win, i - from) == seq![record_fields(buf, i)] + records_from(
            win,
            next - from,
        ));
        assert(records_from(buf, i) =~= records_from(win, i - from) + records_from(buf, to));
    } else {
        assert(records_from(win, i - from) =~= Seq::empty());
        assert(records_from(buf, i) =~= records_from(win, i - from) + records_from(buf, to));
    }
}

proof fn lemma_chunk_invariance_from(buf: Seq<u8>, start: int, approximate_size: nat)
    requires
        0 <= start <= buf.len(),
    ensures
        chunks_from(buf, start, approximate_size).map_values(
            |chunk: Seq<u8>| records_of(chunk),
        ).flatten() == records_from(buf, start),
    decreases buf.len() - start,
{
    let per_chunk = |chunk: Seq<u8>| records_of(chunk);
    if start < buf.len() {
        let end = chunk_end(buf, start, approximate_size);
        lemma_chunk_end_bounds(buf, start, approximate_size);
        lemma_chunk_invariance_from(buf, end, approximate_size);
        lemma_records_in_window(buf, start, end, start);
        let chunk = buf.subrange(start, end);
        let rest = chunks_from(buf, end, approximate_size);
        assert((seq![chunk] + rest).map_values(per_chunk) =~= seq![records_of(chunk)]
            + rest.map_values(per_chunk));
        lemma_flatten_concat(seq![records_of(chunk)], rest.map_values(per_chunk));
        seq![records_of(chunk)].lemma_flatten_one_element();
    } else {
        assert(chunks_from(buf, start, approximate_size).map_values(per_chunk) =~= Seq::empty());
    }
}

/// The chunk size does not show in what is read: tokenizing chunk by chunk
/// and putting the results together in order gives the records, and so the
/// fields, that tokenizing the whole buffer in one pass gives.
pub proof fn lemma_chunk_invariance(buf: Seq<u8>, approximate_size: nat)
    ensures
        records_by_chunk(buf, approximate_size).flatten() == records_of(buf),
        fields_by_chunk(buf, approximate_size).flatten() == fields_of(buf),
{
    lemma_chunk_invariance_from(buf, 0, approximate_size);
    let chunks = record_aligned_chunks(buf, approximate_size);
    assert(records_by_chunk(buf, approximate_size) =~= chunks.map_values(
        |chunk: Seq<u8>| records_of(chunk),
    ));
    lemma_flatten_twice(records_by_chunk(buf, approximate_size));
    assert(records_by_chunk(buf, approximate_size).map_values(
        |records: Seq<Seq<Seq<u8>>>| records.flatten(),
    ) =~= fields_by_chunk(buf, approximate_size));
}

/// Flattening the parts first and the whole first give the same sequence.
pub proof fn lemma_flatten_twice<T>(parts: Seq<Seq<Seq<T>>>)
    ensures
        parts.flatten().flatten() == parts.map_values(|part: Seq<Seq<T>>| part.flatten()).flatten(),
    decreases parts.len(),
{
    let inner = |part: Seq<Seq<T>>| part.flatten();
    if parts.len() > 0 {
        lemma_flatten_twice(parts.drop_first());
        lemma_flatten_concat(parts.first(), parts.drop_first().flatten());
        assert(parts.map_values(inner).drop_first() =~= parts.drop_first().map_values(inner));
    } else {
        assert(parts.flatten() =~= Seq::empty());
        assert(parts.map_values(inner) =~= Seq::empty());
    }
}

} // verus!
