//! The record tokenizer: splits one record's bytes into fields.
//!
//! The grammar is lenient by design. A line feed ends the record, carriage
//! returns are skipped, a quoted field runs to its closing quote (a doubled
//! quote does not close it) or to the end of the line, and whatever follows a
//! closing quote up to the next separator is dropped.

use vstd::prelude::*;

verus! {

pub const LINE_FEED: u8 = 10;

pub const CARRIAGE_RETURN: u8 = 13;

pub const QUOTE: u8 = 34;

pub const COMMA: u8 = 44;

/// A byte that ends an unquoted field: a comma, a line feed or a carriage return.
pub open spec fn ends_field(b: u8) -> bool {
    b == COMMA || b == LINE_FEED || b == CARRIAGE_RETURN
}

/// A byte that belongs to a line ending: a line feed or a carriage return.
pub open spec fn ends_line(b: u8) -> bool {
    b == LINE_FEED || b == CARRIAGE_RETURN
}

/// The index at which the unquoted field starting at `start` ends: the first
/// index at or after `start` that holds a comma, a line feed or a carriage
/// return, or the length of the buffer when there is none.
pub open spec fn simple_field_end(buf: Seq<u8>, start: int) -> int
    decreases buf.len() - start,
{
    if start >= buf.len() {
        buf.len() as int
    } else if ends_field(buf[start]) {
        start
    } else {
        simple_field_end(buf, start + 1)
    }
}

/// The index at which the quoted field whose content starts at `start` ends:
/// the first quote that is not doubled, or the first line feed or carriage
/// return (a missing closing quote), or the length of the buffer.
pub open spec fn quoted_field_end(buf: Seq<u8>, start: int) -> int
    decreases buf.len() - start,
{
    if start >= buf.len() {
        buf.len() as int
    } else if buf[start] == QUOTE {
        if start + 1 < buf.len() && buf[start + 1] == QUOTE {
            quoted_field_end(buf, start + 2)
        } else {
            start
        }
    } else if ends_line(buf[start]) {
        start
    } else {
        quoted_field_end(buf, start + 1)
    }
}

/// The index of the first byte of the record after the one that holds
/// `start`: one past the first line feed at or after `start`, or the length of
/// the buffer when no line feed follows.
pub open spec fn next_record_start(buf: Seq<u8>, start: int) -> int
    decreases buf.len() - start,
{
    if start >= buf.len() {
        buf.len() as int
    } else if buf[start] == LINE_FEED {
        start + 1
    } else {
        next_record_start(buf, start + 1)
    }
}

pub proof fn lemma_simple_field_end_bounds(buf: Seq<u8>, start: int)
    requires
        0 <= start,
    ensures
        start <= buf.len() ==> start <= simple_field_end(buf, start) <= buf.len(),
        start > buf.len() ==> simple_field_end(buf, start) == buf.len(),
        simple_field_end(buf, start) < buf.len() ==> ends_field(
            buf[simple_field_end(buf, start)],
        ),
        forall|k: int| start <= k < simple_field_end(buf, start) ==> !ends_field(#[trigger] buf[k]),
    decreases buf.len() - start,
{
    if start < buf.len() && !ends_field(buf[start]) {
        lemma_simple_field_end_bounds(buf, start + 1);
    }
}

/// Find the index that ends the unquoted field starting at `start`.
pub fn find_end_of_simple_field(buffer: &[u8], start: usize) -> (end: usize)
    ensures
        end == simple_field_end(buffer@, start as int),
        start <= buffer@.len() ==> start <= end <= buffer@.len(),
        end < buffer@.len() ==> ends_field(buffer@[end as int]),
        forall|k: int| start <= k < end ==> !ends_field(#[trigger] buffer@[k]),
{
    let mut i: usize = start;
    while i < buffer.len()
        invariant
            start <= i,
            simple_field_end(buffer@, i as int) == simple_field_end(buffer@, start as int),
        decreases buffer@.len() - i,
    {
        let b: u8 = buffer[i];
        if b == COMMA || b == LINE_FEED || b == CARRIAGE_RETURN {
            proof {
                lemma_simple_field_end_bounds(buffer@, start as int);
            }
            return i;
        }
        i += 1;
    }
    proof {
        lemma_simple_field_end_bounds(buffer@, start as int);
    }
    buffer.len()
}


pub proof fn lemma_quoted_field_end_bounds(buf: Seq<u8>, start: int)
    requires
        0 <= start,
    ensures
        start <= buf.len() ==> start <= quoted_field_end(buf, start) <= buf.len(),
        start > buf.len() ==> quoted_field_end(buf, start) == buf.len(),
        forall|k: int|
            start <= k < quoted_field_end(buf, start) ==> !ends_line(#[trigger] buf[k]),
    decreases buf.len() - start,
{
    if start < buf.len() {
        if buf[start] == QUOTE {
            if start + 1 < buf.len() && buf[start + 1] == QUOTE {
                lemma_quoted_field_end_bounds(buf, start + 2);
            }
        } else if !ends_line(buf[start]) {
            lemma_quoted_field_end_bounds(buf, start + 1);
        }
    }
}

/// Find the index that ends the quoted field whose content starts at `start`,
/// the index after the opening quote.
pub fn find_end_of_quoted_field(buffer: &[u8], start: usize) -> (end: usize)
    ensures
        end == quoted_field_end(buffer@, start as int),
        start <= buffer@.len() ==> start <= end <= buffer@.len(),
        forall|k: int| start <= k < end ==> !ends_line(#[trigger] buffer@[k]),
{
    let mut i: usize = start;
    while i < buffer.len()
        invariant
            start <= i,
            quoted_field_end(buffer@, i as int) == quoted_field_end(buffer@, start as int),
        decreases buffer@.len() - i,
    {
        let b: u8 = buffer[i];
        if b == QUOTE {
            if i + 1 < buffer.len() && buffer[i + 1] == QUOTE {
                // Two quotes in a row stand for one quote inside the field.
                i += 2;
                continue ;
            }
            proof {
                lemma_quoted_field_end_bounds(buffer@, start as int);
            }
            return i;
        } else if b == LINE_FEED || b == CARRIAGE_RETURN {
            // The closing quote is missing: the field ends with the line.
            proof {
                lemma_quoted_field_end_bounds(buffer@, start as int);
            }
            return i;
        } else {
            i += 1;
        }
    }
    proof {
        lemma_quoted_field_end_bounds(buffer@, start as int);
    }
    buffer.len()
}

pub proof fn lemma_next_record_start_bounds(buf: Seq<u8>, start: int)
    requires
        0 <= start,
    ensures
        start < buf.len() ==> start < next_record_start(buf, start) <= buf.len(),
        start >= buf.len() ==> next_record_start(buf, start) == buf.len(),
        next_record_start(buf, start) < buf.len() ==> buf[next_record_start(buf, start) - 1]
            == LINE_FEED,
        forall|k: int|
            start <= k < next_record_start(buf, start) - 1 ==> #[trigger] buf[k] != LINE_FEED,
    decreases buf.len() - start,
{
    if start < buf.len() && buf[start] != LINE_FEED {
        lemma_next_record_start_bounds(buf, start + 1);
    }
}

/// A stretch without a line feed does not move the start of the next record.
pub proof fn lemma_next_record_start_skip(buf: Seq<u8>, from: int, to: int)
    requires
        0 <= from <= to <= buf.len(),
        forall|k: int| from <= k < to ==> #[trigger] buf[k] != LINE_FEED,
    ensures
        next_record_start(buf, from) == next_record_start(buf, to),
    decreases to - from,
{
    if from < to {
        lemma_next_record_start_skip(buf, from + 1, to);
    }
}

/// Finds the index of the first byte of the next record, or the length of the
/// buffer if there is no next record.
pub fn find_start_of_next_record(buffer: &[u8], start: usize) -> (next: usize)
    requires
        start <= buffer@.len(),
    ensures
        next == next_record_start(buffer@, start as int),
        start <= next <= buffer@.len(),
        start < buffer@.len() ==> start < next,
{
    let mut i: usize = start;
    while i < buffer.len()
        invariant
            start <= i <= buffer@.len(),
            next_record_start(buffer@, i as int) == next_record_start(buffer@, start as int),
        decreases buffer@.len() - i,
    {
        if buffer[i] == LINE_FEED {
            return i + 1;
        }
        i += 1;
    }
    buffer.len()
}


/// The bytes that each slice of `slices` holds.
pub open spec fn bytes_of(slices: Seq<&[u8]>) -> Seq<Seq<u8>> {
    Seq::new(slices.len(), |k: int| slices[k]@)
}

/// Whether the comma just before index `i` is the last thing on its line: what
/// follows is a line ending or the end of the buffer. Such a comma is followed
/// by one more, empty, field.
pub open spec fn comma_is_trailing(buf: Seq<u8>, i: int) -> bool {
    i <= buf.len() && (i == buf.len() || ends_line(buf[i]))
}

/// The fields of the record that starts at `start`, in order, each as the
/// bytes it holds.
///
/// A quoted field holds what stands between its quotes, doubled quotes
/// included as they are; what follows the closing quote up to the next comma
/// or line ending belongs to no field.
pub open spec fn record_fields(buf: Seq<u8>, start: int) -> Seq<Seq<u8>>
    decreases buf.len() - start,
{
    if start < 0 || start >= buf.len() || buf[start] == LINE_FEED {
        Seq::empty()
    } else if buf[start] == CARRIAGE_RETURN {
        record_fields(buf, start + 1)
    } else {
        let quoted = buf[start] == QUOTE;
        let content_start = if quoted {
            start + 1
        } else {
            start
        };
        let content_end = if quoted {
            quoted_field_end(buf, start + 1)
        } else {
            simple_field_end(buf, start)
        };
        let stop = simple_field_end(buf, content_end);
        let field = buf.subrange(content_start, content_end);
        proof {
            lemma_quoted_field_end_bounds(buf, start + 1);
            lemma_simple_field_end_bounds(buf, start);
            lemma_simple_field_end_bounds(buf, content_end);
        }
        if stop < buf.len() && buf[stop] == COMMA {
            if comma_is_trailing(buf, stop + 1) {
                seq![field, Seq::empty()] + record_fields(buf, stop + 1)
            } else {
                seq![field] + record_fields(buf, stop + 1)
            }
        } else {
            seq![field] + record_fields(buf, stop)
        }
    }
}

/// Appends the empty field that follows a comma at the end of a line. `i` is
/// the index after the comma.
pub fn handle_potentially_trailing_comma<'a>(buffer: &'a [u8], i: usize, fields: &mut Vec<&'a [u8]>)
    ensures
        comma_is_trailing(buffer@, i as int) ==> bytes_of(final(fields)@) == bytes_of(
            old(fields)@,
        ).push(Seq::empty()),
        !comma_is_trailing(buffer@, i as int) ==> final(fields)@ == old(fields)@,
{
    if i <= buffer.len() {
        if i < buffer.len() {
            if buffer[i] == LINE_FEED || buffer[i] == CARRIAGE_RETURN {
                fields.push(&buffer[i..i]);
                assert(buffer@.subrange(i as int, i as int) =~= Seq::<u8>::empty());
                assert(bytes_of(fields@) =~= bytes_of(old(fields)@).push(Seq::empty()));
            }
        } else {
            fields.push(&buffer[i..i]);
            assert(buffer@.subrange(i as int, i as int) =~= Seq::<u8>::empty());
            assert(bytes_of(fields@) =~= bytes_of(old(fields)@).push(Seq::empty()));
        }
    }
}

/// Appends the fields of the record that starts at `start` to `fields` and
/// returns the index of the first byte after the record: the index after its
/// line feed, or the length of the buffer.
pub fn parse_record_fields<'a>(buffer: &'a [u8], start: usize, fields: &mut Vec<&'a [u8]>) -> (next:
    usize)
    ensures
        bytes_of(final(fields)@) == bytes_of(old(fields)@) + record_fields(
            buffer@,
            start as int,
        ),
        next == next_record_start(buffer@, start as int),
{
    let ghost buf = buffer@;
    let mut i: usize = start;
    while i < buffer.len()
        invariant
            buf == buffer@,
            start <= i,
            bytes_of(fields@) + record_fields(buf, i as int) == bytes_of(old(fields)@)
                + record_fields(buf, start as int),
            next_record_start(buf, i as int) == next_record_start(buf, start as int),
        decreases buf.len() - i,
    {
        let ghost before = fields@;
        let ghost at = i as int;
        let b: u8 = buffer[i];
        if b == LINE_FEED {
            assert(bytes_of(fields@) + Seq::<Seq<u8>>::empty() =~= bytes_of(fields@));
            return i + 1;
        } else if b == CARRIAGE_RETURN {
            i += 1;
        } else {
            let content_start: usize = if b == QUOTE {
                i + 1
            } else {
                i
            };
            let content_end: usize = if b == QUOTE {
                find_end_of_quoted_field(buffer, i + 1)
            } else {
                find_end_of_simple_field(buffer, i)
            };
            fields.push(&buffer[content_start..content_end]);
            // What follows a closing quote is dropped, up to the next separator.
            i = find_end_of_simple_field(buffer, content_end);
            let ghost field = buf.subrange(content_start as int, content_end as int);
            assert(bytes_of(fields@) =~= bytes_of(before).push(field));
            proof {
                assert forall|k: int| at <= k < i implies #[trigger] buf[k] != LINE_FEED by {
                    if k < content_end {
                        if b == QUOTE && k > at {
                            assert(!ends_line(buf[k]));
                        } else {
                            assert(k == at || !ends_field(buf[k]));
                        }
                    } else {
                        assert(!ends_field(buf[k]));
                    }
                }
                lemma_next_record_start_skip(buf, at, i as int);
            }
            if i < buffer.len() && buffer[i] == COMMA {
                let ghost stop = i as int;
                i += 1;
                handle_potentially_trailing_comma(buffer, i, fields);
                proof {
                    lemma_next_record_start_skip(buf, stop, i as int);
                    if comma_is_trailing(buf, i as int) {
                        assert(bytes_of(fields@) =~= bytes_of(before) + seq![
                            field,
                            Seq::empty(),
                        ]);
                        assert(bytes_of(fields@) + record_fields(buf, i as int) =~= bytes_of(
                            before,
                        ) + (seq![field, Seq::empty()] + record_fields(buf, i as int)));
                    } else {
                        assert(bytes_of(fields@) + record_fields(buf, i as int) =~= bytes_of(
                            before,
                        ) + (seq![field] + record_fields(buf, i as int)));
                    }
                }
            } else {
                assert(bytes_of(fields@) + record_fields(buf, i as int) =~= bytes_of(before)
                    + (seq![field] + record_fields(buf, i as int)));
            }
        }
    }
    assert(bytes_of(fields@) + Seq::<Seq<u8>>::empty() =~= bytes_of(fields@));
    proof {
        lemma_next_record_start_bounds(buf, start as int);
        lemma_next_record_start_bounds(buf, i as int);
    }
    buffer.len()
}


/// A line feed at or after `start` bounds the record that holds `start`.
pub proof fn lemma_next_record_start_at_most(buf: Seq<u8>, start: int, line_feed: int)
    requires
        0 <= start <= line_feed < buf.len(),
        buf[line_feed] == LINE_FEED,
    ensures
        next_record_start(buf, start) <= line_feed + 1,
{
    lemma_next_record_start_bounds(buf, start);
    if next_record_start(buf, start) > line_feed + 1 {
        assert(buf[line_feed] != LINE_FEED);
    }
}

/// Whether the window `[from, to)` of the buffer holds the whole record that
/// starts at `i`: the record ends at or before `to`.
pub open spec fn window_holds_record(buf: Seq<u8>, from: int, to: int, i: int) -> bool {
    &&& 0 <= from <= i <= to <= buf.len()
    &&& next_record_start(buf, i) <= to
}

proof fn lemma_window_step(buf: Seq<u8>, from: int, to: int, i: int, j: int)
    requires
        window_holds_record(buf, from, to, i),
        i <= j <= buf.len(),
        forall|k: int| i <= k < j ==> #[trigger] buf[k] != LINE_FEED,
    ensures
        window_holds_record(buf, from, to, j),
{
    lemma_next_record_start_skip(buf, i, j);
    lemma_next_record_start_bounds(buf, j);
}

pub proof fn lemma_simple_field_end_in_window(buf: Seq<u8>, from: int, to: int, i: int)
    requires
        window_holds_record(buf, from, to, i),
    ensures
        simple_field_end(buf.subrange(from, to), i - from) == simple_field_end(buf, i) - from,
    decreases to - i,
{
    lemma_next_record_start_bounds(buf, i);
    if i < to && !ends_field(buf[i]) {
        lemma_window_step(buf, from, to, i, i + 1);
        lemma_simple_field_end_in_window(buf, from, to, i + 1);
    }
}

pub proof fn lemma_quoted_field_end_in_window(buf: Seq<u8>, from: int, to: int, i: int)
    requires
        window_holds_record(buf, from, to, i),
    ensures
        quoted_field_end(buf.subrange(from, to), i - from) == quoted_field_end(buf, i) - from,
    decreases to - i,
{
    lemma_next_record_start_bounds(buf, i);
    if i < to {
        if buf[i] == QUOTE {
            lemma_window_step(buf, from, to, i, i + 1);
            lemma_next_record_start_bounds(buf, i + 1);
            if i + 1 < buf.len() && buf[i + 1] == QUOTE {
                lemma_window_step(buf, from, to, i + 1, i + 2);
                lemma_quoted_field_end_in_window(buf, from, to, i + 2);
            }
        } else if !ends_line(buf[i]) {
            lemma_window_step(buf, from, to, i, i + 1);
            lemma_quoted_field_end_in_window(buf, from, to, i + 1);
        }
    }
}

pub proof fn lemma_next_record_start_in_window(buf: Seq<u8>, from: int, to: int, i: int)
    requires
        window_holds_record(buf, from, to, i),
    ensures
        next_record_start(buf.subrange(from, to), i - from) == next_record_start(buf, i) - from,
    decreases to - i,
{
    lemma_next_record_start_bounds(buf, i);
    if i < to && buf[i] != LINE_FEED {
        lemma_window_step(buf, from, to, i, i + 1);
        lemma_next_record_start_in_window(buf, from, to, i + 1);
    }
}

/// The tokenizer reads nothing outside the record: a window of the buffer
/// that holds the whole record gives the same fields as the buffer.
pub proof fn lemma_record_fields_in_window(buf: Seq<u8>, from: int, to: int, i: int)
    requires
        window_holds_record(buf, from, to, i),
    ensures
        record_fields(buf.subrange(from, to), i - from) == record_fields(buf, i),
    decreases to - i,
{
    let win = buf.subrange(from, to);
    lemma_next_record_start_bounds(buf, i);
    if i < to && buf[i] != LINE_FEED {
        lemma_window_step(buf, from, to, i, i + 1);
        if buf[i] == CARRIAGE_RETURN {
            lemma_record_fields_in_window(buf, from, to, i + 1);
        } else {
            let quoted = buf[i] == QUOTE;
            let content_start = if quoted {
                i + 1
            } else {
                i
            };
            let content_end = if quoted {
                quoted_field_end(buf, i + 1)
            } else {
                simple_field_end(buf, i)
            };
            let stop = simple_field_end(buf, content_end);
            lemma_quoted_field_end_bounds(buf, i + 1);
            lemma_simple_field_end_bounds(buf, i);
            lemma_simple_field_end_bounds(buf, content_end);
            if quoted {
                lemma_quoted_field_end_in_window(buf, from, to, i + 1);
            } else {
                lemma_simple_field_end_in_window(buf, from, to, i);
            }
            assert forall|k: int| i <= k < content_end implies #[trigger] buf[k] != LINE_FEED by {
                if quoted && k > i {
                    assert(!ends_line(buf[k]));
                } else {
                    assert(k == i || !ends_field(buf[k]));
                }
            }
            lemma_window_step(buf, from, to, i, content_end);
            lemma_simple_field_end_in_window(buf, from, to, content_end);
            assert forall|k: int| content_end <= k < stop implies #[trigger] buf[k]
                != LINE_FEED by {
                assert(!ends_field(buf[k]));
            }
            lemma_window_step(buf, from, to, content_end, stop);
            lemma_next_record_start_bounds(buf, stop);
            assert(win.subrange(content_start - from, content_end - from) =~= buf.subrange(
                content_start,
                content_end,
            ));
            if stop < buf.len() && buf[stop] == COMMA {
                lemma_window_step(buf, from, to, stop, stop + 1);
                lemma_next_record_start_bounds(buf, stop + 1);
                lemma_record_fields_in_window(buf, from, to, stop + 1);
            } else {
                lemma_record_fields_in_window(buf, from, to, stop);
            }
        }
    }
}


/// Whether a line holds no byte with a meaning of its own but the comma: no
/// quote, no line feed and no carriage return.
pub open spec fn is_plain_line(line: Seq<u8>) -> bool {
    forall|k: int|
        0 <= k < line.len() ==> #[trigger] line[k] != QUOTE && line[k] != LINE_FEED && line[k]
            != CARRIAGE_RETURN
}

/// The number of commas from index `from` on.
pub open spec fn count_commas(line: Seq<u8>, from: int) -> nat
    decreases line.len() - from,
{
    if from < 0 || from >= line.len() {
        0
    } else if line[from] == COMMA {
        1 + count_commas(line, from + 1)
    } else {
        count_commas(line, from + 1)
    }
}

/// The fields, written one after the other with a comma between each two.
pub open spec fn join_with_commas(fields: Seq<Seq<u8>>) -> Seq<u8>
    decreases fields.len(),
{
    if fields.len() == 0 {
        Seq::empty()
    } else if fields.len() == 1 {
        fields[0]
    } else {
        fields[0] + seq![COMMA] + join_with_commas(fields.drop_first())
    }
}

proof fn lemma_count_commas_skip(line: Seq<u8>, from: int, to: int)
    requires
        0 <= from <= to <= line.len(),
        forall|k: int| from <= k < to ==> #[trigger] line[k] != COMMA,
    ensures
        count_commas(line, from) == count_commas(line, to),
    decreases to - from,
{
    if from < to {
        lemma_count_commas_skip(line, from + 1, to);
    }
}

proof fn lemma_plain_line_fields_from(line: Seq<u8>, i: int)
    requires
        is_plain_line(line),
        0 <= i < line.len(),
    ensures
        record_fields(line, i).len() == count_commas(line, i) + 1,
        join_with_commas(record_fields(line, i)) == line.subrange(i, line.len() as int),
        forall|k: int, j: int|
            0 <= k < record_fields(line, i).len() && 0 <= j < record_fields(line, i)[k].len()
                ==> #[trigger] record_fields(line, i)[k][j] != COMMA,
    decreases line.len() - i,
{
    let end = line.len() as int;
    let stop = simple_field_end(line, i);
    lemma_simple_field_end_bounds(line, i);
    lemma_simple_field_end_bounds(line, stop);
    let piece = line.subrange(i, stop);
    let fields = record_fields(line, i);
    assert forall|k: int| i <= k < stop implies #[trigger] line[k] != COMMA by {
        assert(!ends_field(line[k]));
    }
    lemma_count_commas_skip(line, i, stop);
    assert(line[i] != QUOTE && line[i] != LINE_FEED && line[i] != CARRIAGE_RETURN);
    assert(simple_field_end(line, stop) == stop);
    assert(record_fields(line, end) =~= Seq::empty());
    if stop == end {
        assert(fields =~= seq![piece]);
    } else {
        assert(line[stop] != QUOTE && line[stop] != LINE_FEED && line[stop] != CARRIAGE_RETURN);
        assert(line[stop] == COMMA);
        if stop + 1 == end {
            assert(comma_is_trailing(line, stop + 1));
            assert(fields =~= seq![piece, Seq::empty()]);
            assert(fields.drop_first() =~= seq![Seq::<u8>::empty()]);
            assert(join_with_commas(fields.drop_first()) =~= Seq::<u8>::empty());
            assert(join_with_commas(fields) =~= line.subrange(i, end));
        } else {
            assert(line[stop + 1] != QUOTE && line[stop + 1] != LINE_FEED && line[stop + 1]
                != CARRIAGE_RETURN);
            assert(!comma_is_trailing(line, stop + 1));
            lemma_plain_line_fields_from(line, stop + 1);
            let rest = record_fields(line, stop + 1);
            assert(fields =~= seq![piece] + rest);
            assert(fields.drop_first() =~= rest);
            assert(join_with_commas(fields) =~= line.subrange(i, end));
            assert forall|k: int, j: int|
                0 <= k < fields.len() && 0 <= j < fields[k].len() implies #[trigger] fields[k][j]
                != COMMA by {
                if k > 0 {
                    assert(fields[k][j] == rest[k - 1][j]);
                }
            }
        }
    }
}

/// On a line without quotes and line endings, the commas alone cut the
/// fields: commas give one field more than there are commas, no field holds a
/// comma, and the fields with commas between them are the line. A line
/// without any byte has no field.
pub proof fn lemma_plain_line_fields(line: Seq<u8>)
    requires
        is_plain_line(line),
    ensures
        line.len() == 0 ==> record_fields(line, 0).len() == 0,
        line.len() > 0 ==> record_fields(line, 0).len() == count_commas(line, 0) + 1,
        join_with_commas(record_fields(line, 0)) == line,
        forall|k: int, j: int|
            0 <= k < record_fields(line, 0).len() && 0 <= j < record_fields(line, 0)[k].len()
                ==> #[trigger] record_fields(line, 0)[k][j] != COMMA,
{
    if line.len() > 0 {
        lemma_plain_line_fields_from(line, 0);
        assert(line.subrange(0, line.len() as int) =~= line);
    } else {
        assert(join_with_commas(record_fields(line, 0)) =~= line);
    }
}


proof fn lemma_quoted_field_end_at(buf: Seq<u8>, from: int, end: int)
    requires
        0 <= from <= end < buf.len(),
        buf[end] == QUOTE,
        end + 1 == buf.len() || buf[end + 1] != QUOTE,
        forall|k: int| from <= k < end ==> #[trigger] buf[k] != QUOTE && !ends_line(buf[k]),
    ensures
        quoted_field_end(buf, from) == end,
    decreases end - from,
{
    if from < end {
        assert(buf[from] != QUOTE && !ends_line(buf[from]));
        lemma_quoted_field_end_at(buf, from + 1, end);
    }
}

/// A field in quotes is what stands between the quotes, commas included:
/// where a record starts with a quote, and the next quote is not doubled and
/// stands on the same line, the first field of the record is what the two
/// quotes enclose.
pub proof fn lemma_quoted_field_keeps_commas(buf: Seq<u8>, start: int, end: int)
    requires
        0 <= start < end < buf.len(),
        buf[start] == QUOTE,
        buf[end] == QUOTE,
        end + 1 == buf.len() || buf[end + 1] != QUOTE,
        forall|k: int| start < k < end ==> #[trigger] buf[k] != QUOTE && !ends_line(buf[k]),
    ensures
        record_fields(buf, start).len() >= 1,
        record_fields(buf, start)[0] == buf.subrange(start + 1, end),
{
    lemma_quoted_field_end_at(buf, start + 1, end);
    lemma_simple_field_end_bounds(buf, end);
}

} // verus!
