//! The two sections of a document: the header line and the data below it.

use crate::parse_record::{find_start_of_next_record, next_record_start};
use vstd::prelude::*;

verus! {

/// A buffer cut in two at the end of its first line.
pub struct CsvBufferSections<'a> {
    /// The first line, with its line feed.
    pub header: &'a [u8],
    /// Everything after the first line.
    pub data: &'a [u8],
}

/// Cuts the buffer after its first line feed. The header keeps the line feed;
/// without a line feed the whole buffer is header and the data is empty.
pub fn split_header_and_data<'a>(buffer: &'a [u8]) -> (sections: CsvBufferSections<'a>)
    ensures
        sections.header@ == buffer@.subrange(0, next_record_start(buffer@, 0)),
        sections.data@ == buffer@.subrange(next_record_start(buffer@, 0), buffer@.len() as int),
        sections.header@ + sections.data@ == buffer@,
{
    let data_start_i: usize = find_start_of_next_record(buffer, 0);
    let sections = CsvBufferSections {
        header: &buffer[0..data_start_i],
        data: &buffer[data_start_i..buffer.len()],
    };
    assert(sections.header@ + sections.data@ =~= buffer@);
    sections
}

} // verus!
