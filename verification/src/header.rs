//! The header resolver: the column titles of a document and their indices.

use crate::error::CsvError;
use crate::parse_record::{
    bytes_of, lemma_next_record_start_bounds, lemma_record_fields_in_window, next_record_start,
    parse_record_fields, record_fields,
};
use crate::sections::split_header_and_data;
use vstd::prelude::*;
use vstd::string::StringSliceAdditionalSpecFns;
use vstd::utf8::valid_utf8;

verus! {

/// The error of `core::str::from_utf8`, carried through as it is.
#[verifier::external_type_specification]
#[verifier::external_body]
pub struct ExUtf8Error(core::str::Utf8Error);

/// `core::str::from_utf8` succeeds exactly on valid UTF-8, and the text it
/// returns is made of the bytes it was given.
pub assume_specification<'a>[ core::str::from_utf8 ](v: &'a [u8]) -> (text: Result<
    &'a str,
    core::str::Utf8Error,
>)
    ensures
        text is Ok <==> valid_utf8(v@),
        text is Ok ==> text->Ok_0.spec_bytes() == v@,
;

/// Whether `i` is the index of the first title that is equal to `name`, byte
/// for byte.
pub open spec fn is_first_index_of(titles: Seq<Seq<u8>>, name: Seq<u8>, i: int) -> bool {
    &&& 0 <= i < titles.len()
    &&& titles[i] == name
    &&& forall|j: int| 0 <= j < i ==> #[trigger] titles[j] != name
}

/// Whether no title is equal to `name`.
pub open spec fn has_no_title(titles: Seq<Seq<u8>>, name: Seq<u8>) -> bool {
    forall|j: int| 0 <= j < titles.len() ==> #[trigger] titles[j] != name
}

/// The index of the first title that is equal to `name`, if there is one.
pub open spec fn title_index(titles: Seq<Seq<u8>>, name: Seq<u8>) -> Option<int> {
    if exists|i: int| is_first_index_of(titles, name, i) {
        Some(choose|i: int| is_first_index_of(titles, name, i))
    } else {
        None
    }
}

/// The first index of a title is the only one.
pub proof fn lemma_title_index(titles: Seq<Seq<u8>>, name: Seq<u8>)
    ensures
        forall|i: int| is_first_index_of(titles, name, i) ==> title_index(titles, name) == Some(i),
        has_no_title(titles, name) <==> title_index(titles, name).is_none(),
{
    assert forall|i: int| is_first_index_of(titles, name, i) implies title_index(titles, name)
        == Some(i) by {
        let j = choose|j: int| is_first_index_of(titles, name, j);
        if j < i {
            assert(titles[j] != name);
        }
        if i < j {
            assert(titles[i] != name);
        }
    }
    if !has_no_title(titles, name) {
        lemma_some_title_is_first(titles, name, titles.len() as int);
    }
}

proof fn lemma_some_title_is_first(titles: Seq<Seq<u8>>, name: Seq<u8>, end: int)
    requires
        0 <= end <= titles.len(),
        exists|j: int| 0 <= j < end && titles[j] == name,
    ensures
        exists|i: int| is_first_index_of(titles, name, i),
    decreases end,
{
    if exists|j: int| 0 <= j < end - 1 && titles[j] == name {
        lemma_some_title_is_first(titles, name, end - 1);
    } else {
        assert(is_first_index_of(titles, name, end - 1));
    }
}

/// The column titles of a document, in order.
pub struct CsvHeader<'a> {
    pub column_titles: Vec<&'a [u8]>,
}

impl<'a> View for CsvHeader<'a> {
    type V = Seq<Seq<u8>>;

    open spec fn view(&self) -> Seq<Seq<u8>> {
        bytes_of(self.column_titles@)
    }
}

/// Whether two slices hold the same bytes.
pub fn bytes_equal(a: &[u8], b: &[u8]) -> (equal: bool)
    ensures
        equal == (a@ == b@),
{
    if a.len() != b.len() {
        return false;
    }
    let mut i: usize = 0;
    while i < a.len()
        invariant
            a@.len() == b@.len(),
            i <= a@.len(),
            forall|k: int| 0 <= k < i ==> a@[k] == b@[k],
        decreases a@.len() - i,
    {
        if a[i] != b[i] {
            return false;
        }
        i += 1;
    }
    assert(a@ =~= b@);
    true
}

impl<'a> CsvHeader<'a> {
    /// The index of the first column whose title is `column_name`, byte for
    /// byte, or `None` if there is no such column.
    pub fn get_column_index(&self, column_name: &str) -> (index: Option<usize>)
        ensures
            match index {
                Some(i) => is_first_index_of(self@, column_name.spec_bytes(), i as int),
                None => has_no_title(self@, column_name.spec_bytes()),
            },
    {
        let name = column_name.as_bytes();
        let mut i: usize = 0;
        while i < self.column_titles.len()
            invariant
                name@ == column_name.spec_bytes(),
                i <= self.column_titles@.len(),
                forall|j: int| 0 <= j < i ==> #[trigger] self@[j] != name@,
            decreases self.column_titles@.len() - i,
        {
            if bytes_equal(self.column_titles[i], name) {
                return Some(i);
            }
            i += 1;
        }
        None
    }
}

/// Reads the column titles from the header line.
pub fn parse_header<'a>(header: &'a [u8]) -> (parsed: CsvHeader<'a>)
    ensures
        parsed@ == record_fields(header@, 0),
{
    let mut fields: Vec<&'a [u8]> = Vec::new();
    parse_record_fields(header, 0, &mut fields);
    assert(bytes_of(Seq::<&[u8]>::empty()) + record_fields(header@, 0) =~= record_fields(
        header@,
        0,
    ));
    CsvHeader { column_titles: fields }
}

/// Reads the column titles of the document in a buffer: the fields of its
/// first line. Nothing below the first line is read.
pub fn parse_document_header<'a>(buffer: &'a [u8]) -> (parsed: CsvHeader<'a>)
    ensures
        parsed@ == record_fields(buffer@, 0),
{
    let sections = split_header_and_data(buffer);
    proof {
        lemma_next_record_start_bounds(buffer@, 0);
        lemma_record_fields_in_window(buffer@, 0, next_record_start(buffer@, 0), 0);
    }
    parse_header(sections.header)
}

/// Whether every title is valid UTF-8.
pub open spec fn titles_are_text(titles: Seq<Seq<u8>>) -> bool {
    forall|k: int| 0 <= k < titles.len() ==> valid_utf8(#[trigger] titles[k])
}

/// The bytes that each text of `texts` is made of.
pub open spec fn text_bytes(texts: Seq<&str>) -> Seq<Seq<u8>> {
    Seq::new(texts.len(), |k: int| texts[k].spec_bytes())
}

/// Reads the column titles from the header line, as text. Fails if a title is
/// not valid UTF-8.
pub fn parse_header_record_str<'a>(header: &'a [u8]) -> (titles: Result<Vec<&'a str>, CsvError>)
    ensures
        match titles {
            Ok(texts) => titles_are_text(record_fields(header@, 0)) && text_bytes(texts@)
                == record_fields(header@, 0),
            Err(e) => !titles_are_text(record_fields(header@, 0)) && e == CsvError::InvalidUtf8,
        },
{
    let parsed = parse_header(header);
    let mut texts: Vec<&'a str> = Vec::new();
    let mut i: usize = 0;
    while i < parsed.column_titles.len()
        invariant
            parsed@ == record_fields(header@, 0),
            i <= parsed.column_titles@.len(),
            texts@.len() == i,
            forall|k: int| 0 <= k < i ==> valid_utf8(#[trigger] parsed@[k]),
            forall|k: int| 0 <= k < i ==> (#[trigger] texts@[k]).spec_bytes() == parsed@[k],
        decreases parsed.column_titles@.len() - i,
    {
        match core::str::from_utf8(parsed.column_titles[i]) {
            Ok(text) => {
                texts.push(text);
            },
            Err(_) => {
                assert(!valid_utf8(parsed@[i as int]));
                return Err(CsvError::InvalidUtf8);
            },
        }
        i += 1;
    }
    assert(text_bytes(texts@) =~= parsed@);
    Ok(texts)
}

} // verus!
