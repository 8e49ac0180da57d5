use csvelo::parse_record::parse_record_fields;
use csvelo::{
    flatten_slices, parse_header_record_str, split_csv_buffer_into_record_aligned_chunks,
    split_header_and_data, CsvRecords,
};

#[test]
fn lib_test_parse_csv_buffer() {
    {
        let buffer = "123,456,789\n1,2,3\n".as_bytes();
        let records = CsvRecords::from_buffer(buffer);
        assert_eq!(records.len(), 2);
        assert_eq!(records.record(0).len(), 3);
        assert_eq!(records.record(0).column(0).unwrap(), b"123");
        assert_eq!(records.record(0).column(1).unwrap(), b"456");
        assert_eq!(records.record(0).column(2).unwrap(), b"789");
        assert_eq!(records.record(1).len(), 3);
        assert_eq!(records.record(1).column(0).unwrap(), b"1");
        assert_eq!(records.record(1).column(1).unwrap(), b"2");
        assert_eq!(records.record(1).column(2).unwrap(), b"3");
    }
    {
        let buffer = "stop_name,parent_station,stop_id,stop_lat,stop_lon,location_type\n\
's-Heerenberg Gouden Handen,,237383,51.87225,6.2473383,1\n\
\"AB-Leider, Hafen\",49745,35003,49.9727,9.107453,\n\
\n\
,\n\
1,2\n"
            .as_bytes();
        let csv = CsvRecords::from_buffer(buffer);
        assert_eq!(csv.len(), 6);
        assert_eq!(csv.record(0).len(), 6);
        assert_eq!(csv.record(0).column(0).unwrap(), b"stop_name");
        assert_eq!(csv.record(0).column(1).unwrap(), b"parent_station");
        assert_eq!(csv.record(0).column(2).unwrap(), b"stop_id");
        assert_eq!(csv.record(0).column(3).unwrap(), b"stop_lat");
        assert_eq!(csv.record(0).column(4).unwrap(), b"stop_lon");
        assert_eq!(csv.record(0).column(5).unwrap(), b"location_type");
        assert_eq!(csv.record(1).len(), 6);
        assert_eq!(
            csv.record(1).column(0).unwrap(),
            b"'s-Heerenberg Gouden Handen"
        );
        assert_eq!(csv.record(1).column(1).unwrap(), b"");
        assert_eq!(csv.record(1).column(2).unwrap(), b"237383");
        assert_eq!(csv.record(1).column(3).unwrap(), b"51.87225");
        assert_eq!(csv.record(1).column(4).unwrap(), b"6.2473383");
        assert_eq!(csv.record(1).column(5).unwrap(), b"1");
        assert_eq!(csv.record(2).len(), 6);
        assert_eq!(csv.record(2).column(0).unwrap(), b"AB-Leider, Hafen");
        assert_eq!(csv.record(2).column(1).unwrap(), b"49745");
        assert_eq!(csv.record(2).column(2).unwrap(), b"35003");
        assert_eq!(csv.record(2).column(3).unwrap(), b"49.9727");
        assert_eq!(csv.record(2).column(4).unwrap(), b"9.107453");
        assert_eq!(csv.record(2).column(5).unwrap(), b"");
        assert_eq!(csv.record(3).len(), 0);
        assert_eq!(csv.record(4).len(), 2);
        assert_eq!(csv.record(4).column(0).unwrap(), b"");
        assert_eq!(csv.record(4).column(1).unwrap(), b"");
        assert_eq!(csv.record(5).len(), 2);
        assert_eq!(csv.record(5).column(0).unwrap(), b"1");
        assert_eq!(csv.record(5).column(1).unwrap(), b"2");
    }
}

#[test]
fn lib_test_records_iterator() {
    let buffer = "1\n3\n5\n".as_bytes();
    let records = CsvRecords::from_buffer(buffer);
    let mut iter = records.iter();
    assert_eq!(iter.next().unwrap().column(0).unwrap(), b"1");
    assert_eq!(iter.next().unwrap().column(0).unwrap(), b"3");
    assert_eq!(iter.next().unwrap().column(0).unwrap(), b"5");
    assert!(iter.next().is_none());
}

#[test]
fn test_split_csv_buffer_into_line_aligned_chunks() {
    let buffer = "0,1,2,3\n,,,\n4,5,6,7\n";
    {
        let chunks = split_csv_buffer_into_record_aligned_chunks(buffer.as_bytes(), 0);
        assert_eq!(chunks.len(), 3);
        assert_eq!(chunks[0], b"0,1,2,3\n");
        assert_eq!(chunks[1], b",,,\n");
        assert_eq!(chunks[2], b"4,5,6,7\n");
    }
    {
        let chunks = split_csv_buffer_into_record_aligned_chunks(buffer.as_bytes(), 11);
        assert_eq!(chunks.len(), 2);
        assert_eq!(chunks[0], b"0,1,2,3\n,,,\n");
        assert_eq!(chunks[1], b"4,5,6,7\n");
    }
    {
        let chunks = split_csv_buffer_into_record_aligned_chunks(buffer.as_bytes(), 1000);
        assert_eq!(chunks.len(), 1);
        assert_eq!(chunks[0], b"0,1,2,3\n,,,\n4,5,6,7\n");
    }
}

#[test]
fn test_split_header_and_data() {
    let buffer = "Title,Author,Year\n1,2,3\n4,5,6\n";
    let sections = split_header_and_data(buffer.as_bytes());
    assert_eq!(sections.header, b"Title,Author,Year\n");
    assert_eq!(sections.data, b"1,2,3\n4,5,6\n");

    let headers = parse_header_record_str(sections.header).unwrap();
    assert_eq!(headers, &["Title", "Author", "Year"]);
}

#[test]
fn a_store_by_default_holds_no_record() {
    let records = CsvRecords::default();
    assert_eq!(records.len(), 0);
    assert!(records.iter().next().is_none());
    assert_eq!(CsvRecords::from_buffer(b"").len(), 0);
}

#[test]
fn a_short_record_has_no_field_beyond_its_end() {
    let records = CsvRecords::from_buffer(b"a,b,c\nd\n");
    assert_eq!(records.record(0).column(2).unwrap(), b"c");
    assert!(records.record(0).column(3).is_none());
    assert_eq!(records.record(1).len(), 1);
    assert!(records.record(1).column(1).is_none());
    assert!(records.record(1).column(usize::MAX).is_none());
}

#[test]
fn chunks_of_any_size_cover_the_buffer() {
    let buffer = b"a,b\n\n\"x\ny\",z\r\n1,2,3\nlast";
    for size in 0..40 {
        let chunks = split_csv_buffer_into_record_aligned_chunks(buffer, size);
        let joined: Vec<u8> = chunks.iter().flat_map(|c| c.iter().copied()).collect();
        assert_eq!(joined, buffer);
        for (k, chunk) in chunks.iter().enumerate() {
            assert!(!chunk.is_empty());
            if k + 1 < chunks.len() {
                assert_eq!(*chunk.last().unwrap(), b'\n');
            }
        }
    }
    assert_eq!(
        split_csv_buffer_into_record_aligned_chunks(buffer, usize::MAX).len(),
        1
    );
    assert!(split_csv_buffer_into_record_aligned_chunks(b"", 3).is_empty());
}

#[test]
fn tokenizing_by_chunks_gives_the_records_of_a_single_pass() {
    let buffer = b"h1,h2\n1,\"a,\"\"b\"\n\n,\n\"open,2\n3,\"x\"junk,4\r\n5,6";
    let whole = CsvRecords::from_buffer(buffer);
    let mut expected: Vec<Vec<Vec<u8>>> = vec![];
    for i in 0..whole.len() {
        expected.push(whole.record(i).fields.iter().map(|f| f.to_vec()).collect());
    }
    assert_eq!(expected.len(), 7);
    for size in 0..buffer.len() + 2 {
        let mut chunked: Vec<Vec<Vec<u8>>> = vec![];
        for chunk in split_csv_buffer_into_record_aligned_chunks(buffer, size) {
            let records = CsvRecords::from_buffer(chunk);
            for i in 0..records.len() {
                chunked.push(records.record(i).fields.iter().map(|f| f.to_vec()).collect());
            }
        }
        assert_eq!(chunked, expected);
    }
}

fn all_fields(buffer: &[u8]) -> Vec<&[u8]> {
    let mut fields = vec![];
    let mut start = 0;
    while start < buffer.len() {
        start = parse_record_fields(buffer, start, &mut fields);
    }
    fields
}

#[test]
fn chunked_tokenizing_and_flattening_gives_the_fields_of_a_single_pass() {
    let buffers: [&[u8]; 6] = [
        b"a,b,c\n1,2,3\n4,5,6\n",
        b"x\r\ny,\r\n,z",
        b"\n\n\n",
        b"\"quoted\nline\",next\n\"a\"\"b\",\"c\" d,e\n",
        b"",
        b"no line feed at all, \"none",
    ];
    for buffer in buffers {
        let whole = all_fields(buffer);
        for size in 0..buffer.len() + 2 {
            let chunks = split_csv_buffer_into_record_aligned_chunks(buffer, size);
            let per_chunk: Vec<Vec<&[u8]>> = chunks.iter().map(|c| all_fields(c)).collect();
            let slices: Vec<&[&[u8]]> = per_chunk.iter().map(|f| f.as_slice()).collect();
            assert_eq!(flatten_slices(&slices), whole);
        }
    }
}
