use csvelo::document::{parse_column_value_or_absent, CsvDocument, DEFAULT_CHUNK_SIZE};
use csvelo::{parse_column, parse_column_value, CsvRecords};

#[test]
fn a_document_has_titles_and_records_below_them() {
    let document = CsvDocument::from_buffer(b"a,b,c\n1,2,3\n4,5,6\n", DEFAULT_CHUNK_SIZE);
    assert_eq!(
        document.header().column_titles,
        vec![&b"a"[..], &b"b"[..], &b"c"[..]]
    );
    assert_eq!(document.record_count(), 2);
    assert_eq!(document.column::<i32>(0), Some(vec![1, 4]));
    assert_eq!(document.column::<i32>(1), Some(vec![2, 5]));
    assert_eq!(document.column::<u8>(2), Some(vec![3, 6]));
    assert_eq!(document.column::<&str>(2), Some(vec!["3", "6"]));
}

#[test]
fn the_default_chunk_size_is_256_kib() {
    assert_eq!(DEFAULT_CHUNK_SIZE, 256 * 1024);
}

#[test]
fn a_document_without_data_has_no_records() {
    let document = CsvDocument::from_buffer(b"a,b", 16);
    assert_eq!(document.record_count(), 0);
    assert_eq!(document.header().column_titles.len(), 2);
    assert_eq!(document.column::<i32>(0), Some(vec![]));
    let document = CsvDocument::from_buffer(b"", 16);
    assert_eq!(document.record_count(), 0);
    assert!(document.header().column_titles.is_empty());
    assert_eq!(document.column::<i32>(5), Some(vec![]));
}

#[test]
fn the_chunk_size_does_not_change_a_column() {
    let mut text = String::from("id,name,score\n");
    for i in 0..500 {
        text.push_str(&format!("{},\"name, {}\",{}\r\n", i, i, i * 7 - 1000));
    }
    let buffer = text.as_bytes();
    let ids: Vec<u32> = (0..500).collect();
    let scores: Vec<i32> = (0..500).map(|i| i * 7 - 1000).collect();
    let names: Vec<String> = (0..500).map(|i| format!("name, {}", i)).collect();
    for size in [0, 1, 2, 3, 7, 64, 500, 4096, 1 << 20, usize::MAX] {
        let document = CsvDocument::from_buffer(buffer, size);
        assert_eq!(document.record_count(), 500);
        assert_eq!(document.column::<u32>(0).unwrap(), ids);
        assert_eq!(document.column::<String>(1).unwrap(), names);
        assert_eq!(document.column::<i32>(2).unwrap(), scores);
        // Scores are negative in places: no unsigned column.
        assert_eq!(document.column::<u32>(2), None);
    }
}

#[test]
fn one_bad_field_makes_the_whole_column_absent() {
    let buffer = b"n\n1\n2\n3\n4\nfive\n6\n";
    for size in [0, 3, 100] {
        let document = CsvDocument::from_buffer(buffer, size);
        assert_eq!(document.record_count(), 6);
        assert_eq!(document.column::<i32>(0), None);
        assert_eq!(
            document.column::<&str>(0),
            Some(vec!["1", "2", "3", "4", "five", "6"])
        );
    }
}

#[test]
fn a_missing_field_is_decoded_from_an_empty_field() {
    let document = CsvDocument::from_buffer(b"a,b\n1,x\n2\n3,z\n", 0);
    assert_eq!(document.column::<&str>(1), Some(vec!["x", "", "z"]));
    // An empty field is no number.
    assert_eq!(document.column::<i32>(1), None);
    assert_eq!(document.column::<&[u8]>(7).unwrap(), vec![b"", b"", b""]);
}

#[test]
fn a_column_of_one_chunk_is_decoded_row_by_row() {
    let records = CsvRecords::from_buffer(b"1,2\n3\n5,6\n");
    assert_eq!(parse_column::<u8>(&records, 0), Ok(vec![1, 3, 5]));
    assert_eq!(parse_column::<u8>(&records, 1), Err(()));
    let lengths = parse_column_value(&records, 1, |field| Ok(field.len()));
    assert_eq!(lengths, Ok(vec![1, 0, 1]));
    let picky = parse_column_value(&records, 0, |field| {
        if field == b"3" {
            Err(())
        } else {
            Ok(field[0])
        }
    });
    assert_eq!(picky, Err(()));
}

#[test]
fn test_simple() {
    let document = CsvDocument::from_buffer(
        "a,b,c,d,z\n1,2,3,4,5\n10,20,30,40,50\n".as_bytes(),
        DEFAULT_CHUNK_SIZE,
    );
    let records_num = document.record_count();
    let a: Option<Vec<i32>> = document.column_by_title("a");
    let b: Option<Vec<f32>> = document
        .column_by_title::<&str>("b")
        .map(|column| column.iter().map(|text| text.parse().unwrap()).collect());
    let c: Option<Vec<String>> = document.column_by_title("c");
    let d: Option<Vec<&str>> = document.column_by_title("d");
    let e: Option<Vec<i32>> = document.column_by_title("e");
    assert_eq!(records_num, 2);
    assert_eq!(a.unwrap(), vec![1, 10]);
    assert_eq!(b.unwrap(), vec![2.0, 20.0]);
    assert_eq!(c.unwrap(), vec!["3".to_string(), "30".to_string()]);
    assert_eq!(d.unwrap(), vec!["4", "40"]);
    assert!(e.is_none());
}

#[test]
fn a_column_is_found_by_its_title() {
    let document = CsvDocument::from_buffer(b"x,y,x\n1,2,3\n4,5,6\n", 2);
    assert_eq!(document.column_by_title::<u8>("x"), Some(vec![1, 4]));
    assert_eq!(document.column_by_title::<u8>("y"), Some(vec![2, 5]));
    assert_eq!(document.column_by_title::<u8>("z"), None);
    assert_eq!(document.optional_column::<u8>(Some(2)), Some(vec![3, 6]));
    assert_eq!(document.optional_column::<u8>(None), None);
}

fn parse_f32(buffer: &[u8]) -> Result<f32, ()> {
    std::str::from_utf8(buffer.trim_ascii())
        .map_err(|_| ())
        .and_then(|s| s.parse().map_err(|_| ()))
}

#[test]
fn a_column_is_decoded_with_a_decoder_of_the_caller() {
    let mut text = String::from("n,half\n");
    for i in 0..300 {
        text.push_str(&format!("{}, {}.5 \n", i, i));
    }
    let halves: Vec<f32> = (0..300).map(|i| i as f32 + 0.5).collect();
    for size in [0, 7, 1000, DEFAULT_CHUNK_SIZE] {
        let document = CsvDocument::from_buffer(text.as_bytes(), size);
        assert_eq!(document.column_with(1, parse_f32), Some(halves.clone()));
        assert_eq!(
            document.column_with(0, |field| Ok(field.len())),
            Some((0..300).map(|i: i32| i.to_string().len()).collect())
        );
        // One field that the decoder fails on makes the column absent.
        let picky = document.column_with(0, |field| if field == b"123" { Err(()) } else { Ok(1u8) });
        assert_eq!(picky, None);
    }
    let document = CsvDocument::from_buffer(b"x\n1.5\nabc\n", 0);
    assert_eq!(document.column_with(0, parse_f32), None);
    assert_eq!(document.column_with(3, parse_f32), None);
    let records = csvelo::CsvRecords::from_buffer(b"1.5\n2.25\n");
    assert_eq!(
        parse_column_value_or_absent(&records, 0, &parse_f32),
        Some(vec![1.5, 2.25])
    );
    assert_eq!(parse_column_value_or_absent(&records, 1, &parse_f32), None);
}
