use csvelo::document::DEFAULT_CHUNK_SIZE;
use csvelo::schema::{parse_table, resolve_header, ColumnSchema, Table};
use csvelo::{parse_header, CsvError};

fn abc() -> Vec<ColumnSchema> {
    vec![
        ColumnSchema::required("a"),
        ColumnSchema::required("b"),
        ColumnSchema::optional("c"),
    ]
}

#[test]
fn a_table_is_read_with_all_its_columns() {
    let table: Table<i32> =
        parse_table(b"a,b,c\n1,2,3\n4,5,6\n", &abc(), DEFAULT_CHUNK_SIZE).unwrap();
    assert_eq!(table.columns[0], Some(vec![1, 4]));
    assert_eq!(table.columns[1], Some(vec![2, 5]));
    assert_eq!(table.columns[2], Some(vec![3, 6]));
    assert_eq!(table.record_count, 2);
}

#[test]
fn an_optional_column_may_be_missing() {
    let table: Table<i32> = parse_table(b"a,b\n1,2\n", &abc(), DEFAULT_CHUNK_SIZE).unwrap();
    assert_eq!(table.columns[2], None);
    assert_eq!(table.columns[0], Some(vec![1]));
    assert_eq!(table.columns[1], Some(vec![2]));
    assert_eq!(table.record_count, 1);
}

#[test]
fn a_required_column_must_not_be_missing() {
    let parsed = parse_table::<i32>(b"c\n2\n5\n", &abc(), DEFAULT_CHUNK_SIZE);
    match parsed {
        Err(e) => assert_eq!(e, CsvError::MissingRequiredColumn("a".to_string())),
        Ok(_) => panic!("a table without its required column"),
    }
}

#[test]
fn the_first_missing_required_column_is_named() {
    let parsed = parse_table::<i32>(b"a,c\nx,y\n", &abc(), 0);
    // Column `a` cannot be decoded, but `b` is missing: that comes first.
    assert_eq!(
        parsed.err(),
        Some(CsvError::MissingRequiredColumn("b".to_string()))
    );
}

#[test]
fn a_required_column_that_cannot_be_decoded_fails_the_table() {
    for size in [0, 4, DEFAULT_CHUNK_SIZE] {
        let parsed = parse_table::<i32>(b"a,b,c\n1,2,3\n4,oops,6\n7,8,9\n", &abc(), size);
        assert_eq!(
            parsed.err(),
            Some(CsvError::FieldDecodeError("b".to_string()))
        );
    }
}

#[test]
fn an_optional_column_that_cannot_be_decoded_is_absent_as_a_whole() {
    for size in [0, 4, DEFAULT_CHUNK_SIZE] {
        let table: Table<i32> =
            parse_table(b"a,b,c\n1,2,3\n4,5,six\n7,8,9\n", &abc(), size).unwrap();
        assert_eq!(table.columns[0], Some(vec![1, 4, 7]));
        assert_eq!(table.columns[1], Some(vec![2, 5, 8]));
        assert_eq!(table.columns[2], None);
        assert_eq!(table.record_count, 3);
    }
}

#[test]
fn a_short_row_gives_an_empty_field_to_the_decoder() {
    let schema = vec![ColumnSchema::required("a"), ColumnSchema::optional("b")];
    let text: Table<&str> = parse_table(b"a,b\n1,x\n2\n", &schema, 0).unwrap();
    assert_eq!(text.columns[1], Some(vec!["x", ""]));
    let numbers: Table<i32> = parse_table(b"a,b\n1,10\n2\n", &schema, 0).unwrap();
    assert_eq!(numbers.columns[0], Some(vec![1, 2]));
    assert_eq!(numbers.columns[1], None);
    assert_eq!(numbers.record_count, 2);
}

#[test]
fn columns_come_in_schema_order_whatever_the_header_order() {
    let table: Table<u16> = parse_table(b"c,z,b,a,a\n3,0,2,1,9\n", &abc(), 0).unwrap();
    assert_eq!(table.columns, vec![Some(vec![1]), Some(vec![2]), Some(vec![3])]);
}

#[test]
fn header_resolution_finds_the_first_column_of_a_name() {
    let header = parse_header(b"a,b,c\n");
    assert_eq!(header.column_titles, vec![&b"a"[..], &b"b"[..], &b"c"[..]]);
    assert_eq!(header.get_column_index("b"), Some(1));
    assert_eq!(header.get_column_index("z"), None);
    assert_eq!(header.get_column_index("B"), None);
    assert_eq!(header.get_column_index(""), None);
    let header = parse_header(b"x,y,x,,\n");
    assert_eq!(header.get_column_index("x"), Some(0));
    assert_eq!(header.get_column_index(""), Some(3));
    let resolved = resolve_header(&header, &abc());
    assert_eq!(
        resolved.err(),
        Some(CsvError::MissingRequiredColumn("a".to_string()))
    );
    let schema = vec![ColumnSchema::optional("y"), ColumnSchema::required("x")];
    assert_eq!(
        resolve_header(&header, &schema).unwrap().indices,
        vec![Some(1), Some(0)]
    );
}

#[test]
fn a_header_that_is_not_text_is_refused_as_text() {
    assert_eq!(
        csvelo::parse_header_record_str(b"a,\xff\n").err(),
        Some(CsvError::InvalidUtf8)
    );
    assert_eq!(
        csvelo::parse_header_record_str("a,\u{e9}\n".as_bytes()).unwrap(),
        vec!["a", "\u{e9}"]
    );
}

#[test]
fn the_header_of_a_document_is_its_first_line() {
    let header = csvelo::header::parse_document_header(b"a,\"b,c\",d\r\n1,2,3\n");
    assert_eq!(header.column_titles, vec![&b"a"[..], &b"b,c"[..], &b"d"[..]]);
    assert!(csvelo::header::parse_document_header(b"").column_titles.is_empty());
    assert!(csvelo::header::parse_document_header(b"\nx,y\n").column_titles.is_empty());
    let header = csvelo::header::parse_document_header(b"only");
    assert_eq!(header.column_titles, vec![&b"only"[..]]);
}
