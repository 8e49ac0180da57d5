#[test]
fn records_test_parse_csv_buffer() {
    {
        let buffer = "123,456,789\n1,2,3\n".as_bytes();
        let records = csvelo::records::CsvRecords::from_buffer(buffer);
        assert_eq!(records.len(), 2);
        assert_eq!(records.record(0).len(), 3);
        assert_eq!(records.record(0).column(0).unwrap(), b"123");
        assert_eq!(records.record(0).column(1).unwrap(), b"456");
        assert_eq!(records.record(0).column(2).unwrap(), b"789");
        assert_eq!(records.record(1).len(), 3);
        assert_eq!(records.record(1).column(0).unwrap(), b"1");
        assert_eq!(records.record(1).column(1).unwrap(), b"2");
        assert_eq!(records.record(1).column(2).unwrap(), b"3");
    }
    {
        let buffer = "stop_name,parent_station,stop_id,stop_lat,stop_lon,location_type\n\
's-Heerenberg Gouden Handen,,237383,51.87225,6.2473383,1\n\
\"AB-Leider, Hafen\",49745,35003,49.9727,9.107453,\n\
\n\
,\n\
1,2\n"
            .as_bytes();
        let csv = csvelo::records::CsvRecords::from_buffer(buffer);
        assert_eq!(csv.len(), 6);
        assert_eq!(csv.record(0).len(), 6);
        assert_eq!(csv.record(0).column(0).unwrap(), b"stop_name");
        assert_eq!(csv.record(0).column(1).unwrap(), b"parent_station");
        assert_eq!(csv.record(0).column(2).unwrap(), b"stop_id");
        assert_eq!(csv.record(0).column(3).unwrap(), b"stop_lat");
        assert_eq!(csv.record(0).column(4).unwrap(), b"stop_lon");
        assert_eq!(csv.record(0).column(5).unwrap(), b"location_type");
        assert_eq!(csv.record(1).len(), 6);
        assert_eq!(
            csv.record(1).column(0).unwrap(),
            b"'s-Heerenberg Gouden Handen"
        );
        assert_eq!(csv.record(1).column(1).unwrap(), b"");
        assert_eq!(csv.record(1).column(2).unwrap(), b"237383");
        assert_eq!(csv.record(1).column(3).unwrap(), b"51.87225");
        assert_eq!(csv.record(1).column(4).unwrap(), b"6.2473383");
        assert_eq!(csv.record(1).column(5).unwrap(), b"1");
        assert_eq!(csv.record(2).len(), 6);
        assert_eq!(csv.record(2).column(0).unwrap(), b"AB-Leider, Hafen");
        assert_eq!(csv.record(2).column(1).unwrap(), b"49745");
        assert_eq!(csv.record(2).column(2).unwrap(), b"35003");
        assert_eq!(csv.record(2).column(3).unwrap(), b"49.9727");
        assert_eq!(csv.record(2).column(4).unwrap(), b"9.107453");
        assert_eq!(csv.record(2).column(5).unwrap(), b"");
        assert_eq!(csv.record(3).len(), 0);
        assert_eq!(csv.record(4).len(), 2);
        assert_eq!(csv.record(4).column(0).unwrap(), b"");
        assert_eq!(csv.record(4).column(1).unwrap(), b"");
        assert_eq!(csv.record(5).len(), 2);
        assert_eq!(csv.record(5).column(0).unwrap(), b"1");
        assert_eq!(csv.record(5).column(1).unwrap(), b"2");
    }
}

#[test]
fn records_test_records_iterator() {
    let buffer = "1\n3\n5\n".as_bytes();
    let records = csvelo::records::CsvRecords::from_buffer(buffer);
    let mut iter = records.iter();
    assert_eq!(iter.next().unwrap().column(0).unwrap(), b"1");
    assert_eq!(iter.next().unwrap().column(0).unwrap(), b"3");
    assert_eq!(iter.next().unwrap().column(0).unwrap(), b"5");
    assert!(iter.next().is_none());
}
