use csvelo::csv_parse::{
    get_optional_column_index, get_required_column_index, load_column, CsvRows,
};
use csvelo::indexed_gtfs::{parse_stop_times, parse_stop_times_header, IndexedGtfsStopTimes};
use csvelo::tables::{CSVParser, File};
use csvelo::structures::{PickupType, TimePointType};
use csvelo::{parse_header, CsvError};

#[test]
fn stop_times_need_their_five_columns() {
    let table = parse_stop_times(
        b"stop_sequence,trip_id,stop_id,departure_time,arrival_time,timepoint,pickup_type\n\
1,T,A,08:00:00,07:59:00,1,2\n\
2,T,B,,08:04:00,0,\n",
    )
    .unwrap();
    assert_eq!(table.trip_id, vec!["T", "T"]);
    assert_eq!(table.stop_id, vec!["A", "B"]);
    assert_eq!(table.stop_sequence, vec![1, 2]);
    assert_eq!(table.arrival_time[0].0.unwrap().seconds(), 28740);
    assert_eq!(table.arrival_time[1].0.unwrap().seconds(), 29040);
    assert_eq!(table.departure_time[0].0.unwrap().seconds(), 28800);
    assert!(table.departure_time[1].0.is_none());
    assert_eq!(
        table.timepoint,
        Some(vec![TimePointType::Exact, TimePointType::Approximate])
    );
    assert_eq!(
        table.pickup_type,
        Some(vec![PickupType::MustPhone, PickupType::Regular])
    );
    assert_eq!(table.stop_headsign, None);
    assert_eq!(table.shape_dist_traveled, None);
}

#[test]
fn the_first_missing_column_of_the_stop_times_is_named() {
    let missing = |buffer: &[u8]| match parse_stop_times(buffer) {
        Err(CsvError::MissingRequiredColumn(name)) => name,
        _ => panic!("a missing column was expected"),
    };
    assert_eq!(missing(b""), "trip_id");
    assert_eq!(missing(b"stop_id,stop_sequence\n"), "trip_id");
    assert_eq!(missing(b"trip_id,stop_sequence,departure_time\nx,y\n"), "stop_id");
    assert_eq!(missing(b"trip_id,stop_id,arrival_time,departure_time\n"), "stop_sequence");
    assert_eq!(missing(b"trip_id,stop_id,stop_sequence\n"), "arrival_time");
    assert_eq!(missing(b"trip_id,stop_id,stop_sequence,arrival_time\n"), "departure_time");
}

#[test]
fn a_required_column_of_the_stop_times_has_to_decode() {
    let parsed = parse_stop_times(
        b"trip_id,stop_id,stop_sequence,arrival_time,departure_time\nT,A,first,,\n",
    );
    assert_eq!(
        parsed.err(),
        Some(CsvError::FieldDecodeError("stop_sequence".to_string()))
    );
    let parsed = parse_stop_times(
        b"trip_id,stop_id,stop_sequence,arrival_time,departure_time\nT,\xff,first,,\n",
    );
    assert_eq!(
        parsed.err(),
        Some(CsvError::FieldDecodeError("stop_id".to_string()))
    );
    // A short row has an empty sequence number, which is no number.
    let parsed = parse_stop_times(
        b"trip_id,stop_id,stop_sequence,arrival_time,departure_time\nT,A,1,,\nT,B\n",
    );
    assert_eq!(
        parsed.err(),
        Some(CsvError::FieldDecodeError("stop_sequence".to_string()))
    );
}

#[test]
fn the_header_of_the_stop_times_is_resolved_by_title() {
    let header = parse_header(
        b"departure_time,arrival_time,stop_sequence,stop_id,trip_id,timepoint,trip_id\n",
    );
    let resolved = parse_stop_times_header(&header).unwrap();
    assert_eq!(resolved.trip_id, 4);
    assert_eq!(resolved.stop_id, 3);
    assert_eq!(resolved.stop_sequence, 2);
    assert_eq!(resolved.arrival_time, 1);
    assert_eq!(resolved.departure_time, 0);
    assert_eq!(resolved.timepoint, Some(5));
    assert_eq!(resolved.pickup_type, None);
    assert_eq!(resolved.drop_off_booking_rule_id, None);
    let header = parse_header(b"trip_id\n");
    assert_eq!(
        parse_stop_times_header(&header).err(),
        Some(CsvError::MissingRequiredColumn("stop_id".to_string()))
    );
}

#[test]
fn titles_are_found_by_their_text() {
    let titles = ["a", "b", "c", "b"];
    assert_eq!(get_optional_column_index(&titles, "b"), Some(1));
    assert_eq!(get_optional_column_index(&titles, "z"), None);
    assert_eq!(get_optional_column_index(&[], "a"), None);
    assert_eq!(get_required_column_index(&titles, "c"), Ok(2));
    assert_eq!(
        get_required_column_index(&titles, "z"),
        Err(CsvError::MissingRequiredColumn("z".to_string()))
    );
}

#[test]
fn a_column_is_loaded_as_text() {
    let rows = CsvRows::from_buffer(b"1,x\n2\n3,z\n");
    assert_eq!(
        load_column(&rows, 1, |text| Ok(text.len())),
        Ok(vec![1, 0, 1])
    );
    assert_eq!(
        load_column(&rows, 0, |text| text
            .parse::<u8>()
            .map_err(|_| CsvError::FieldDecodeError("n".to_string()))),
        Ok(vec![1, 2, 3])
    );
    assert_eq!(
        load_column(&rows, 1, |text| text
            .parse::<u8>()
            .map_err(|_| CsvError::FieldDecodeError("n".to_string()))),
        Err(CsvError::FieldDecodeError("n".to_string()))
    );
    let rows = CsvRows::from_buffer(b"a\n\xff\n");
    assert_eq!(
        load_column(&rows, 0, |text| Ok(text.len())),
        Err(CsvError::InvalidUtf8)
    );
}

#[test]
fn stop_times_that_cannot_be_read_count_as_not_there() {
    let good = b"trip_id,stop_id,stop_sequence,arrival_time,departure_time\nT,A,1,,\nT,B,2,,\n";
    let (table, count) = IndexedGtfsStopTimes::from_csv_buffer(good).unwrap();
    assert_eq!(count, 2);
    assert_eq!(table.stop_sequence, vec![1, 2]);
    let file: File<IndexedGtfsStopTimes> = File::from_buffer(Some(good));
    assert_eq!(file.len, 2);
    assert_eq!(file.data.unwrap().stop_id, vec!["A", "B"]);
    let missing = b"trip_id,stop_id\nT,A\n";
    assert_eq!(
        IndexedGtfsStopTimes::from_csv_buffer(missing).err(),
        Some(CsvError::MissingRequiredColumn("stop_sequence".to_string()))
    );
    let file: File<IndexedGtfsStopTimes> = File::from_buffer(Some(missing));
    assert_eq!(file.len, 0);
    assert!(file.data.is_none());
    let malformed = b"trip_id,stop_id,stop_sequence,arrival_time,departure_time\nT,A,one,,\n";
    let file: File<IndexedGtfsStopTimes> = File::from_buffer(Some(malformed));
    assert_eq!(file.len, 0);
    assert!(file.data.is_none());
    let file: File<IndexedGtfsStopTimes> = File::from_buffer(None);
    assert_eq!(file.len, 0);
    assert!(file.data.is_none());
}
