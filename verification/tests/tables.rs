use csvelo::gtfs_io::{GtfsBufferSlices, GtfsBuffers, GtfsFilter};
use csvelo::structures::{
    Color, Date, DirectionId, ExceptionType, LocationType, OptionalDate, PickupType, RouteType,
    ServiceAvailable, WheelchairBoarding, YesOrNo,
};
use csvelo::tables::{
    Agencies, Attributions, CSVParser, Calendar, CalendarDates, FeedInfos, File, Gtfs, Routes,
    StopTimes, Stops, Trips,
};

const STOPS: &str = "stop_id,stop_name,stop_lat,stop_lon,location_type,parent_station\n\
1,My Station,42.5,24.25,1,\n\
2,Another Station,10.0,11.75,1,1\n";

const STOP_TIMES: &str = "trip_id,arrival_time,departure_time,stop_id,stop_sequence,pickup_type\r\n\
T1,08:00:00,08:01:30,1,1,0\r\n\
T1,08:10:00,,2,2,1\r\n\
T2,25:00:00,25:00:10,1,1,\r\n";

fn no_buffers<'a>() -> GtfsBufferSlices<'a> {
    GtfsBufferSlices {
        stop_times: None,
        stops: None,
        trips: None,
        routes: None,
        calendar: None,
        calendar_dates: None,
        agencies: None,
        feed_infos: None,
        attributions: None,
    }
}

#[test]
fn test_load_gtfs_dummy() {
    let buffers = GtfsBuffers {
        stop_times: None,
        stops: Some(STOPS.as_bytes().to_vec()),
        trips: None,
        routes: None,
        calendar: None,
        calendar_dates: None,
        agencies: None,
        feed_infos: None,
        attributions: None,
    };
    let gtfs = Gtfs::from_buffers(buffers.to_slices());
    assert_eq!(gtfs.stops.len, 2);

    let stops = gtfs.stops.data.unwrap();

    assert_eq!(stops.stop_id.unwrap(), vec!["1", "2"]);
    assert_eq!(
        stops.stop_name.unwrap(),
        vec!["My Station", "Another Station"]
    );
    assert_eq!(
        stops
            .stop_lat
            .unwrap()
            .iter()
            .map(|v| v.parse::<f32>().unwrap() as i32)
            .collect::<Vec<i32>>(),
        vec![42, 10]
    );
    assert_eq!(
        stops
            .stop_lon
            .unwrap()
            .iter()
            .map(|v| v.parse::<f32>().unwrap() as i32)
            .collect::<Vec<i32>>(),
        vec![24, 11]
    );
    assert_eq!(
        stops.location_type.unwrap(),
        vec![LocationType::Station, LocationType::Station]
    );
}

#[test]
fn a_table_has_the_columns_that_its_file_has() {
    let (stops, count) = Stops::from_csv_buffer(STOPS.as_bytes()).unwrap();
    assert_eq!(count, 2);
    assert_eq!(stops.parent_station, Some(vec!["", "1"]));
    assert_eq!(stops.stop_code, None);
    assert_eq!(stops.wheelchair_boarding, None);
    assert_eq!(stops.stop_lat, Some(vec!["42.5", "10.0"]));
    let (stops, count) = Stops::from_csv_buffer(b"wheelchair_boarding\n\n2\n1\n").unwrap();
    assert_eq!(count, 3);
    assert_eq!(
        stops.wheelchair_boarding,
        Some(vec![
            WheelchairBoarding::NoInfoOrSeeParent,
            WheelchairBoarding::NoAccessibility,
            WheelchairBoarding::SomeAccessibility
        ])
    );
    assert_eq!(stops.stop_id, None);
}

#[test]
fn stop_times_are_read_with_their_times() {
    let (stop_times, count) = StopTimes::from_csv_buffer(STOP_TIMES.as_bytes()).unwrap();
    assert_eq!(count, 3);
    assert_eq!(stop_times.trip_id, Some(vec!["T1", "T1", "T2"]));
    assert_eq!(stop_times.stop_sequence, Some(vec![1, 2, 1]));
    let seconds = |times: Option<Vec<csvelo::structures::OptionalServiceDayTime>>| -> Vec<Option<u32>> {
        times
            .unwrap()
            .iter()
            .map(|t| t.0.map(|time| time.seconds()))
            .collect()
    };
    assert_eq!(
        seconds(stop_times.arrival_time),
        vec![Some(28800), Some(29400), Some(90000)]
    );
    assert_eq!(
        seconds(stop_times.departure_time),
        vec![Some(28890), None, Some(90010)]
    );
    assert_eq!(
        stop_times.pickup_type,
        Some(vec![PickupType::Regular, PickupType::NotAvailable, PickupType::Regular])
    );
    assert_eq!(stop_times.drop_off_type, None);
    assert_eq!(stop_times.shape_dist_traveled, None);
}

#[test]
fn one_bad_field_removes_its_column_from_the_table() {
    let (routes, count) = Routes::from_csv_buffer(
        b"route_id,route_type,route_color,route_sort_order\nR1,3,FF0000,1\nR2,11,00FF,x\nR3,,0000ff,3\n",
    )
    .unwrap();
    assert_eq!(count, 3);
    assert_eq!(routes.route_id, Some(vec!["R1", "R2", "R3"]));
    assert_eq!(
        routes.route_type,
        Some(vec![RouteType::Bus, RouteType::Trolleybus, RouteType::Unknown])
    );
    // The second color has four digits, the second sort order is no number.
    assert_eq!(routes.route_color, None);
    assert_eq!(routes.route_sort_order, None);
    let (routes, _) =
        Routes::from_csv_buffer(b"route_color,route_text_color\nFF0000,000000\n").unwrap();
    assert_eq!(routes.route_color, Some(vec![Color { r: 255, g: 0, b: 0 }]));
    assert_eq!(routes.route_text_color, Some(vec![Color { r: 0, g: 0, b: 0 }]));
}

#[test]
fn the_other_tables_are_read_alike() {
    let (trips, count) =
        Trips::from_csv_buffer(b"trip_id,direction_id\na,0\nb,1\nc,\n").unwrap();
    assert_eq!(count, 3);
    assert_eq!(
        trips.direction_id,
        Some(vec![DirectionId::Outbound, DirectionId::Inbound, DirectionId::Unknown])
    );
    let (calendar, _) = Calendar::from_csv_buffer(
        b"service_id,monday,sunday,start_date,end_date\nS,1,0,20240101,20241231\n",
    )
    .unwrap();
    assert_eq!(calendar.monday, Some(vec![ServiceAvailable::Yes]));
    assert_eq!(calendar.sunday, Some(vec![ServiceAvailable::No]));
    assert_eq!(calendar.tuesday, None);
    assert_eq!(
        calendar.start_date,
        Some(vec![OptionalDate(Some(Date { year: 2024, month: 1, day: 1 }))])
    );
    assert_eq!(
        calendar.end_date,
        Some(vec![OptionalDate(Some(Date { year: 2024, month: 12, day: 31 }))])
    );
    let (dates, _) =
        CalendarDates::from_csv_buffer(b"service_id,date,exception_type\nS,20240501,2\n").unwrap();
    assert_eq!(dates.exception_type, Some(vec![ExceptionType::Removed]));
    assert_eq!(
        dates.date,
        Some(vec![OptionalDate(Some(Date { year: 2024, month: 5, day: 1 }))])
    );
    let (agencies, _) =
        Agencies::from_csv_buffer("agency_name,agency_url\n\"B\u{fc}s, Inc.\",http://x\n".as_bytes())
            .unwrap();
    assert_eq!(agencies.agency_name, Some(vec!["B\u{fc}s, Inc."]));
    assert_eq!(agencies.agency_id, None);
    let (infos, count) = FeedInfos::from_csv_buffer(b"feed_lang,feed_start_date\nde,2024\n").unwrap();
    assert_eq!(count, 1);
    assert_eq!(infos.feed_lang, Some(vec!["de"]));
    // A date of the wrong width is absent; its column stays.
    assert_eq!(infos.feed_start_date, Some(vec![OptionalDate(None)]));
    assert_eq!(infos.feed_end_date, None);
    let (attributions, _) =
        Attributions::from_csv_buffer(b"organization_name,is_producer,is_operator\nO,1,\n").unwrap();
    assert_eq!(attributions.organization_name, Some(vec!["O"]));
    assert_eq!(attributions.is_producer, Some(vec![YesOrNo::Yes]));
    assert_eq!(attributions.is_operator, Some(vec![YesOrNo::No]));
    assert_eq!(attributions.is_authority, None);
}

#[test]
fn a_file_that_is_not_there_has_no_records_and_no_data() {
    let gtfs = Gtfs::from_buffers(no_buffers());
    assert_eq!(gtfs.stop_times.len, 0);
    assert!(gtfs.stop_times.data.is_none());
    assert_eq!(gtfs.calendars.len, 0);
    assert!(gtfs.attributions.data.is_none());
    let file: File<Trips> = File::from_buffer(None);
    assert_eq!(file.len, 0);
    assert!(file.data.is_none());
    let file: File<Trips> = File::unavailable();
    assert!(file.data.is_none());
    let file: File<Trips> = File::from_buffer(Some(b"trip_id\n1\n2\n"));
    assert_eq!(file.len, 2);
    assert_eq!(file.data.unwrap().trip_id, Some(vec!["1", "2"]));
}

#[test]
fn each_file_of_a_feed_is_read_on_its_own() {
    let mut buffers = no_buffers();
    buffers.stops = Some(STOPS.as_bytes());
    buffers.stop_times = Some(STOP_TIMES.as_bytes());
    buffers.calendar = Some(b"service_id\n");
    buffers.trips = Some(b"\xff\xff\n\xff\n");
    let gtfs = Gtfs::from_buffers(buffers);
    assert_eq!(gtfs.stops.len, 2);
    assert_eq!(gtfs.stop_times.len, 3);
    assert_eq!(gtfs.calendars.len, 0);
    assert_eq!(gtfs.calendars.data.unwrap().service_id, Some(vec![]));
    assert_eq!(gtfs.trips.len, 1);
    assert_eq!(gtfs.trips.data.unwrap().trip_id, None);
    assert_eq!(gtfs.routes.len, 0);
    assert!(gtfs.routes.data.is_none());
}

#[test]
fn a_filter_lets_all_files_through_or_none() {
    let all = GtfsFilter::all();
    assert!(all.stop_times && all.stops && all.trips && all.routes && all.calendar);
    assert!(all.calendar_dates && all.agencies && all.feed_infos && all.attributions);
    let none = GtfsFilter::none();
    assert!(!none.stop_times && !none.stops && !none.trips && !none.routes && !none.calendar);
    assert!(!none.calendar_dates && !none.agencies && !none.feed_infos && !none.attributions);
    let default = GtfsFilter::default();
    assert!(default.stops && default.attributions);
    let only_stops = GtfsFilter { stops: true, ..GtfsFilter::none() };
    assert!(only_stops.stops && !only_stops.trips);
}

#[test]
fn owned_buffers_are_borrowed_as_they_are() {
    let buffers = GtfsBuffers {
        stop_times: Some(vec![1, 2, 3]),
        stops: None,
        trips: Some(vec![]),
        routes: None,
        calendar: Some(vec![9]),
        calendar_dates: None,
        agencies: None,
        feed_infos: None,
        attributions: Some(vec![7, 7]),
    };
    let slices = buffers.to_slices();
    assert_eq!(slices.stop_times, Some(&[1u8, 2, 3][..]));
    assert_eq!(slices.stops, None);
    assert_eq!(slices.trips, Some(&[][..]));
    assert_eq!(slices.calendar, Some(&[9u8][..]));
    assert_eq!(slices.attributions, Some(&[7u8, 7][..]));
    assert_eq!(slices.feed_infos, None);
}

#[test]
fn a_malformed_date_leaves_the_other_dates_of_its_column() {
    let (dates, count) = CalendarDates::from_csv_buffer(
        b"service_id,date,exception_type\nA,20240501,1\nB,2024-05-02,2\nC,,1\nD,20240504,2\n",
    )
    .unwrap();
    assert_eq!(count, 4);
    assert_eq!(
        dates.date,
        Some(vec![
            OptionalDate(Some(Date { year: 2024, month: 5, day: 1 })),
            OptionalDate(None),
            OptionalDate(None),
            OptionalDate(Some(Date { year: 2024, month: 5, day: 4 })),
        ])
    );
    let schema = vec![csvelo::schema::ColumnSchema::required("date")];
    let table = csvelo::schema::parse_table::<OptionalDate>(b"date\n20240501\nnever\n", &schema, 0)
        .unwrap();
    assert_eq!(
        table.columns[0],
        Some(vec![
            OptionalDate(Some(Date { year: 2024, month: 5, day: 1 })),
            OptionalDate(None)
        ])
    );
}
