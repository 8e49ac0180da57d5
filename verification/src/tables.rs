//! The tables of a transit feed, each with its columns, and the feed as a
//! whole.
//!
//! Every column of every table is optional: a column that the file does not
//! have, or that holds a field that cannot be decoded, is absent from the
//! table as a whole. Columns of decimal numbers are kept as text.

use crate::document::{document_of, is_column_of, CsvDocument, DocumentView, DEFAULT_CHUNK_SIZE};
use crate::error::CsvError;
use crate::gtfs_io::GtfsBufferSlices;
use crate::structures::{
    BikesAllowed, Color, ContinuousDropOffType, ContinuousPickupType, DirectionId, DropOffType,
    ExceptionType, LocationType, OptionalDate, OptionalServiceDayTime, PickupType, RouteType,
    ServiceAvailable, TimePointType, WheelchairAccessible, WheelchairBoarding, YesOrNo,
};
use vstd::prelude::*;
use vstd::string::StringSliceAdditionalSpecFns;

verus! {

/// A table that can be read from a document.
pub trait CSVParser<'a>: Sized {
    /// Whether the document cannot be read as this table.
    spec fn is_unreadable(document: DocumentView) -> bool;

    /// Whether `table` is this table, read from the document.
    spec fn is_table_of(document: DocumentView, table: Self) -> bool;

    /// Reads the table from the document in a buffer, and counts the records
    /// of the document.
    fn from_csv_buffer(buffer: &'a [u8]) -> (parsed: Result<(Self, usize), CsvError>)
        ensures
            parsed is Err <==> Self::is_unreadable(document_of(buffer@)),
            parsed is Ok ==> parsed->Ok_0.1 == document_of(buffer@).records.len()
                && Self::is_table_of(document_of(buffer@), parsed->Ok_0.0),
    ;
}

/// One file of a feed: the number of its records, and its table if the file
/// is there and can be read.
#[derive(Debug)]
pub struct File<T> {
    pub len: usize,
    pub data: Option<T>,
}

impl<T> File<T> {
    /// The file that is not there.
    pub fn unavailable() -> (file: Self)
        ensures
            file.len == 0,
            file.data.is_none(),
    {
        File { len: 0, data: None }
    }

    /// Reads a file from its buffer, if there is one. A file that cannot be
    /// read counts as not there: no records, no data.
    pub fn from_buffer<'a>(buffer: Option<&'a [u8]>) -> (file: Self) where T: CSVParser<'a>
        ensures
            is_file_of::<T>(buffer, file),
    {
        match buffer {
            Some(bytes) => match T::from_csv_buffer(bytes) {
                Ok((data, len)) => File { len, data: Some(data) },
                Err(_) => File::unavailable(),
            },
            None => File::unavailable(),
        }
    }
}

/// Whether `file` is what the buffer of a file gives: the table and the
/// number of records of the document in the buffer, or no data and no
/// records where there is no buffer or the document cannot be read.
pub open spec fn is_file_of<'a, T: CSVParser<'a>>(buffer: Option<&'a [u8]>, file: File<T>) -> bool {
    match buffer {
        Some(bytes) => if T::is_unreadable(document_of(bytes@)) {
            file.len == 0 && file.data.is_none()
        } else {
            &&& file.len == document_of(bytes@).records.len()
            &&& file.data.is_some()
            &&& T::is_table_of(document_of(bytes@), file.data.unwrap())
        },
        None => file.len == 0 && file.data.is_none(),
    }
}

/// The times at which trips call at stops.
#[derive(Debug)]
pub struct StopTimes<'a> {
    pub trip_id: Option<Vec<&'a str>>,
    pub stop_id: Option<Vec<&'a str>>,
    pub stop_sequence: Option<Vec<u32>>,
    pub arrival_time: Option<Vec<OptionalServiceDayTime>>,
    pub departure_time: Option<Vec<OptionalServiceDayTime>>,
    pub location_group_id: Option<Vec<&'a str>>,
    pub location_id: Option<Vec<&'a str>>,
    pub stop_headsign: Option<Vec<&'a str>>,
    pub start_pickup_drop_off_window: Option<Vec<OptionalServiceDayTime>>,
    pub end_pickup_drop_off_window: Option<Vec<OptionalServiceDayTime>>,
    pub pickup_type: Option<Vec<PickupType>>,
    pub drop_off_type: Option<Vec<DropOffType>>,
    pub continuous_pickup: Option<Vec<ContinuousPickupType>>,
    pub continuous_drop_off: Option<Vec<ContinuousDropOffType>>,
    pub shape_dist_traveled: Option<Vec<&'a str>>,
    pub timepoint: Option<Vec<TimePointType>>,
    pub pickup_booking_rule_id: Option<Vec<&'a str>>,
    pub drop_off_booking_rule_id: Option<Vec<&'a str>>,
}

impl<'a> CSVParser<'a> for StopTimes<'a> {
    /// Every document can be read: no column is required.
    open spec fn is_unreadable(document: DocumentView) -> bool {
        false
    }

    /// Each column of the table is the column of that title in the document.
    open spec fn is_table_of(document: DocumentView, table: Self) -> bool {
        &&& is_column_of::<&'a str>(document, "trip_id".spec_bytes(), table.trip_id)
        &&& is_column_of::<&'a str>(document, "stop_id".spec_bytes(), table.stop_id)
        &&& is_column_of::<u32>(document, "stop_sequence".spec_bytes(), table.stop_sequence)
        &&& is_column_of::<OptionalServiceDayTime>(
            document,
            "arrival_time".spec_bytes(),
            table.arrival_time,
        )
        &&& is_column_of::<OptionalServiceDayTime>(
            document,
            "departure_time".spec_bytes(),
            table.departure_time,
        )
        &&& is_column_of::<&'a str>(
            document,
            "location_group_id".spec_bytes(),
            table.location_group_id,
        )
        &&& is_column_of::<&'a str>(document, "location_id".spec_bytes(), table.location_id)
        &&& is_column_of::<&'a str>(document, "stop_headsign".spec_bytes(), table.stop_headsign)
        &&& is_column_of::<OptionalServiceDayTime>(
            document,
            "start_pickup_drop_off_window".spec_bytes(),
            table.start_pickup_drop_off_window,
        )
        &&& is_column_of::<OptionalServiceDayTime>(
            document,
            "end_pickup_drop_off_window".spec_bytes(),
            table.end_pickup_drop_off_window,
        )
        &&& is_column_of::<PickupType>(document, "pickup_type".spec_bytes(), table.pickup_type)
        &&& is_column_of::<DropOffType>(document, "drop_off_type".spec_bytes(), table.drop_off_type)
        &&& is_column_of::<ContinuousPickupType>(
            document,
            "continuous_pickup".spec_bytes(),
            table.continuous_pickup,
        )
        &&& is_column_of::<ContinuousDropOffType>(
            document,
            "continuous_drop_off".spec_bytes(),
            table.continuous_drop_off,
        )
        &&& is_column_of::<&'a str>(
            document,
            "shape_dist_traveled".spec_bytes(),
            table.shape_dist_traveled,
        )
        &&& is_column_of::<TimePointType>(document, "timepoint".spec_bytes(), table.timepoint)
        &&& is_column_of::<&'a str>(
            document,
            "pickup_booking_rule_id".spec_bytes(),
            table.pickup_booking_rule_id,
        )
        &&& is_column_of::<&'a str>(
            document,
            "drop_off_booking_rule_id".spec_bytes(),
            table.drop_off_booking_rule_id,
        )
    }

    fn from_csv_buffer(buffer: &'a [u8]) -> (parsed: Result<(Self, usize), CsvError>) {
        let document = CsvDocument::from_buffer(buffer, DEFAULT_CHUNK_SIZE);
        let table = StopTimes {
            trip_id: document.column_by_title("trip_id"),
            stop_id: document.column_by_title("stop_id"),
            stop_sequence: document.column_by_title("stop_sequence"),
            arrival_time: document.column_by_title("arrival_time"),
            departure_time: document.column_by_title("departure_time"),
            location_group_id: document.column_by_title("location_group_id"),
            location_id: document.column_by_title("location_id"),
            stop_headsign: document.column_by_title("stop_headsign"),
            start_pickup_drop_off_window: document.column_by_title("start_pickup_drop_off_window"),
            end_pickup_drop_off_window: document.column_by_title("end_pickup_drop_off_window"),
            pickup_type: document.column_by_title("pickup_type"),
            drop_off_type: document.column_by_title("drop_off_type"),
            continuous_pickup: document.column_by_title("continuous_pickup"),
            continuous_drop_off: document.column_by_title("continuous_drop_off"),
            shape_dist_traveled: document.column_by_title("shape_dist_traveled"),
            timepoint: document.column_by_title("timepoint"),
            pickup_booking_rule_id: document.column_by_title("pickup_booking_rule_id"),
            drop_off_booking_rule_id: document.column_by_title("drop_off_booking_rule_id"),
        };
        Ok((table, document.record_count()))
    }
}

/// The places where riders board and alight.
#[derive(Debug)]
pub struct Stops<'a> {
    pub stop_id: Option<Vec<&'a str>>,
    pub stop_code: Option<Vec<&'a str>>,
    pub stop_name: Option<Vec<&'a str>>,
    pub tts_stop_name: Option<Vec<&'a str>>,
    pub stop_desc: Option<Vec<&'a str>>,
    pub stop_lat: Option<Vec<&'a str>>,
    pub stop_lon: Option<Vec<&'a str>>,
    pub zone_id: Option<Vec<&'a str>>,
    pub stop_url: Option<Vec<&'a str>>,
    pub location_type: Option<Vec<LocationType>>,
    pub parent_station: Option<Vec<&'a str>>,
    pub stop_timezone: Option<Vec<&'a str>>,
    pub wheelchair_boarding: Option<Vec<WheelchairBoarding>>,
    pub level_id: Option<Vec<&'a str>>,
    pub platform_code: Option<Vec<&'a str>>,
}

impl<'a> CSVParser<'a> for Stops<'a> {
    /// Every document can be read: no column is required.
    open spec fn is_unreadable(document: DocumentView) -> bool {
        false
    }

    /// Each column of the table is the column of that title in the document.
    open spec fn is_table_of(document: DocumentView, table: Self) -> bool {
        &&& is_column_of::<&'a str>(document, "stop_id".spec_bytes(), table.stop_id)
        &&& is_column_of::<&'a str>(document, "stop_code".spec_bytes(), table.stop_code)
        &&& is_column_of::<&'a str>(document, "stop_name".spec_bytes(), table.stop_name)
        &&& is_column_of::<&'a str>(document, "tts_stop_name".spec_bytes(), table.tts_stop_name)
        &&& is_column_of::<&'a str>(document, "stop_desc".spec_bytes(), table.stop_desc)
        &&& is_column_of::<&'a str>(document, "stop_lat".spec_bytes(), table.stop_lat)
        &&& is_column_of::<&'a str>(document, "stop_lon".spec_bytes(), table.stop_lon)
        &&& is_column_of::<&'a str>(document, "zone_id".spec_bytes(), table.zone_id)
        &&& is_column_of::<&'a str>(document, "stop_url".spec_bytes(), table.stop_url)
        &&& is_column_of::<LocationType>(
            document,
            "location_type".spec_bytes(),
            table.location_type,
        )
        &&& is_column_of::<&'a str>(document, "parent_station".spec_bytes(), table.parent_station)
        &&& is_column_of::<&'a str>(document, "stop_timezone".spec_bytes(), table.stop_timezone)
        &&& is_column_of::<WheelchairBoarding>(
            document,
            "wheelchair_boarding".spec_bytes(),
            table.wheelchair_boarding,
        )
        &&& is_column_of::<&'a str>(document, "level_id".spec_bytes(), table.level_id)
        &&& is_column_of::<&'a str>(document, "platform_code".spec_bytes(), table.platform_code)
    }

    fn from_csv_buffer(buffer: &'a [u8]) -> (parsed: Result<(Self, usize), CsvError>) {
        let document = CsvDocument::from_buffer(buffer, DEFAULT_CHUNK_SIZE);
        let table = Stops {
            stop_id: document.column_by_title("stop_id"),
            stop_code: document.column_by_title("stop_code"),
            stop_name: document.column_by_title("stop_name"),
            tts_stop_name: document.column_by_title("tts_stop_name"),
            stop_desc: document.column_by_title("stop_desc"),
            stop_lat: document.column_by_title("stop_lat"),
            stop_lon: document.column_by_title("stop_lon"),
            zone_id: document.column_by_title("zone_id"),
            stop_url: document.column_by_title("stop_url"),
            location_type: document.column_by_title("location_type"),
            parent_station: document.column_by_title("parent_station"),
            stop_timezone: document.column_by_title("stop_timezone"),
            wheelchair_boarding: document.column_by_title("wheelchair_boarding"),
            level_id: document.column_by_title("level_id"),
            platform_code: document.column_by_title("platform_code"),
        };
        Ok((table, document.record_count()))
    }
}

/// The trips of each route.
#[derive(Debug)]
pub struct Trips<'a> {
    pub route_id: Option<Vec<&'a str>>,
    pub service_id: Option<Vec<&'a str>>,
    pub trip_id: Option<Vec<&'a str>>,
    pub trip_headsign: Option<Vec<&'a str>>,
    pub trip_short_name: Option<Vec<&'a str>>,
    pub direction_id: Option<Vec<DirectionId>>,
    pub block_id: Option<Vec<&'a str>>,
    pub shape_id: Option<Vec<&'a str>>,
    pub wheelchair_accessible: Option<Vec<WheelchairAccessible>>,
    pub bikes_allowed: Option<Vec<BikesAllowed>>,
}

impl<'a> CSVParser<'a> for Trips<'a> {
    /// Every document can be read: no column is required.
    open spec fn is_unreadable(document: DocumentView) -> bool {
        false
    }

    /// Each column of the table is the column of that title in the document.
    open spec fn is_table_of(document: DocumentView, table: Self) -> bool {
        &&& is_column_of::<&'a str>(document, "route_id".spec_bytes(), table.route_id)
        &&& is_column_of::<&'a str>(document, "service_id".spec_bytes(), table.service_id)
        &&& is_column_of::<&'a str>(document, "trip_id".spec_bytes(), table.trip_id)
        &&& is_column_of::<&'a str>(document, "trip_headsign".spec_bytes(), table.trip_headsign)
        &&& is_column_of::<&'a str>(document, "trip_short_name".spec_bytes(), table.trip_short_name)
        &&& is_column_of::<DirectionId>(document, "direction_id".spec_bytes(), table.direction_id)
        &&& is_column_of::<&'a str>(document, "block_id".spec_bytes(), table.block_id)
        &&& is_column_of::<&'a str>(document, "shape_id".spec_bytes(), table.shape_id)
        &&& is_column_of::<WheelchairAccessible>(
            document,
            "wheelchair_accessible".spec_bytes(),
            table.wheelchair_accessible,
        )
        &&& is_column_of::<BikesAllowed>(
            document,
            "bikes_allowed".spec_bytes(),
            table.bikes_allowed,
        )
    }

    fn from_csv_buffer(buffer: &'a [u8]) -> (parsed: Result<(Self, usize), CsvError>) {
        let document = CsvDocument::from_buffer(buffer, DEFAULT_CHUNK_SIZE);
        let table = Trips {
            route_id: document.column_by_title("route_id"),
            service_id: document.column_by_title("service_id"),
            trip_id: document.column_by_title("trip_id"),
            trip_headsign: document.column_by_title("trip_headsign"),
            trip_short_name: document.column_by_title("trip_short_name"),
            direction_id: document.column_by_title("direction_id"),
            block_id: document.column_by_title("block_id"),
            shape_id: document.column_by_title("shape_id"),
            wheelchair_accessible: document.column_by_title("wheelchair_accessible"),
            bikes_allowed: document.column_by_title("bikes_allowed"),
        };
        Ok((table, document.record_count()))
    }
}

/// The routes of a feed.
#[derive(Debug)]
pub struct Routes<'a> {
    pub route_id: Option<Vec<&'a str>>,
    pub agency_id: Option<Vec<&'a str>>,
    pub route_short_name: Option<Vec<&'a str>>,
    pub route_long_name: Option<Vec<&'a str>>,
    pub route_desc: Option<Vec<&'a str>>,
    pub route_type: Option<Vec<RouteType>>,
    pub route_url: Option<Vec<&'a str>>,
    pub route_color: Option<Vec<Color>>,
    pub route_text_color: Option<Vec<Color>>,
    pub route_sort_order: Option<Vec<u32>>,
    pub continuous_pickup: Option<Vec<ContinuousPickupType>>,
    pub continuous_drop_off: Option<Vec<ContinuousDropOffType>>,
    pub network_id: Option<Vec<&'a str>>,
}

impl<'a> CSVParser<'a> for Routes<'a> {
    /// Every document can be read: no column is required.
    open spec fn is_unreadable(document: DocumentView) -> bool {
        false
    }

    /// Each column of the table is the column of that title in the document.
    open spec fn is_table_of(document: DocumentView, table: Self) -> bool {
        &&& is_column_of::<&'a str>(document, "route_id".spec_bytes(), table.route_id)
        &&& is_column_of::<&'a str>(document, "agency_id".spec_bytes(), table.agency_id)
        &&& is_column_of::<&'a str>(
            document,
            "route_short_name".spec_bytes(),
            table.route_short_name,
        )
        &&& is_column_of::<&'a str>(document, "route_long_name".spec_bytes(), table.route_long_name)
        &&& is_column_of::<&'a str>(document, "route_desc".spec_bytes(), table.route_desc)
        &&& is_column_of::<RouteType>(document, "route_type".spec_bytes(), table.route_type)
        &&& is_column_of::<&'a str>(document, "route_url".spec_bytes(), table.route_url)
        &&& is_column_of::<Color>(document, "route_color".spec_bytes(), table.route_color)
        &&& is_column_of::<Color>(document, "route_text_color".spec_bytes(), table.route_text_color)
        &&& is_column_of::<u32>(document, "route_sort_order".spec_bytes(), table.route_sort_order)
        &&& is_column_of::<ContinuousPickupType>(
            document,
            "continuous_pickup".spec_bytes(),
            table.continuous_pickup,
        )
        &&& is_column_of::<ContinuousDropOffType>(
            document,
            "continuous_drop_off".spec_bytes(),
            table.continuous_drop_off,
        )
        &&& is_column_of::<&'a str>(document, "network_id".spec_bytes(), table.network_id)
    }

    fn from_csv_buffer(buffer: &'a [u8]) -> (parsed: Result<(Self, usize), CsvError>) {
        let document = CsvDocument::from_buffer(buffer, DEFAULT_CHUNK_SIZE);
        let table = Routes {
            route_id: document.column_by_title("route_id"),
            agency_id: document.column_by_title("agency_id"),
            route_short_name: document.column_by_title("route_short_name"),
            route_long_name: document.column_by_title("route_long_name"),
            route_desc: document.column_by_title("route_desc"),
            route_type: document.column_by_title("route_type"),
            route_url: document.column_by_title("route_url"),
            route_color: document.column_by_title("route_color"),
            route_text_color: document.column_by_title("route_text_color"),
            route_sort_order: document.column_by_title("route_sort_order"),
            continuous_pickup: document.column_by_title("continuous_pickup"),
            continuous_drop_off: document.column_by_title("continuous_drop_off"),
            network_id: document.column_by_title("network_id"),
        };
        Ok((table, document.record_count()))
    }
}

/// The days of the week on which services run.
#[derive(Debug)]
pub struct Calendar<'a> {
    pub service_id: Option<Vec<&'a str>>,
    pub monday: Option<Vec<ServiceAvailable>>,
    pub tuesday: Option<Vec<ServiceAvailable>>,
    pub wednesday: Option<Vec<ServiceAvailable>>,
    pub thursday: Option<Vec<ServiceAvailable>>,
    pub friday: Option<Vec<ServiceAvailable>>,
    pub saturday: Option<Vec<ServiceAvailable>>,
    pub sunday: Option<Vec<ServiceAvailable>>,
    pub start_date: Option<Vec<OptionalDate>>,
    pub end_date: Option<Vec<OptionalDate>>,
}

impl<'a> CSVParser<'a> for Calendar<'a> {
    /// Every document can be read: no column is required.
    open spec fn is_unreadable(document: DocumentView) -> bool {
        false
    }

    /// Each column of the table is the column of that title in the document.
    open spec fn is_table_of(document: DocumentView, table: Self) -> bool {
        &&& is_column_of::<&'a str>(document, "service_id".spec_bytes(), table.service_id)
        &&& is_column_of::<ServiceAvailable>(document, "monday".spec_bytes(), table.monday)
        &&& is_column_of::<ServiceAvailable>(document, "tuesday".spec_bytes(), table.tuesday)
        &&& is_column_of::<ServiceAvailable>(document, "wednesday".spec_bytes(), table.wednesday)
        &&& is_column_of::<ServiceAvailable>(document, "thursday".spec_bytes(), table.thursday)
        &&& is_column_of::<ServiceAvailable>(document, "friday".spec_bytes(), table.friday)
        &&& is_column_of::<ServiceAvailable>(document, "saturday".spec_bytes(), table.saturday)
        &&& is_column_of::<ServiceAvailable>(document, "sunday".spec_bytes(), table.sunday)
        &&& is_column_of::<OptionalDate>(document, "start_date".spec_bytes(), table.start_date)
        &&& is_column_of::<OptionalDate>(document, "end_date".spec_bytes(), table.end_date)
    }

    fn from_csv_buffer(buffer: &'a [u8]) -> (parsed: Result<(Self, usize), CsvError>) {
        let document = CsvDocument::from_buffer(buffer, DEFAULT_CHUNK_SIZE);
        let table = Calendar {
            service_id: document.column_by_title("service_id"),
            monday: document.column_by_title("monday"),
            tuesday: document.column_by_title("tuesday"),
            wednesday: document.column_by_title("wednesday"),
            thursday: document.column_by_title("thursday"),
            friday: document.column_by_title("friday"),
            saturday: document.column_by_title("saturday"),
            sunday: document.column_by_title("sunday"),
            start_date: document.column_by_title("start_date"),
            end_date: document.column_by_title("end_date"),
        };
        Ok((table, document.record_count()))
    }
}

/// The dates on which services differ from their week.
#[derive(Debug)]
pub struct CalendarDates<'a> {
    pub service_id: Option<Vec<&'a str>>,
    pub date: Option<Vec<OptionalDate>>,
    pub exception_type: Option<Vec<ExceptionType>>,
}

impl<'a> CSVParser<'a> for CalendarDates<'a> {
    /// Every document can be read: no column is required.
    open spec fn is_unreadable(document: DocumentView) -> bool {
        false
    }

    /// Each column of the table is the column of that title in the document.
    open spec fn is_table_of(document: DocumentView, table: Self) -> bool {
        &&& is_column_of::<&'a str>(document, "service_id".spec_bytes(), table.service_id)
        &&& is_column_of::<OptionalDate>(document, "date".spec_bytes(), table.date)
        &&& is_column_of::<ExceptionType>(
            document,
            "exception_type".spec_bytes(),
            table.exception_type,
        )
    }

    fn from_csv_buffer(buffer: &'a [u8]) -> (parsed: Result<(Self, usize), CsvError>) {
        let document = CsvDocument::from_buffer(buffer, DEFAULT_CHUNK_SIZE);
        let table = CalendarDates {
            service_id: document.column_by_title("service_id"),
            date: document.column_by_title("date"),
            exception_type: document.column_by_title("exception_type"),
        };
        Ok((table, document.record_count()))
    }
}

/// The agencies that run the services.
#[derive(Debug)]
pub struct Agencies<'a> {
    pub agency_id: Option<Vec<&'a str>>,
    pub agency_name: Option<Vec<&'a str>>,
    pub agency_url: Option<Vec<&'a str>>,
    pub agency_timezone: Option<Vec<&'a str>>,
    pub agency_lang: Option<Vec<&'a str>>,
    pub agency_phone: Option<Vec<&'a str>>,
    pub agency_fare_url: Option<Vec<&'a str>>,
    pub agency_email: Option<Vec<&'a str>>,
}

impl<'a> CSVParser<'a> for Agencies<'a> {
    /// Every document can be read: no column is required.
    open spec fn is_unreadable(document: DocumentView) -> bool {
        false
    }

    /// Each column of the table is the column of that title in the document.
    open spec fn is_table_of(document: DocumentView, table: Self) -> bool {
        &&& is_column_of::<&'a str>(document, "agency_id".spec_bytes(), table.agency_id)
        &&& is_column_of::<&'a str>(document, "agency_name".spec_bytes(), table.agency_name)
        &&& is_column_of::<&'a str>(document, "agency_url".spec_bytes(), table.agency_url)
        &&& is_column_of::<&'a str>(document, "agency_timezone".spec_bytes(), table.agency_timezone)
        &&& is_column_of::<&'a str>(document, "agency_lang".spec_bytes(), table.agency_lang)
        &&& is_column_of::<&'a str>(document, "agency_phone".spec_bytes(), table.agency_phone)
        &&& is_column_of::<&'a str>(document, "agency_fare_url".spec_bytes(), table.agency_fare_url)
        &&& is_column_of::<&'a str>(document, "agency_email".spec_bytes(), table.agency_email)
    }

    fn from_csv_buffer(buffer: &'a [u8]) -> (parsed: Result<(Self, usize), CsvError>) {
        let document = CsvDocument::from_buffer(buffer, DEFAULT_CHUNK_SIZE);
        let table = Agencies {
            agency_id: document.column_by_title("agency_id"),
            agency_name: document.column_by_title("agency_name"),
            agency_url: document.column_by_title("agency_url"),
            agency_timezone: document.column_by_title("agency_timezone"),
            agency_lang: document.column_by_title("agency_lang"),
            agency_phone: document.column_by_title("agency_phone"),
            agency_fare_url: document.column_by_title("agency_fare_url"),
            agency_email: document.column_by_title("agency_email"),
        };
        Ok((table, document.record_count()))
    }
}

/// What a feed says of itself.
#[derive(Debug)]
pub struct FeedInfos<'a> {
    pub feed_publisher_name: Option<Vec<&'a str>>,
    pub feed_publisher_url: Option<Vec<&'a str>>,
    pub feed_lang: Option<Vec<&'a str>>,
    pub default_lang: Option<Vec<&'a str>>,
    pub feed_start_date: Option<Vec<OptionalDate>>,
    pub feed_end_date: Option<Vec<OptionalDate>>,
    pub feed_version: Option<Vec<&'a str>>,
    pub feed_contact_email: Option<Vec<&'a str>>,
    pub feed_contact_url: Option<Vec<&'a str>>,
}

impl<'a> CSVParser<'a> for FeedInfos<'a> {
    /// Every document can be read: no column is required.
    open spec fn is_unreadable(document: DocumentView) -> bool {
        false
    }

    /// Each column of the table is the column of that title in the document.
    open spec fn is_table_of(document: DocumentView, table: Self) -> bool {
        &&& is_column_of::<&'a str>(
            document,
            "feed_publisher_name".spec_bytes(),
            table.feed_publisher_name,
        )
        &&& is_column_of::<&'a str>(
            document,
            "feed_publisher_url".spec_bytes(),
            table.feed_publisher_url,
        )
        &&& is_column_of::<&'a str>(document, "feed_lang".spec_bytes(), table.feed_lang)
        &&& is_column_of::<&'a str>(document, "default_lang".spec_bytes(), table.default_lang)
        &&& is_column_of::<OptionalDate>(
            document,
            "feed_start_date".spec_bytes(),
            table.feed_start_date,
        )
        &&& is_column_of::<OptionalDate>(
            document,
            "feed_end_date".spec_bytes(),
            table.feed_end_date,
        )
        &&& is_column_of::<&'a str>(document, "feed_version".spec_bytes(), table.feed_version)
        &&& is_column_of::<&'a str>(
            document,
            "feed_contact_email".spec_bytes(),
            table.feed_contact_email,
        )
        &&& is_column_of::<&'a str>(
            document,
            "feed_contact_url".spec_bytes(),
            table.feed_contact_url,
        )
    }

    fn from_csv_buffer(buffer: &'a [u8]) -> (parsed: Result<(Self, usize), CsvError>) {
        let document = CsvDocument::from_buffer(buffer, DEFAULT_CHUNK_SIZE);
        let table = FeedInfos {
            feed_publisher_name: document.column_by_title("feed_publisher_name"),
            feed_publisher_url: document.column_by_title("feed_publisher_url"),
            feed_lang: document.column_by_title("feed_lang"),
            default_lang: document.column_by_title("default_lang"),
            feed_start_date: document.column_by_title("feed_start_date"),
            feed_end_date: document.column_by_title("feed_end_date"),
            feed_version: document.column_by_title("feed_version"),
            feed_contact_email: document.column_by_title("feed_contact_email"),
            feed_contact_url: document.column_by_title("feed_contact_url"),
        };
        Ok((table, document.record_count()))
    }
}

/// Who is to be credited for a feed.
#[derive(Debug)]
pub struct Attributions<'a> {
    pub attribution_id: Option<Vec<&'a str>>,
    pub agency_id: Option<Vec<&'a str>>,
    pub route_id: Option<Vec<&'a str>>,
    pub trip_id: Option<Vec<&'a str>>,
    pub organization_name: Option<Vec<&'a str>>,
    pub is_producer: Option<Vec<YesOrNo>>,
    pub is_operator: Option<Vec<YesOrNo>>,
    pub is_authority: Option<Vec<YesOrNo>>,
    pub attribution_url: Option<Vec<&'a str>>,
    pub attribution_email: Option<Vec<&'a str>>,
    pub attribution_phone: Option<Vec<&'a str>>,
}

impl<'a> CSVParser<'a> for Attributions<'a> {
    /// Every document can be read: no column is required.
    open spec fn is_unreadable(document: DocumentView) -> bool {
        false
    }

    /// Each column of the table is the column of that title in the document.
    open spec fn is_table_of(document: DocumentView, table: Self) -> bool {
        &&& is_column_of::<&'a str>(document, "attribution_id".spec_bytes(), table.attribution_id)
        &&& is_column_of::<&'a str>(document, "agency_id".spec_bytes(), table.agency_id)
        &&& is_column_of::<&'a str>(document, "route_id".spec_bytes(), table.route_id)
        &&& is_column_of::<&'a str>(document, "trip_id".spec_bytes(), table.trip_id)
        &&& is_column_of::<&'a str>(
            document,
            "organization_name".spec_bytes(),
            table.organization_name,
        )
        &&& is_column_of::<YesOrNo>(document, "is_producer".spec_bytes(), table.is_producer)
        &&& is_column_of::<YesOrNo>(document, "is_operator".spec_bytes(), table.is_operator)
        &&& is_column_of::<YesOrNo>(document, "is_authority".spec_bytes(), table.is_authority)
        &&& is_column_of::<&'a str>(document, "attribution_url".spec_bytes(), table.attribution_url)
        &&& is_column_of::<&'a str>(
            document,
            "attribution_email".spec_bytes(),
            table.attribution_email,
        )
        &&& is_column_of::<&'a str>(
            document,
            "attribution_phone".spec_bytes(),
            table.attribution_phone,
        )
    }

    fn from_csv_buffer(buffer: &'a [u8]) -> (parsed: Result<(Self, usize), CsvError>) {
        let document = CsvDocument::from_buffer(buffer, DEFAULT_CHUNK_SIZE);
        let table = Attributions {
            attribution_id: document.column_by_title("attribution_id"),
            agency_id: document.column_by_title("agency_id"),
            route_id: document.column_by_title("route_id"),
            trip_id: document.column_by_title("trip_id"),
            organization_name: document.column_by_title("organization_name"),
            is_producer: document.column_by_title("is_producer"),
            is_operator: document.column_by_title("is_operator"),
            is_authority: document.column_by_title("is_authority"),
            attribution_url: document.column_by_title("attribution_url"),
            attribution_email: document.column_by_title("attribution_email"),
            attribution_phone: document.column_by_title("attribution_phone"),
        };
        Ok((table, document.record_count()))
    }
}

/// A transit feed: its files, each read on its own.
pub struct Gtfs<'a> {
    pub stop_times: File<StopTimes<'a>>,
    pub stops: File<Stops<'a>>,
    pub trips: File<Trips<'a>>,
    pub routes: File<Routes<'a>>,
    pub calendars: File<Calendar<'a>>,
    pub calendar_dates: File<CalendarDates<'a>>,
    pub agencies: File<Agencies<'a>>,
    pub feed_infos: File<FeedInfos<'a>>,
    pub attributions: File<Attributions<'a>>,
}

impl<'a> Gtfs<'a> {
    /// Reads each file of the feed from its buffer. A file that is not there,
    /// or that cannot be read, does not keep the others from being read.
    pub fn from_buffers(buffers: GtfsBufferSlices<'a>) -> (gtfs: Self)
        ensures
            is_file_of::<StopTimes<'a>>(buffers.stop_times, gtfs.stop_times),
            is_file_of::<Stops<'a>>(buffers.stops, gtfs.stops),
            is_file_of::<Trips<'a>>(buffers.trips, gtfs.trips),
            is_file_of::<Routes<'a>>(buffers.routes, gtfs.routes),
            is_file_of::<Calendar<'a>>(buffers.calendar, gtfs.calendars),
            is_file_of::<CalendarDates<'a>>(buffers.calendar_dates, gtfs.calendar_dates),
            is_file_of::<Agencies<'a>>(buffers.agencies, gtfs.agencies),
            is_file_of::<FeedInfos<'a>>(buffers.feed_infos, gtfs.feed_infos),
            is_file_of::<Attributions<'a>>(buffers.attributions, gtfs.attributions),
    {
        Gtfs {
            stop_times: File::from_buffer(buffers.stop_times),
            stops: File::from_buffer(buffers.stops),
            trips: File::from_buffer(buffers.trips),
            routes: File::from_buffer(buffers.routes),
            calendars: File::from_buffer(buffers.calendar),
            calendar_dates: File::from_buffer(buffers.calendar_dates),
            agencies: File::from_buffer(buffers.agencies),
            feed_infos: File::from_buffer(buffers.feed_infos),
            attributions: File::from_buffer(buffers.attributions),
        }
    }
}

} // verus!
