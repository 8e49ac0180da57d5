//! Stop times with the columns that every feed must have: the table cannot
//! be read without them.

use crate::document::{
    document_of, is_column_of, is_decodable, CsvDocument, DocumentView, DEFAULT_CHUNK_SIZE,
};
use crate::error::CsvError;
use crate::field::ParseCsvField;
use crate::header::{lemma_title_index, parse_document_header, title_index, CsvHeader};
use crate::structures::{
    ContinuousDropOffType, ContinuousPickupType, DropOffType, OptionalServiceDayTime, PickupType,
    TimePointType,
};
use crate::tables::CSVParser;
use vstd::prelude::*;
use vstd::string::StringSliceAdditionalSpecFns;
use vstd::utf8::encode_utf8;

verus! {

/// The stop times of a feed. The first five columns are required; the others
/// are absent where the file does not have them or where a field of them
/// cannot be decoded. Distances are kept as text.
#[derive(Debug)]
pub struct IndexedGtfsStopTimes<'a> {
    pub trip_id: Vec<&'a str>,
    pub stop_id: Vec<&'a str>,
    pub stop_sequence: Vec<u32>,
    pub arrival_time: Vec<OptionalServiceDayTime>,
    pub departure_time: Vec<OptionalServiceDayTime>,
    pub location_group_id: Option<Vec<&'a str>>,
    pub location_id: Option<Vec<&'a str>>,
    pub stop_headsign: Option<Vec<&'a str>>,
    pub start_pickup_drop_off_window: Option<Vec<OptionalServiceDayTime>>,
    pub end_pickup_drop_off_window: Option<Vec<OptionalServiceDayTime>>,
    pub pickup_type: Option<Vec<PickupType>>,
    pub drop_off_type: Option<Vec<DropOffType>>,
    pub continuous_pickup: Option<Vec<ContinuousPickupType>>,
    pub continuous_drop_off: Option<Vec<ContinuousDropOffType>>,
    pub shape_dist_traveled: Option<Vec<&'a str>>,
    pub timepoint: Option<Vec<TimePointType>>,
    pub pickup_booking_rule_id: Option<Vec<&'a str>>,
    pub drop_off_booking_rule_id: Option<Vec<&'a str>>,
}

/// Where the header of a stop times file has each column.
#[derive(Debug)]
pub struct StopTimesHeader {
    pub trip_id: usize,
    pub stop_id: usize,
    pub stop_sequence: usize,
    pub arrival_time: usize,
    pub departure_time: usize,
    pub location_group_id: Option<usize>,
    pub location_id: Option<usize>,
    pub stop_headsign: Option<usize>,
    pub start_pickup_drop_off_window: Option<usize>,
    pub end_pickup_drop_off_window: Option<usize>,
    pub pickup_type: Option<usize>,
    pub drop_off_type: Option<usize>,
    pub continuous_pickup: Option<usize>,
    pub continuous_drop_off: Option<usize>,
    pub shape_dist_traveled: Option<usize>,
    pub timepoint: Option<usize>,
    pub pickup_booking_rule_id: Option<usize>,
    pub drop_off_booking_rule_id: Option<usize>,
}

/// The titles of the required columns, in the order in which they are looked
/// for.
pub open spec fn required_titles() -> Seq<Seq<u8>> {
    seq![
        "trip_id".spec_bytes(),
        "stop_id".spec_bytes(),
        "stop_sequence".spec_bytes(),
        "arrival_time".spec_bytes(),
        "departure_time".spec_bytes(),
    ]
}

/// Whether `names[k]` is the first of `names` that is no title of the header.
pub open spec fn is_first_without_title(titles: Seq<Seq<u8>>, names: Seq<Seq<u8>>, k: int) -> bool {
    &&& 0 <= k < names.len()
    &&& title_index(titles, names[k]).is_none()
    &&& forall|j: int| 0 <= j < k ==> title_index(titles, #[trigger] names[j]).is_some()
}

/// Whether the header has every one of `names` as a title.
pub open spec fn has_all_titles(titles: Seq<Seq<u8>>, names: Seq<Seq<u8>>) -> bool {
    forall|j: int| 0 <= j < names.len() ==> title_index(titles, #[trigger] names[j]).is_some()
}

/// Whether required column `k` is there and every field of it can be decoded.
pub open spec fn required_is_decodable(document: DocumentView, k: int) -> bool {
    if k == 0 {
        is_decodable::<&str>(document, required_titles()[0])
    } else if k == 1 {
        is_decodable::<&str>(document, required_titles()[1])
    } else if k == 2 {
        is_decodable::<u32>(document, required_titles()[2])
    } else if k == 3 {
        is_decodable::<OptionalServiceDayTime>(document, required_titles()[3])
    } else {
        is_decodable::<OptionalServiceDayTime>(document, required_titles()[4])
    }
}

/// Whether required column `k` is the first that cannot be decoded.
pub open spec fn is_first_undecodable_required(document: DocumentView, k: int) -> bool {
    &&& 0 <= k < 5
    &&& !required_is_decodable(document, k)
    &&& forall|j: int| 0 <= j < k ==> required_is_decodable(document, j)
}

/// Whether `values` is what the column with title `name`, which must be
/// there, decodes to.
pub open spec fn is_required_column_of<'a, T: ParseCsvField<'a>>(
    document: DocumentView,
    name: Seq<u8>,
    values: Vec<T>,
) -> bool {
    is_column_of::<T>(document, name, Some(values))
}

impl StopTimesHeader {
    /// Whether the header tells where each column is among these titles.
    pub open spec fn is_header_of(self, titles: Seq<Seq<u8>>) -> bool {
        &&& title_index(titles, "trip_id".spec_bytes()) == Some(self.trip_id as int)
        &&& title_index(titles, "stop_id".spec_bytes()) == Some(self.stop_id as int)
        &&& title_index(titles, "stop_sequence".spec_bytes()) == Some(self.stop_sequence as int)
        &&& title_index(titles, "arrival_time".spec_bytes()) == Some(self.arrival_time as int)
        &&& title_index(titles, "departure_time".spec_bytes()) == Some(self.departure_time as int)
        &&& is_index_of(titles, "location_group_id".spec_bytes(), self.location_group_id)
        &&& is_index_of(titles, "location_id".spec_bytes(), self.location_id)
        &&& is_index_of(titles, "stop_headsign".spec_bytes(), self.stop_headsign)
        &&& is_index_of(
            titles,
            "start_pickup_drop_off_window".spec_bytes(),
            self.start_pickup_drop_off_window,
        )
        &&& is_index_of(
            titles,
            "end_pickup_drop_off_window".spec_bytes(),
            self.end_pickup_drop_off_window,
        )
        &&& is_index_of(titles, "pickup_type".spec_bytes(), self.pickup_type)
        &&& is_index_of(titles, "drop_off_type".spec_bytes(), self.drop_off_type)
        &&& is_index_of(titles, "continuous_pickup".spec_bytes(), self.continuous_pickup)
        &&& is_index_of(titles, "continuous_drop_off".spec_bytes(), self.continuous_drop_off)
        &&& is_index_of(titles, "shape_dist_traveled".spec_bytes(), self.shape_dist_traveled)
        &&& is_index_of(titles, "timepoint".spec_bytes(), self.timepoint)
        &&& is_index_of(titles, "pickup_booking_rule_id".spec_bytes(), self.pickup_booking_rule_id)
        &&& is_index_of(
            titles,
            "drop_off_booking_rule_id".spec_bytes(),
            self.drop_off_booking_rule_id,
        )
    }
}

/// Whether `index` is where the header has the title `name`, if at all.
pub open spec fn is_index_of(titles: Seq<Seq<u8>>, name: Seq<u8>, index: Option<usize>) -> bool {
    match index {
        Some(i) => title_index(titles, name) == Some(i as int),
        None => title_index(titles, name).is_none(),
    }
}

fn optional_index(header: &CsvHeader, name: &str) -> (index: Option<usize>)
    ensures
        is_index_of(header@, name.spec_bytes(), index),
{
    proof {
        lemma_title_index(header@, name.spec_bytes());
    }
    header.get_column_index(name)
}

fn required_index(header: &CsvHeader, name: &str) -> (index: Result<usize, CsvError>)
    ensures
        match index {
            Ok(i) => title_index(header@, name.spec_bytes()) == Some(i as int),
            Err(CsvError::MissingRequiredColumn(missing)) => title_index(
                header@,
                name.spec_bytes(),
            ).is_none() && missing@ == name@,
            Err(_) => false,
        },
{
    match optional_index(header, name) {
        Some(i) => Ok(i),
        None => Err(CsvError::MissingRequiredColumn(name.to_owned())),
    }
}

/// Finds the columns of the stop times in the header. Fails with the name of
/// the first required column that the header does not have.
pub fn parse_stop_times_header(header: &CsvHeader) -> (resolved: Result<StopTimesHeader, CsvError>)
    ensures
        match resolved {
            Ok(found) => has_all_titles(header@, required_titles()) && found.is_header_of(
                header@,
            ),
            Err(CsvError::MissingRequiredColumn(name)) => exists|k: int|
                is_first_without_title(header@, required_titles(), k) && encode_utf8(name@)
                    == required_titles()[k],
            Err(_) => false,
        },
{
    let trip_id = match required_index(header, "trip_id") {
        Ok(i) => i,
        Err(e) => {
            assert(is_first_without_title(header@, required_titles(), 0));
            return Err(e);
        },
    };
    let stop_id = match required_index(header, "stop_id") {
        Ok(i) => i,
        Err(e) => {
            assert(is_first_without_title(header@, required_titles(), 1));
            return Err(e);
        },
    };
    let stop_sequence = match required_index(header, "stop_sequence") {
        Ok(i) => i,
        Err(e) => {
            assert(is_first_without_title(header@, required_titles(), 2));
            return Err(e);
        },
    };
    let arrival_time = match required_index(header, "arrival_time") {
        Ok(i) => i,
        Err(e) => {
            assert(is_first_without_title(header@, required_titles(), 3));
            return Err(e);
        },
    };
    let departure_time = match required_index(header, "departure_time") {
        Ok(i) => i,
        Err(e) => {
            assert(is_first_without_title(header@, required_titles(), 4));
            return Err(e);
        },
    };
    Ok(
        StopTimesHeader {
            trip_id,
            stop_id,
            stop_sequence,
            arrival_time,
            departure_time,
            location_group_id: optional_index(header, "location_group_id"),
            location_id: optional_index(header, "location_id"),
            stop_headsign: optional_index(header, "stop_headsign"),
            start_pickup_drop_off_window: optional_index(header, "start_pickup_drop_off_window"),
            end_pickup_drop_off_window: optional_index(header, "end_pickup_drop_off_window"),
            pickup_type: optional_index(header, "pickup_type"),
            drop_off_type: optional_index(header, "drop_off_type"),
            continuous_pickup: optional_index(header, "continuous_pickup"),
            continuous_drop_off: optional_index(header, "continuous_drop_off"),
            shape_dist_traveled: optional_index(header, "shape_dist_traveled"),
            timepoint: optional_index(header, "timepoint"),
            pickup_booking_rule_id: optional_index(header, "pickup_booking_rule_id"),
            drop_off_booking_rule_id: optional_index(header, "drop_off_booking_rule_id"),
        },
    )
}

/// Whether the document lacks a required column of the stop times, or has
/// one with a field that cannot be decoded.
pub open spec fn lacks_stop_times(document: DocumentView) -> bool {
    !has_all_titles(document.titles, required_titles()) || exists|k: int|
        is_first_undecodable_required(document, k)
}

/// Whether `table` holds the stop times of the document.
pub open spec fn is_stop_times_of(document: DocumentView, table: IndexedGtfsStopTimes) -> bool {
    &&& is_required_column_of::<&str>(document, "trip_id".spec_bytes(), table.trip_id)
    &&& is_required_column_of::<&str>(document, "stop_id".spec_bytes(), table.stop_id)
    &&& is_required_column_of::<u32>(document, "stop_sequence".spec_bytes(), table.stop_sequence)
    &&& is_required_column_of::<OptionalServiceDayTime>(
        document,
        "arrival_time".spec_bytes(),
        table.arrival_time,
    )
    &&& is_required_column_of::<OptionalServiceDayTime>(
        document,
        "departure_time".spec_bytes(),
        table.departure_time,
    )
    &&& is_column_of::<&str>(document, "location_group_id".spec_bytes(), table.location_group_id)
    &&& is_column_of::<&str>(document, "location_id".spec_bytes(), table.location_id)
    &&& is_column_of::<&str>(document, "stop_headsign".spec_bytes(), table.stop_headsign)
    &&& is_column_of::<OptionalServiceDayTime>(
        document,
        "start_pickup_drop_off_window".spec_bytes(),
        table.start_pickup_drop_off_window,
    )
    &&& is_column_of::<OptionalServiceDayTime>(
        document,
        "end_pickup_drop_off_window".spec_bytes(),
        table.end_pickup_drop_off_window,
    )
    &&& is_column_of::<PickupType>(document, "pickup_type".spec_bytes(), table.pickup_type)
    &&& is_column_of::<DropOffType>(document, "drop_off_type".spec_bytes(), table.drop_off_type)
    &&& is_column_of::<ContinuousPickupType>(
        document,
        "continuous_pickup".spec_bytes(),
        table.continuous_pickup,
    )
    &&& is_column_of::<ContinuousDropOffType>(
        document,
        "continuous_drop_off".spec_bytes(),
        table.continuous_drop_off,
    )
    &&& is_column_of::<&str>(
        document,
        "shape_dist_traveled".spec_bytes(),
        table.shape_dist_traveled,
    )
    &&& is_column_of::<TimePointType>(document, "timepoint".spec_bytes(), table.timepoint)
    &&& is_column_of::<&str>(
        document,
        "pickup_booking_rule_id".spec_bytes(),
        table.pickup_booking_rule_id,
    )
    &&& is_column_of::<&str>(
        document,
        "drop_off_booking_rule_id".spec_bytes(),
        table.drop_off_booking_rule_id,
    )
}

fn required_column<'a, T: ParseCsvField<'a> + Send>(
    document: &CsvDocument<'a>,
    column_i: usize,
    name: &str,
) -> (column: Result<Vec<T>, CsvError>)
    requires
        title_index(document@.titles, name.spec_bytes()) == Some(column_i as int),
    ensures
        match column {
            Ok(values) => is_required_column_of::<T>(document@, name.spec_bytes(), values),
            Err(CsvError::FieldDecodeError(failed)) => !is_decodable::<T>(
                document@,
                name.spec_bytes(),
            ) && failed@ == name@,
            Err(_) => false,
        },
{
    match document.column::<T>(column_i) {
        Some(values) => Ok(values),
        None => Err(CsvError::FieldDecodeError(name.to_owned())),
    }
}

fn optional_column<'a, T: ParseCsvField<'a> + Send>(
    document: &CsvDocument<'a>,
    index: Option<usize>,
    name: &str,
) -> (column: Option<Vec<T>>)
    requires
        is_index_of(document@.titles, name.spec_bytes(), index),
    ensures
        is_column_of::<T>(document@, name.spec_bytes(), column),
{
    document.optional_column::<T>(index)
}

/// Reads the stop times from a document whose header has been resolved. Fails
/// with the name of the first required column that has a field that cannot
/// be decoded.
fn read_stop_times<'a>(document: &CsvDocument<'a>, header: &StopTimesHeader) -> (parsed: Result<
    IndexedGtfsStopTimes<'a>,
    CsvError,
>)
    requires
        header.is_header_of(document@.titles),
    ensures
        match parsed {
            Ok(table) => is_stop_times_of(document@, table),
            Err(CsvError::FieldDecodeError(name)) => exists|k: int|
                is_first_undecodable_required(document@, k) && encode_utf8(name@)
                    == required_titles()[k],
            Err(_) => false,
        },
{
    let trip_id = match required_column::<&'a str>(document, header.trip_id, "trip_id") {
        Ok(values) => values,
        Err(e) => {
            assert(is_first_undecodable_required(document@, 0));
            return Err(e);
        },
    };
    let stop_id = match required_column::<&'a str>(document, header.stop_id, "stop_id") {
        Ok(values) => values,
        Err(e) => {
            assert(is_first_undecodable_required(document@, 1));
            return Err(e);
        },
    };
    let stop_sequence = match required_column::<u32>(
        document,
        header.stop_sequence,
        "stop_sequence",
    ) {
        Ok(values) => values,
        Err(e) => {
            assert(is_first_undecodable_required(document@, 2));
            return Err(e);
        },
    };
    let arrival_time = match required_column::<OptionalServiceDayTime>(
        document,
        header.arrival_time,
        "arrival_time",
    ) {
        Ok(values) => values,
        Err(e) => {
            assert(is_first_undecodable_required(document@, 3));
            return Err(e);
        },
    };
    let departure_time = match required_column::<OptionalServiceDayTime>(
        document,
        header.departure_time,
        "departure_time",
    ) {
        Ok(values) => values,
        Err(e) => {
            assert(is_first_undecodable_required(document@, 4));
            return Err(e);
        },
    };
    Ok(
        IndexedGtfsStopTimes {
            trip_id,
            stop_id,
            stop_sequence,
            arrival_time,
            departure_time,
            location_group_id: optional_column(
                document,
                header.location_group_id,
                "location_group_id",
            ),
            location_id: optional_column(document, header.location_id, "location_id"),
            stop_headsign: optional_column(document, header.stop_headsign, "stop_headsign"),
            start_pickup_drop_off_window: optional_column(
                document,
                header.start_pickup_drop_off_window,
                "start_pickup_drop_off_window",
            ),
            end_pickup_drop_off_window: optional_column(
                document,
                header.end_pickup_drop_off_window,
                "end_pickup_drop_off_window",
            ),
            pickup_type: optional_column(document, header.pickup_type, "pickup_type"),
            drop_off_type: optional_column(document, header.drop_off_type, "drop_off_type"),
            continuous_pickup: optional_column(
                document,
                header.continuous_pickup,
                "continuous_pickup",
            ),
            continuous_drop_off: optional_column(
                document,
                header.continuous_drop_off,
                "continuous_drop_off",
            ),
            shape_dist_traveled: optional_column(
                document,
                header.shape_dist_traveled,
                "shape_dist_traveled",
            ),
            timepoint: optional_column(document, header.timepoint, "timepoint"),
            pickup_booking_rule_id: optional_column(
                document,
                header.pickup_booking_rule_id,
                "pickup_booking_rule_id",
            ),
            drop_off_booking_rule_id: optional_column(
                document,
                header.drop_off_booking_rule_id,
                "drop_off_booking_rule_id",
            ),
        },
    )
}

/// Reads the stop times from the document in a buffer.
///
/// Fails with the name of the first required column that the header does not
/// have; if it has them all, with the name of the first required column that
/// has a field that cannot be decoded.
pub fn parse_stop_times<'a>(buffer: &'a [u8]) -> (parsed: Result<
    IndexedGtfsStopTimes<'a>,
    CsvError,
>)
    ensures
        match parsed {
            Ok(table) => has_all_titles(document_of(buffer@).titles, required_titles())
                && is_stop_times_of(document_of(buffer@), table),
            Err(CsvError::MissingRequiredColumn(name)) => exists|k: int|
                is_first_without_title(document_of(buffer@).titles, required_titles(), k)
                    && encode_utf8(name@) == required_titles()[k],
            Err(CsvError::FieldDecodeError(name)) => has_all_titles(
                document_of(buffer@).titles,
                required_titles(),
            ) && exists|k: int|
                is_first_undecodable_required(document_of(buffer@), k) && encode_utf8(name@)
                    == required_titles()[k],
            Err(CsvError::InvalidUtf8) => false,
        },
{
    // The header is resolved before any record is read.
    let header = match parse_stop_times_header(&parse_document_header(buffer)) {
        Ok(found) => found,
        Err(e) => {
            return Err(e);
        },
    };
    let document = CsvDocument::from_buffer(buffer, DEFAULT_CHUNK_SIZE);
    read_stop_times(&document, &header)
}

impl<'a> CSVParser<'a> for IndexedGtfsStopTimes<'a> {
    /// A document cannot be read if it lacks a required column, or has one
    /// with a field that cannot be decoded.
    open spec fn is_unreadable(document: DocumentView) -> bool {
        lacks_stop_times(document)
    }

    /// Each column of the table is the column of that title in the document.
    open spec fn is_table_of(document: DocumentView, table: Self) -> bool {
        is_stop_times_of(document, table)
    }

    fn from_csv_buffer(buffer: &'a [u8]) -> (parsed: Result<(Self, usize), CsvError>) {
        let header = match parse_stop_times_header(&parse_document_header(buffer)) {
            Ok(found) => found,
            Err(e) => {
                return Err(e);
            },
        };
        let document = CsvDocument::from_buffer(buffer, DEFAULT_CHUNK_SIZE);
        match read_stop_times(&document, &header) {
            Ok(table) => Ok((table, document.record_count())),
            Err(e) => Err(e),
        }
    }
}

} // verus!
