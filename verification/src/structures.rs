//! The vocabulary of transit feeds: bounded code sets, colors, dates and
//! times of day, each with its decoder.
//!
//! A code set never fails to decode: a code that it does not know becomes its
//! `Unknown`.

use crate::builtin_field_parsers::{integer_within, parse_integer, trim_ascii, trimmed};
use crate::field::ParseCsvField;
use vstd::prelude::*;
use vstd::slice::slice_subrange;
use vstd::string::StringSliceAdditionalSpecFns;

verus! {

/// The number that the bytes spell in decimal, with one or two digits and
/// without a leading zero. `None` for any other bytes.
pub open spec fn spelled_number(code: Seq<u8>) -> Option<int> {
    if code.len() == 1 && 48 <= code[0] <= 57 {
        Some(code[0] - 48)
    } else if code.len() == 2 && 49 <= code[0] <= 57 && 48 <= code[1] <= 57 {
        Some((code[0] - 48) * 10 + (code[1] - 48))
    } else {
        None
    }
}

/// Reads a number of one or two decimal digits, without a leading zero.
pub fn read_spelled_number(code: &[u8]) -> (number: Option<u8>)
    ensures
        match number {
            Some(n) => spelled_number(code@) == Some(n as int),
            None => spelled_number(code@).is_none(),
        },
{
    if code.len() == 1 && 48 <= code[0] && code[0] <= 57 {
        Some(code[0] - 48)
    } else if code.len() == 2 && 49 <= code[0] && code[0] <= 57 && 48 <= code[1] && code[1] <= 57 {
        Some((code[0] - 48) * 10 + (code[1] - 48))
    } else {
        None
    }
}

/// How riders are picked up at a stop.
#[derive(Debug, Clone, Copy, PartialEq, Eq)]
pub enum PickupType {
    /// Regularly scheduled pickup.
    Regular,
    /// No pickup available.
    NotAvailable,
    /// Riders must phone the agency.
    MustPhone,
    /// Riders must coordinate with the driver.
    MustCoordinateWithDriver,
    /// Any other code.
    Unknown,
}

impl PickupType {
    /// The value that a code stands for. No code at all stands for `Regular`.
    pub open spec fn of_code(code: Seq<u8>) -> PickupType {
        if code.len() == 0 {
            PickupType::Regular
        } else if spelled_number(code) == Some(0int) {
            PickupType::Regular
        } else if spelled_number(code) == Some(1int) {
            PickupType::NotAvailable
        } else if spelled_number(code) == Some(2int) {
            PickupType::MustPhone
        } else if spelled_number(code) == Some(3int) {
            PickupType::MustCoordinateWithDriver
        } else {
            PickupType::Unknown
        }
    }
}

impl Default for PickupType {
    fn default() -> (value: Self)
        ensures
            value == PickupType::Regular,
    {
        PickupType::Regular
    }
}

impl<'a> ParseCsvField<'a> for PickupType {
    /// Every field is accepted.
    open spec fn accepts(field: Seq<u8>) -> bool {
        true
    }

    /// The value is what the trimmed field stands for as a code.
    open spec fn decodes_to(field: Seq<u8>, value: Self) -> bool {
        value == PickupType::of_code(trimmed(field))
    }

    proof fn lemma_clone_decodes_alike(field: Seq<u8>, value: Self, copy: Self) {
    }

    fn parse_csv_field(buffer: &'a [u8]) -> (value: Result<Self, ()>) {
        let code = trim_ascii(buffer);
        if code.len() == 0 {
            return Ok(PickupType::Regular);
        }
        Ok(
            match read_spelled_number(code) {
                Some(0) => PickupType::Regular,
                Some(1) => PickupType::NotAvailable,
                Some(2) => PickupType::MustPhone,
                Some(3) => PickupType::MustCoordinateWithDriver,
                _ => PickupType::Unknown,
            },
        )
    }
}

/// How riders are dropped off at a stop.
#[derive(Debug, Clone, Copy, PartialEq, Eq)]
pub enum DropOffType {
    /// Regularly scheduled drop off.
    Regular,
    /// No drop off available.
    NotAvailable,
    /// Riders must phone the agency.
    MustPhone,
    /// Riders must coordinate with the driver.
    MustCoordinateWithDriver,
    /// Any other code.
    Unknown,
}

impl DropOffType {
    /// The value that a code stands for. No code at all stands for `Regular`.
    pub open spec fn of_code(code: Seq<u8>) -> DropOffType {
        if code.len() == 0 {
            DropOffType::Regular
        } else if spelled_number(code) == Some(0int) {
            DropOffType::Regular
        } else if spelled_number(code) == Some(1int) {
            DropOffType::NotAvailable
        } else if spelled_number(code) == Some(2int) {
            DropOffType::MustPhone
        } else if spelled_number(code) == Some(3int) {
            DropOffType::MustCoordinateWithDriver
        } else {
            DropOffType::Unknown
        }
    }
}

impl Default for DropOffType {
    fn default() -> (value: Self)
        ensures
            value == DropOffType::Regular,
    {
        DropOffType::Regular
    }
}

impl<'a> ParseCsvField<'a> for DropOffType {
    /// Every field is accepted.
    open spec fn accepts(field: Seq<u8>) -> bool {
        true
    }

    /// The value is what the trimmed field stands for as a code.
    open spec fn decodes_to(field: Seq<u8>, value: Self) -> bool {
        value == DropOffType::of_code(trimmed(field))
    }

    proof fn lemma_clone_decodes_alike(field: Seq<u8>, value: Self, copy: Self) {
    }

    fn parse_csv_field(buffer: &'a [u8]) -> (value: Result<Self, ()>) {
        let code = trim_ascii(buffer);
        if code.len() == 0 {
            return Ok(DropOffType::Regular);
        }
        Ok(
            match read_spelled_number(code) {
                Some(0) => DropOffType::Regular,
                Some(1) => DropOffType::NotAvailable,
                Some(2) => DropOffType::MustPhone,
                Some(3) => DropOffType::MustCoordinateWithDriver,
                _ => DropOffType::Unknown,
            },
        )
    }
}

/// Whether riders can board anywhere along the way.
#[derive(Debug, Clone, Copy, PartialEq, Eq)]
pub enum ContinuousPickupType {
    /// Continuous stopping pickup.
    Regular,
    /// No continuous stopping pickup.
    NotAvailable,
    /// Riders must phone the agency.
    MustPhone,
    /// Riders must coordinate with the driver.
    MustCoordinateWithDriver,
    /// Any other code.
    Unknown,
}

impl ContinuousPickupType {
    /// The value that a code stands for. No code at all stands for `Regular`.
    pub open spec fn of_code(code: Seq<u8>) -> ContinuousPickupType {
        if code.len() == 0 {
            ContinuousPickupType::Regular
        } else if spelled_number(code) == Some(0int) {
            ContinuousPickupType::Regular
        } else if spelled_number(code) == Some(1int) {
            ContinuousPickupType::NotAvailable
        } else if spelled_number(code) == Some(2int) {
            ContinuousPickupType::MustPhone
        } else if spelled_number(code) == Some(3int) {
            ContinuousPickupType::MustCoordinateWithDriver
        } else {
            ContinuousPickupType::Unknown
        }
    }
}

impl Default for ContinuousPickupType {
    fn default() -> (value: Self)
        ensures
            value == ContinuousPickupType::Regular,
    {
        ContinuousPickupType::Regular
    }
}

impl<'a> ParseCsvField<'a> for ContinuousPickupType {
    /// Every field is accepted.
    open spec fn accepts(field: Seq<u8>) -> bool {
        true
    }

    /// The value is what the trimmed field stands for as a code.
    open spec fn decodes_to(field: Seq<u8>, value: Self) -> bool {
        value == ContinuousPickupType::of_code(trimmed(field))
    }

    proof fn lemma_clone_decodes_alike(field: Seq<u8>, value: Self, copy: Self) {
    }

    fn parse_csv_field(buffer: &'a [u8]) -> (value: Result<Self, ()>) {
        let code = trim_ascii(buffer);
        if code.len() == 0 {
            return Ok(ContinuousPickupType::Regular);
        }
        Ok(
            match read_spelled_number(code) {
                Some(0) => ContinuousPickupType::Regular,
                Some(1) => ContinuousPickupType::NotAvailable,
                Some(2) => ContinuousPickupType::MustPhone,
                Some(3) => ContinuousPickupType::MustCoordinateWithDriver,
                _ => ContinuousPickupType::Unknown,
            },
        )
    }
}

/// Whether riders can alight anywhere along the way.
#[derive(Debug, Clone, Copy, PartialEq, Eq)]
pub enum ContinuousDropOffType {
    /// Continuous stopping drop off.
    Regular,
    /// No continuous stopping drop off.
    NotAvailable,
    /// Riders must phone the agency.
    MustPhone,
    /// Riders must coordinate with the driver.
    MustCoordinateWithDriver,
    /// Any other code.
    Unknown,
}

impl ContinuousDropOffType {
    /// The value that a code stands for. No code at all stands for `Regular`.
    pub open spec fn of_code(code: Seq<u8>) -> ContinuousDropOffType {
        if code.len() == 0 {
            ContinuousDropOffType::Regular
        } else if spelled_number(code) == Some(0int) {
            ContinuousDropOffType::Regular
        } else if spelled_number(code) == Some(1int) {
            ContinuousDropOffType::NotAvailable
        } else if spelled_number(code) == Some(2int) {
            ContinuousDropOffType::MustPhone
        } else if spelled_number(code) == Some(3int) {
            ContinuousDropOffType::MustCoordinateWithDriver
        } else {
            ContinuousDropOffType::Unknown
        }
    }
}

impl Default for ContinuousDropOffType {
    fn default() -> (value: Self)
        ensures
            value == ContinuousDropOffType::Regular,
    {
        ContinuousDropOffType::Regular
    }
}

impl<'a> ParseCsvField<'a> for ContinuousDropOffType {
    /// Every field is accepted.
    open spec fn accepts(field: Seq<u8>) -> bool {
        true
    }

    /// The value is what the trimmed field stands for as a code.
    open spec fn decodes_to(field: Seq<u8>, value: Self) -> bool {
        value == ContinuousDropOffType::of_code(trimmed(field))
    }

    proof fn lemma_clone_decodes_alike(field: Seq<u8>, value: Self, copy: Self) {
    }

    fn parse_csv_field(buffer: &'a [u8]) -> (value: Result<Self, ()>) {
        let code = trim_ascii(buffer);
        if code.len() == 0 {
            return Ok(ContinuousDropOffType::Regular);
        }
        Ok(
            match read_spelled_number(code) {
                Some(0) => ContinuousDropOffType::Regular,
                Some(1) => ContinuousDropOffType::NotAvailable,
                Some(2) => ContinuousDropOffType::MustPhone,
                Some(3) => ContinuousDropOffType::MustCoordinateWithDriver,
                _ => ContinuousDropOffType::Unknown,
            },
        )
    }
}

/// Whether the times of a stop are exact.
#[derive(Debug, Clone, Copy, PartialEq, Eq)]
pub enum TimePointType {
    /// Times are approximate.
    Approximate,
    /// Times are exact.
    Exact,
    /// Any other code.
    Unknown,
}

impl TimePointType {
    /// The value that a code stands for. No code at all stands for `Exact`.
    pub open spec fn of_code(code: Seq<u8>) -> TimePointType {
        if code.len() == 0 {
            TimePointType::Exact
        } else if spelled_number(code) == Some(0int) {
            TimePointType::Approximate
        } else if spelled_number(code) == Some(1int) {
            TimePointType::Exact
        } else {
            TimePointType::Unknown
        }
    }
}

impl Default for TimePointType {
    fn default() -> (value: Self)
        ensures
            value == TimePointType::Exact,
    {
        TimePointType::Exact
    }
}

impl<'a> ParseCsvField<'a> for TimePointType {
    /// Every field is accepted.
    open spec fn accepts(field: Seq<u8>) -> bool {
        true
    }

    /// The value is what the trimmed field stands for as a code.
    open spec fn decodes_to(field: Seq<u8>, value: Self) -> bool {
        value == TimePointType::of_code(trimmed(field))
    }

    proof fn lemma_clone_decodes_alike(field: Seq<u8>, value: Self, copy: Self) {
    }

    fn parse_csv_field(buffer: &'a [u8]) -> (value: Result<Self, ()>) {
        let code = trim_ascii(buffer);
        if code.len() == 0 {
            return Ok(TimePointType::Exact);
        }
        Ok(
            match read_spelled_number(code) {
                Some(0) => TimePointType::Approximate,
                Some(1) => TimePointType::Exact,
                _ => TimePointType::Unknown,
            },
        )
    }
}

/// What kind of place a stop is.
#[derive(Debug, Clone, Copy, PartialEq, Eq)]
pub enum LocationType {
    /// A place where riders board or alight.
    Stop,
    /// A structure that holds stops.
    Station,
    /// An entrance or exit of a station.
    Entrance,
    /// A place in a station that is none of the others.
    Generic,
    /// A place on a platform where riders board.
    BoardingArea,
    /// Any other code.
    Unknown,
}

impl LocationType {
    /// The value that a code stands for. No code at all stands for `Stop`.
    pub open spec fn of_code(code: Seq<u8>) -> LocationType {
        if code.len() == 0 {
            LocationType::Stop
        } else if spelled_number(code) == Some(0int) {
            LocationType::Stop
        } else if spelled_number(code) == Some(1int) {
            LocationType::Station
        } else if spelled_number(code) == Some(2int) {
            LocationType::Entrance
        } else if spelled_number(code) == Some(3int) {
            LocationType::Generic
        } else if spelled_number(code) == Some(4int) {
            LocationType::BoardingArea
        } else {
            LocationType::Unknown
        }
    }
}

impl Default for LocationType {
    fn default() -> (value: Self)
        ensures
            value == LocationType::Stop,
    {
        LocationType::Stop
    }
}

impl<'a> ParseCsvField<'a> for LocationType {
    /// Every field is accepted.
    open spec fn accepts(field: Seq<u8>) -> bool {
        true
    }

    /// The value is what the trimmed field stands for as a code.
    open spec fn decodes_to(field: Seq<u8>, value: Self) -> bool {
        value == LocationType::of_code(trimmed(field))
    }

    proof fn lemma_clone_decodes_alike(field: Seq<u8>, value: Self, copy: Self) {
    }

    fn parse_csv_field(buffer: &'a [u8]) -> (value: Result<Self, ()>) {
        let code = trim_ascii(buffer);
        if code.len() == 0 {
            return Ok(LocationType::Stop);
        }
        Ok(
            match read_spelled_number(code) {
                Some(0) => LocationType::Stop,
                Some(1) => LocationType::Station,
                Some(2) => LocationType::Entrance,
                Some(3) => LocationType::Generic,
                Some(4) => LocationType::BoardingArea,
                _ => LocationType::Unknown,
            },
        )
    }
}

/// Whether a stop can be boarded with a wheelchair.
#[derive(Debug, Clone, Copy, PartialEq, Eq)]
pub enum WheelchairBoarding {
    /// Nothing is known, or the parent station tells.
    NoInfoOrSeeParent,
    /// Some vehicles can be boarded.
    SomeAccessibility,
    /// No vehicle can be boarded.
    NoAccessibility,
    /// Any other code.
    Unknown,
}

impl WheelchairBoarding {
    /// The value that a code stands for. No code at all stands for `NoInfoOrSeeParent`.
    pub open spec fn of_code(code: Seq<u8>) -> WheelchairBoarding {
        if code.len() == 0 {
            WheelchairBoarding::NoInfoOrSeeParent
        } else if spelled_number(code) == Some(0int) {
            WheelchairBoarding::NoInfoOrSeeParent
        } else if spelled_number(code) == Some(1int) {
            WheelchairBoarding::SomeAccessibility
        } else if spelled_number(code) == Some(2int) {
            WheelchairBoarding::NoAccessibility
        } else {
            WheelchairBoarding::Unknown
        }
    }
}

impl Default for WheelchairBoarding {
    fn default() -> (value: Self)
        ensures
            value == WheelchairBoarding::NoInfoOrSeeParent,
    {
        WheelchairBoarding::NoInfoOrSeeParent
    }
}

impl<'a> ParseCsvField<'a> for WheelchairBoarding {
    /// Every field is accepted.
    open spec fn accepts(field: Seq<u8>) -> bool {
        true
    }

    /// The value is what the trimmed field stands for as a code.
    open spec fn decodes_to(field: Seq<u8>, value: Self) -> bool {
        value == WheelchairBoarding::of_code(trimmed(field))
    }

    proof fn lemma_clone_decodes_alike(field: Seq<u8>, value: Self, copy: Self) {
    }

    fn parse_csv_field(buffer: &'a [u8]) -> (value: Result<Self, ()>) {
        let code = trim_ascii(buffer);
        if code.len() == 0 {
            return Ok(WheelchairBoarding::NoInfoOrSeeParent);
        }
        Ok(
            match read_spelled_number(code) {
                Some(0) => WheelchairBoarding::NoInfoOrSeeParent,
                Some(1) => WheelchairBoarding::SomeAccessibility,
                Some(2) => WheelchairBoarding::NoAccessibility,
                _ => WheelchairBoarding::Unknown,
            },
        )
    }
}

/// The direction of travel of a trip.
#[derive(Debug, Clone, Copy, PartialEq, Eq)]
pub enum DirectionId {
    /// Travel in one direction.
    Outbound,
    /// Travel in the opposite direction.
    Inbound,
    /// Any other code, and no code.
    Unknown,
}

impl DirectionId {
    /// The value that a code stands for.
    pub open spec fn of_code(code: Seq<u8>) -> DirectionId {
        if spelled_number(code) == Some(0int) {
            DirectionId::Outbound
        } else if spelled_number(code) == Some(1int) {
            DirectionId::Inbound
        } else {
            DirectionId::Unknown
        }
    }
}

impl<'a> ParseCsvField<'a> for DirectionId {
    /// Every field is accepted.
    open spec fn accepts(field: Seq<u8>) -> bool {
        true
    }

    /// The value is what the trimmed field stands for as a code.
    open spec fn decodes_to(field: Seq<u8>, value: Self) -> bool {
        value == DirectionId::of_code(trimmed(field))
    }

    proof fn lemma_clone_decodes_alike(field: Seq<u8>, value: Self, copy: Self) {
    }

    fn parse_csv_field(buffer: &'a [u8]) -> (value: Result<Self, ()>) {
        let code = trim_ascii(buffer);
        Ok(
            match read_spelled_number(code) {
                Some(0) => DirectionId::Outbound,
                Some(1) => DirectionId::Inbound,
                _ => DirectionId::Unknown,
            },
        )
    }
}

/// Whether a trip can take a wheelchair.
#[derive(Debug, Clone, Copy, PartialEq, Eq)]
pub enum WheelchairAccessible {
    /// Nothing is known.
    NoInfo,
    /// At least one rider in a wheelchair can be taken.
    AtLeastOne,
    /// No rider in a wheelchair can be taken.
    No,
    /// Any other code.
    Unknown,
}

impl WheelchairAccessible {
    /// The value that a code stands for. No code at all stands for `NoInfo`.
    pub open spec fn of_code(code: Seq<u8>) -> WheelchairAccessible {
        if code.len() == 0 {
            WheelchairAccessible::NoInfo
        } else if spelled_number(code) == Some(0int) {
            WheelchairAccessible::NoInfo
        } else if spelled_number(code) == Some(1int) {
            WheelchairAccessible::AtLeastOne
        } else if spelled_number(code) == Some(2int) {
            WheelchairAccessible::No
        } else {
            WheelchairAccessible::Unknown
        }
    }
}

impl Default for WheelchairAccessible {
    fn default() -> (value: Self)
        ensures
            value == WheelchairAccessible::NoInfo,
    {
        WheelchairAccessible::NoInfo
    }
}

impl<'a> ParseCsvField<'a> for WheelchairAccessible {
    /// Every field is accepted.
    open spec fn accepts(field: Seq<u8>) -> bool {
        true
    }

    /// The value is what the trimmed field stands for as a code.
    open spec fn decodes_to(field: Seq<u8>, value: Self) -> bool {
        value == WheelchairAccessible::of_code(trimmed(field))
    }

    proof fn lemma_clone_decodes_alike(field: Seq<u8>, value: Self, copy: Self) {
    }

    fn parse_csv_field(buffer: &'a [u8]) -> (value: Result<Self, ()>) {
        let code = trim_ascii(buffer);
        if code.len() == 0 {
            return Ok(WheelchairAccessible::NoInfo);
        }
        Ok(
            match read_spelled_number(code) {
                Some(0) => WheelchairAccessible::NoInfo,
                Some(1) => WheelchairAccessible::AtLeastOne,
                Some(2) => WheelchairAccessible::No,
                _ => WheelchairAccessible::Unknown,
            },
        )
    }
}

/// Whether a trip can take bicycles.
#[derive(Debug, Clone, Copy, PartialEq, Eq)]
pub enum BikesAllowed {
    /// Nothing is known.
    NoInfo,
    /// At least one bicycle can be taken.
    AtLeastOne,
    /// No bicycle can be taken.
    No,
    /// Any other code.
    Unknown,
}

impl BikesAllowed {
    /// The value that a code stands for. No code at all stands for `NoInfo`.
    pub open spec fn of_code(code: Seq<u8>) -> BikesAllowed {
        if code.len() == 0 {
            BikesAllowed::NoInfo
        } else if spelled_number(code) == Some(0int) {
            BikesAllowed::NoInfo
        } else if spelled_number(code) == Some(1int) {
            BikesAllowed::AtLeastOne
        } else if spelled_number(code) == Some(2int) {
            BikesAllowed::No
        } else {
            BikesAllowed::Unknown
        }
    }
}

impl Default for BikesAllowed {
    fn default() -> (value: Self)
        ensures
            value == BikesAllowed::NoInfo,
    {
        BikesAllowed::NoInfo
    }
}

impl<'a> ParseCsvField<'a> for BikesAllowed {
    /// Every field is accepted.
    open spec fn accepts(field: Seq<u8>) -> bool {
        true
    }

    /// The value is what the trimmed field stands for as a code.
    open spec fn decodes_to(field: Seq<u8>, value: Self) -> bool {
        value == BikesAllowed::of_code(trimmed(field))
    }

    proof fn lemma_clone_decodes_alike(field: Seq<u8>, value: Self, copy: Self) {
    }

    fn parse_csv_field(buffer: &'a [u8]) -> (value: Result<Self, ()>) {
        let code = trim_ascii(buffer);
        if code.len() == 0 {
            return Ok(BikesAllowed::NoInfo);
        }
        Ok(
            match read_spelled_number(code) {
                Some(0) => BikesAllowed::NoInfo,
                Some(1) => BikesAllowed::AtLeastOne,
                Some(2) => BikesAllowed::No,
                _ => BikesAllowed::Unknown,
            },
        )
    }
}

/// The kind of vehicle that runs on a route.
#[derive(Debug, Clone, Copy, PartialEq, Eq)]
pub enum RouteType {
    /// Tram, streetcar or light rail.
    Tram,
    /// Subway or metro.
    Subway,
    /// Rail.
    Rail,
    /// Bus.
    Bus,
    /// Ferry.
    Ferry,
    /// Cable tram.
    CableTram,
    /// Aerial lift.
    AerialLift,
    /// Funicular.
    Funicular,
    /// Trolleybus.
    Trolleybus,
    /// Monorail.
    Monorail,
    /// Any other code, and no code.
    Unknown,
}

impl RouteType {
    /// The value that a code stands for.
    pub open spec fn of_code(code: Seq<u8>) -> RouteType {
        if spelled_number(code) == Some(0int) {
            RouteType::Tram
        } else if spelled_number(code) == Some(1int) {
            RouteType::Subway
        } else if spelled_number(code) == Some(2int) {
            RouteType::Rail
        } else if spelled_number(code) == Some(3int) {
            RouteType::Bus
        } else if spelled_number(code) == Some(4int) {
            RouteType::Ferry
        } else if spelled_number(code) == Some(5int) {
            RouteType::CableTram
        } else if spelled_number(code) == Some(6int) {
            RouteType::AerialLift
        } else if spelled_number(code) == Some(7int) {
            RouteType::Funicular
        } else if spelled_number(code) == Some(11int) {
            RouteType::Trolleybus
        } else if spelled_number(code) == Some(12int) {
            RouteType::Monorail
        } else {
            RouteType::Unknown
        }
    }
}

impl Default for RouteType {
    fn default() -> (value: Self)
        ensures
            value == RouteType::Tram,
    {
        RouteType::Tram
    }
}

impl<'a> ParseCsvField<'a> for RouteType {
    /// Every field is accepted.
    open spec fn accepts(field: Seq<u8>) -> bool {
        true
    }

    /// The value is what the trimmed field stands for as a code.
    open spec fn decodes_to(field: Seq<u8>, value: Self) -> bool {
        value == RouteType::of_code(trimmed(field))
    }

    proof fn lemma_clone_decodes_alike(field: Seq<u8>, value: Self, copy: Self) {
    }

    fn parse_csv_field(buffer: &'a [u8]) -> (value: Result<Self, ()>) {
        let code = trim_ascii(buffer);
        Ok(
            match read_spelled_number(code) {
                Some(0) => RouteType::Tram,
                Some(1) => RouteType::Subway,
                Some(2) => RouteType::Rail,
                Some(3) => RouteType::Bus,
                Some(4) => RouteType::Ferry,
                Some(5) => RouteType::CableTram,
                Some(6) => RouteType::AerialLift,
                Some(7) => RouteType::Funicular,
                Some(11) => RouteType::Trolleybus,
                Some(12) => RouteType::Monorail,
                _ => RouteType::Unknown,
            },
        )
    }
}

/// Whether a service runs on a day of the week.
#[derive(Debug, Clone, Copy, PartialEq, Eq)]
pub enum ServiceAvailable {
    /// The service runs.
    Yes,
    /// The service does not run.
    No,
    /// Any other code, and no code.
    Unknown,
}

impl ServiceAvailable {
    /// The value that a code stands for.
    pub open spec fn of_code(code: Seq<u8>) -> ServiceAvailable {
        if spelled_number(code) == Some(0int) {
            ServiceAvailable::No
        } else if spelled_number(code) == Some(1int) {
            ServiceAvailable::Yes
        } else {
            ServiceAvailable::Unknown
        }
    }
}

impl<'a> ParseCsvField<'a> for ServiceAvailable {
    /// Every field is accepted.
    open spec fn accepts(field: Seq<u8>) -> bool {
        true
    }

    /// The value is what the trimmed field stands for as a code.
    open spec fn decodes_to(field: Seq<u8>, value: Self) -> bool {
        value == ServiceAvailable::of_code(trimmed(field))
    }

    proof fn lemma_clone_decodes_alike(field: Seq<u8>, value: Self, copy: Self) {
    }

    fn parse_csv_field(buffer: &'a [u8]) -> (value: Result<Self, ()>) {
        let code = trim_ascii(buffer);
        Ok(
            match read_spelled_number(code) {
                Some(0) => ServiceAvailable::No,
                Some(1) => ServiceAvailable::Yes,
                _ => ServiceAvailable::Unknown,
            },
        )
    }
}

/// Whether a date adds or removes a service.
#[derive(Debug, Clone, Copy, PartialEq, Eq)]
pub enum ExceptionType {
    /// The service is added on the date.
    Added,
    /// The service is removed on the date.
    Removed,
    /// Any other code, and no code.
    Unknown,
}

impl ExceptionType {
    /// The value that a code stands for.
    pub open spec fn of_code(code: Seq<u8>) -> ExceptionType {
        if spelled_number(code) == Some(1int) {
            ExceptionType::Added
        } else if spelled_number(code) == Some(2int) {
            ExceptionType::Removed
        } else {
            ExceptionType::Unknown
        }
    }
}

impl<'a> ParseCsvField<'a> for ExceptionType {
    /// Every field is accepted.
    open spec fn accepts(field: Seq<u8>) -> bool {
        true
    }

    /// The value is what the trimmed field stands for as a code.
    open spec fn decodes_to(field: Seq<u8>, value: Self) -> bool {
        value == ExceptionType::of_code(trimmed(field))
    }

    proof fn lemma_clone_decodes_alike(field: Seq<u8>, value: Self, copy: Self) {
    }

    fn parse_csv_field(buffer: &'a [u8]) -> (value: Result<Self, ()>) {
        let code = trim_ascii(buffer);
        Ok(
            match read_spelled_number(code) {
                Some(1) => ExceptionType::Added,
                Some(2) => ExceptionType::Removed,
                _ => ExceptionType::Unknown,
            },
        )
    }
}

/// A yes or a no.
#[derive(Debug, Clone, Copy, PartialEq, Eq)]
pub enum YesOrNo {
    /// Yes.
    Yes,
    /// No, which is also what no code says.
    No,
    /// Any other code.
    Unknown,
}

impl YesOrNo {
    /// The value that a code stands for. No code at all stands for `No`.
    pub open spec fn of_code(code: Seq<u8>) -> YesOrNo {
        if code.len() == 0 {
            YesOrNo::No
        } else if spelled_number(code) == Some(0int) {
            YesOrNo::No
        } else if spelled_number(code) == Some(1int) {
            YesOrNo::Yes
        } else {
            YesOrNo::Unknown
        }
    }
}

impl<'a> ParseCsvField<'a> for YesOrNo {
    /// Every field is accepted.
    open spec fn accepts(field: Seq<u8>) -> bool {
        true
    }

    /// The value is what the trimmed field stands for as a code.
    open spec fn decodes_to(field: Seq<u8>, value: Self) -> bool {
        value == YesOrNo::of_code(trimmed(field))
    }

    proof fn lemma_clone_decodes_alike(field: Seq<u8>, value: Self, copy: Self) {
    }

    fn parse_csv_field(buffer: &'a [u8]) -> (value: Result<Self, ()>) {
        let code = trim_ascii(buffer);
        if code.len() == 0 {
            return Ok(YesOrNo::No);
        }
        Ok(
            match read_spelled_number(code) {
                Some(0) => YesOrNo::No,
                Some(1) => YesOrNo::Yes,
                _ => YesOrNo::Unknown,
            },
        )
    }
}

/// A color, as the amounts of red, green and blue in it.
#[derive(Debug, Clone, Copy, PartialEq, Eq)]
pub struct Color {
    pub r: u8,
    pub g: u8,
    pub b: u8,
}

/// The number that a hexadecimal digit stands for; 0 for any other byte.
pub open spec fn hex_value(c: u8) -> int {
    if 48 <= c <= 57 {
        c - 48
    } else if 97 <= c <= 102 {
        c - 97 + 10
    } else if 65 <= c <= 70 {
        c - 65 + 10
    } else {
        0
    }
}

/// The number that a hexadecimal digit stands for; 0 for any other byte.
pub fn hex_char_to_number(c: u8) -> (n: u8)
    ensures
        n == hex_value(c),
        n < 16,
{
    if 48 <= c && c <= 57 {
        c - 48
    } else if 97 <= c && c <= 102 {
        c - 97 + 10
    } else if 65 <= c && c <= 70 {
        c - 65 + 10
    } else {
        0
    }
}

impl Color {
    /// The color that six hexadecimal digits stand for: two each for red,
    /// green and blue.
    pub open spec fn of_hex(digits: Seq<u8>) -> Color {
        Color {
            r: (hex_value(digits[0]) * 16 + hex_value(digits[1])) as u8,
            g: (hex_value(digits[2]) * 16 + hex_value(digits[3])) as u8,
            b: (hex_value(digits[4]) * 16 + hex_value(digits[5])) as u8,
        }
    }
}

impl<'a> ParseCsvField<'a> for Color {
    /// Accepted are six bytes, with ASCII whitespace around them.
    open spec fn accepts(field: Seq<u8>) -> bool {
        trimmed(field).len() == 6
    }

    /// The value is the color that the trimmed field stands for.
    open spec fn decodes_to(field: Seq<u8>, value: Self) -> bool {
        value == Color::of_hex(trimmed(field))
    }

    proof fn lemma_clone_decodes_alike(field: Seq<u8>, value: Self, copy: Self) {
    }

    fn parse_csv_field(buffer: &'a [u8]) -> (value: Result<Self, ()>) {
        let buffer = trim_ascii(buffer);
        if buffer.len() != 6 {
            return Err(());
        }
        let r: u8 = hex_char_to_number(buffer[0]) * 16 + hex_char_to_number(buffer[1]);
        let g: u8 = hex_char_to_number(buffer[2]) * 16 + hex_char_to_number(buffer[3]);
        let b: u8 = hex_char_to_number(buffer[4]) * 16 + hex_char_to_number(buffer[5]);
        Ok(Color { r, g, b })
    }
}

/// What a byte gives where a decimal digit is read without a check: the
/// digit's value for a digit, and for any other byte its distance from `0`,
/// counted around the 256 values of a byte.
pub open spec fn digit_value(c: u8) -> int {
    if c >= 48 {
        c - 48
    } else {
        c + 208
    }
}

/// Reads a decimal digit without checking that it is one.
pub fn parse_digit(c: u8) -> (d: u8)
    ensures
        d == digit_value(c),
{
    if c >= 48 {
        c - 48
    } else {
        c + 208
    }
}

/// What two bytes give where two decimal digits are read without a check,
/// kept within a byte.
pub open spec fn two_digit_value(tens: u8, ones: u8) -> int {
    (digit_value(tens) * 10 + digit_value(ones)) % 256
}

/// Reads a number of two decimal digits without checking that they are
/// digits.
pub fn parse_two_digit_int(tens: u8, ones: u8) -> (n: u8)
    ensures
        n == two_digit_value(tens, ones),
{
    let wide: u32 = parse_digit(tens) as u32 * 10 + parse_digit(ones) as u32;
    (wide % 256) as u8
}

/// A day of the calendar.
#[derive(Debug, Clone, Copy, PartialEq, Eq)]
pub struct Date {
    pub year: u16,
    pub month: u8,
    pub day: u8,
}

impl Date {
    /// The date that eight bytes stand for: four digits for the year, two for
    /// the month and two for the day. The bytes are not checked to be digits.
    pub open spec fn of_digits(digits: Seq<u8>) -> Date {
        Date {
            year: ((digit_value(digits[0]) * 1000 + digit_value(digits[1]) * 100 + digit_value(
                digits[2],
            ) * 10 + digit_value(digits[3])) % 65536) as u16,
            month: two_digit_value(digits[4], digits[5]) as u8,
            day: two_digit_value(digits[6], digits[7]) as u8,
        }
    }
}

/// A day of the calendar, where there is one.
#[derive(Debug, Clone, Copy, PartialEq, Eq)]
pub struct OptionalDate(pub Option<Date>);

/// Whether the bytes have the width of a date: eight bytes.
pub open spec fn is_date_shaped(text: Seq<u8>) -> bool {
    text.len() == 8
}

/// The date that the bytes stand for: the date of their digits where they
/// have the width of a date, and none for any other width.
pub open spec fn date_of(text: Seq<u8>) -> Option<Date> {
    if is_date_shaped(text) {
        Some(Date::of_digits(text))
    } else {
        None
    }
}

/// Reads a date of the form `YYYYMMDD`. There is no date where the text does
/// not have the width of one.
pub fn parse_yyyymmdd_fast(buffer: &[u8]) -> (date: Option<Date>)
    ensures
        date == date_of(buffer@),
{
    if buffer.len() != 8 {
        return None;
    }
    let year: u32 = parse_digit(buffer[0]) as u32 * 1000 + parse_digit(buffer[1]) as u32 * 100
        + parse_digit(buffer[2]) as u32 * 10 + parse_digit(buffer[3]) as u32;
    let month: u8 = parse_two_digit_int(buffer[4], buffer[5]);
    let day: u8 = parse_two_digit_int(buffer[6], buffer[7]);
    Some(Date { year: (year % 65536) as u16, month, day })
}

impl<'a> ParseCsvField<'a> for OptionalDate {
    /// Every field is accepted.
    open spec fn accepts(field: Seq<u8>) -> bool {
        true
    }

    /// The value is the date that the trimmed field stands for, or none if it
    /// does not have the width of a date.
    open spec fn decodes_to(field: Seq<u8>, value: Self) -> bool {
        value.0 == date_of(trimmed(field))
    }

    proof fn lemma_clone_decodes_alike(field: Seq<u8>, value: Self, copy: Self) {
    }

    fn parse_csv_field(buffer: &'a [u8]) -> (value: Result<Self, ()>) {
        Ok(OptionalDate(parse_yyyymmdd_fast(trim_ascii(buffer))))
    }
}

/// A time of a service day, in seconds since its start. It can lie beyond 24
/// hours, for trips that run past midnight.
#[derive(Debug, Clone, Copy, PartialEq, Eq)]
pub struct ServiceDayTime {
    seconds: u32,
}

impl ServiceDayTime {
    /// The seconds since the start of the service day.
    pub closed spec fn spec_seconds(&self) -> u32 {
        self.seconds
    }

    /// The seconds since the start of the service day.
    #[verifier::when_used_as_spec(spec_seconds)]
    pub fn seconds(&self) -> (seconds: u32)
        ensures
            seconds == self.spec_seconds(),
    {
        self.seconds
    }

    /// The time as it is written: the whole hours, which can be 24 or more,
    /// the minutes of the hour and the seconds of the minute.
    pub fn hh_mm_ss(&self) -> (parts: (u32, u32, u32))
        ensures
            parts.0 == self.spec_seconds() / 3600,
            parts.1 == (self.spec_seconds() / 60) % 60,
            parts.2 == self.spec_seconds() % 60,
            parts.0 * 3600 + parts.1 * 60 + parts.2 == self.spec_seconds(),
    {
        (self.seconds / 3600, (self.seconds / 60) % 60, self.seconds % 60)
    }
}

/// A time of a service day, where there is one.
#[derive(Debug, Clone, Copy, PartialEq, Eq)]
pub struct OptionalServiceDayTime(pub Option<ServiceDayTime>);

/// Whether the bytes have the shape of a time: at least eight bytes, with a
/// colon after the second and after the fifth.
pub open spec fn is_time_shaped(text: Seq<u8>) -> bool {
    text.len() >= 8 && text[2] == 58 && text[5] == 58
}

/// The seconds that a time-shaped text stands for: hours, minutes and
/// seconds, two digits each. The digits are not checked to be digits.
pub open spec fn seconds_of(text: Seq<u8>) -> int {
    two_digit_value(text[0], text[1]) * 3600 + two_digit_value(text[3], text[4]) * 60
        + two_digit_value(text[6], text[7])
}

/// Reads a time of the form `HH:MM:SS` as seconds. Fails if the text does not
/// have the shape of a time.
pub fn parse_hh_mm_ss_to_seconds_fast(buffer: &[u8]) -> (seconds: Result<u32, ()>)
    ensures
        match seconds {
            Ok(s) => is_time_shaped(buffer@) && s == seconds_of(buffer@),
            Err(_) => !is_time_shaped(buffer@),
        },
{
    if buffer.len() >= 8 && buffer[2] == 58 && buffer[5] == 58 {
        let h: u32 = parse_two_digit_int(buffer[0], buffer[1]) as u32;
        let m: u32 = parse_two_digit_int(buffer[3], buffer[4]) as u32;
        let s: u32 = parse_two_digit_int(buffer[6], buffer[7]) as u32;
        return Ok(h * 3600 + m * 60 + s);
    }
    Err(())
}

impl<'a> ParseCsvField<'a> for OptionalServiceDayTime {
    /// Every field is accepted.
    open spec fn accepts(field: Seq<u8>) -> bool {
        true
    }

    /// The value is the time that the trimmed field stands for, or none if it
    /// does not have the shape of a time.
    open spec fn decodes_to(field: Seq<u8>, value: Self) -> bool {
        if is_time_shaped(trimmed(field)) {
            value.0.is_some() && value.0.unwrap().spec_seconds() == seconds_of(trimmed(field))
        } else {
            value.0.is_none()
        }
    }

    proof fn lemma_clone_decodes_alike(field: Seq<u8>, value: Self, copy: Self) {
    }

    fn parse_csv_field(buffer: &'a [u8]) -> (value: Result<Self, ()>) {
        match parse_hh_mm_ss_to_seconds_fast(trim_ascii(buffer)) {
            Ok(seconds) => Ok(OptionalServiceDayTime(Some(ServiceDayTime { seconds }))),
            Err(_) => Ok(OptionalServiceDayTime(None)),
        }
    }
}


/// The index of the first colon at or after `from`, or the length of the
/// text if there is none.
pub open spec fn colon_index(text: Seq<u8>, from: int) -> int
    decreases text.len() - from,
{
    if from >= text.len() {
        text.len() as int
    } else if text[from] == 58 {
        from
    } else {
        colon_index(text, from + 1)
    }
}

proof fn lemma_colon_index_bounds(text: Seq<u8>, from: int)
    requires
        0 <= from <= text.len(),
    ensures
        from <= colon_index(text, from) <= text.len(),
    decreases text.len() - from,
{
    if from < text.len() && text[from] != 58 {
        lemma_colon_index_bounds(text, from + 1);
    }
}

fn find_colon(text: &[u8], from: usize) -> (index: usize)
    requires
        from <= text@.len(),
    ensures
        index == colon_index(text@, from as int),
        from <= index <= text@.len(),
{
    let mut i: usize = from;
    while i < text.len() && text[i] != 58
        invariant
            from <= i <= text@.len(),
            colon_index(text@, i as int) == colon_index(text@, from as int),
        decreases text@.len() - i,
    {
        i += 1;
    }
    proof {
        lemma_colon_index_bounds(text@, from as int);
    }
    i
}

/// The seconds that a text of hours, minutes and seconds stands for: three
/// numbers with colons between them, each a number of at most 32 bits,
/// whatever follows a third colon left aside. The sum is kept within 32 bits.
/// `None` for any other text.
pub open spec fn seconds_of_text(text: Seq<u8>) -> Option<int> {
    let first = colon_index(text, 0);
    let second = colon_index(text, first + 1);
    let third = colon_index(text, second + 1);
    if first < text.len() && second < text.len() {
        match (
            integer_within(text.subrange(0, first), false, 0, u32::MAX as int),
            integer_within(text.subrange(first + 1, second), false, 0, u32::MAX as int),
            integer_within(text.subrange(second + 1, third), false, 0, u32::MAX as int),
        ) {
            (Some(h), Some(m), Some(s)) => Some((h * 3600 + m * 60 + s) % 0x1_0000_0000),
            _ => None,
        }
    } else {
        None
    }
}

impl ServiceDayTime {
    /// Reads a time of the form `H:M:S`, each part a number of any length.
    pub fn from_gtfs_str(time: &str) -> (parsed: Option<Self>)
        ensures
            match parsed {
                Some(t) => seconds_of_text(time.spec_bytes()) == Some(t.spec_seconds() as int),
                None => seconds_of_text(time.spec_bytes()).is_none(),
            },
    {
        let text = time.as_bytes();
        let first: usize = find_colon(text, 0);
        if first >= text.len() {
            return None;
        }
        let second: usize = find_colon(text, first + 1);
        if second >= text.len() {
            return None;
        }
        let third: usize = find_colon(text, second + 1);
        let hours: u64 = match parse_integer(
            slice_subrange(text, 0, first),
            false,
            0,
            0xFFFF_FFFF,
        ) {
            Some(h) => h as u64,
            None => {
                return None;
            },
        };
        let minutes: u64 = match parse_integer(
            slice_subrange(text, first + 1, second),
            false,
            0,
            0xFFFF_FFFF,
        ) {
            Some(m) => m as u64,
            None => {
                return None;
            },
        };
        let seconds: u64 = match parse_integer(
            slice_subrange(text, second + 1, third),
            false,
            0,
            0xFFFF_FFFF,
        ) {
            Some(s) => s as u64,
            None => {
                return None;
            },
        };
        let total: u64 = hours * 3600 + minutes * 60 + seconds;
        Some(ServiceDayTime { seconds: (total % 0x1_0000_0000) as u32 })
    }
}

impl PickupType {
    /// The value that a code stands for where it is not trimmed and has to be
    /// there: no code at all stands for `Unknown`.
    pub open spec fn of_text(code: Seq<u8>) -> PickupType {
        if spelled_number(code) == Some(0int) {
            PickupType::Regular
        } else if spelled_number(code) == Some(1int) {
            PickupType::NotAvailable
        } else if spelled_number(code) == Some(2int) {
            PickupType::MustPhone
        } else if spelled_number(code) == Some(3int) {
            PickupType::MustCoordinateWithDriver
        } else {
            PickupType::Unknown
        }
    }

    /// Reads a code as it stands, without trimming it.
    pub fn from_gtfs_str(s: &str) -> (value: Self)
        ensures
            value == PickupType::of_text(s.spec_bytes()),
    {
        match read_spelled_number(s.as_bytes()) {
            Some(0) => PickupType::Regular,
            Some(1) => PickupType::NotAvailable,
            Some(2) => PickupType::MustPhone,
            Some(3) => PickupType::MustCoordinateWithDriver,
            _ => PickupType::Unknown,
        }
    }
}

impl DropOffType {
    /// The value that a code stands for where it is not trimmed and has to be
    /// there: no code at all stands for `Unknown`.
    pub open spec fn of_text(code: Seq<u8>) -> DropOffType {
        if spelled_number(code) == Some(0int) {
            DropOffType::Regular
        } else if spelled_number(code) == Some(1int) {
            DropOffType::NotAvailable
        } else if spelled_number(code) == Some(2int) {
            DropOffType::MustPhone
        } else if spelled_number(code) == Some(3int) {
            DropOffType::MustCoordinateWithDriver
        } else {
            DropOffType::Unknown
        }
    }

    /// Reads a code as it stands, without trimming it.
    pub fn from_gtfs_str(s: &str) -> (value: Self)
        ensures
            value == DropOffType::of_text(s.spec_bytes()),
    {
        match read_spelled_number(s.as_bytes()) {
            Some(0) => DropOffType::Regular,
            Some(1) => DropOffType::NotAvailable,
            Some(2) => DropOffType::MustPhone,
            Some(3) => DropOffType::MustCoordinateWithDriver,
            _ => DropOffType::Unknown,
        }
    }
}

impl ContinuousPickupType {
    /// The value that a code stands for where it is not trimmed and has to be
    /// there: no code at all stands for `Unknown`.
    pub open spec fn of_text(code: Seq<u8>) -> ContinuousPickupType {
        if spelled_number(code) == Some(0int) {
            ContinuousPickupType::Regular
        } else if spelled_number(code) == Some(1int) {
            ContinuousPickupType::NotAvailable
        } else if spelled_number(code) == Some(2int) {
            ContinuousPickupType::MustPhone
        } else if spelled_number(code) == Some(3int) {
            ContinuousPickupType::MustCoordinateWithDriver
        } else {
            ContinuousPickupType::Unknown
        }
    }

    /// Reads a code as it stands, without trimming it.
    pub fn from_gtfs_str(s: &str) -> (value: Self)
        ensures
            value == ContinuousPickupType::of_text(s.spec_bytes()),
    {
        match read_spelled_number(s.as_bytes()) {
            Some(0) => ContinuousPickupType::Regular,
            Some(1) => ContinuousPickupType::NotAvailable,
            Some(2) => ContinuousPickupType::MustPhone,
            Some(3) => ContinuousPickupType::MustCoordinateWithDriver,
            _ => ContinuousPickupType::Unknown,
        }
    }
}

impl ContinuousDropOffType {
    /// The value that a code stands for where it is not trimmed and has to be
    /// there: no code at all stands for `Unknown`.
    pub open spec fn of_text(code: Seq<u8>) -> ContinuousDropOffType {
        if spelled_number(code) == Some(0int) {
            ContinuousDropOffType::Regular
        } else if spelled_number(code) == Some(1int) {
            ContinuousDropOffType::NotAvailable
        } else if spelled_number(code) == Some(2int) {
            ContinuousDropOffType::MustPhone
        } else if spelled_number(code) == Some(3int) {
            ContinuousDropOffType::MustCoordinateWithDriver
        } else {
            ContinuousDropOffType::Unknown
        }
    }

    /// Reads a code as it stands, without trimming it.
    pub fn from_gtfs_str(s: &str) -> (value: Self)
        ensures
            value == ContinuousDropOffType::of_text(s.spec_bytes()),
    {
        match read_spelled_number(s.as_bytes()) {
            Some(0) => ContinuousDropOffType::Regular,
            Some(1) => ContinuousDropOffType::NotAvailable,
            Some(2) => ContinuousDropOffType::MustPhone,
            Some(3) => ContinuousDropOffType::MustCoordinateWithDriver,
            _ => ContinuousDropOffType::Unknown,
        }
    }
}

impl TimePointType {
    /// The value that a code stands for where it is not trimmed and has to be
    /// there: no code at all stands for `Unknown`.
    pub open spec fn of_text(code: Seq<u8>) -> TimePointType {
        if spelled_number(code) == Some(0int) {
            TimePointType::Approximate
        } else if spelled_number(code) == Some(1int) {
            TimePointType::Exact
        } else {
            TimePointType::Unknown
        }
    }

    /// Reads a code as it stands, without trimming it.
    pub fn from_gtfs_str(s: &str) -> (value: Self)
        ensures
            value == TimePointType::of_text(s.spec_bytes()),
    {
        match read_spelled_number(s.as_bytes()) {
            Some(0) => TimePointType::Approximate,
            Some(1) => TimePointType::Exact,
            _ => TimePointType::Unknown,
        }
    }
}

} // verus!
