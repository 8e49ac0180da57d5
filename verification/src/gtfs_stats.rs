//! The number of records in each file of a feed, and in many feeds together.

use crate::tables::Gtfs;
use vstd::prelude::*;

verus! {

/// How many records each file of a feed holds.
#[derive(Debug, Clone, Copy, PartialEq, Eq)]
pub struct GtfsStats {
    pub stop_times_num: usize,
    pub stops_num: usize,
    pub trips_num: usize,
    pub routes_num: usize,
    pub calendars_num: usize,
    pub calendar_dates_num: usize,
    pub agencies_num: usize,
    pub feed_infos_num: usize,
    pub attributions_num: usize,
}

impl GtfsStats {
    /// The counts of both, added file by file.
    pub open spec fn sum(self, other: GtfsStats) -> (int, int, int, int, int, int, int, int, int) {
        (
            self.stop_times_num + other.stop_times_num,
            self.stops_num + other.stops_num,
            self.trips_num + other.trips_num,
            self.routes_num + other.routes_num,
            self.calendars_num + other.calendars_num,
            self.calendar_dates_num + other.calendar_dates_num,
            self.agencies_num + other.agencies_num,
            self.feed_infos_num + other.feed_infos_num,
            self.attributions_num + other.attributions_num,
        )
    }

    /// The counts, file by file.
    pub open spec fn counts(self) -> (int, int, int, int, int, int, int, int, int) {
        (
            self.stop_times_num as int,
            self.stops_num as int,
            self.trips_num as int,
            self.routes_num as int,
            self.calendars_num as int,
            self.calendar_dates_num as int,
            self.agencies_num as int,
            self.feed_infos_num as int,
            self.attributions_num as int,
        )
    }

    /// Whether every count of the sum of both can be held.
    pub open spec fn sum_fits(self, other: GtfsStats) -> bool {
        &&& self.stop_times_num + other.stop_times_num <= usize::MAX
        &&& self.stops_num + other.stops_num <= usize::MAX
        &&& self.trips_num + other.trips_num <= usize::MAX
        &&& self.routes_num + other.routes_num <= usize::MAX
        &&& self.calendars_num + other.calendars_num <= usize::MAX
        &&& self.calendar_dates_num + other.calendar_dates_num <= usize::MAX
        &&& self.agencies_num + other.agencies_num <= usize::MAX
        &&& self.feed_infos_num + other.feed_infos_num <= usize::MAX
        &&& self.attributions_num + other.attributions_num <= usize::MAX
    }

    /// The statistics of no feed at all.
    pub fn zero() -> (stats: Self)
        ensures
            stats.counts() == (0int, 0int, 0int, 0int, 0int, 0int, 0int, 0int, 0int),
    {
        GtfsStats {
            stop_times_num: 0,
            stops_num: 0,
            trips_num: 0,
            routes_num: 0,
            calendars_num: 0,
            calendar_dates_num: 0,
            agencies_num: 0,
            feed_infos_num: 0,
            attributions_num: 0,
        }
    }

    /// Adds the counts of another feed, file by file. `None` if a sum is too
    /// large to be held.
    pub fn merged(self, other: GtfsStats) -> (total: Option<GtfsStats>)
        ensures
            total.is_some() == self.sum_fits(other),
            total.is_some() ==> total.unwrap().counts() == self.sum(other),
    {
        Some(
            GtfsStats {
                stop_times_num: self.stop_times_num.checked_add(other.stop_times_num)?,
                stops_num: self.stops_num.checked_add(other.stops_num)?,
                trips_num: self.trips_num.checked_add(other.trips_num)?,
                routes_num: self.routes_num.checked_add(other.routes_num)?,
                calendars_num: self.calendars_num.checked_add(other.calendars_num)?,
                calendar_dates_num: self.calendar_dates_num.checked_add(other.calendar_dates_num)?,
                agencies_num: self.agencies_num.checked_add(other.agencies_num)?,
                feed_infos_num: self.feed_infos_num.checked_add(other.feed_infos_num)?,
                attributions_num: self.attributions_num.checked_add(other.attributions_num)?,
            },
        )
    }
}

/// Counts the records of each file of a feed.
pub fn analyse_gtfs(gtfs: &Gtfs) -> (stats: GtfsStats)
    ensures
        stats == (GtfsStats {
            stop_times_num: gtfs.stop_times.len,
            stops_num: gtfs.stops.len,
            trips_num: gtfs.trips.len,
            routes_num: gtfs.routes.len,
            calendars_num: gtfs.calendars.len,
            calendar_dates_num: gtfs.calendar_dates.len,
            agencies_num: gtfs.agencies.len,
            feed_infos_num: gtfs.feed_infos.len,
            attributions_num: gtfs.attributions.len,
        }),
{
    GtfsStats {
        stop_times_num: gtfs.stop_times.len,
        stops_num: gtfs.stops.len,
        trips_num: gtfs.trips.len,
        routes_num: gtfs.routes.len,
        calendars_num: gtfs.calendars.len,
        calendar_dates_num: gtfs.calendar_dates.len,
        agencies_num: gtfs.agencies.len,
        feed_infos_num: gtfs.feed_infos.len,
        attributions_num: gtfs.attributions.len,
    }
}

/// A size in bytes, rounded down to a whole number of thousands, as it is
/// shown to a reader.
pub fn rounded_to_thousands(bytes: u64) -> (rounded: u64)
    ensures
        rounded == bytes - bytes % 1000,
{
    (bytes / 1000) * 1000
}

} // verus!
