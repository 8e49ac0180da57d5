//! The buffers of a transit feed: one for each of its files.

use vstd::prelude::*;

verus! {

/// The bytes that an optional buffer holds, if there is one.
pub open spec fn optional_bytes(buffer: Option<Vec<u8>>) -> Option<Seq<u8>> {
    match buffer {
        Some(bytes) => Some(bytes@),
        None => None,
    }
}

/// The bytes that an optional slice holds, if there is one.
pub open spec fn optional_slice_bytes(buffer: Option<&[u8]>) -> Option<Seq<u8>> {
    match buffer {
        Some(bytes) => Some(bytes@),
        None => None,
    }
}

/// Borrowed buffers, one for each file of a feed that is there.
#[derive(Debug)]
pub struct GtfsBufferSlices<'a> {
    pub stop_times: Option<&'a [u8]>,
    pub stops: Option<&'a [u8]>,
    pub trips: Option<&'a [u8]>,
    pub routes: Option<&'a [u8]>,
    pub calendar: Option<&'a [u8]>,
    pub calendar_dates: Option<&'a [u8]>,
    pub agencies: Option<&'a [u8]>,
    pub feed_infos: Option<&'a [u8]>,
    pub attributions: Option<&'a [u8]>,
}

/// Owned buffers, one for each file of a feed that is there.
pub struct GtfsBuffers {
    pub stop_times: Option<Vec<u8>>,
    pub stops: Option<Vec<u8>>,
    pub trips: Option<Vec<u8>>,
    pub routes: Option<Vec<u8>>,
    pub calendar: Option<Vec<u8>>,
    pub calendar_dates: Option<Vec<u8>>,
    pub agencies: Option<Vec<u8>>,
    pub feed_infos: Option<Vec<u8>>,
    pub attributions: Option<Vec<u8>>,
}

/// Which files of a feed to load.
#[derive(Debug, Clone, Copy)]
pub struct GtfsFilter {
    pub stop_times: bool,
    pub stops: bool,
    pub trips: bool,
    pub routes: bool,
    pub calendar: bool,
    pub calendar_dates: bool,
    pub agencies: bool,
    pub feed_infos: bool,
    pub attributions: bool,
}

impl GtfsFilter {
    /// The filter that holds `choice` for every file.
    pub open spec fn uniform(choice: bool) -> GtfsFilter {
        GtfsFilter {
            stop_times: choice,
            stops: choice,
            trips: choice,
            routes: choice,
            calendar: choice,
            calendar_dates: choice,
            agencies: choice,
            feed_infos: choice,
            attributions: choice,
        }
    }

    /// The filter that lets every file through.
    pub fn all() -> (filter: Self)
        ensures
            filter == GtfsFilter::uniform(true),
    {
        Self {
            stop_times: true,
            stops: true,
            trips: true,
            routes: true,
            calendar: true,
            calendar_dates: true,
            agencies: true,
            feed_infos: true,
            attributions: true,
        }
    }

    /// The filter that lets no file through.
    pub fn none() -> (filter: Self)
        ensures
            filter == GtfsFilter::uniform(false),
    {
        Self {
            stop_times: false,
            stops: false,
            trips: false,
            routes: false,
            calendar: false,
            calendar_dates: false,
            agencies: false,
            feed_infos: false,
            attributions: false,
        }
    }
}

impl Default for GtfsFilter {
    /// Every file is loaded unless the filter says otherwise.
    fn default() -> (filter: Self)
        ensures
            filter == GtfsFilter::uniform(true),
    {
        Self::all()
    }
}

fn as_optional_slice<'a>(buffer: &'a Option<Vec<u8>>) -> (slice: Option<&'a [u8]>)
    ensures
        optional_slice_bytes(slice) == optional_bytes(*buffer),
{
    match buffer {
        Some(bytes) => Some(bytes.as_slice()),
        None => None,
    }
}

impl GtfsBuffers {
    /// Borrows every buffer that is there.
    pub fn to_slices<'a>(&'a self) -> (slices: GtfsBufferSlices<'a>)
        ensures
            optional_slice_bytes(slices.stop_times) == optional_bytes(self.stop_times),
            optional_slice_bytes(slices.stops) == optional_bytes(self.stops),
            optional_slice_bytes(slices.trips) == optional_bytes(self.trips),
            optional_slice_bytes(slices.routes) == optional_bytes(self.routes),
            optional_slice_bytes(slices.calendar) == optional_bytes(self.calendar),
            optional_slice_bytes(slices.calendar_dates) == optional_bytes(self.calendar_dates),
            optional_slice_bytes(slices.agencies) == optional_bytes(self.agencies),
            optional_slice_bytes(slices.feed_infos) == optional_bytes(self.feed_infos),
            optional_slice_bytes(slices.attributions) == optional_bytes(self.attributions),
    {
        GtfsBufferSlices {
            stop_times: as_optional_slice(&self.stop_times),
            stops: as_optional_slice(&self.stops),
            trips: as_optional_slice(&self.trips),
            routes: as_optional_slice(&self.routes),
            calendar: as_optional_slice(&self.calendar),
            calendar_dates: as_optional_slice(&self.calendar_dates),
            agencies: as_optional_slice(&self.agencies),
            feed_infos: as_optional_slice(&self.feed_infos),
            attributions: as_optional_slice(&self.attributions),
        }
    }
}

} // verus!
