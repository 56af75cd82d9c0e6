//! Geographic points and bounding boxes in fixed-point degrees.
use vstd::prelude::*;

verus! {

/// Number of fixed-point units in one degree.
pub const UNITS_PER_DEGREE: i64 = 10_000_000;

/// Largest absolute latitude, in fixed-point units (90 degrees).
pub const MAX_LAT: i64 = 900_000_000;

/// Largest absolute longitude, in fixed-point units (180 degrees).
pub const MAX_LNG: i64 = 1_800_000_000;

/// A point on the map. Coordinates are held in units of 1e-7 degrees.
#[derive(Clone, Copy, Debug, PartialEq, Eq, Structural)]
pub struct MapPoint {
    pub lat: i64,
    pub lng: i64,
}

impl MapPoint {
    pub open spec fn valid(self) -> bool {
        -MAX_LAT <= self.lat <= MAX_LAT && -MAX_LNG <= self.lng <= MAX_LNG
    }

    /// Builds a point from fixed-point coordinates, or `None` when one of them
    /// is out of range.
    pub fn try_from_lat_lng(lat: i64, lng: i64) -> (r: Option<MapPoint>)
        ensures
            r is Some <==> (-MAX_LAT <= lat <= MAX_LAT && -MAX_LNG <= lng <= MAX_LNG),
            r matches Some(p) ==> p.lat == lat && p.lng == lng && p.valid(),
    {
        if -MAX_LAT <= lat && lat <= MAX_LAT && -MAX_LNG <= lng && lng <= MAX_LNG {
            Some(MapPoint { lat, lng })
        } else {
            None
        }
    }

    pub fn is_valid(&self) -> (r: bool)
        ensures
            r == self.valid(),
    {
        -MAX_LAT <= self.lat && self.lat <= MAX_LAT && -MAX_LNG <= self.lng && self.lng
            <= MAX_LNG
    }
}

/// A bounding box given by its south-west and north-east corners. When the
/// north-east longitude is smaller than the south-west one, the box wraps
/// around the antimeridian.
#[derive(Clone, Copy, Debug, PartialEq, Eq, Structural)]
pub struct MapBbox {
    pub south_west: MapPoint,
    pub north_east: MapPoint,
}

impl MapBbox {
    pub open spec fn valid(self) -> bool {
        self.south_west.valid() && self.north_east.valid() && self.south_west.lat
            <= self.north_east.lat
    }

    pub open spec fn wraps(self) -> bool {
        self.north_east.lng < self.south_west.lng
    }

    pub open spec fn spec_contains(self, p: MapPoint) -> bool {
        &&& self.south_west.lat <= p.lat <= self.north_east.lat
        &&& if self.wraps() {
            p.lng >= self.south_west.lng || p.lng <= self.north_east.lng
        } else {
            self.south_west.lng <= p.lng <= self.north_east.lng
        }
    }

    pub fn new(south_west: MapPoint, north_east: MapPoint) -> (r: MapBbox)
        ensures
            r.south_west == south_west && r.north_east == north_east,
    {
        MapBbox { south_west, north_east }
    }

    pub fn is_valid(&self) -> (r: bool)
        ensures
            r == self.valid(),
    {
        self.south_west.is_valid() && self.north_east.is_valid() && self.south_west.lat
            <= self.north_east.lat
    }

    pub fn contains_point(&self, p: MapPoint) -> (r: bool)
        ensures
            r == self.spec_contains(p),
    {
        if p.lat < self.south_west.lat || p.lat > self.north_east.lat {
            return false;
        }
        if self.north_east.lng < self.south_west.lng {
            p.lng >= self.south_west.lng || p.lng <= self.north_east.lng
        } else {
            self.south_west.lng <= p.lng && p.lng <= self.north_east.lng
        }
    }
}

/// A distance in millimetres.
#[derive(Clone, Copy, Debug, PartialEq, Eq, Structural)]
pub struct Distance {
    pub millimeters: u64,
}

impl Distance {
    pub fn from_meters(m: u64) -> (r: Distance)
        requires
            m <= u64::MAX / 1000,
        ensures
            r.millimeters == m * 1000,
    {
        Distance { millimeters: m * 1000 }
    }
}

} // verus!
