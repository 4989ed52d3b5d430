//! Validated geographic value types.
//!
//! Coordinates are integer micro-degrees: millionths of a degree, so that a
//! latitude of 54.347279 degrees is carried as `54_347_279`. This keeps the
//! stored values exact and lets the query formatter print them digit for
//! digit.

use vstd::prelude::*;
use crate::error::AirlyError;

verus! {

/// Largest legal latitude, in micro-degrees (90 degrees).
pub const MAX_LAT_MICRO: i64 = 90_000_000;

/// Largest legal longitude, in micro-degrees (180 degrees).
pub const MAX_LNG_MICRO: i64 = 180_000_000;

/// Any circle radius must stay below the Earth radius, in kilometers.
pub const MAX_EARTH_RADIUS_KM: u32 = 6371;

/// A point on the globe, validated on construction.
#[derive(Debug, Clone, Copy, PartialEq, Eq)]
pub struct GeoPoint {
    lat_micro: i64,
    lng_micro: i64,
}

impl GeoPoint {
    /// Latitude in micro-degrees.
    pub closed spec fn lat(self) -> int {
        self.lat_micro as int
    }

    /// Longitude in micro-degrees.
    pub closed spec fn lng(self) -> int {
        self.lng_micro as int
    }

    /// Both coordinates stay within their legal ranges.
    #[verifier::type_invariant]
    pub closed spec fn bounded(self) -> bool {
        &&& -MAX_LAT_MICRO <= self.lat_micro <= MAX_LAT_MICRO
        &&& -MAX_LNG_MICRO <= self.lng_micro <= MAX_LNG_MICRO
    }

    /// Builds a point from micro-degree coordinates.
    ///
    /// Fails with an out-of-bounds error when the latitude exceeds 90
    /// degrees in magnitude or the longitude exceeds 180 degrees.
    pub fn new(lat_micro: i64, lng_micro: i64) -> (r: Result<GeoPoint, AirlyError>)
        ensures
            r is Ok <==> (-MAX_LAT_MICRO <= lat_micro <= MAX_LAT_MICRO
                && -MAX_LNG_MICRO <= lng_micro <= MAX_LNG_MICRO),
            r matches Ok(p) ==> p.lat() == lat_micro && p.lng() == lng_micro,
            r matches Err(e) ==> e == AirlyError::OutOfBounds,
    {
        if -MAX_LAT_MICRO <= lat_micro && lat_micro <= MAX_LAT_MICRO
            && -MAX_LNG_MICRO <= lng_micro && lng_micro <= MAX_LNG_MICRO {
            Ok(GeoPoint { lat_micro, lng_micro })
        } else {
            Err(AirlyError::OutOfBounds)
        }
    }

    /// The latitude, in micro-degrees.
    pub fn get_lat(&self) -> (r: i64)
        ensures
            r == self.lat(),
            -MAX_LAT_MICRO <= r <= MAX_LAT_MICRO,
    {
        proof {
            use_type_invariant(self);
        }
        self.lat_micro
    }

    /// The longitude, in micro-degrees.
    pub fn get_lng(&self) -> (r: i64)
        ensures
            r == self.lng(),
            -MAX_LNG_MICRO <= r <= MAX_LNG_MICRO,
    {
        proof {
            use_type_invariant(self);
        }
        self.lng_micro
    }
}

/// A point together with a radius in kilometers, validated on construction.
#[derive(Debug, Clone, Copy, PartialEq, Eq)]
pub struct GeoCircle {
    point: GeoPoint,
    radius_km: u32,
}

impl GeoCircle {
    /// The center of the circle.
    pub closed spec fn point(self) -> GeoPoint {
        self.point
    }

    /// The radius in kilometers.
    pub closed spec fn radius_km(self) -> int {
        self.radius_km as int
    }

    /// The radius stays below the Earth radius.
    #[verifier::type_invariant]
    pub closed spec fn bounded(self) -> bool {
        self.radius_km < MAX_EARTH_RADIUS_KM
    }

    /// Builds a circle from a validated point and a radius in kilometers.
    ///
    /// Fails with an out-of-bounds error when the radius reaches the Earth
    /// radius.
    pub fn new(point: GeoPoint, radius_km: u32) -> (r: Result<GeoCircle, AirlyError>)
        ensures
            r is Ok <==> radius_km < MAX_EARTH_RADIUS_KM,
            r matches Ok(c) ==> c.point() == point && c.radius_km() == radius_km,
            r matches Err(e) ==> e == AirlyError::OutOfBounds,
    {
        if radius_km < MAX_EARTH_RADIUS_KM {
            Ok(GeoCircle { point, radius_km })
        } else {
            Err(AirlyError::OutOfBounds)
        }
    }

    /// The center of the circle.
    pub fn get_point(&self) -> (r: GeoPoint)
        ensures
            r == self.point(),
    {
        self.point
    }

    /// The radius, in kilometers.
    pub fn get_radius_km(&self) -> (r: u32)
        ensures
            r == self.radius_km(),
            r < MAX_EARTH_RADIUS_KM,
    {
        proof {
            use_type_invariant(self);
        }
        self.radius_km
    }
}

} // verus!
