//! Composition of the endpoint URLs.
//!
//! Every request the client issues is an HTTP GET against one of a fixed
//! set of paths under one base URL, with query parameters formatted from
//! typed values. Each builder's contract gives the produced URL character
//! for character.

use vstd::prelude::*;
use vstd::string::StringExecFns;
use crate::digits::{coord_seq, dec_seq, push_coord, push_u64};
use crate::geo::{GeoCircle, GeoPoint};

verus! {

/// URL of the single-installation endpoint.
pub open spec fn spec_installation_url(id: nat) -> Seq<char> {
    "https://airapi.airly.eu/v2/installations/"@ + dec_seq(id)
}

/// URL of the nearest-installations endpoint.
pub open spec fn spec_nearest_url(circle: GeoCircle, max_results: nat) -> Seq<char> {
    "https://airapi.airly.eu/v2/installations/nearest?lat="@
        + coord_seq(circle.point().lat()) + "&lng="@ + coord_seq(circle.point().lng())
        + "&maxDistanceKM="@ + dec_seq(circle.radius_km() as nat) + "&maxResults="@
        + dec_seq(max_results)
}

/// URL of the index-type listing endpoint.
pub open spec fn spec_indexes_url() -> Seq<char> {
    "https://airapi.airly.eu/v2/indexes"@
}

/// URL of the measurement-type listing endpoint.
pub open spec fn spec_meta_measurements_url() -> Seq<char> {
    "https://airapi.airly.eu/v2/measurements/types"@
}

/// URL of the per-installation measurements endpoint. The wind flag adds
/// the `includeWind=true` parameter; without it the parameter is absent.
pub open spec fn spec_measurements_query(id: nat, name: Seq<char>, wind: bool) -> Seq<char> {
    "https://airapi.airly.eu/v2/measurements/installation?"@
        + (if wind { "includeWind=true&"@ } else { Seq::<char>::empty() })
        + "indexType="@ + name + "&installationId="@ + dec_seq(id)
}

/// URL of the nearest-installation measurements endpoint.
pub open spec fn spec_measurements_nearest_url(name: Seq<char>, circle: GeoCircle) -> Seq<char> {
    "https://airapi.airly.eu/v2/measurements/nearest?indexType="@ + name + "&lat="@
        + coord_seq(circle.point().lat()) + "&lng="@ + coord_seq(circle.point().lng())
        + "&maxDistanceKM="@ + dec_seq(circle.radius_km() as nat)
}

/// URL of the interpolated-point measurements endpoint.
pub open spec fn spec_measurements_point_url(name: Seq<char>, point: GeoPoint) -> Seq<char> {
    "https://airapi.airly.eu/v2/measurements/point?indexType="@ + name + "&lat="@
        + coord_seq(point.lat()) + "&lng="@ + coord_seq(point.lng())
}

/// Builds the URL that fetches one installation by its id.
pub fn installation_url(id: u32) -> (r: String)
    ensures
        r@ == spec_installation_url(id as nat),
{
    let mut s = String::from_str("https://airapi.airly.eu/v2/installations/");
    push_u64(&mut s, id as u64);
    s
}

/// Builds the URL that fetches the installations nearest to a circle.
pub fn nearest_url(circle: &GeoCircle, max_results: u32) -> (r: String)
    ensures
        r@ == spec_nearest_url(*circle, max_results as nat),
{
    let point = circle.get_point();
    let mut s = String::from_str("https://airapi.airly.eu/v2/installations/nearest?lat=");
    push_coord(&mut s, point.get_lat());
    s.append("&lng=");
    push_coord(&mut s, point.get_lng());
    s.append("&maxDistanceKM=");
    push_u64(&mut s, circle.get_radius_km() as u64);
    s.append("&maxResults=");
    push_u64(&mut s, max_results as u64);
    s
}

/// Builds the URL that lists the available index types.
pub fn indexes_url() -> (r: String)
    ensures
        r@ == spec_indexes_url(),
{
    String::from_str("https://airapi.airly.eu/v2/indexes")
}

/// Builds the URL that lists the available measurement types.
pub fn meta_measurements_url() -> (r: String)
    ensures
        r@ == spec_meta_measurements_url(),
{
    String::from_str("https://airapi.airly.eu/v2/measurements/types")
}

/// Builds the query URL that fetches the measurements of one installation,
/// with or without wind data.
pub fn get_measurements_query_string(id: u32, index_name: String, include_wind: bool) -> (r:
    String)
    ensures
        r@ == spec_measurements_query(id as nat, index_name@, include_wind),
{
    let mut s = String::from_str("https://airapi.airly.eu/v2/measurements/installation?");
    if include_wind {
        s.append("includeWind=true&");
    }
    s.append("indexType=");
    s.append(index_name.as_str());
    s.append("&installationId=");
    push_u64(&mut s, id as u64);
    proof {
        assert(s@ =~= spec_measurements_query(id as nat, index_name@, include_wind));
    }
    s
}

/// Builds the URL that fetches the measurements of the installation nearest
/// to a circle.
pub fn measurements_nearest_url(name: &String, circle: &GeoCircle) -> (r: String)
    ensures
        r@ == spec_measurements_nearest_url(name@, *circle),
{
    let point = circle.get_point();
    let mut s = String::from_str("https://airapi.airly.eu/v2/measurements/nearest?indexType=");
    s.append(name.as_str());
    s.append("&lat=");
    push_coord(&mut s, point.get_lat());
    s.append("&lng=");
    push_coord(&mut s, point.get_lng());
    s.append("&maxDistanceKM=");
    push_u64(&mut s, circle.get_radius_km() as u64);
    s
}

/// Builds the URL that fetches interpolated measurements at a point.
pub fn measurements_point_url(name: &String, point: &GeoPoint) -> (r: String)
    ensures
        r@ == spec_measurements_point_url(name@, *point),
{
    let mut s = String::from_str("https://airapi.airly.eu/v2/measurements/point?indexType=");
    s.append(name.as_str());
    s.append("&lat=");
    push_coord(&mut s, point.get_lat());
    s.append("&lng=");
    push_coord(&mut s, point.get_lng());
    s
}

} // verus!
