use airly::geo::{GeoCircle, GeoPoint};
use airly::url::{
    get_measurements_query_string, indexes_url, installation_url, measurements_nearest_url,
    measurements_point_url, meta_measurements_url, nearest_url,
};

#[test]
fn geo_point_accepts_bounds() {
    let p = GeoPoint::new(54_347_279, 18_653_846).unwrap();
    assert_eq!(p.get_lat(), 54_347_279);
    assert_eq!(p.get_lng(), 18_653_846);
    assert!(GeoPoint::new(90_000_000, 180_000_000).is_ok());
    assert!(GeoPoint::new(-90_000_000, -180_000_000).is_ok());
    assert!(GeoPoint::new(0, 0).is_ok());
}

#[test]
fn geo_point_rejects_out_of_bounds() {
    assert!(GeoPoint::new(90_000_001, 0).is_err());
    assert!(GeoPoint::new(-90_000_001, 0).is_err());
    assert!(GeoPoint::new(0, 180_000_001).is_err());
    assert!(GeoPoint::new(0, -180_000_001).is_err());
    assert!(matches!(
        GeoPoint::new(100_000_000, 0),
        Err(airly::error::AirlyError::OutOfBounds)
    ));
}

#[test]
fn geo_circle_radius_bounds() {
    let p = GeoPoint::new(54_347_279, 18_653_846).unwrap();
    assert!(GeoCircle::new(p, 0).is_ok());
    assert!(GeoCircle::new(p, 6370).is_ok());
    assert!(GeoCircle::new(p, 6371).is_err());
    assert!(GeoCircle::new(p, 7000).is_err());
    let c = GeoCircle::new(p, 5).unwrap();
    assert_eq!(c.get_radius_km(), 5);
    assert_eq!(c.get_point().get_lat(), 54_347_279);
}

#[test]
fn installation_url_is_exact() {
    assert_eq!(
        installation_url(34),
        "https://airapi.airly.eu/v2/installations/34"
    );
    assert_eq!(
        installation_url(0),
        "https://airapi.airly.eu/v2/installations/0"
    );
}

#[test]
fn fixed_listing_urls_are_exact() {
    assert_eq!(indexes_url(), "https://airapi.airly.eu/v2/indexes");
    assert_eq!(
        meta_measurements_url(),
        "https://airapi.airly.eu/v2/measurements/types"
    );
}

#[test]
fn nearest_url_carries_all_parameters() {
    let p = GeoPoint::new(54_347_279, 18_653_846).unwrap();
    let c = GeoCircle::new(p, 5).unwrap();
    let uri = nearest_url(&c, 3);
    assert_eq!(
        uri,
        "https://airapi.airly.eu/v2/installations/nearest?lat=54.347279&lng=18.653846&maxDistanceKM=5&maxResults=3"
    );
    assert!(uri.contains("lat=54.347279"));
    assert!(uri.contains("lng=18.653846"));
    assert!(uri.contains("maxDistanceKM=5"));
    assert!(uri.contains("maxResults=3"));
}

#[test]
fn coordinates_print_like_decimal_degrees() {
    let p = GeoPoint::new(5_000_000, -500_000).unwrap();
    let uri = measurements_point_url(&String::from("X"), &p);
    assert_eq!(
        uri,
        "https://airapi.airly.eu/v2/measurements/point?indexType=X&lat=5&lng=-0.5"
    );
    let q = GeoPoint::new(-1_000_001, 90_000_000).unwrap();
    let uri2 = measurements_point_url(&String::from("X"), &q);
    assert_eq!(
        uri2,
        "https://airapi.airly.eu/v2/measurements/point?indexType=X&lat=-1.000001&lng=90"
    );
}

#[test]
fn measurements_query_wind_flag() {
    let with_wind = get_measurements_query_string(34, String::from("AIRLY_CAQI"), true);
    assert_eq!(
        with_wind,
        "https://airapi.airly.eu/v2/measurements/installation?includeWind=true&indexType=AIRLY_CAQI&installationId=34"
    );
    assert!(with_wind.contains("includeWind=true"));
    assert!(with_wind.contains("indexType=AIRLY_CAQI"));
    let without_wind = get_measurements_query_string(34, String::from("AIRLY_CAQI"), false);
    assert_eq!(
        without_wind,
        "https://airapi.airly.eu/v2/measurements/installation?indexType=AIRLY_CAQI&installationId=34"
    );
    assert!(!without_wind.contains("includeWind"));
}

#[test]
fn measurements_nearest_url_carries_all_parameters() {
    let p = GeoPoint::new(54_347_279, 18_653_846).unwrap();
    let c = GeoCircle::new(p, 5).unwrap();
    let uri = measurements_nearest_url(&String::from("AIRLY_CAQI"), &c);
    assert_eq!(
        uri,
        "https://airapi.airly.eu/v2/measurements/nearest?indexType=AIRLY_CAQI&lat=54.347279&lng=18.653846&maxDistanceKM=5"
    );
}
