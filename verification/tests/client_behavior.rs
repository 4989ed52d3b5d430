use airly::client::AirlyClient;
use airly::error::AirlyError;
use airly::geo::{GeoCircle, GeoPoint};
use airly::types::IndexType;

#[test]
fn it_works() {
    assert_eq!(1, 1);
}

fn well_formed_key() -> String {
    String::from("0123456789abcdef0123456789abcdef")
}

#[test]
fn client_requires_a_32_character_key() {
    assert!(matches!(
        AirlyClient::new(String::from("short")),
        Err(AirlyError::InvalidKey)
    ));
    assert!(matches!(
        AirlyClient::new(String::from("0123456789abcdef0123456789abcde")),
        Err(AirlyError::InvalidKey)
    ));
    assert!(matches!(
        AirlyClient::new(String::from("0123456789abcdef0123456789abcdef0")),
        Err(AirlyError::InvalidKey)
    ));
    assert!(AirlyClient::new(well_formed_key()).is_ok());
}

#[test]
fn client_requires_header_safe_key_characters() {
    let with_newline = format!("{}\n{}", "0123456789abcdef", "0123456789abcde");
    assert_eq!(with_newline.chars().count(), 32);
    assert!(matches!(
        AirlyClient::new(with_newline),
        Err(AirlyError::InvalidKey)
    ));
}

#[test]
fn nameless_index_type_fails_before_any_network_call() {
    let client = AirlyClient::new(well_formed_key()).unwrap();
    let nameless = IndexType { name: None, level: None };
    let point = GeoPoint::new(54_347_279, 18_653_846).unwrap();
    let circle = GeoCircle::new(point, 5).unwrap();
    assert!(matches!(
        client.get_installation_measurements_with_wind(34, nameless.clone()),
        Err(AirlyError::InvalidInput)
    ));
    assert!(matches!(
        client.get_installation_measurements_without_wind(34, nameless.clone()),
        Err(AirlyError::InvalidInput)
    ));
    assert!(matches!(
        client.get_measurements_nearest(nameless.clone(), &circle),
        Err(AirlyError::InvalidInput)
    ));
    assert!(matches!(
        client.get_measurements_point(nameless, &point),
        Err(AirlyError::InvalidInput)
    ));
}

#[test]
fn client_is_reusable_across_calls() {
    let client = AirlyClient::new(well_formed_key()).unwrap();
    let nameless = IndexType { name: None, level: None };
    let point = GeoPoint::new(0, 0).unwrap();
    for _ in 0..3 {
        assert!(matches!(
            client.get_measurements_point(nameless.clone(), &point),
            Err(AirlyError::InvalidInput)
        ));
    }
}

#[test]
fn error_categories_are_distinct() {
    assert_eq!(AirlyError::InvalidKey.category(), "invalid key");
    assert_eq!(AirlyError::OutOfBounds.category(), "out of bounds");
    assert_eq!(AirlyError::InvalidInput.category(), "invalid input");
    assert_eq!(
        AirlyError::Transport(String::from("x")).category(),
        "transport"
    );
    assert_eq!(
        AirlyError::Deserialization(String::from("x")).category(),
        "deserialization"
    );
}

#[test]
fn transport_failures_surface_as_transport_errors() {
    let client = AirlyClient::new(well_formed_key()).unwrap();
    // The test build carries no TLS backend and has no network, so the GET
    // itself must fail, and the failure must be the transport kind.
    assert!(matches!(
        client.get_installation(34),
        Err(AirlyError::Transport(_))
    ));
}
