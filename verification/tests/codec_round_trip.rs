use airly::codec::{
    parse_index_types, parse_installation, parse_installations, parse_measurement_types,
    parse_measurements, serialize_measurements,
};
use airly::error::AirlyError;
use airly::types::{
    AveragedValues, Decimal, Index, Measurements, Standard, Value,
};

fn dec(s: &str) -> Decimal {
    Decimal::new(s.chars().collect()).unwrap()
}

#[test]
fn decimal_accepts_number_tokens() {
    assert!(Decimal::new("0".chars().collect()).is_ok());
    assert!(Decimal::new("-0.25".chars().collect()).is_ok());
    assert!(Decimal::new("1.5e3".chars().collect()).is_ok());
    assert!(Decimal::new("12E-7".chars().collect()).is_ok());
    assert!(Decimal::new("01".chars().collect()).is_err());
    assert!(Decimal::new("--1".chars().collect()).is_err());
    assert!(Decimal::new("1.".chars().collect()).is_err());
    assert!(Decimal::new("".chars().collect()).is_err());
    assert!(matches!(
        Decimal::new("x".chars().collect()),
        Err(AirlyError::InvalidInput)
    ));
}

#[test]
fn decimal_from_int_prints_exactly() {
    let neg: String = Decimal::from_int(-42).chars().iter().collect();
    assert_eq!(neg, "-42");
    let zero: String = Decimal::from_int(0).chars().iter().collect();
    assert_eq!(zero, "0");
}

fn sample_measurements() -> Measurements {
    Measurements {
        current: Some(AveragedValues {
            from_date_time: Some(String::from("2024-01-01T00:00:00.000Z")),
            till_date_time: Some(String::from("2024-01-01T01:00:00.000Z")),
            values: vec![
                Value { name: Some(String::from("PM10")), value: Some(dec("12.5")) },
                Value { name: Some(String::from("PM\"2.5\"\\\n")), value: None },
                Value { name: None, value: Some(dec("-0.25")) },
            ],
            indexes: vec![Index {
                name: Some(String::from("AIRLY_CAQI")),
                value: Some(dec("23.4")),
                level: Some(String::from("LOW")),
                description: None,
                advice: Some(String::from("Enjoy the air")),
                color: Some(String::from("#D1CF1E")),
            }],
            standards: vec![Standard {
                name: Some(String::from("WHO")),
                pollutant: Some(String::from("PM10")),
                limit: Some(dec("50")),
                percent: Some(dec("25.1")),
            }],
        }),
        history: vec![AveragedValues {
            from_date_time: None,
            till_date_time: None,
            values: vec![],
            indexes: vec![],
            standards: vec![],
        }],
        forecast: vec![],
    }
}

#[test]
fn measurements_round_trip_keeps_every_field() {
    let m = sample_measurements();
    let text = serialize_measurements(&m);
    let back = parse_measurements(&text).unwrap();
    assert_eq!(back, m);
}

#[test]
fn measurements_round_trip_keeps_absent_fields_absent() {
    let m = Measurements { current: None, history: vec![], forecast: vec![] };
    let text = serialize_measurements(&m);
    assert_eq!(text, "{\"history\":[],\"forecast\":[]}");
    let back = parse_measurements(&text).unwrap();
    assert!(back.current.is_none());
    assert_eq!(back, m);
}

#[test]
fn parse_measurements_accepts_whitespace_and_any_member_order() {
    let body = "\n{ \"forecast\": [],\n  \"history\": [],\n  \"current\": { \"values\": [ { \"value\": 7.5, \"name\": \"PM1\" } ], \"indexes\": [], \"standards\": [],\n    \"fromDateTime\": \"2024-01-01T00:00:00Z\" } }\n";
    let m = parse_measurements(body).unwrap();
    let current = m.current.unwrap();
    assert_eq!(current.values.len(), 1);
    assert_eq!(current.values[0].name, Some(String::from("PM1")));
    assert_eq!(
        current.values[0].value,
        Some(Decimal::new("7.5".chars().collect()).unwrap())
    );
    assert_eq!(current.from_date_time, Some(String::from("2024-01-01T00:00:00Z")));
    assert!(current.till_date_time.is_none());
}

#[test]
fn parse_measurements_rejects_bad_bodies() {
    assert!(matches!(
        parse_measurements("not json"),
        Err(AirlyError::Deserialization(_))
    ));
    assert!(matches!(
        parse_measurements("{\"history\":[]}"),
        Err(AirlyError::Deserialization(_))
    ));
    assert!(matches!(
        parse_measurements("[1,2,3]"),
        Err(AirlyError::Deserialization(_))
    ));
    assert!(matches!(
        parse_measurements("{\"history\":[],\"forecast\":[]} trailing"),
        Err(AirlyError::Deserialization(_))
    ));
}

#[test]
fn parse_installation_reads_the_record() {
    let body = "{\"id\":34,\"location\":{\"latitude\":54.347279,\"longitude\":18.653846},\
        \"address\":{\"country\":\"Poland\",\"city\":\"Gda\u{144}sk\",\"street\":\"Polna\",\
        \"number\":\"5\",\"displayAddress1\":null},\"elevation\":12.25,\"airly\":true,\
        \"sponsor\":{\"id\":5,\"name\":\"Foundation\",\"logo\":\"https://example/logo.png\"}}";
    let inst = parse_installation(body).unwrap();
    assert_eq!(inst.id, 34);
    assert_eq!(inst.address.city, "Gda\u{144}sk");
    assert!(inst.address.display_address1.is_none());
    assert!(inst.airly);
    let elev: String = inst.elevation.chars().iter().collect();
    assert_eq!(elev, "12.25");
    assert_eq!(inst.sponsor.id, 5);
    assert_eq!(inst.sponsor.name, "Foundation");
    let lat: String = inst.location.latitude.chars().iter().collect();
    assert_eq!(lat, "54.347279");
}

#[test]
fn parse_installations_reads_each_element() {
    let one = "{\"id\":1,\"location\":{\"latitude\":1,\"longitude\":2},\
        \"address\":{\"country\":\"PL\",\"city\":\"A\",\"street\":\"B\",\"number\":\"1\"},\
        \"elevation\":0,\"airly\":false,\"sponsor\":{\"id\":7,\"name\":\"S\"}}";
    let body = format!("[{},{},{}]", one, one, one);
    let insts = parse_installations(&body).unwrap();
    assert!(insts.len() <= 3);
    assert_eq!(insts.len(), 3);
    assert_eq!(insts[2].sponsor.id, 7);
    let empty = parse_installations("[]").unwrap();
    assert_eq!(empty.len(), 0);
}

#[test]
fn parse_index_types_reads_levels() {
    let body = "[{\"name\":\"AIRLY_CAQI\",\"level\":{\"minValue\":0,\"mixValue\":25,\
        \"value\":\"0-25\",\"level\":\"VERY_LOW\",\"description\":\"Great\",\"color\":\"#6BC926\"}},\
        {\"name\":\"PIJP\"}]";
    let kinds = parse_index_types(body).unwrap();
    assert_eq!(kinds.len(), 2);
    assert_eq!(kinds[0].name, Some(String::from("AIRLY_CAQI")));
    let level = kinds[0].level.as_ref().unwrap();
    assert_eq!(level.min_value, Some(0));
    assert_eq!(level.max_value, Some(25));
    assert_eq!(level.level, Some(String::from("VERY_LOW")));
    assert!(kinds[1].level.is_none());
}

#[test]
fn parse_measurement_types_reads_units() {
    let body = "[{\"name\":\"PM1\",\"label\":\"PM1\",\"unit\":\"\u{b5}g/m\u{b3}\"},{\"name\":\"HUMIDITY\"}]";
    let kinds = parse_measurement_types(body).unwrap();
    assert_eq!(kinds.len(), 2);
    assert_eq!(kinds[0].unit, Some(String::from("\u{b5}g/m\u{b3}")));
    assert!(kinds[1].unit.is_none());
    assert!(kinds[1].label.is_none());
}

#[test]
fn parse_handles_escapes_and_negative_ids() {
    let body = "[{\"name\":\"a\\\"b\\\\c\\u0041\\n\",\"level\":{\"minValue\":-25}}]";
    let kinds = parse_index_types(body).unwrap();
    assert_eq!(kinds[0].name, Some(String::from("a\"b\\cA\n")));
    assert_eq!(kinds[0].level.as_ref().unwrap().min_value, Some(-25));
}
