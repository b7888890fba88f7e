use faas_rust::codec::encode_structured;
use faas_rust::event::{Event, SpecVersion};
use faas_rust::timestamp::{format_ts, parse_rfc3339, Timestamp};

#[test]
fn rfc3339_parses_its_fields() {
    let t = parse_rfc3339("2018-04-05T17:31:00Z").unwrap();
    assert_eq!(t.year, 2018);
    assert_eq!(t.month, 4);
    assert_eq!(t.day, 5);
    assert_eq!(t.hour, 17);
    assert_eq!(t.minute, 31);
    assert_eq!(t.second, 0);
    assert_eq!(t.nanos, 0);
    assert!(!t.offset_negative);
    assert_eq!(t.offset_hour, 0);
    assert_eq!(t.offset_minute, 0);
}

#[test]
fn rfc3339_reads_fractions_and_offsets() {
    let t = parse_rfc3339("2019-12-31t23:59:58.5-08:15").unwrap();
    assert_eq!(t.second, 58);
    assert_eq!(t.nanos, 500000000);
    assert!(t.offset_negative);
    assert_eq!(t.offset_hour, 8);
    assert_eq!(t.offset_minute, 15);
}

#[test]
fn rfc3339_formats_canonically() {
    let t = parse_rfc3339("2018-04-05T17:31:00Z").unwrap();
    // the canonical rendering always writes a numeric offset
    assert_eq!(format_ts(&t), "2018-04-05T17:31:00+00:00");
    let u = parse_rfc3339("2019-12-31T23:59:58.25-08:15").unwrap();
    assert_eq!(format_ts(&u), "2019-12-31T23:59:58.250000000-08:15");
}

#[test]
fn rfc3339_round_trips_through_its_rendering() {
    let t = Timestamp {
        year: 2021,
        month: 2,
        day: 28,
        hour: 6,
        minute: 7,
        second: 8,
        nanos: 123456789,
        offset_negative: true,
        offset_hour: 3,
        offset_minute: 30,
    };
    let s = format_ts(&t);
    assert_eq!(parse_rfc3339(&s), Some(t));
}

#[test]
fn rfc3339_rejects_impossible_dates() {
    assert!(parse_rfc3339("2019-02-29T00:00:00Z").is_none());
    assert!(parse_rfc3339("2020-02-29T00:00:00Z").is_some());
    assert!(parse_rfc3339("2020-13-01T00:00:00Z").is_none());
    assert!(parse_rfc3339("2020-01-32T00:00:00Z").is_none());
    assert!(parse_rfc3339("2020-01-01T24:00:00Z").is_none());
    assert!(parse_rfc3339("2020-01-01T00:00:00").is_none());
    assert!(parse_rfc3339("2020-01-01T00:00:00Zjunk").is_none());
}

#[test]
fn negative_zero_offset_normalizes_to_positive() {
    let t = parse_rfc3339("2020-01-01T00:00:00-00:00").unwrap();
    assert!(!t.offset_negative);
    assert_eq!(format_ts(&t), "2020-01-01T00:00:00+00:00");
}

#[test]
fn specversion_wire_strings_are_asymmetric() {
    assert_eq!(SpecVersion::try_from_wire("0.2"), Some(SpecVersion::V02));
    assert_eq!(SpecVersion::try_from_wire("0.3"), Some(SpecVersion::V03));
    assert_eq!(SpecVersion::try_from_wire("1.0-rc1"), Some(SpecVersion::V10));
    assert_eq!(SpecVersion::try_from_wire("1.0"), None);
    assert_eq!(SpecVersion::V02.to_wire(), "0.2");
    assert_eq!(SpecVersion::V03.to_wire(), "0.3");
    assert_eq!(SpecVersion::V10.to_wire(), "1.0");
}

#[test]
fn structured_encoding_escapes_what_json_requires() {
    let e = Event {
        id: "a\"b\\c\u{1}".to_string(),
        source: "s".to_string(),
        spec_version: SpecVersion::V03,
        event_type: "t".to_string(),
        subject: None,
        time: None,
        payload: None,
        extensions: Vec::new(),
    };
    let text = encode_structured(&e);
    assert_eq!(
        text,
        "{\"id\":\"a\\\"b\\\\c\\u0001\",\"source\":\"s\",\"specversion\":\"0.3\",\"type\":\"t\"}"
    );
}
