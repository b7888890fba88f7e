use faas_rust::codec::decode_structured;
use faas_rust::event::SpecVersion;
use faas_rust::timestamp::parse_rfc3339;

#[test]
fn test_serialize_no_payload_no_extensions() {
    let expected_id = "A234-1234-1234";
    let expected_spec_version = SpecVersion::V10;
    let expected_type = "com.github.pull.create";
    let expected_source = "https://github.com/cloudevents/spec/pull";
    let expected_subject = "123";
    let expected_time = parse_rfc3339("2018-04-05T17:31:00Z").unwrap();

    let j = "{\"id\":\"A234-1234-1234\",\"specversion\":\"1.0-rc1\",\"type\":\"com.github.pull.create\",\"source\":\"https://github.com/cloudevents/spec/pull\",\"subject\":\"123\",\"time\":\"2018-04-05T17:31:00Z\"}";

    let v = decode_structured(j).unwrap();

    assert_eq!(v.id, expected_id);
    assert_eq!(v.spec_version, expected_spec_version);
    assert_eq!(v.event_type, expected_type);
    assert_eq!(v.source, expected_source);
    assert_eq!(v.subject, Some(expected_subject.to_string()));
    assert_eq!(v.time, Some(expected_time));
    assert_eq!(v.payload, None);
    assert!(v.extensions.is_empty());
}

#[test]
fn test_serialize_no_payload_with_extensions() {
    let expected_id = "A234-1234-1234";
    let expected_spec_version = SpecVersion::V10;
    let expected_type = "com.github.pull.create";
    let expected_source = "https://github.com/cloudevents/spec/pull";
    let expected_subject = "123";
    let expected_time = parse_rfc3339("2018-04-05T17:31:00Z").unwrap();
    let expected_stuff = "aaa";

    let j = "{\"id\":\"A234-1234-1234\",\"specversion\":\"1.0-rc1\",\"type\":\"com.github.pull.create\",\"source\":\"https://github.com/cloudevents/spec/pull\",\"subject\":\"123\",\"time\":\"2018-04-05T17:31:00Z\",\"stuff\":\"aaa\"}";

    let v = decode_structured(j).unwrap();

    assert_eq!(v.id, expected_id);
    assert_eq!(v.spec_version, expected_spec_version);
    assert_eq!(v.event_type, expected_type);
    assert_eq!(v.source, expected_source);
    assert_eq!(v.subject, Some(expected_subject.to_string()));
    assert_eq!(v.time, Some(expected_time));
    assert_eq!(v.payload, None);
    assert!(!v.extensions.is_empty());
    assert_eq!(
        v.extensions
            .iter()
            .find(|p| p.0 == "stuff")
            .map(|p| p.1.clone()),
        Some(expected_stuff.to_string())
    );
}

#[test]
fn test_serialize_with_payload_with_extensions() {
    let expected_id = "A234-1234-1234";
    let expected_spec_version = SpecVersion::V10;
    let expected_type = "com.github.pull.create";
    let expected_source = "https://github.com/cloudevents/spec/pull";
    let expected_subject = "123";
    let expected_time = parse_rfc3339("2018-04-05T17:31:00Z").unwrap();
    let expected_stuff = "aaa";
    let expected_content_type = "application/json";
    let expected_data = r#"{"hello":"world"}"#;

    let j = "{\"id\":\"A234-1234-1234\",\"specversion\":\"1.0-rc1\",\"type\":\"com.github.pull.create\",\"source\":\"https://github.com/cloudevents/spec/pull\",\"subject\":\"123\",\"time\":\"2018-04-05T17:31:00Z\",\"stuff\":\"aaa\",\"datacontenttype\":\"application/json\",\"data\":\"{\\\"hello\\\":\\\"world\\\"}\"}";

    let v = decode_structured(j).unwrap();

    assert_eq!(v.id, expected_id);
    assert_eq!(v.spec_version, expected_spec_version);
    assert_eq!(v.event_type, expected_type);
    assert_eq!(v.source, expected_source);
    assert_eq!(v.subject, Some(expected_subject.to_string()));
    assert_eq!(v.time, Some(expected_time));
    let p = v.payload.clone().unwrap();
    assert_eq!(p.content_type, expected_content_type);
    assert_eq!(p.data, expected_data);
    assert!(!v.extensions.is_empty());
    assert_eq!(
        v.extensions
            .iter()
            .find(|p| p.0 == "stuff")
            .map(|p| p.1.clone()),
        Some(expected_stuff.to_string())
    );
}
