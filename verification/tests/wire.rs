use faas_rust::codec::{decode_batch, decode_bundle, decode_structured, encode_batch, encode_bundle, encode_structured};
use faas_rust::common::{Encoding, EventRequest, EventResponse, InputShape};
use faas_rust::errors::FaasError;
use faas_rust::event::{Event, Payload, SpecVersion};
use faas_rust::http::{read_cloud_event, write_cloud_event};
use faas_rust::timestamp::parse_rfc3339;

fn hv(headers: &[(&str, &str)]) -> Vec<(String, String)> {
    headers
        .iter()
        .map(|(k, v)| (k.to_string(), v.to_string()))
        .collect()
}

fn header_of<'a>(hs: &'a [(String, String)], name: &str) -> Option<&'a str> {
    hs.iter().find(|p| p.0 == name).map(|p| p.1.as_str())
}

#[test]
fn binary_request_decodes_and_reencodes() {
    // four context headers, a plain content type, and a JSON body
    let headers = hv(&[
        ("ce-id", "A1"),
        ("ce-type", "t"),
        ("ce-source", "s"),
        ("ce-specversion", "1.0-rc1"),
        ("content-type", "application/json"),
    ]);
    let body = b"{\"a\":1}";
    let r = read_cloud_event(&InputShape::SingleRequired, &headers, body).unwrap();
    let (enc, req) = r.unwrap();
    assert_eq!(enc, Encoding::BINARY);
    let e = match req {
        EventRequest::Binary(Some(e)) => e,
        _ => panic!("expected a binary event"),
    };
    assert_eq!(e.id, "A1");
    assert_eq!(e.event_type, "t");
    assert_eq!(e.source, "s");
    assert_eq!(e.spec_version, SpecVersion::V10);
    let p = e.payload.clone().unwrap();
    assert_eq!(p.content_type, "application/json");
    assert_eq!(p.data, "{\"a\":1}");

    // re-encoding in binary mode reproduces the context headers and the body
    let w = write_cloud_event(EventResponse::Binary(Some(e))).unwrap();
    assert_eq!(w.status, 200);
    assert_eq!(header_of(&w.headers, "ce-id"), Some("A1"));
    assert_eq!(header_of(&w.headers, "ce-type"), Some("t"));
    assert_eq!(header_of(&w.headers, "ce-source"), Some("s"));
    // the newest version's wire strings are asymmetric: decode reads
    // "1.0-rc1", encode emits "1.0"
    assert_eq!(header_of(&w.headers, "ce-specversion"), Some("1.0"));
    assert_eq!(header_of(&w.headers, "content-type"), Some("application/json"));
    assert_eq!(w.body, b"{\"a\":1}".to_vec());
}

#[test]
fn no_content_type_and_no_ce_id_is_no_event() {
    let headers = hv(&[("accept", "whatever")]);
    let r = read_cloud_event(&InputShape::SingleOptional, &headers, b"anything").unwrap();
    assert!(r.is_none());
    // the resulting response is 202 Accepted with an empty body
    let w = faas_rust::http::accepted_response();
    assert_eq!(w.status, 202);
    assert!(w.body.is_empty());
    assert!(w.headers.is_empty());
}

#[test]
fn ce_id_without_content_type_is_binary_without_payload() {
    let headers = hv(&[
        ("ce-id", "A1"),
        ("ce-type", "t"),
        ("ce-source", "s"),
        ("ce-specversion", "0.3"),
    ]);
    let r = read_cloud_event(&InputShape::SingleRequired, &headers, b"").unwrap();
    let (enc, req) = r.unwrap();
    assert_eq!(enc, Encoding::BINARY);
    let e = match req {
        EventRequest::Binary(Some(e)) => e,
        _ => panic!("expected a binary event"),
    };
    assert_eq!(e.payload, None);
    // the response carries the four context headers and no body
    let w = write_cloud_event(EventResponse::Binary(Some(e))).unwrap();
    assert_eq!(w.status, 200);
    assert_eq!(header_of(&w.headers, "ce-id"), Some("A1"));
    assert_eq!(header_of(&w.headers, "ce-specversion"), Some("0.3"));
    assert_eq!(header_of(&w.headers, "ce-source"), Some("s"));
    assert_eq!(header_of(&w.headers, "ce-type"), Some("t"));
    assert_eq!(header_of(&w.headers, "content-type"), None);
    assert!(w.body.is_empty());
}

#[test]
fn structured_content_type_with_empty_body_fails() {
    let headers = hv(&[("content-type", "application/cloudevents+json")]);
    let r = read_cloud_event(&InputShape::SingleRequired, &headers, b"");
    match r {
        Err(FaasError::EmptyBody(ct)) => {
            assert_eq!(ct, "application/cloudevents+json");
            let w = faas_rust::http::error_response(&FaasError::EmptyBody(ct));
            assert_eq!(w.status, 400);
        }
        _ => panic!("expected an empty-body failure"),
    }
}

#[test]
fn binary_content_type_with_empty_body_fails() {
    let headers = hv(&[
        ("ce-id", "A1"),
        ("ce-type", "t"),
        ("ce-source", "s"),
        ("ce-specversion", "0.3"),
        ("content-type", "text/plain"),
    ]);
    let r = read_cloud_event(&InputShape::SingleRequired, &headers, b"");
    assert!(matches!(r, Err(FaasError::EmptyBody(_))));
}

#[test]
fn missing_mandatory_header_is_reported_by_name() {
    let headers = hv(&[
        ("ce-id", "A1"),
        ("ce-source", "s"),
        ("ce-specversion", "0.3"),
    ]);
    let r = read_cloud_event(&InputShape::SingleRequired, &headers, b"");
    match r {
        Err(FaasError::MissingHeader(h)) => assert_eq!(h, "ce-type"),
        _ => panic!("expected a missing-header failure"),
    }
}

#[test]
fn unknown_specversion_header_fails() {
    let headers = hv(&[
        ("ce-id", "A1"),
        ("ce-type", "t"),
        ("ce-source", "s"),
        ("ce-specversion", "1.0"),
    ]);
    let r = read_cloud_event(&InputShape::SingleRequired, &headers, b"");
    match r {
        Err(FaasError::InvalidVersion(v)) => assert_eq!(v, "1.0"),
        _ => panic!("expected an invalid-version failure"),
    }
}

#[test]
fn malformed_ce_time_is_silently_dropped() {
    let headers = hv(&[
        ("ce-id", "A1"),
        ("ce-type", "t"),
        ("ce-source", "s"),
        ("ce-specversion", "0.2"),
        ("ce-time", "not-a-time"),
    ]);
    let r = read_cloud_event(&InputShape::SingleRequired, &headers, b"").unwrap();
    let (_, req) = r.unwrap();
    match req {
        EventRequest::Binary(Some(e)) => {
            assert_eq!(e.spec_version, SpecVersion::V02);
            assert_eq!(e.time, None);
        }
        _ => panic!("expected a binary event"),
    }
}

#[test]
fn structured_round_trip_keeps_every_field() {
    let e = Event {
        id: "idX".to_string(),
        source: "srcX".to_string(),
        spec_version: SpecVersion::V03,
        event_type: "tyX".to_string(),
        subject: Some("subX".to_string()),
        time: Some(parse_rfc3339("2019-12-31T23:59:59.250000000+05:30").unwrap()),
        payload: Some(Payload {
            content_type: "text/plain".to_string(),
            data: "line1\nline2 \"quoted\" \\slash\u{1}".to_string(),
        }),
        extensions: vec![("stuff".to_string(), "aaa".to_string())],
    };
    let text = encode_structured(&e);
    let back = decode_structured(&text).unwrap();
    assert_eq!(back, e);
}

#[test]
fn binary_round_trip_keeps_every_field() {
    let e = Event {
        id: "idY".to_string(),
        source: "srcY".to_string(),
        spec_version: SpecVersion::V02,
        event_type: "tyY".to_string(),
        subject: Some("subY".to_string()),
        time: Some(parse_rfc3339("2020-02-29T00:00:00Z").unwrap()),
        payload: Some(Payload {
            content_type: "text/plain".to_string(),
            data: "payload text".to_string(),
        }),
        extensions: Vec::new(),
    };
    let w = write_cloud_event(EventResponse::Binary(Some(e.clone()))).unwrap();
    let r = read_cloud_event(&InputShape::SingleRequired, &w.headers, &w.body).unwrap();
    let (enc, req) = r.unwrap();
    assert_eq!(enc, Encoding::BINARY);
    match req {
        EventRequest::Binary(Some(back)) => assert_eq!(back, e),
        _ => panic!("expected a binary event"),
    }
}

#[test]
fn header_order_does_not_matter() {
    let body = b"x";
    let h1 = hv(&[
        ("ce-id", "A1"),
        ("ce-type", "t"),
        ("ce-source", "s"),
        ("ce-specversion", "0.3"),
        ("content-type", "text/plain"),
    ]);
    let h2 = hv(&[
        ("content-type", "text/plain"),
        ("ce-specversion", "0.3"),
        ("ce-source", "s"),
        ("ce-type", "t"),
        ("ce-id", "A1"),
    ]);
    let r1 = read_cloud_event(&InputShape::SingleRequired, &h1, body).unwrap();
    let r2 = read_cloud_event(&InputShape::SingleRequired, &h2, body).unwrap();
    match (r1.unwrap().1, r2.unwrap().1) {
        (EventRequest::Binary(Some(e1)), EventRequest::Binary(Some(e2))) => assert_eq!(e1, e2),
        _ => panic!("expected binary events"),
    }
}

#[test]
fn structured_batch_decodes_when_a_list_is_declared() {
    let headers = hv(&[("content-type", "application/cloudevents+json")]);
    let body = "[{\"id\":\"a\",\"source\":\"s\",\"specversion\":\"0.3\",\"type\":\"t\"},{\"id\":\"b\",\"source\":\"s\",\"specversion\":\"0.2\",\"type\":\"t\"}]";
    let r = read_cloud_event(&InputShape::EventList, &headers, body.as_bytes()).unwrap();
    let (enc, req) = r.unwrap();
    assert_eq!(enc, Encoding::STRUCTURED);
    match req {
        EventRequest::Batch(es) => {
            assert_eq!(es.len(), 2);
            assert_eq!(es[0].id, "a");
            assert_eq!(es[1].id, "b");
            assert_eq!(es[1].spec_version, SpecVersion::V02);
        }
        _ => panic!("expected a batch"),
    }
}

#[test]
fn structured_bundle_decodes_when_a_bundle_is_declared() {
    let headers = hv(&[("content-type", "application/cloudevents+json")]);
    let body = "{\"a\":{\"id\":\"a\",\"source\":\"s\",\"specversion\":\"0.3\",\"type\":\"t\"},\"b\":{\"id\":\"b\",\"source\":\"s\",\"specversion\":\"0.3\",\"type\":\"t\"}}";
    let keys = vec![("a".to_string(), true), ("b".to_string(), true)];
    let r = read_cloud_event(&InputShape::NamedBundle(keys), &headers, body.as_bytes()).unwrap();
    let (enc, req) = r.unwrap();
    assert_eq!(enc, Encoding::STRUCTURED);
    match req {
        EventRequest::Bundle(es) => {
            assert_eq!(es.len(), 2);
            assert_eq!(es[0].0, "a");
            assert_eq!(es[1].0, "b");
        }
        _ => panic!("expected a bundle"),
    }
}

#[test]
fn malformed_json_body_fails_with_decode_error() {
    let headers = hv(&[("content-type", "application/cloudevents+json")]);
    let r = read_cloud_event(&InputShape::SingleRequired, &headers, b"{\"id\":1}");
    assert!(matches!(r, Err(FaasError::Decode(_))));
}

#[test]
fn duplicate_field_fails_with_decode_error() {
    let body = "{\"id\":\"a\",\"id\":\"b\",\"source\":\"s\",\"specversion\":\"0.3\",\"type\":\"t\"}";
    assert!(matches!(decode_structured(body), Err(FaasError::Decode(_))));
}

#[test]
fn unicode_escapes_decode_to_their_characters() {
    let body = "{\"id\":\"\\u0041\\t\",\"source\":\"s\",\"specversion\":\"0.3\",\"type\":\"caf\u{e9}\"}";
    let e = decode_structured(body).unwrap();
    assert_eq!(e.id, "A\t");
    assert_eq!(e.event_type, "caf\u{e9}");
}

#[test]
fn batch_and_bundle_responses_use_their_fixed_media_types() {
    let e = Event {
        id: "i".to_string(),
        source: "s".to_string(),
        spec_version: SpecVersion::V03,
        event_type: "t".to_string(),
        subject: None,
        time: None,
        payload: None,
        extensions: Vec::new(),
    };
    let wb = write_cloud_event(EventResponse::Batch(vec![e.clone()])).unwrap();
    assert_eq!(wb.status, 200);
    assert_eq!(
        header_of(&wb.headers, "content-type"),
        Some("application/cloudevents-batch+json")
    );
    let wn = write_cloud_event(EventResponse::Bundle(vec![("n".to_string(), e)])).unwrap();
    assert_eq!(
        header_of(&wn.headers, "content-type"),
        Some("application/cloudevents-bundle+json")
    );
}

#[test]
fn batch_and_bundle_texts_round_trip() {
    let e1 = Event {
        id: "one".to_string(),
        source: "s".to_string(),
        spec_version: SpecVersion::V03,
        event_type: "t".to_string(),
        subject: None,
        time: None,
        payload: None,
        extensions: Vec::new(),
    };
    let mut e2 = e1.clone();
    e2.id = "two".to_string();
    e2.payload = Some(Payload { content_type: "text/plain".to_string(), data: "d".to_string() });
    let batch = vec![e1.clone(), e2.clone()];
    assert_eq!(decode_batch(&encode_batch(&batch)).unwrap(), batch);
    let bundle = vec![("a".to_string(), e1), ("b".to_string(), e2)];
    assert_eq!(decode_bundle(&encode_bundle(&bundle)).unwrap(), bundle);
}

#[test]
fn insignificant_whitespace_is_tolerated() {
    let body = " {\n\t\"id\" : \"a\" ,\n \"source\":\"s\", \"specversion\": \"0.3\", \"type\": \"t\" }\n";
    let e = decode_structured(body).unwrap();
    assert_eq!(e.id, "a");
    assert_eq!(e.spec_version, SpecVersion::V03);
}
