use faas_rust::common::{
    Encoding, EventRequest, EventResponse, InputShape, OutputShape, ShapeDescriptor,
};
use faas_rust::event::{Mapper, Reader, Writer};
use faas_rust::dispatch::{extract_input, handle_event, wrap_output, HandlerInput, HandlerOutcome};
use faas_rust::errors::FaasError;
use faas_rust::event::{Event, Payload, SpecVersion};
use faas_rust::timestamp::Timestamp;

fn sample_event(id: &str) -> Event {
    Event {
        id: id.to_string(),
        source: "src".to_string(),
        spec_version: SpecVersion::V03,
        event_type: "ty".to_string(),
        subject: None,
        time: None,
        payload: None,
        extensions: Vec::new(),
    }
}

#[test]
fn bundle_descriptor_rejects_a_batch_request() {
    let keys = vec![("a".to_string(), true), ("b".to_string(), true)];
    let shape = InputShape::NamedBundle(keys);
    let req = EventRequest::Batch(vec![sample_event("x")]);
    match extract_input(&shape, req) {
        Err(FaasError::UnsupportedShape(_, _)) => {}
        _ => panic!("expected an unsupported-shape failure"),
    }
}

#[test]
fn bundle_descriptor_reports_the_missing_key() {
    let keys = vec![("a".to_string(), true), ("b".to_string(), true)];
    let shape = InputShape::NamedBundle(keys);
    let req = EventRequest::Bundle(vec![("a".to_string(), sample_event("x"))]);
    match extract_input(&shape, req) {
        Err(FaasError::MissingParameter(k)) => assert_eq!(k, "b"),
        _ => panic!("expected a missing-parameter failure"),
    }
}

#[test]
fn bundle_descriptor_binds_optional_keys_to_nothing() {
    let keys = vec![("a".to_string(), true), ("b".to_string(), false)];
    let shape = InputShape::NamedBundle(keys);
    let req = EventRequest::Bundle(vec![("a".to_string(), sample_event("x"))]);
    match extract_input(&shape, req) {
        Ok(HandlerInput::Named(args)) => {
            assert_eq!(args.len(), 2);
            assert_eq!(args[0].as_ref().unwrap().id, "x");
            assert!(args[1].is_none());
        }
        _ => panic!("expected named arguments"),
    }
}

#[test]
fn single_required_rejects_an_absent_event() {
    let r = extract_input(&InputShape::SingleRequired, EventRequest::Binary(None));
    assert!(matches!(r, Err(FaasError::MissingEvent)));
}

#[test]
fn single_optional_passes_an_absent_event_through() {
    let r = extract_input(&InputShape::SingleOptional, EventRequest::Structured(None));
    assert!(matches!(r, Ok(HandlerInput::OptionalSingle(None))));
}

#[test]
fn list_descriptor_accepts_a_single_event_as_short_list() {
    let r = extract_input(
        &InputShape::EventList,
        EventRequest::Binary(Some(sample_event("x"))),
    );
    match r {
        Ok(HandlerInput::List(es)) => {
            assert_eq!(es.len(), 1);
            assert_eq!(es[0].id, "x");
        }
        _ => panic!("expected a list"),
    }
    let r2 = extract_input(&InputShape::EventList, EventRequest::Structured(None));
    match r2 {
        Ok(HandlerInput::List(es)) => assert!(es.is_empty()),
        _ => panic!("expected a list"),
    }
}

#[test]
fn single_outcomes_answer_in_the_request_encoding() {
    let e = sample_event("x");
    let r1 = wrap_output(Encoding::BINARY, HandlerOutcome::Single(e.clone()));
    assert!(matches!(r1, EventResponse::Binary(Some(_))));
    let r2 = wrap_output(Encoding::STRUCTURED, HandlerOutcome::Single(e.clone()));
    assert!(matches!(r2, EventResponse::Structured(Some(_))));
    let r3 = wrap_output(Encoding::STRUCTURED, HandlerOutcome::OptionalSingle(None));
    assert!(matches!(r3, EventResponse::Structured(None)));
    // batch and bundle outcomes keep their fixed forms whatever the encoding
    let r4 = wrap_output(Encoding::BINARY, HandlerOutcome::List(vec![e.clone()]));
    assert!(matches!(r4, EventResponse::Batch(_)));
    let r5 = wrap_output(
        Encoding::BINARY,
        HandlerOutcome::Named(vec![("n".to_string(), e)]),
    );
    assert!(matches!(r5, EventResponse::Bundle(_)));
}

fn echo_shape() -> ShapeDescriptor {
    ShapeDescriptor { input: InputShape::SingleRequired, output: OutputShape::Single }
}

#[test]
fn handle_event_echoes_in_the_request_encoding() {
    let headers = vec![
        ("ce-id".to_string(), "A1".to_string()),
        ("ce-type".to_string(), "t".to_string()),
        ("ce-source".to_string(), "s".to_string()),
        ("ce-specversion".to_string(), "0.3".to_string()),
        ("content-type".to_string(), "text/plain".to_string()),
    ];
    let w = handle_event(&echo_shape(), &headers, b"hello", |input| match input {
        HandlerInput::Single(e) => Ok(HandlerOutcome::Single(e)),
        _ => Err("unexpected arguments".to_string()),
    });
    assert_eq!(w.status, 200);
    let id = w.headers.iter().find(|p| p.0 == "ce-id").map(|p| p.1.clone());
    assert_eq!(id, Some("A1".to_string()));
    assert_eq!(w.body, b"hello".to_vec());
}

#[test]
fn handle_event_answers_202_when_nothing_arrives() {
    let headers: Vec<(String, String)> = Vec::new();
    let w = handle_event(&echo_shape(), &headers, b"", |_input| {
        Ok(HandlerOutcome::OptionalSingle(None))
    });
    assert_eq!(w.status, 202);
    assert!(w.body.is_empty());
}

#[test]
fn handle_event_answers_400_on_a_decode_failure() {
    let headers = vec![(
        "content-type".to_string(),
        "application/cloudevents+json".to_string(),
    )];
    let w = handle_event(&echo_shape(), &headers, b"", |input| match input {
        HandlerInput::Single(e) => Ok(HandlerOutcome::Single(e)),
        _ => Err("unexpected arguments".to_string()),
    });
    assert_eq!(w.status, 400);
}

#[test]
fn handle_event_answers_400_when_the_handler_fails() {
    let headers = vec![
        ("ce-id".to_string(), "A1".to_string()),
        ("ce-type".to_string(), "t".to_string()),
        ("ce-source".to_string(), "s".to_string()),
        ("ce-specversion".to_string(), "0.3".to_string()),
    ];
    let w = handle_event(&echo_shape(), &headers, b"", |_input| {
        Err::<HandlerOutcome, String>("the business logic declined".to_string())
    });
    assert_eq!(w.status, 400);
}

#[test]
fn handle_event_answers_500_on_an_unencodable_outcome() {
    let headers = vec![
        ("ce-id".to_string(), "A1".to_string()),
        ("ce-type".to_string(), "t".to_string()),
        ("ce-source".to_string(), "s".to_string()),
        ("ce-specversion".to_string(), "0.3".to_string()),
    ];
    let w = handle_event(&echo_shape(), &headers, b"", |_input| {
        let mut e = sample_event("bad");
        // month 13 names no calendar date, so this outcome cannot be encoded
        e.time = Some(Timestamp {
            year: 2020,
            month: 13,
            day: 1,
            hour: 0,
            minute: 0,
            second: 0,
            nanos: 0,
            offset_negative: false,
            offset_hour: 0,
            offset_minute: 0,
        });
        Ok(HandlerOutcome::Single(e))
    });
    assert_eq!(w.status, 500);
}

#[test]
fn handle_event_serves_a_bundle_handler_end_to_end() {
    let headers = vec![(
        "content-type".to_string(),
        "application/cloudevents+json".to_string(),
    )];
    let body = "{\"a\":{\"id\":\"a\",\"source\":\"s\",\"specversion\":\"0.3\",\"type\":\"t\"},\"b\":{\"id\":\"b\",\"source\":\"s\",\"specversion\":\"0.3\",\"type\":\"t\"}}";
    let shape = ShapeDescriptor {
        input: InputShape::NamedBundle(vec![("a".to_string(), true), ("b".to_string(), true)]),
        output: OutputShape::EventList,
    };
    let w = handle_event(&shape, &headers, body.as_bytes(), |input| match input {
        HandlerInput::Named(args) => Ok(HandlerOutcome::List(
            args.into_iter().flatten().collect(),
        )),
        _ => Err("unexpected arguments".to_string()),
    });
    assert_eq!(w.status, 200);
    let ct = w
        .headers
        .iter()
        .find(|p| p.0 == "content-type")
        .map(|p| p.1.clone());
    assert_eq!(ct, Some("application/cloudevents-batch+json".to_string()));
}

#[test]
fn payload_writing_builds_a_new_event() {
    let mut e = sample_event("w");
    assert!(e.read_payload().is_none());
    e.write_payload("application/json", "{\"x\":1}").unwrap();
    match e.read_payload_with_content_type() {
        Some(Ok((ct, d))) => {
            assert_eq!(ct, "application/json");
            assert_eq!(d, "{\"x\":1}");
        }
        _ => panic!("expected a payload"),
    }
    let n = e.clone_with_new_payload("text/plain", "other").unwrap();
    assert_eq!(
        n.payload,
        Some(Payload { content_type: "text/plain".to_string(), data: "other".to_string() })
    );
    assert_eq!(
        e.payload,
        Some(Payload {
            content_type: "application/json".to_string(),
            data: "{\"x\":1}".to_string()
        })
    );
    let mapped = e.map_payload(|d| d.replace('1', "2")).unwrap();
    assert_eq!(mapped.payload.unwrap().data, "{\"x\":2}");
    let opt: Option<Event> = None;
    assert!(opt.read_payload().is_none());
}

#[test]
fn fresh_events_carry_the_defaults() {
    let e = Event::new();
    assert_eq!(e.id.len(), 36);
    assert_eq!(e.spec_version, SpecVersion::V03);
    assert_eq!(e.event_type, "generated.rust-faas-runtime");
    assert!(e.subject.is_none());
    assert!(e.time.is_none());
    assert!(e.payload.is_none());
    assert!(e.extensions.is_empty());
    let e2 = Event::new();
    // fresh identifiers are unique per occurrence
    assert_ne!(e.id, e2.id);
}
