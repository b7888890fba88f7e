//! The HTTP binding: classify one inbound request into an `EventRequest`
//! with its observed encoding, and serialize an `EventResponse` back to a
//! wire-level response.
//!
//! Headers arrive as a name/value list with lower-case names, the body as
//! bytes; the decoder consults only the recognized header names, so the
//! order of the list never matters.

use vstd::prelude::*;
use vstd::string::StringExecFns;
use vstd::utf8::decode_utf8;
use vstd::utf8::encode_utf8;
use vstd::utf8::valid_utf8;

use crate::codec::decode_batch;
use crate::codec::decode_bundle;
use crate::codec::decode_structured;
use crate::codec::encode_batch;
use crate::codec::encode_bundle;
use crate::codec::encode_structured;
use crate::codec::event_wf;
use crate::codec::spec_decode_batch;
use crate::codec::spec_decode_bundle;
use crate::codec::spec_decode_structured;
use crate::codec::spec_encode_batch;
use crate::codec::spec_encode_bundle;
use crate::codec::spec_encode_structured;
use crate::common::Encoding;
use crate::common::EventRequest;
use crate::common::EventResponse;
use crate::common::ExchangeView;
use crate::common::InputShape;
use crate::common::InputShapeView;
use crate::common::exchange_wf;
use crate::errors::FaasError;
use crate::errors::spec_error_status;
use crate::event::Event;
use crate::event::EventView;
use crate::event::Payload;
use crate::event::SpecVersion;
use crate::event::spec_version_encode_str;
use crate::event::spec_version_of_str;
use crate::strutil::bytes_to_string;
use crate::strutil::spec_contains;
use crate::strutil::str_contains;
use crate::strutil::string_to_bytes;
use crate::timestamp::format_ts;
use crate::timestamp::parse_rfc3339;
use crate::timestamp::spec_format_ts;
use crate::timestamp::spec_parse_ts;

verus! {

/// The value of the first header named `name`, if any.
pub open spec fn spec_header_val(hs: Seq<(Seq<char>, Seq<char>)>, name: Seq<char>) -> Option<
    Seq<char>,
>
    decreases hs.len(),
{
    if hs.len() == 0 {
        None
    } else if hs[0].0 == name {
        Some(hs[0].1)
    } else {
        spec_header_val(hs.drop_first(), name)
    }
}

/// Look a header up by name, first match.
pub fn header_val(headers: &Vec<(String, String)>, name: &str) -> (r: Option<String>)
    ensures
        match r {
            Some(v) => spec_header_val(headers.deep_view(), name@) == Some(v@),
            None => spec_header_val(headers.deep_view(), name@) is None,
        },
{
    let ghost dv = headers.deep_view();
    proof {
        assert(dv.subrange(0, dv.len() as int) =~= dv);
    }
    let mut i: usize = 0;
    while i < headers.len()
        invariant
            i <= headers@.len(),
            dv == headers.deep_view(),
            dv.len() == headers@.len(),
            spec_header_val(dv, name@) == spec_header_val(dv.subrange(i as int, dv.len() as int), name@),
        decreases headers@.len() - i,
    {
        proof {
            assert(dv[i as int] == (headers@[i as int].0@, headers@[i as int].1@));
            assert(dv.subrange(i as int, dv.len() as int)[0] == dv[i as int]);
        }
        if crate::strutil::str_eq(headers[i].0.as_str(), name) {
            return Some(headers[i].1.clone());
        }
        proof {
            assert(dv.subrange(i as int, dv.len() as int).drop_first() =~= dv.subrange(
                i + 1 as int,
                dv.len() as int,
            ));
        }
        i = i + 1;
    }
    proof {
        assert(dv.subrange(dv.len() as int, dv.len() as int).len() == 0);
    }
    None
}

/// What decoding one request yields: no event at all, an exchange with its
/// observed encoding, or one of the decoder's failures.
pub ghost enum ReadOutcome {
    NoEvent,
    Got(Encoding, ExchangeView),
    MissingHeader(Seq<char>),
    InvalidVersion(Seq<char>),
    EmptyBody(Seq<char>),
    Malformed,
}

/// Read the context attributes from the `ce-*` headers: `ce-id`, `ce-type`,
/// `ce-specversion` and `ce-source` are mandatory, `ce-subject` is optional,
/// and a `ce-time` that fails to parse is silently discarded rather than
/// failing the request.
pub open spec fn spec_parse_binary(
    hs: Seq<(Seq<char>, Seq<char>)>,
    payload: Option<(Seq<char>, Seq<char>)>,
) -> ReadOutcome {
    match spec_header_val(hs, "ce-id"@) {
        None => ReadOutcome::MissingHeader("ce-id"@),
        Some(id) => match spec_header_val(hs, "ce-type"@) {
            None => ReadOutcome::MissingHeader("ce-type"@),
            Some(ty) => match spec_header_val(hs, "ce-specversion"@) {
                None => ReadOutcome::MissingHeader("ce-specversion"@),
                Some(svs) => match spec_version_of_str(svs) {
                    None => ReadOutcome::InvalidVersion(svs),
                    Some(sv) => match spec_header_val(hs, "ce-source"@) {
                        None => ReadOutcome::MissingHeader("ce-source"@),
                        Some(src) => ReadOutcome::Got(
                            Encoding::BINARY,
                            ExchangeView::Binary(
                                Some(
                                    EventView {
                                        id: id,
                                        source: src,
                                        spec_version: sv,
                                        event_type: ty,
                                        subject: spec_header_val(hs, "ce-subject"@),
                                        time: match spec_header_val(hs, "ce-time"@) {
                                            Some(t) => spec_parse_ts(t),
                                            None => None,
                                        },
                                        payload: payload,
                                        extensions: Seq::empty(),
                                    },
                                ),
                            ),
                        ),
                    },
                },
            },
        },
    }
}

/// Classify one request. A `content-type` carrying the structured media
/// marker selects the structured path, whose body parses as one event, a
/// batch or a bundle according to the handler's declared input shape; any
/// other `content-type` selects the binary path with the body as payload;
/// either way an empty body is rejected. Without a `content-type`, a
/// `ce-id` header selects the binary path without payload, and otherwise
/// the request carries no event.
pub open spec fn spec_read_cloud_event(
    shape: InputShapeView,
    hs: Seq<(Seq<char>, Seq<char>)>,
    body: Seq<u8>,
) -> ReadOutcome {
    match spec_header_val(hs, "content-type"@) {
        Some(ct) => {
            if body.len() == 0 {
                ReadOutcome::EmptyBody(ct)
            } else if !valid_utf8(body) {
                ReadOutcome::Malformed
            } else if spec_contains(ct, "application/cloudevents+json"@) {
                let s = decode_utf8(body);
                match shape {
                    InputShapeView::EventList => match spec_decode_batch(s) {
                        Some(es) => ReadOutcome::Got(
                            Encoding::STRUCTURED,
                            ExchangeView::Batch(es),
                        ),
                        None => ReadOutcome::Malformed,
                    },
                    InputShapeView::NamedBundle(_) => match spec_decode_bundle(s) {
                        Some(es) => ReadOutcome::Got(
                            Encoding::STRUCTURED,
                            ExchangeView::Bundle(es),
                        ),
                        None => ReadOutcome::Malformed,
                    },
                    _ => match spec_decode_structured(s) {
                        Some(e) => ReadOutcome::Got(
                            Encoding::STRUCTURED,
                            ExchangeView::Structured(Some(e)),
                        ),
                        None => ReadOutcome::Malformed,
                    },
                }
            } else {
                spec_parse_binary(hs, Some((ct, decode_utf8(body))))
            }
        },
        None => {
            if spec_header_val(hs, "ce-id"@) is Some {
                spec_parse_binary(hs, None)
            } else {
                ReadOutcome::NoEvent
            }
        },
    }
}

/// The decoder's result stands for the outcome the algorithm names.
pub open spec fn read_result_matches(
    r: Result<Option<(Encoding, EventRequest)>, FaasError>,
    o: ReadOutcome,
) -> bool {
    match o {
        ReadOutcome::NoEvent => r matches Ok(x) && x is None,
        ReadOutcome::Got(enc, xv) => r matches Ok(x) && x matches Some(p) && p.0 == enc && p.1@
            == xv && exchange_wf(xv),
        ReadOutcome::MissingHeader(h) => r matches Err(e) && e matches FaasError::MissingHeader(s)
            && s@ == h,
        ReadOutcome::InvalidVersion(v) => r matches Err(e) && e matches FaasError::InvalidVersion(s)
            && s@ == v,
        ReadOutcome::EmptyBody(ct) => r matches Err(e) && e matches FaasError::EmptyBody(s) && s@
            == ct,
        ReadOutcome::Malformed => r matches Err(e) && e is Decode,
    }
}

/// Read the `ce-*` context headers into an event carrying `payload`.
fn parse_binary(headers: &Vec<(String, String)>, payload: Option<Payload>) -> (r: Result<
    Event,
    FaasError,
>)
    ensures
        ({
            let pv = match payload {
                Some(p) => Some((p.content_type@, p.data@)),
                None => None,
            };
            match r {
                Ok(e) => spec_parse_binary(headers.deep_view(), pv) == ReadOutcome::Got(
                    Encoding::BINARY,
                    ExchangeView::Binary(Some(e@)),
                ) && event_wf(e@),
                Err(er) => read_err_matches(er, spec_parse_binary(headers.deep_view(), pv)),
            }
        }),
{
    let id = match header_val(headers, "ce-id") {
        Some(v) => v,
        None => {
            return Err(FaasError::MissingHeader(String::from_str("ce-id")));
        },
    };
    let event_type = match header_val(headers, "ce-type") {
        Some(v) => v,
        None => {
            return Err(FaasError::MissingHeader(String::from_str("ce-type")));
        },
    };
    let svs = match header_val(headers, "ce-specversion") {
        Some(v) => v,
        None => {
            return Err(FaasError::MissingHeader(String::from_str("ce-specversion")));
        },
    };
    let spec_version = match SpecVersion::try_from_wire(svs.as_str()) {
        Some(v) => v,
        None => {
            return Err(FaasError::InvalidVersion(svs));
        },
    };
    let source = match header_val(headers, "ce-source") {
        Some(v) => v,
        None => {
            return Err(FaasError::MissingHeader(String::from_str("ce-source")));
        },
    };
    let subject = header_val(headers, "ce-subject");
    let time = match header_val(headers, "ce-time") {
        Some(t) => parse_rfc3339(t.as_str()),
        None => None,
    };
    let extensions: Vec<(String, String)> = Vec::new();
    proof {
        assert(extensions.deep_view() =~= Seq::<(Seq<char>, Seq<char>)>::empty());
    }
    Ok(Event { id, source, spec_version, event_type, subject, time, payload, extensions })
}

/// A decoder failure stands for the failing outcome the algorithm names.
pub open spec fn read_err_matches(e: FaasError, o: ReadOutcome) -> bool {
    match o {
        ReadOutcome::MissingHeader(h) => e matches FaasError::MissingHeader(s) && s@ == h,
        ReadOutcome::InvalidVersion(v) => e matches FaasError::InvalidVersion(s) && s@ == v,
        ReadOutcome::EmptyBody(ct) => e matches FaasError::EmptyBody(s) && s@ == ct,
        ReadOutcome::Malformed => e is Decode,
        _ => false,
    }
}

/// Decode one inbound request into an `EventRequest` and the wire encoding
/// it used, per the algorithm of `spec_read_cloud_event`. Header names are
/// expected in lower case, as HTTP/2-era stacks deliver them.
pub fn read_cloud_event(shape: &InputShape, headers: &Vec<(String, String)>, body: &[u8]) -> (r:
    Result<Option<(Encoding, EventRequest)>, FaasError>)
    ensures
        read_result_matches(r, spec_read_cloud_event(shape@, headers.deep_view(), body@)),
{
    match header_val(headers, "content-type") {
        Some(ct) => {
            if body.len() == 0 {
                return Err(FaasError::EmptyBody(ct));
            }
            let text = match bytes_to_string(body) {
                Some(s) => s,
                None => {
                    return Err(FaasError::Decode(String::from_str("body is not valid UTF-8")));
                },
            };
            proof {
                vstd::utf8::encode_utf8_decode_utf8(text@);
            }
            if str_contains(ct.as_str(), "application/cloudevents+json") {
                match shape {
                    InputShape::EventList => match decode_batch(text.as_str()) {
                        Ok(es) => Ok(Some((Encoding::STRUCTURED, EventRequest::Batch(es)))),
                        Err(er) => Err(er),
                    },
                    InputShape::NamedBundle(_) => match decode_bundle(text.as_str()) {
                        Ok(es) => Ok(Some((Encoding::STRUCTURED, EventRequest::Bundle(es)))),
                        Err(er) => Err(er),
                    },
                    _ => match decode_structured(text.as_str()) {
                        Ok(e) => Ok(Some((Encoding::STRUCTURED, EventRequest::Structured(Some(e))))),
                        Err(er) => Err(er),
                    },
                }
            } else {
                match parse_binary(headers, Some(Payload { content_type: ct, data: text })) {
                    Ok(e) => Ok(Some((Encoding::BINARY, EventRequest::Binary(Some(e))))),
                    Err(er) => Err(er),
                }
            }
        },
        None => {
            match header_val(headers, "ce-id") {
                Some(_) => match parse_binary(headers, None) {
                    Ok(e) => Ok(Some((Encoding::BINARY, EventRequest::Binary(Some(e))))),
                    Err(er) => Err(er),
                },
                None => Ok(None),
            }
        },
    }
}

/// The mathematical shape of a wire-level response.
#[verifier::ext_equal]
pub ghost struct WireView {
    pub status: u16,
    pub headers: Seq<(Seq<char>, Seq<char>)>,
    pub body: Seq<u8>,
}

/// One wire-level response: status, headers (the content type, where one is
/// set, travels as a `content-type` header), and body bytes.
pub struct WireResponse {
    pub status: u16,
    pub headers: Vec<(String, String)>,
    pub body: Vec<u8>,
}

impl View for WireResponse {
    type V = WireView;

    open spec fn view(&self) -> WireView {
        WireView { status: self.status, headers: self.headers.deep_view(), body: self.body@ }
    }
}

/// The headers a binary-encoded response carries: the four mandatory context
/// attributes, then the optional ones, then the payload's content type.
pub open spec fn spec_binary_headers(e: EventView) -> Seq<(Seq<char>, Seq<char>)> {
    seq![
        ("ce-id"@, e.id),
        ("ce-specversion"@, spec_version_encode_str(e.spec_version)),
        ("ce-source"@, e.source),
        ("ce-type"@, e.event_type),
    ] + (match e.subject {
        Some(s) => seq![("ce-subject"@, s)],
        None => Seq::empty(),
    }) + (match e.time {
        Some(t) => seq![("ce-time"@, spec_format_ts(t))],
        None => Seq::empty(),
    }) + (match e.payload {
        Some(p) => seq![("content-type"@, p.0)],
        None => Seq::empty(),
    })
}

/// The body a binary-encoded response carries: the payload data, or nothing.
pub open spec fn spec_binary_body(e: EventView) -> Seq<u8> {
    match e.payload {
        Some(p) => encode_utf8(p.1),
        None => Seq::empty(),
    }
}

/// What an `EventResponse` serializes to: a present single event answers 200
/// in its encoding; a batch or bundle answers 200 in its fixed structured
/// form; an absent event answers 202 with nothing.
pub open spec fn spec_write_cloud_event(x: ExchangeView) -> WireView {
    match x {
        ExchangeView::Binary(oe) => match oe {
            Some(e) => WireView {
                status: 200,
                headers: spec_binary_headers(e),
                body: spec_binary_body(e),
            },
            None => WireView { status: 202, headers: Seq::empty(), body: Seq::empty() },
        },
        ExchangeView::Structured(oe) => match oe {
            Some(e) => WireView {
                status: 200,
                headers: seq![("content-type"@, "application/cloudevents+json"@)],
                body: encode_utf8(spec_encode_structured(e)),
            },
            None => WireView { status: 202, headers: Seq::empty(), body: Seq::empty() },
        },
        ExchangeView::Batch(es) => WireView {
            status: 200,
            headers: seq![("content-type"@, "application/cloudevents-batch+json"@)],
            body: encode_utf8(spec_encode_batch(es)),
        },
        ExchangeView::Bundle(es) => WireView {
            status: 200,
            headers: seq![("content-type"@, "application/cloudevents-bundle+json"@)],
            body: encode_utf8(spec_encode_bundle(es)),
        },
    }
}

/// Push one header; stated over the deep view so serialization proofs line
/// up with the specification's sequences.
fn push_header(hs: &mut Vec<(String, String)>, name: &str, value: String)
    ensures
        final(hs).deep_view() == old(hs).deep_view().push((name@, value@)),
{
    let ghost pre = hs.deep_view();
    let ghost vpre = hs@;
    let t = (String::from_str(name), value);
    let ghost td = t.deep_view();
    hs.push(t);
    proof {
        assert forall|x: int| 0 <= x < pre.len() implies hs.deep_view()[x] == pre[x] by {
            assert(hs@[x] == vpre[x]);
        }
        assert(hs.deep_view()[pre.len() as int] == td);
        assert(hs.deep_view() =~= pre.push((name@, value@)));
    }
}

/// Serialize one event as a 200 binary-encoded response.
fn write_binary(event: Event) -> (r: WireResponse)
    requires
        event_wf(event@),
    ensures
        r@ == (WireView {
            status: 200,
            headers: spec_binary_headers(event@),
            body: spec_binary_body(event@),
        }),
{
    let ghost ev = event@;
    let mut headers: Vec<(String, String)> = Vec::new();
    proof {
        assert(headers.deep_view() =~= Seq::<(Seq<char>, Seq<char>)>::empty());
    }
    push_header(&mut headers, "ce-id", event.id);
    push_header(&mut headers, "ce-specversion", String::from_str(event.spec_version.to_wire()));
    push_header(&mut headers, "ce-source", event.source);
    push_header(&mut headers, "ce-type", event.event_type);
    match event.subject {
        Some(s) => push_header(&mut headers, "ce-subject", s),
        None => {},
    }
    match &event.time {
        Some(t) => push_header(&mut headers, "ce-time", format_ts(t)),
        None => {},
    }
    let body: Vec<u8> = match event.payload {
        Some(p) => {
            push_header(&mut headers, "content-type", p.content_type);
            string_to_bytes(p.data.as_str())
        },
        None => Vec::new(),
    };
    proof {
        assert(headers.deep_view() =~= spec_binary_headers(ev));
        assert(body@ =~= spec_binary_body(ev));
    }
    WireResponse { status: 200, headers, body }
}

/// A 200 response whose body is `text` under the given content type.
fn write_serialized(text: String, content_type: &str) -> (r: WireResponse)
    ensures
        r@ == (WireView {
            status: 200,
            headers: seq![("content-type"@, content_type@)],
            body: encode_utf8(text@),
        }),
{
    let mut headers: Vec<(String, String)> = Vec::new();
    proof {
        assert(headers.deep_view() =~= Seq::<(Seq<char>, Seq<char>)>::empty());
    }
    let body = string_to_bytes(text.as_str());
    push_header(&mut headers, "content-type", String::from_str(content_type));
    proof {
        assert(headers.deep_view() =~= seq![("content-type"@, content_type@)]);
    }
    WireResponse { status: 200, headers, body }
}

/// A 202 Accepted response: no event to deliver, empty body.
pub fn accepted_response() -> (r: WireResponse)
    ensures
        r@ == (WireView { status: 202, headers: Seq::empty(), body: Seq::empty() }),
{
    let headers: Vec<(String, String)> = Vec::new();
    let body: Vec<u8> = Vec::new();
    proof {
        assert(headers.deep_view() =~= Seq::<(Seq<char>, Seq<char>)>::empty());
    }
    WireResponse { status: 202, headers, body }
}

/// Serialize an `EventResponse` to a wire-level response, as
/// `spec_write_cloud_event` says. The verified serializers are total, so
/// this never fails; the `Result` stands where encode-time failures would
/// surface.
pub fn write_cloud_event(ce: EventResponse) -> (r: Result<WireResponse, FaasError>)
    requires
        exchange_wf(ce@),
    ensures
        (r matches Ok(w) && w@ == spec_write_cloud_event(ce@)),
{
    let ghost cv = ce@;
    match ce {
        EventResponse::Binary(oe) => match oe {
            Some(e) => Ok(write_binary(e)),
            None => Ok(accepted_response()),
        },
        EventResponse::Structured(oe) => match oe {
            Some(e) => Ok(
                write_serialized(encode_structured(&e), "application/cloudevents+json"),
            ),
            None => Ok(accepted_response()),
        },
        EventResponse::Batch(es) => {
            proof {
                assert(cv == ExchangeView::Batch(es.deep_view()));
                assert(exchange_wf(ExchangeView::Batch(es.deep_view())));
                assert forall|i: int| 0 <= i < es.deep_view().len() implies event_wf(
                    #[trigger] es.deep_view()[i],
                ) by {
                    assert(0 <= i < (cv->Batch_0).len());
                    assert(event_wf((cv->Batch_0)[i]));
                }
            }
            Ok(write_serialized(encode_batch(&es), "application/cloudevents-batch+json"))
        },
        EventResponse::Bundle(es) => {
            proof {
                assert(cv == ExchangeView::Bundle(es.deep_view()));
                assert(exchange_wf(ExchangeView::Bundle(es.deep_view())));
                assert forall|i: int| 0 <= i < es.deep_view().len() implies event_wf(
                    (#[trigger] es.deep_view()[i]).1,
                ) by {
                    assert(0 <= i < (cv->Bundle_0).len());
                    assert(event_wf((cv->Bundle_0)[i].1));
                }
            }
            Ok(write_serialized(encode_bundle(&es), "application/cloudevents-bundle+json"))
        },
    }
}

/// Serialize a failure: its status code, and its description as the body.
pub fn error_response(e: &FaasError) -> (r: WireResponse)
    ensures
        r@.status == spec_error_status(*e),
        r@.headers == Seq::<(Seq<char>, Seq<char>)>::empty(),
{
    let headers: Vec<(String, String)> = Vec::new();
    proof {
        assert(headers.deep_view() =~= Seq::<(Seq<char>, Seq<char>)>::empty());
    }
    let msg = e.message();
    let body = string_to_bytes(msg.as_str());
    WireResponse { status: e.status(), headers, body }
}


/// A name that no header in `a` carries looks up in `a + b` as it does in
/// `b`.
pub proof fn lemma_header_val_absent(
    a: Seq<(Seq<char>, Seq<char>)>,
    b: Seq<(Seq<char>, Seq<char>)>,
    n: Seq<char>,
)
    requires
        forall|i: int| 0 <= i < a.len() ==> (#[trigger] a[i]).0 != n,
    ensures
        spec_header_val(a + b, n) == spec_header_val(b, n),
    decreases a.len(),
{
    if a.len() == 0 {
        assert(a + b =~= b);
    } else {
        assert((a + b)[0] == a[0]);
        assert((a + b).drop_first() =~= a.drop_first() + b);
        assert forall|i: int| 0 <= i < a.drop_first().len() implies (
        #[trigger] a.drop_first()[i]).0 != n by {
            assert(a.drop_first()[i] == a[i + 1]);
        }
        lemma_header_val_absent(a.drop_first(), b, n);
    }
}

/// A name found in `a` looks up in `a + b` as it does in `a`.
pub proof fn lemma_header_val_present(
    a: Seq<(Seq<char>, Seq<char>)>,
    b: Seq<(Seq<char>, Seq<char>)>,
    n: Seq<char>,
)
    requires
        spec_header_val(a, n) is Some,
    ensures
        spec_header_val(a + b, n) == spec_header_val(a, n),
    decreases a.len(),
{
    assert((a + b)[0] == a[0]);
    if a[0].0 == n {
    } else {
        assert((a + b).drop_first() =~= a.drop_first() + b);
        lemma_header_val_present(a.drop_first(), b, n);
    }
}

/// The recognized header names, and the structured media marker, are
/// pairwise distinct sequences.
proof fn lemma_ce_names_distinct()
    ensures
        "ce-id"@.len() == 5,
        "ce-type"@.len() == 7,
        "ce-specversion"@.len() == 14,
        "ce-source"@.len() == 9,
        "ce-subject"@.len() == 10,
        "ce-time"@.len() == 7,
        "content-type"@.len() == 12,
        "ce-type"@ != "ce-time"@,
{
    reveal_strlit("ce-id");
    reveal_strlit("ce-type");
    reveal_strlit("ce-specversion");
    reveal_strlit("ce-source");
    reveal_strlit("ce-subject");
    reveal_strlit("ce-time");
    reveal_strlit("content-type");
    assert("ce-id"@.len() == 5);
    assert("ce-type"@.len() == 7);
    assert("ce-specversion"@.len() == 14);
    assert("ce-source"@.len() == 9);
    assert("ce-subject"@.len() == 10);
    assert("ce-time"@.len() == 7);
    assert("content-type"@.len() == 12);
    assert("ce-type"@[3] == 't' && "ce-type"@[4] == 'y');
    assert("ce-time"@[3] == 't' && "ce-time"@[4] == 'i');
}

/// Encoding a non-empty character sequence yields at least one byte.
pub proof fn lemma_encode_utf8_nonempty(s: Seq<char>)
    requires
        s.len() > 0,
    ensures
        encode_utf8(s).len() > 0,
{
    assert(encode_utf8(s) == vstd::utf8::encode_scalar(s[0] as u32) + encode_utf8(s.drop_first()));
}

/// How each recognized name looks up in the headers a binary response
/// carries.
#[verifier::rlimit(100)]
#[verifier::spinoff_prover]
proof fn lemma_binary_header_lookups(e: EventView)
    ensures
        spec_header_val(spec_binary_headers(e), "ce-id"@) == Some(e.id),
        spec_header_val(spec_binary_headers(e), "ce-specversion"@) == Some(
            spec_version_encode_str(e.spec_version),
        ),
        spec_header_val(spec_binary_headers(e), "ce-source"@) == Some(e.source),
        spec_header_val(spec_binary_headers(e), "ce-type"@) == Some(e.event_type),
        spec_header_val(spec_binary_headers(e), "ce-subject"@) == e.subject,
        spec_header_val(spec_binary_headers(e), "ce-time"@) == (match e.time {
            Some(t) => Some(spec_format_ts(t)),
            None => None::<Seq<char>>,
        }),
        spec_header_val(spec_binary_headers(e), "content-type"@) == (match e.payload {
            Some(p) => Some(p.0),
            None => None::<Seq<char>>,
        }),
{
    lemma_ce_names_distinct();
    let base: Seq<(Seq<char>, Seq<char>)> = seq![
        ("ce-id"@, e.id),
        ("ce-specversion"@, spec_version_encode_str(e.spec_version)),
        ("ce-source"@, e.source),
        ("ce-type"@, e.event_type),
    ];
    let s1: Seq<(Seq<char>, Seq<char>)> = match e.subject {
        Some(s) => seq![("ce-subject"@, s)],
        None => Seq::empty(),
    };
    let s2: Seq<(Seq<char>, Seq<char>)> = match e.time {
        Some(t) => seq![("ce-time"@, spec_format_ts(t))],
        None => Seq::empty(),
    };
    let s3: Seq<(Seq<char>, Seq<char>)> = match e.payload {
        Some(p) => seq![("content-type"@, p.0)],
        None => Seq::empty(),
    };
    let hs = spec_binary_headers(e);
    let tail = s1 + (s2 + s3);
    assert(hs =~= base + tail);
    let b1 = base.drop_first();
    let b2 = b1.drop_first();
    let b3 = b2.drop_first();
    assert(b1 =~= seq![
        ("ce-specversion"@, spec_version_encode_str(e.spec_version)),
        ("ce-source"@, e.source),
        ("ce-type"@, e.event_type),
    ]);
    assert(b2 =~= seq![("ce-source"@, e.source), ("ce-type"@, e.event_type)]);
    assert(b3 =~= seq![("ce-type"@, e.event_type)]);

    // the four mandatory names stand in the base segment
    assert(spec_header_val(base, "ce-id"@) == Some(e.id));
    lemma_header_val_present(base, tail, "ce-id"@);
    assert(spec_header_val(base, "ce-specversion"@) == spec_header_val(b1, "ce-specversion"@));
    assert(spec_header_val(b1, "ce-specversion"@) == Some(spec_version_encode_str(e.spec_version)));
    lemma_header_val_present(base, tail, "ce-specversion"@);
    assert(spec_header_val(base, "ce-source"@) == spec_header_val(b1, "ce-source"@));
    assert(spec_header_val(b1, "ce-source"@) == spec_header_val(b2, "ce-source"@));
    assert(spec_header_val(b2, "ce-source"@) == Some(e.source));
    lemma_header_val_present(base, tail, "ce-source"@);
    assert(spec_header_val(base, "ce-type"@) == spec_header_val(b1, "ce-type"@));
    assert(spec_header_val(b1, "ce-type"@) == spec_header_val(b2, "ce-type"@));
    assert(spec_header_val(b2, "ce-type"@) == spec_header_val(b3, "ce-type"@));
    assert(spec_header_val(b3, "ce-type"@) == Some(e.event_type));
    lemma_header_val_present(base, tail, "ce-type"@);

    // the optional names stand past the base segment
    assert forall|n: Seq<char>| n == "ce-subject"@ || n == "ce-time"@ || n
        == "content-type"@ implies spec_header_val(hs, n) == spec_header_val(tail, n) by {
        assert forall|i: int| 0 <= i < base.len() implies (#[trigger] base[i]).0 != n by {}
        lemma_header_val_absent(base, tail, n);
    }
    // ce-subject, if anywhere, leads the tail
    if e.subject is Some {
        assert(spec_header_val(tail, "ce-subject"@) == Some(e.subject->0)) by {
            assert(tail[0] == ("ce-subject"@, e.subject->0));
        }
    } else {
        assert(s1 =~= Seq::<(Seq<char>, Seq<char>)>::empty());
        assert(tail =~= s2 + s3);
        assert(spec_header_val(s2 + s3, "ce-subject"@) is None) by {
            assert forall|i: int| 0 <= i < s2.len() implies (#[trigger] s2[i]).0
                != "ce-subject"@ by {}
            lemma_header_val_absent(s2, s3, "ce-subject"@);
            if e.payload is Some {
                assert(s3.drop_first() =~= Seq::<(Seq<char>, Seq<char>)>::empty());
                assert(s3[0].0 == "content-type"@);
                assert(spec_header_val(s3, "ce-subject"@) == spec_header_val(
                    s3.drop_first(),
                    "ce-subject"@,
                ));
                assert(spec_header_val(s3.drop_first(), "ce-subject"@) is None);
            } else {
                assert(s3 =~= Seq::<(Seq<char>, Seq<char>)>::empty());
            }
        }
    }
    // ce-time follows
    assert forall|n: Seq<char>| n == "ce-time"@ || n == "content-type"@ implies spec_header_val(
        tail,
        n,
    ) == spec_header_val(s2 + s3, n) by {
        assert forall|i: int| 0 <= i < s1.len() implies (#[trigger] s1[i]).0 != n by {}
        lemma_header_val_absent(s1, s2 + s3, n);
        assert(tail == s1 + (s2 + s3));
    }
    if e.time is Some {
        assert(spec_header_val(s2 + s3, "ce-time"@) == Some(spec_format_ts(e.time->0))) by {
            assert((s2 + s3)[0] == ("ce-time"@, spec_format_ts(e.time->0)));
        }
    } else {
        assert(s2 =~= Seq::<(Seq<char>, Seq<char>)>::empty());
        assert(s2 + s3 =~= s3);
        if e.payload is Some {
            assert(spec_header_val(s3, "ce-time"@) is None) by {
                assert(s3[0].0 == "content-type"@);
                assert(s3.drop_first() =~= Seq::<(Seq<char>, Seq<char>)>::empty());
                assert(spec_header_val(s3, "ce-time"@) == spec_header_val(
                    s3.drop_first(),
                    "ce-time"@,
                ));
                assert(spec_header_val(s3.drop_first(), "ce-time"@) is None);
            }
        } else {
            assert(s3 =~= Seq::<(Seq<char>, Seq<char>)>::empty());
            assert(spec_header_val(s3, "ce-time"@) is None);
        }
    }
    // content-type closes the list, exactly when a payload travels
    assert(spec_header_val(s2 + s3, "content-type"@) == spec_header_val(s3, "content-type"@)) by {
        assert forall|i: int| 0 <= i < s2.len() implies (#[trigger] s2[i]).0 != "content-type"@ by {}
        lemma_header_val_absent(s2, s3, "content-type"@);
    }
    if e.payload is Some {
        assert(spec_header_val(s3, "content-type"@) == Some((e.payload->0).0));
    } else {
        assert(s3 =~= Seq::<(Seq<char>, Seq<char>)>::empty());
        assert(spec_header_val(s3, "content-type"@) is None);
    }
}

/// Encoding an event in the binary wire form and decoding the response's
/// headers and body back yields the same event, whatever input shape the
/// decoder serves: the binary round trip. The event must carry no
/// extensions (the binary form has no place for them), a version whose wire
/// strings are symmetric, and a payload, if any, with non-empty data and a
/// content type that does not claim the structured media type.
#[verifier::rlimit(100)]
#[verifier::spinoff_prover]
pub proof fn lemma_binary_encode_decode(e: EventView, shape: InputShapeView)
    requires
        event_wf(e),
        e.extensions == Seq::<(Seq<char>, Seq<char>)>::empty(),
        e.spec_version != SpecVersion::V10,
        match e.payload {
            Some(p) => p.1.len() > 0 && !spec_contains(p.0, "application/cloudevents+json"@),
            None => true,
        },
    ensures
        spec_read_cloud_event(shape, spec_binary_headers(e), spec_binary_body(e))
            == ReadOutcome::Got(Encoding::BINARY, ExchangeView::Binary(Some(e))),
{
    let hs = spec_binary_headers(e);
    let body = spec_binary_body(e);
    lemma_binary_header_lookups(e);
    crate::event::lemma_version_encode_decode(e.spec_version);
    match e.payload {
        Some(p) => {
            lemma_encode_utf8_nonempty(p.1);
            vstd::utf8::encode_utf8_valid_utf8(p.1);
            vstd::utf8::encode_utf8_decode_utf8(p.1);
            assert(spec_parse_binary(hs, Some((p.0, p.1))) == ReadOutcome::Got(
                Encoding::BINARY,
                ExchangeView::Binary(Some(e)),
            )) by {
                if e.time is Some {
                    crate::timestamp::lemma_parse_format_ts(e.time->0);
                }
                assert((spec_parse_binary(hs, Some((p.0, p.1)))->Got_1)->Binary_0->Some_0 =~= e);
            }
            assert(Some((p.0, p.1)) == e.payload);
        },
        None => {
            assert(spec_parse_binary(hs, None) == ReadOutcome::Got(
                Encoding::BINARY,
                ExchangeView::Binary(Some(e)),
            )) by {
                if e.time is Some {
                    crate::timestamp::lemma_parse_format_ts(e.time->0);
                }
                assert((spec_parse_binary(hs, None)->Got_1)->Binary_0->Some_0 =~= e);
            }
        },
    }
}

/// The binary round trip for events with the mandatory attributes filled and
/// a payload present, as the wire protocol promises it.
pub proof fn lemma_read_binary_round_trip(e: EventView, shape: InputShapeView)
    requires
        event_wf(e),
        e.id.len() > 0,
        e.source.len() > 0,
        e.event_type.len() > 0,
        e.extensions == Seq::<(Seq<char>, Seq<char>)>::empty(),
        e.spec_version != SpecVersion::V10,
        e.payload matches Some(p) && p.1.len() > 0 && !spec_contains(
            p.0,
            "application/cloudevents+json"@,
        ),
    ensures
        spec_read_cloud_event(shape, spec_binary_headers(e), spec_binary_body(e))
            == ReadOutcome::Got(Encoding::BINARY, ExchangeView::Binary(Some(e))),
{
    lemma_binary_encode_decode(e, shape);
}

/// Encoding an event in the structured wire form and decoding the response's
/// headers and body back yields the same event, for any input shape that
/// expects a single event: the structured round trip, extensions included.
#[verifier::rlimit(100)]
#[verifier::spinoff_prover]
pub proof fn lemma_read_structured_round_trip(e: EventView, shape: InputShapeView)
    requires
        event_wf(e),
        crate::codec::extensions_ok(e.extensions),
        e.spec_version != SpecVersion::V10,
        !(shape is EventList),
        !(shape is NamedBundle),
    ensures
        ({
            let w = spec_write_cloud_event(ExchangeView::Structured(Some(e)));
            spec_read_cloud_event(shape, w.headers, w.body) == ReadOutcome::Got(
                Encoding::STRUCTURED,
                ExchangeView::Structured(Some(e)),
            )
        }),
{
    let w = spec_write_cloud_event(ExchangeView::Structured(Some(e)));
    let text = spec_encode_structured(e);
    assert(spec_header_val(w.headers, "content-type"@) == Some(
        "application/cloudevents+json"@,
    )) by {
        assert(w.headers[0] == ("content-type"@, "application/cloudevents+json"@));
    }
    assert(text.len() > 0) by {
        let ps = crate::codec::spec_event_pairs(e);
        assert(crate::json::spec_ser_obj(ps).len() > 0);
    }
    lemma_encode_utf8_nonempty(text);
    vstd::utf8::encode_utf8_valid_utf8(text);
    vstd::utf8::encode_utf8_decode_utf8(text);
    assert(spec_contains("application/cloudevents+json"@, "application/cloudevents+json"@)) by {
        let m = "application/cloudevents+json"@;
        assert(m.subrange(0, 0 + m.len() as int) =~= m);
    }
    crate::codec::lemma_structured_round_trip(e);
}

/// Decoding, re-encoding what was decoded, and decoding again gives the
/// first decoding's event: the decoder's output is a fixed point of the
/// encode/decode cycle, in both encodings, except for the newest version,
/// whose wire strings are asymmetric.
pub proof fn lemma_read_idempotent(
    shape: InputShapeView,
    hs: Seq<(Seq<char>, Seq<char>)>,
    body: Seq<u8>,
    e: EventView,
    enc: Encoding,
)
    requires
        spec_read_cloud_event(shape, hs, body) == ReadOutcome::Got(
            enc,
            if enc == Encoding::BINARY {
                ExchangeView::Binary(Some(e))
            } else {
                ExchangeView::Structured(Some(e))
            },
        ),
        enc == Encoding::BINARY || enc == Encoding::STRUCTURED,
        e.spec_version != SpecVersion::V10,
        !(shape is EventList),
        !(shape is NamedBundle),
    ensures
        ({
            let w = spec_write_cloud_event(
                if enc == Encoding::BINARY {
                    ExchangeView::Binary(Some(e))
                } else {
                    ExchangeView::Structured(Some(e))
                },
            );
            spec_read_cloud_event(shape, w.headers, w.body) == spec_read_cloud_event(
                shape,
                hs,
                body,
            )
        }),
{
    if enc == Encoding::BINARY {
        // invert the decoding: the event came off the binary path
        match spec_header_val(hs, "content-type"@) {
            Some(ct) => {
                assert(valid_utf8(body));
                let data = decode_utf8(body);
                assert(!spec_contains(ct, "application/cloudevents+json"@));
                assert(e.payload == Some((ct, data)));
                assert(data.len() > 0) by {
                    assert(body.len() > 0);
                }
                assert(e.extensions == Seq::<(Seq<char>, Seq<char>)>::empty());
                assert(event_wf(e)) by {
                    match spec_header_val(hs, "ce-time"@) {
                        Some(t) => {
                            if spec_parse_ts(t) is Some {
                                crate::timestamp::lemma_parse_ts_wf(t);
                            }
                        },
                        None => {},
                    }
                }
                lemma_binary_encode_decode(e, shape);
            },
            None => {
                assert(e.payload is None);
                assert(e.extensions == Seq::<(Seq<char>, Seq<char>)>::empty());
                assert(event_wf(e)) by {
                    match spec_header_val(hs, "ce-time"@) {
                        Some(t) => {
                            if spec_parse_ts(t) is Some {
                                crate::timestamp::lemma_parse_ts_wf(t);
                            }
                        },
                        None => {},
                    }
                }
                lemma_binary_encode_decode(e, shape);
            },
        }
    } else {
        // invert the decoding: the event came off the structured path
        assert(valid_utf8(body));
        let text = decode_utf8(body);
        assert(spec_decode_structured(text) == Some(e));
        crate::codec::lemma_decode_structured_sane(text);
        lemma_read_structured_round_trip(e, shape);
    }
}

/// The decoder consults only the recognized header names: two header lists
/// that answer every lookup alike decode alike, so the order of the headers
/// never matters.
pub proof fn lemma_read_header_order_independent(
    shape: InputShapeView,
    hs1: Seq<(Seq<char>, Seq<char>)>,
    hs2: Seq<(Seq<char>, Seq<char>)>,
    body: Seq<u8>,
)
    requires
        forall|n: Seq<char>| #[trigger] spec_header_val(hs1, n) == spec_header_val(hs2, n),
    ensures
        spec_read_cloud_event(shape, hs1, body) == spec_read_cloud_event(shape, hs2, body),
{
    assert(spec_header_val(hs1, "content-type"@) == spec_header_val(hs2, "content-type"@));
    assert(spec_header_val(hs1, "ce-id"@) == spec_header_val(hs2, "ce-id"@));
    assert(spec_header_val(hs1, "ce-type"@) == spec_header_val(hs2, "ce-type"@));
    assert(spec_header_val(hs1, "ce-specversion"@) == spec_header_val(hs2, "ce-specversion"@));
    assert(spec_header_val(hs1, "ce-source"@) == spec_header_val(hs2, "ce-source"@));
    assert(spec_header_val(hs1, "ce-subject"@) == spec_header_val(hs2, "ce-subject"@));
    assert(spec_header_val(hs1, "ce-time"@) == spec_header_val(hs2, "ce-time"@));
}


/// A decoded binary event carries a payload exactly when the request
/// announced a content type, and a carried payload never has empty data:
/// empty bodies are rejected before an event is built.
pub proof fn lemma_decoded_payload_populated(
    shape: InputShapeView,
    hs: Seq<(Seq<char>, Seq<char>)>,
    body: Seq<u8>,
    e: EventView,
)
    requires
        spec_read_cloud_event(shape, hs, body) == ReadOutcome::Got(
            Encoding::BINARY,
            ExchangeView::Binary(Some(e)),
        ),
    ensures
        e.payload is Some <==> spec_header_val(hs, "content-type"@) is Some,
        e.payload matches Some(p) ==> p.1.len() > 0,
{
    match spec_header_val(hs, "content-type"@) {
        Some(ct) => {
            assert(body.len() > 0);
            assert(valid_utf8(body));
            assert(e.payload == Some((ct, decode_utf8(body))));
            assert(decode_utf8(body).len() > 0) by {
                assert(decode_utf8(body) == seq![
                    vstd::utf8::decode_first_scalar(body) as char,
                ] + decode_utf8(vstd::utf8::pop_first_scalar(body)));
            }
        },
        None => {
            assert(e.payload is None);
        },
    }
}

} // verus!

