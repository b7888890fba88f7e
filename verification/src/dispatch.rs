//! The shape dispatcher: adapt a decoded `EventRequest` to a handler's
//! declared input shape, and wrap the handler's outcome as an
//! `EventResponse` that answers in the encoding the request used.

use vstd::prelude::*;
use vstd::string::StringExecFns;

use crate::codec::event_wf;
use crate::common::Encoding;
use crate::common::EventRequest;
use crate::common::EventResponse;
use crate::common::ExchangeView;
use crate::common::InputShape;
use crate::common::InputShapeView;
use crate::common::exchange_wf;
use crate::errors::FaasError;
use crate::event::Event;
use crate::event::EventView;
use crate::strutil::str_eq;
use crate::timestamp::ts_wf;

verus! {

/// The arguments a handler is invoked with, one case per input shape.
pub enum HandlerInput {
    /// The handler takes no event arguments.
    NoArgs,
    /// One mandatory event.
    Single(Event),
    /// One optional event.
    OptionalSingle(Option<Event>),
    /// A list of events.
    List(Vec<Event>),
    /// One slot per declared bundle key, in declared order; a slot declared
    /// mandatory is always filled.
    Named(Vec<Option<Event>>),
}

/// The mathematical shape of a handler's arguments.
pub ghost enum HandlerInputView {
    NoArgs,
    Single(EventView),
    OptionalSingle(Option<EventView>),
    List(Seq<EventView>),
    Named(Seq<Option<EventView>>),
}

impl View for HandlerInput {
    type V = HandlerInputView;

    open spec fn view(&self) -> HandlerInputView {
        match self {
            HandlerInput::NoArgs => HandlerInputView::NoArgs,
            HandlerInput::Single(e) => HandlerInputView::Single(e@),
            HandlerInput::OptionalSingle(oe) => HandlerInputView::OptionalSingle(
                match oe {
                    Some(e) => Some(e@),
                    None => None,
                },
            ),
            HandlerInput::List(es) => HandlerInputView::List(es.deep_view()),
            HandlerInput::Named(es) => HandlerInputView::Named(es.deep_view()),
        }
    }
}

/// What a handler returns, one case per declared output cardinality.
pub enum HandlerOutcome {
    Single(Event),
    OptionalSingle(Option<Event>),
    List(Vec<Event>),
    Named(Vec<(String, Event)>),
}

/// The mathematical shape of a handler's outcome.
pub ghost enum HandlerOutcomeView {
    Single(EventView),
    OptionalSingle(Option<EventView>),
    List(Seq<EventView>),
    Named(Seq<(Seq<char>, EventView)>),
}

impl View for HandlerOutcome {
    type V = HandlerOutcomeView;

    open spec fn view(&self) -> HandlerOutcomeView {
        match self {
            HandlerOutcome::Single(e) => HandlerOutcomeView::Single(e@),
            HandlerOutcome::OptionalSingle(oe) => HandlerOutcomeView::OptionalSingle(
                match oe {
                    Some(e) => Some(e@),
                    None => None,
                },
            ),
            HandlerOutcome::List(es) => HandlerOutcomeView::List(es.deep_view()),
            HandlerOutcome::Named(es) => HandlerOutcomeView::Named(es.deep_view()),
        }
    }
}

/// Every event the handler returned is well-formed.
pub open spec fn outcome_wf(o: HandlerOutcomeView) -> bool {
    match o {
        HandlerOutcomeView::Single(e) => event_wf(e),
        HandlerOutcomeView::OptionalSingle(oe) => match oe {
            Some(e) => event_wf(e),
            None => true,
        },
        HandlerOutcomeView::List(es) => forall|i: int|
            0 <= i < es.len() ==> event_wf(#[trigger] es[i]),
        HandlerOutcomeView::Named(es) => forall|i: int|
            0 <= i < es.len() ==> event_wf((#[trigger] es[i]).1),
    }
}

/// How input extraction can end: arguments, or one of the dispatch errors.
pub ghost enum ExtractOutcome {
    Extracted(HandlerInputView),
    UnsupportedShape,
    MissingEvent,
    MissingParameter(Seq<char>),
}

/// The first event carried under the name `k`, if any.
pub open spec fn spec_bundle_lookup(
    entries: Seq<(Seq<char>, EventView)>,
    k: Seq<char>,
) -> Option<EventView>
    decreases entries.len(),
{
    if entries.len() == 0 {
        None
    } else if entries[0].0 == k {
        Some(entries[0].1)
    } else {
        spec_bundle_lookup(entries.drop_first(), k)
    }
}

/// Bind the declared keys from `i` on: a mandatory key that is absent names
/// the failure, an optional absent key binds to no event.
pub open spec fn spec_extract_named(
    keys: Seq<(Seq<char>, bool)>,
    entries: Seq<(Seq<char>, EventView)>,
    i: int,
) -> Result<Seq<Option<EventView>>, Seq<char>>
    decreases keys.len() - i,
{
    if !(0 <= i < keys.len()) {
        Ok(Seq::empty())
    } else {
        let found = spec_bundle_lookup(entries, keys[i].0);
        if found is None && keys[i].1 {
            Err(keys[i].0)
        } else {
            match spec_extract_named(keys, entries, i + 1) {
                Err(k) => Err(k),
                Ok(rest) => Ok(seq![found] + rest),
            }
        }
    }
}

/// What extracting arguments for `shape` from the exchange `x` yields: the
/// rules of input-shape resolution.
pub open spec fn spec_extract_input(shape: InputShapeView, x: ExchangeView) -> ExtractOutcome {
    match shape {
        InputShapeView::NoInput => ExtractOutcome::Extracted(HandlerInputView::NoArgs),
        InputShapeView::SingleRequired => match x {
            ExchangeView::Binary(oe) => match oe {
                Some(e) => ExtractOutcome::Extracted(HandlerInputView::Single(e)),
                None => ExtractOutcome::MissingEvent,
            },
            ExchangeView::Structured(oe) => match oe {
                Some(e) => ExtractOutcome::Extracted(HandlerInputView::Single(e)),
                None => ExtractOutcome::MissingEvent,
            },
            _ => ExtractOutcome::UnsupportedShape,
        },
        InputShapeView::SingleOptional => match x {
            ExchangeView::Binary(oe) => ExtractOutcome::Extracted(
                HandlerInputView::OptionalSingle(oe),
            ),
            ExchangeView::Structured(oe) => ExtractOutcome::Extracted(
                HandlerInputView::OptionalSingle(oe),
            ),
            _ => ExtractOutcome::UnsupportedShape,
        },
        InputShapeView::EventList => match x {
            ExchangeView::Batch(es) => ExtractOutcome::Extracted(HandlerInputView::List(es)),
            ExchangeView::Binary(oe) => ExtractOutcome::Extracted(
                HandlerInputView::List(
                    match oe {
                        Some(e) => seq![e],
                        None => Seq::empty(),
                    },
                ),
            ),
            ExchangeView::Structured(oe) => ExtractOutcome::Extracted(
                HandlerInputView::List(
                    match oe {
                        Some(e) => seq![e],
                        None => Seq::empty(),
                    },
                ),
            ),
            ExchangeView::Bundle(_) => ExtractOutcome::UnsupportedShape,
        },
        InputShapeView::NamedBundle(keys) => match x {
            ExchangeView::Bundle(entries) => match spec_extract_named(keys, entries, 0) {
                Ok(args) => ExtractOutcome::Extracted(HandlerInputView::Named(args)),
                Err(k) => ExtractOutcome::MissingParameter(k),
            },
            _ => ExtractOutcome::UnsupportedShape,
        },
    }
}

/// An extraction failure stands for the failing outcome the rules name.
pub open spec fn extract_err_matches(e: FaasError, o: ExtractOutcome) -> bool {
    match o {
        ExtractOutcome::UnsupportedShape => e is UnsupportedShape,
        ExtractOutcome::MissingEvent => e is MissingEvent,
        ExtractOutcome::MissingParameter(k) => e matches FaasError::MissingParameter(s) && s@ == k,
        ExtractOutcome::Extracted(_) => false,
    }
}

/// The first event carried under the name `key`, as a fresh copy.
fn bundle_lookup(entries: &Vec<(String, Event)>, key: &str) -> (r: Option<Event>)
    ensures
        match r {
            Some(e) => spec_bundle_lookup(entries.deep_view(), key@) == Some(e@),
            None => spec_bundle_lookup(entries.deep_view(), key@) is None,
        },
{
    let ghost dv = entries.deep_view();
    proof {
        assert(dv.subrange(0, dv.len() as int) =~= dv);
    }
    let mut i: usize = 0;
    while i < entries.len()
        invariant
            i <= entries@.len(),
            dv == entries.deep_view(),
            dv.len() == entries@.len(),
            spec_bundle_lookup(dv, key@) == spec_bundle_lookup(
                dv.subrange(i as int, dv.len() as int),
                key@,
            ),
        decreases entries@.len() - i,
    {
        proof {
            assert(dv[i as int] == (entries@[i as int].0@, entries@[i as int].1@));
            assert(dv.subrange(i as int, dv.len() as int)[0] == dv[i as int]);
        }
        if str_eq(entries[i].0.as_str(), key) {
            return Some(entries[i].1.clone());
        }
        proof {
            assert(dv.subrange(i as int, dv.len() as int).drop_first() =~= dv.subrange(
                i + 1 as int,
                dv.len() as int,
            ));
        }
        i = i + 1;
    }
    proof {
        assert(dv.subrange(dv.len() as int, dv.len() as int).len() == 0);
    }
    None
}

/// Extract the handler's arguments from a decoded request, per the
/// input-shape resolution rules of `spec_extract_input`.
#[verifier::loop_isolation(false)]
pub fn extract_input(shape: &InputShape, req: EventRequest) -> (r: Result<HandlerInput, FaasError>)
    ensures
        match r {
            Ok(input) => spec_extract_input(shape@, req@) == ExtractOutcome::Extracted(input@),
            Err(e) => extract_err_matches(e, spec_extract_input(shape@, req@)),
        },
{
    let ghost rv = req@;
    match shape {
        InputShape::NoInput => Ok(HandlerInput::NoArgs),
        InputShape::SingleRequired => match req {
            EventRequest::Binary(oe) => match oe {
                Some(e) => Ok(HandlerInput::Single(e)),
                None => Err(FaasError::MissingEvent),
            },
            EventRequest::Structured(oe) => match oe {
                Some(e) => Ok(HandlerInput::Single(e)),
                None => Err(FaasError::MissingEvent),
            },
            EventRequest::Batch(_) => Err(
                FaasError::UnsupportedShape(
                    String::from_str("a single event"),
                    String::from_str("batch"),
                ),
            ),
            EventRequest::Bundle(_) => Err(
                FaasError::UnsupportedShape(
                    String::from_str("a single event"),
                    String::from_str("bundle"),
                ),
            ),
        },
        InputShape::SingleOptional => match req {
            EventRequest::Binary(oe) => Ok(HandlerInput::OptionalSingle(oe)),
            EventRequest::Structured(oe) => Ok(HandlerInput::OptionalSingle(oe)),
            EventRequest::Batch(_) => Err(
                FaasError::UnsupportedShape(
                    String::from_str("an optional event"),
                    String::from_str("batch"),
                ),
            ),
            EventRequest::Bundle(_) => Err(
                FaasError::UnsupportedShape(
                    String::from_str("an optional event"),
                    String::from_str("bundle"),
                ),
            ),
        },
        InputShape::EventList => match req {
            EventRequest::Batch(es) => Ok(HandlerInput::List(es)),
            EventRequest::Binary(oe) => match oe {
                Some(e) => {
                    let mut es: Vec<Event> = Vec::new();
                    let ghost ev = e@;
                    es.push(e);
                    proof {
                        assert(es.deep_view() =~= seq![ev]);
                    }
                    Ok(HandlerInput::List(es))
                },
                None => {
                    let es: Vec<Event> = Vec::new();
                    proof {
                        assert(es.deep_view() =~= Seq::<EventView>::empty());
                    }
                    Ok(HandlerInput::List(es))
                },
            },
            EventRequest::Structured(oe) => match oe {
                Some(e) => {
                    let mut es: Vec<Event> = Vec::new();
                    let ghost ev = e@;
                    es.push(e);
                    proof {
                        assert(es.deep_view() =~= seq![ev]);
                    }
                    Ok(HandlerInput::List(es))
                },
                None => {
                    let es: Vec<Event> = Vec::new();
                    proof {
                        assert(es.deep_view() =~= Seq::<EventView>::empty());
                    }
                    Ok(HandlerInput::List(es))
                },
            },
            EventRequest::Bundle(_) => Err(
                FaasError::UnsupportedShape(
                    String::from_str("a list of events"),
                    String::from_str("bundle"),
                ),
            ),
        },
        InputShape::NamedBundle(keys) => match req {
            EventRequest::Bundle(entries) => {
                let ghost kdv = keys.deep_view();
                let ghost edv = entries.deep_view();
                let mut args: Vec<Option<Event>> = Vec::new();
                proof {
                    assert(args.deep_view() =~= Seq::<Option<EventView>>::empty());
                    if spec_extract_named(kdv, edv, 0) is Ok {
                        assert(Seq::<Option<EventView>>::empty() + (spec_extract_named(
                            kdv,
                            edv,
                            0,
                        )->Ok_0) =~= spec_extract_named(kdv, edv, 0)->Ok_0);
                    }
                }
                let mut i: usize = 0;
                while i < keys.len()
                    invariant
                        i <= keys@.len(),
                        kdv == keys.deep_view(),
                        edv == entries.deep_view(),
                        kdv.len() == keys@.len(),
                        shape@ == InputShapeView::NamedBundle(kdv),
                        rv == ExchangeView::Bundle(edv),
                        spec_extract_named(kdv, edv, 0) == (match spec_extract_named(
                            kdv,
                            edv,
                            i as int,
                        ) {
                            Err(k) => Err::<Seq<Option<EventView>>, Seq<char>>(k),
                            Ok(rest) => Ok(args.deep_view() + rest),
                        }),
                    decreases keys@.len() - i,
                {
                    proof {
                        assert(kdv[i as int] == (keys@[i as int].0@, keys@[i as int].1));
                    }
                    let key = &keys[i];
                    let found = bundle_lookup(&entries, key.0.as_str());
                    if found.is_none() && key.1 {
                        proof {
                            assert(spec_bundle_lookup(edv, kdv[i as int].0) is None);
                            assert(spec_extract_named(kdv, edv, i as int) == Err::<
                                Seq<Option<EventView>>,
                                Seq<char>,
                            >(kdv[i as int].0));
                            assert(spec_extract_named(kdv, edv, 0) == Err::<
                                Seq<Option<EventView>>,
                                Seq<char>,
                            >(kdv[i as int].0));
                            assert(spec_extract_input(shape@, rv)
                                == ExtractOutcome::MissingParameter(kdv[i as int].0));
                        }
                        return Err(FaasError::MissingParameter(key.0.clone()));
                    }
                    let ghost apre = args.deep_view();
                    let ghost fv: Option<EventView> = match &found {
                        Some(e) => Some(e@),
                        None => None,
                    };
                    let ghost avpre = args@;
                    args.push(found);
                    proof {
                        assert(args@ == avpre.push(found));
                        assert forall|x: int| 0 <= x < apre.len() implies args.deep_view()[x]
                            == apre[x] by {
                            assert(args@[x] == avpre[x]);
                        }
                        assert(args.deep_view()[apre.len() as int] == fv);
                        assert(args.deep_view() =~= apre.push(fv));
                        assert(fv == spec_bundle_lookup(edv, kdv[i as int].0));
                        if spec_extract_named(kdv, edv, i + 1) is Ok {
                            let rest = spec_extract_named(kdv, edv, i + 1)->Ok_0;
                            assert(apre.push(fv) + rest =~= apre + (seq![fv] + rest));
                        }
                    }
                    i = i + 1;
                }
                proof {
                    assert(spec_extract_named(kdv, edv, keys@.len() as int) == Ok::<
                        Seq<Option<EventView>>,
                        Seq<char>,
                    >(Seq::empty()));
                    assert(args.deep_view() + Seq::<Option<EventView>>::empty()
                        =~= args.deep_view());
                }
                Ok(HandlerInput::Named(args))
            },
            _ => Err(
                FaasError::UnsupportedShape(
                    String::from_str("a named bundle"),
                    String::from_str("a non-bundle request"),
                ),
            ),
        },
    }
}

/// How an outcome wraps into a response: batches and bundles keep their
/// fixed wire forms whatever the request used; a single or optional-single
/// outcome answers binary exactly when the request arrived binary.
pub open spec fn spec_wrap_output(enc: Encoding, o: HandlerOutcomeView) -> ExchangeView {
    match o {
        HandlerOutcomeView::Named(es) => ExchangeView::Bundle(es),
        HandlerOutcomeView::List(es) => ExchangeView::Batch(es),
        HandlerOutcomeView::OptionalSingle(oe) => if enc == Encoding::BINARY {
            ExchangeView::Binary(oe)
        } else {
            ExchangeView::Structured(oe)
        },
        HandlerOutcomeView::Single(e) => if enc == Encoding::BINARY {
            ExchangeView::Binary(Some(e))
        } else {
            ExchangeView::Structured(Some(e))
        },
    }
}

/// Wrap the handler's outcome as the response exchange, answering in the
/// encoding the request used where the outcome is single-valued.
pub fn wrap_output(enc: Encoding, outcome: HandlerOutcome) -> (r: EventResponse)
    ensures
        r@ == spec_wrap_output(enc, outcome@),
{
    match outcome {
        HandlerOutcome::Named(es) => EventResponse::Bundle(es),
        HandlerOutcome::List(es) => EventResponse::Batch(es),
        HandlerOutcome::OptionalSingle(oe) => match enc {
            Encoding::BINARY => EventResponse::Binary(oe),
            _ => EventResponse::Structured(oe),
        },
        HandlerOutcome::Single(e) => match enc {
            Encoding::BINARY => EventResponse::Binary(Some(e)),
            _ => EventResponse::Structured(Some(e)),
        },
    }
}

/// Encoding symmetry: the response's binary-vs-structured choice follows the
/// request's observed encoding exactly where the outcome is single-valued,
/// and batch or bundle outcomes keep their fixed wire forms whatever the
/// request used.
pub proof fn lemma_encoding_symmetry(enc: Encoding, o: HandlerOutcomeView)
    ensures
        (spec_wrap_output(enc, o) is Binary || spec_wrap_output(enc, o) is Structured) <==> (
        o is Single || o is OptionalSingle),
        (o is Single || o is OptionalSingle) ==> (spec_wrap_output(enc, o) is Binary <==> enc
            == Encoding::BINARY),
        o is List ==> spec_wrap_output(enc, o) == ExchangeView::Batch(o->List_0),
        o is Named ==> spec_wrap_output(enc, o) == ExchangeView::Bundle(o->Named_0),
{
}


/// Whether every event the handler returned is well-formed.
#[verifier::loop_isolation(false)]
pub fn outcome_is_wf(o: &HandlerOutcome) -> (r: bool)
    ensures
        r == outcome_wf(o@),
{
    match o {
        HandlerOutcome::Single(e) => crate::codec::event_is_wf(e),
        HandlerOutcome::OptionalSingle(oe) => match oe {
            Some(e) => crate::codec::event_is_wf(e),
            None => true,
        },
        HandlerOutcome::List(es) => {
            let mut i: usize = 0;
            while i < es.len()
                invariant
                    i <= es@.len(),
                    forall|j: int| 0 <= j < i ==> event_wf(#[trigger] es.deep_view()[j]),
                decreases es@.len() - i,
            {
                proof {
                    assert(es.deep_view()[i as int] == es@[i as int]@);
                }
                if !crate::codec::event_is_wf(&es[i]) {
                    proof {
                        assert(o@ == HandlerOutcomeView::List(es.deep_view()));
                        assert(es.deep_view().len() == es@.len());
                        assert(0 <= i < es.deep_view().len());
                        assert(!event_wf(es.deep_view()[i as int]));
                        assert((o@->List_0)[i as int] == es.deep_view()[i as int]);
                        assert(!event_wf((o@->List_0)[i as int]));
                        assert(!outcome_wf(o@));
                    }
                    return false;
                }
                i = i + 1;
            }
            true
        },
        HandlerOutcome::Named(es) => {
            let mut i: usize = 0;
            while i < es.len()
                invariant
                    i <= es@.len(),
                    forall|j: int| 0 <= j < i ==> event_wf((#[trigger] es.deep_view()[j]).1),
                decreases es@.len() - i,
            {
                proof {
                    assert(es.deep_view()[i as int] == (es@[i as int].0@, es@[i as int].1@));
                }
                if !crate::codec::event_is_wf(&es[i].1) {
                    proof {
                        assert(o@ == HandlerOutcomeView::Named(es.deep_view()));
                        assert(es.deep_view().len() == es@.len());
                        assert(0 <= i < es.deep_view().len());
                        assert(!event_wf((es.deep_view()[i as int]).1));
                        assert((o@->Named_0)[i as int] == es.deep_view()[i as int]);
                        assert(!event_wf(((o@->Named_0)[i as int]).1));
                        assert(!outcome_wf(o@));
                    }
                    return false;
                }
                i = i + 1;
            }
            true
        },
    }
}

/// Wrapping a well-formed outcome yields a well-formed exchange.
pub proof fn lemma_wrap_output_wf(enc: Encoding, o: HandlerOutcomeView)
    requires
        outcome_wf(o),
    ensures
        exchange_wf(spec_wrap_output(enc, o)),
{
}

/// One complete binding/dispatch cycle: decode the request, adapt it to the
/// handler's declared input shape, invoke the handler, and serialize its
/// outcome, answering in the encoding the request used. Every failure maps
/// to its status: 400 for decode and dispatch errors and for the handler's
/// own failure, 500 where the handler's outcome cannot be encoded (an
/// ill-formed timestamp), 202 where the request carries no event, and 200
/// with the outcome on the wire otherwise. The outcome's case is expected to
/// be the handler's declared output cardinality.
pub fn handle_event<F: FnOnce(HandlerInput) -> Result<HandlerOutcome, String>>(
    shape: &crate::common::ShapeDescriptor,
    headers: &Vec<(String, String)>,
    body: &[u8],
    handler: F,
) -> (r: crate::http::WireResponse)
    requires
        forall|a: HandlerInput| #[trigger] call_requires(handler, (a,)),
    ensures
        ({
            let o = crate::http::spec_read_cloud_event(shape.input@, headers.deep_view(), body@);
            match o {
                crate::http::ReadOutcome::NoEvent => r@ == (crate::http::WireView {
                    status: 202,
                    headers: Seq::empty(),
                    body: Seq::empty(),
                }),
                crate::http::ReadOutcome::Got(enc, xv) => match spec_extract_input(
                    shape.input@,
                    xv,
                ) {
                    ExtractOutcome::Extracted(args) => exists|inp: HandlerInput, out: Result<
                        HandlerOutcome,
                        String,
                    >|
                        {
                            &&& inp@ == args
                            &&& #[trigger] call_ensures(handler, (inp,), out)
                            &&& match out {
                                Ok(oc) => if outcome_wf(oc@) {
                                    r@ == crate::http::spec_write_cloud_event(
                                        spec_wrap_output(enc, oc@),
                                    )
                                } else {
                                    r@.status == 500
                                },
                                Err(_) => r@.status == 400,
                            }
                        },
                    _ => r@.status == 400,
                },
                _ => r@.status == 400,
            }
        }),
{
    let decoded = match crate::http::read_cloud_event(&shape.input, headers, body) {
        Err(e) => {
            return crate::http::error_response(&e);
        },
        Ok(None) => {
            return crate::http::accepted_response();
        },
        Ok(Some(p)) => p,
    };
    let enc = decoded.0;
    let input = match extract_input(&shape.input, decoded.1) {
        Err(e) => {
            return crate::http::error_response(&e);
        },
        Ok(i) => i,
    };
    let ghost iv = input@;
    let out = handler(input);
    match out {
        Err(msg) => {
            let hs: Vec<(String, String)> = Vec::new();
            let b = crate::strutil::string_to_bytes(msg.as_str());
            crate::http::WireResponse { status: 400, headers: hs, body: b }
        },
        Ok(oc) => {
            let ghost ocv = oc@;
            if outcome_is_wf(&oc) {
                proof {
                    lemma_wrap_output_wf(enc, ocv);
                }
                let resp = wrap_output(enc, oc);
                match crate::http::write_cloud_event(resp) {
                    Ok(w) => w,
                    Err(e) => crate::http::error_response(&e),
                }
            } else {
                crate::http::error_response(
                    &FaasError::Encode(
                        String::from_str("the handler returned an ill-formed timestamp"),
                    ),
                )
            }
        },
    }
}

} // verus!
