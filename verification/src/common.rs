//! The shared request/response shapes: the wire encoding tag, the four-case
//! exchange union, and the handler shape descriptor.

use vstd::prelude::*;

use crate::codec::event_wf;
use crate::event::Event;
use crate::event::EventView;

verus! {

/// Which wire encoding an exchange used. Only `BINARY` and `STRUCTURED` are
/// tracked per request; batches always travel in their fixed structured
/// form, so `BATCH` never drives encoding symmetry.
#[allow(non_camel_case_types)]
#[derive(PartialEq, Eq, Structural, Clone, Copy, Debug)]
pub enum Encoding {
    BINARY,
    STRUCTURED,
    BATCH,
}

/// The mathematical shape of one exchange: which of the four cases it is,
/// and the events it carries.
pub ghost enum ExchangeView {
    Binary(Option<EventView>),
    Structured(Option<EventView>),
    Batch(Seq<EventView>),
    Bundle(Seq<(Seq<char>, EventView)>),
}

/// Every event carried by the exchange is well-formed.
pub open spec fn exchange_wf(x: ExchangeView) -> bool {
    match x {
        ExchangeView::Binary(oe) => match oe {
            Some(e) => event_wf(e),
            None => true,
        },
        ExchangeView::Structured(oe) => match oe {
            Some(e) => event_wf(e),
            None => true,
        },
        ExchangeView::Batch(es) => forall|i: int| 0 <= i < es.len() ==> event_wf(#[trigger] es[i]),
        ExchangeView::Bundle(es) => forall|i: int|
            0 <= i < es.len() ==> event_wf((#[trigger] es[i]).1),
    }
}

/// One decoded inbound exchange: a single event in either encoding (possibly
/// absent), a batch, or a named bundle. Exactly one case per request.
pub enum EventRequest {
    Binary(Option<Event>),
    Structured(Option<Event>),
    Batch(Vec<Event>),
    Bundle(Vec<(String, Event)>),
}

impl View for EventRequest {
    type V = ExchangeView;

    open spec fn view(&self) -> ExchangeView {
        match self {
            EventRequest::Binary(oe) => ExchangeView::Binary(
                match oe {
                    Some(e) => Some(e@),
                    None => None,
                },
            ),
            EventRequest::Structured(oe) => ExchangeView::Structured(
                match oe {
                    Some(e) => Some(e@),
                    None => None,
                },
            ),
            EventRequest::Batch(es) => ExchangeView::Batch(es.deep_view()),
            EventRequest::Bundle(es) => ExchangeView::Bundle(es.deep_view()),
        }
    }
}

/// One outbound exchange, mirroring `EventRequest`: the binary/structured
/// cases answer in the encoding the request used, the batch and bundle cases
/// always use their fixed wire forms.
pub enum EventResponse {
    Binary(Option<Event>),
    Structured(Option<Event>),
    Batch(Vec<Event>),
    Bundle(Vec<(String, Event)>),
}

impl View for EventResponse {
    type V = ExchangeView;

    open spec fn view(&self) -> ExchangeView {
        match self {
            EventResponse::Binary(oe) => ExchangeView::Binary(
                match oe {
                    Some(e) => Some(e@),
                    None => None,
                },
            ),
            EventResponse::Structured(oe) => ExchangeView::Structured(
                match oe {
                    Some(e) => Some(e@),
                    None => None,
                },
            ),
            EventResponse::Batch(es) => ExchangeView::Batch(es.deep_view()),
            EventResponse::Bundle(es) => ExchangeView::Bundle(es.deep_view()),
        }
    }
}

/// A handler's declared input shape: no event arguments, one mandatory
/// event, one optional event, a list, or named events, each marked mandatory
/// (`true`) or optional.
pub enum InputShape {
    NoInput,
    SingleRequired,
    SingleOptional,
    EventList,
    NamedBundle(Vec<(String, bool)>),
}

/// The mathematical shape of an input declaration.
pub ghost enum InputShapeView {
    NoInput,
    SingleRequired,
    SingleOptional,
    EventList,
    NamedBundle(Seq<(Seq<char>, bool)>),
}

impl View for InputShape {
    type V = InputShapeView;

    open spec fn view(&self) -> InputShapeView {
        match self {
            InputShape::NoInput => InputShapeView::NoInput,
            InputShape::SingleRequired => InputShapeView::SingleRequired,
            InputShape::SingleOptional => InputShapeView::SingleOptional,
            InputShape::EventList => InputShapeView::EventList,
            InputShape::NamedBundle(keys) => InputShapeView::NamedBundle(keys.deep_view()),
        }
    }
}

/// A handler's declared output cardinality.
#[derive(PartialEq, Eq, Structural, Clone, Copy, Debug)]
pub enum OutputShape {
    Single,
    OptionalSingle,
    EventList,
    NamedBundle,
}

/// What a handler declares at registration time: its input shape and its
/// output cardinality. Built once, read-only afterwards.
pub struct ShapeDescriptor {
    pub input: InputShape,
    pub output: OutputShape,
}

} // verus!
