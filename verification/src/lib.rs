//! A verified binding layer between event-processing handlers and HTTP,
//! speaking the CloudEvents protocol: it decodes an inbound request into
//! event envelopes, routes them to a handler according to the handler's
//! declared input shape, and re-encodes the handler's output, answering
//! in the wire encoding the request used.

pub mod codec;
pub mod common;
pub mod dispatch;
pub mod errors;
pub mod event;
pub mod http;
pub mod json;
pub mod json_multi;
pub mod strutil;
pub mod timestamp;

pub use common::Encoding;
pub use common::EventRequest;
pub use common::EventResponse;
pub use event::Event;
pub use event::Payload;
pub use event::SpecVersion;
