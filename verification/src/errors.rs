//! The error taxonomy: everything that can go wrong while decoding a
//! request, adapting it to a handler, or encoding the response. Every
//! variant is terminal for its request and maps to one HTTP status.

use vstd::prelude::*;
use vstd::string::StringExecFns;

verus! {

/// One request's failure, carrying the value or name at fault.
#[derive(PartialEq, Eq, Debug, Clone)]
pub enum FaasError {
    /// A mandatory context header is absent; carries the header's name.
    MissingHeader(String),
    /// The carried version string is not a known wire version.
    InvalidVersion(String),
    /// A content type was announced but the body is empty; carries that
    /// content type.
    EmptyBody(String),
    /// The body is not a well-formed envelope; carries a description.
    Decode(String),
    /// The request's shape is not one the handler accepts; carries the
    /// shape expected and the shape received.
    UnsupportedShape(String, String),
    /// The handler requires an event and the request carries none.
    MissingEvent,
    /// A named event the handler requires is absent from the bundle;
    /// carries the name.
    MissingParameter(String),
    /// The response could not be serialized; carries a description.
    Encode(String),
}

impl FaasError {
    /// The HTTP status this failure answers with: encoding failures are the
    /// server's fault, everything else is the request's.
    pub fn status(&self) -> (s: u16)
        ensures
            s == spec_error_status(*self),
    {
        match self {
            FaasError::Encode(_) => 500,
            _ => 400,
        }
    }

    /// A human-readable description of the violated constraint, for the
    /// response body.
    pub fn message(&self) -> String {
        match self {
            FaasError::MissingHeader(h) => String::from_str("Expecting header ").concat(
                h.as_str(),
            ),
            FaasError::InvalidVersion(v) => String::from_str("Invalid specversion ").concat(
                v.as_str(),
            ),
            FaasError::EmptyBody(ct) => String::from_str(
                "No payload provided but content type is ",
            ).concat(ct.as_str()),
            FaasError::Decode(c) => String::from_str("Cannot decode event: ").concat(c.as_str()),
            FaasError::UnsupportedShape(expected, actual) => String::from_str(
                "This function doesn't accept cloudevent ",
            ).concat(actual.as_str()).concat(", it expects ").concat(expected.as_str()),
            FaasError::MissingEvent => String::from_str("Expecting a non empty Event"),
            FaasError::MissingParameter(k) => String::from_str(
                "Cannot find event with name ",
            ).concat(k.as_str()),
            FaasError::Encode(c) => String::from_str("Cannot encode response: ").concat(c.as_str()),
        }
    }
}

/// 500 for encode-time failures, 400 for everything else.
pub open spec fn spec_error_status(e: FaasError) -> u16 {
    match e {
        FaasError::Encode(_) => 500,
        _ => 400,
    }
}

} // verus!
