//! The envelope model: the event entity, its version tag and its payload.

use vstd::prelude::*;

use crate::strutil::str_eq;
use crate::timestamp::Timestamp;

verus! {

/// The protocol versions this layer understands.
///
/// The wire strings are asymmetric on purpose, mirroring the behaviour this
/// layer replicates: decoding accepts `"1.0-rc1"` for the newest version,
/// while encoding emits `"1.0"`.
#[derive(PartialEq, Eq, Structural, Clone, Copy, Debug)]
pub enum SpecVersion {
    V02,
    V03,
    V10,
}

/// The wire string a version encodes to: `"0.2"`, `"0.3"`, `"1.0"`.
pub open spec fn spec_version_encode_str(v: SpecVersion) -> Seq<char> {
    match v {
        SpecVersion::V02 => "0.2"@,
        SpecVersion::V03 => "0.3"@,
        SpecVersion::V10 => "1.0"@,
    }
}

/// The version, if any, that the wire string `s` decodes to.
pub open spec fn spec_version_of_str(s: Seq<char>) -> Option<SpecVersion> {
    if s == "0.2"@ {
        Some(SpecVersion::V02)
    } else if s == "0.3"@ {
        Some(SpecVersion::V03)
    } else if s == "1.0-rc1"@ {
        Some(SpecVersion::V10)
    } else {
        None
    }
}

impl SpecVersion {
    /// Decode a wire string: `"0.2"`, `"0.3"` or `"1.0-rc1"`; anything else
    /// is an unrecognized version.
    pub fn try_from_wire(value: &str) -> (r: Option<SpecVersion>)
        ensures
            r == spec_version_of_str(value@),
    {
        if str_eq(value, "0.2") {
            Some(SpecVersion::V02)
        } else if str_eq(value, "0.3") {
            Some(SpecVersion::V03)
        } else if str_eq(value, "1.0-rc1") {
            Some(SpecVersion::V10)
        } else {
            None
        }
    }

    /// The wire string emitted on encode: `"0.2"`, `"0.3"` or `"1.0"`.
    pub fn to_wire(&self) -> (r: &'static str)
        ensures
            r@ == spec_version_encode_str(*self),
    {
        match self {
            SpecVersion::V02 => "0.2",
            SpecVersion::V03 => "0.3",
            SpecVersion::V10 => "1.0",
        }
    }
}

/// An event's domain data: a content type naming what the bytes mean, and
/// the data itself, carried as text.
#[derive(PartialEq, Eq, Debug)]
pub struct Payload {
    pub content_type: String,
    pub data: String,
}

impl Clone for Payload {
    fn clone(&self) -> (r: Self)
        ensures
            r == *self,
    {
        Payload { content_type: self.content_type.clone(), data: self.data.clone() }
    }
}

/// The mathematical shape of an event: every text field as its characters.
#[verifier::ext_equal]
pub ghost struct EventView {
    pub id: Seq<char>,
    pub source: Seq<char>,
    pub spec_version: SpecVersion,
    pub event_type: Seq<char>,
    pub subject: Option<Seq<char>>,
    pub time: Option<Timestamp>,
    pub payload: Option<(Seq<char>, Seq<char>)>,
    pub extensions: Seq<(Seq<char>, Seq<char>)>,
}

/// The canonical envelope: context attributes, optional payload, and
/// extension attributes.
///
/// Events are value objects: every transformation builds a new event rather
/// than sharing and mutating one. `extensions` holds any attribute outside
/// the standard context set, with each name at most once.
#[derive(PartialEq, Eq, Debug)]
pub struct Event {
    pub id: String,
    pub source: String,
    pub spec_version: SpecVersion,
    pub event_type: String,
    pub subject: Option<String>,
    pub time: Option<Timestamp>,
    pub payload: Option<Payload>,
    pub extensions: Vec<(String, String)>,
}

impl View for Event {
    type V = EventView;

    open spec fn view(&self) -> EventView {
        EventView {
            id: self.id@,
            source: self.source@,
            spec_version: self.spec_version,
            event_type: self.event_type@,
            subject: match self.subject {
                Some(s) => Some(s@),
                None => None,
            },
            time: self.time,
            payload: match self.payload {
                Some(p) => Some((p.content_type@, p.data@)),
                None => None,
            },
            extensions: self.extensions.deep_view(),
        }
    }
}

impl DeepView for Event {
    type V = EventView;

    open spec fn deep_view(&self) -> EventView {
        self@
    }
}

/// Clone a list of extension attributes; the result is the same value.
pub fn clone_string_pairs(v: &Vec<(String, String)>) -> (r: Vec<(String, String)>)
    ensures
        r@ == v@,
{
    let mut r: Vec<(String, String)> = Vec::new();
    let mut i: usize = 0;
    while i < v.len()
        invariant
            i <= v@.len(),
            r@ == v@.subrange(0, i as int),
        decreases v@.len() - i,
    {
        let p = &v[i];
        r.push((p.0.clone(), p.1.clone()));
        proof {
            assert(r@ =~= v@.subrange(0, i + 1 as int));
        }
        i = i + 1;
    }
    proof {
        assert(v@.subrange(0, v@.len() as int) =~= v@);
    }
    r
}

impl Clone for Event {
    /// The clone is the same event value: every field of its view is kept.
    fn clone(&self) -> (r: Self)
        ensures
            r@ == self@,
    {
        Event {
            id: self.id.clone(),
            source: self.source.clone(),
            spec_version: self.spec_version,
            event_type: self.event_type.clone(),
            subject: match &self.subject {
                Some(s) => Some(s.clone()),
                None => None,
            },
            time: self.time,
            payload: match &self.payload {
                Some(p) => Some(p.clone()),
                None => None,
            },
            extensions: clone_string_pairs(&self.extensions),
        }
    }
}

/// Relies on uuid's `Uuid::new_v4` and its `Display` form: a fresh random
/// identifier, rendered hyphenated as 36 characters.
#[verifier::external_body]
fn fresh_event_id() -> (r: String)
    ensures
        r@.len() == 36,
{
    uuid::Uuid::new_v4().to_string()
}

/// Relies on hostname's `get`: the machine's hostname, where it can be read.
/// Nothing is promised of the value.
#[verifier::external_body]
fn machine_hostname() -> (r: Option<String>)
{
    hostname::get().ok().map(|h| h.to_string_lossy().into_owned())
}

/// The event type a freshly constructed event carries until overridden.
pub open spec fn default_event_type() -> Seq<char> {
    "generated.rust-faas-runtime"@
}

impl Event {
    /// A fresh event: a new unique id, the machine's hostname (or the
    /// configured default) as source, the default type, and everything else
    /// empty. Callers override fields as needed.
    pub fn new() -> (e: Event)
        ensures
            e@.id.len() == 36,
            e@.spec_version == SpecVersion::V03,
            e@.event_type == default_event_type(),
            e@.subject is None,
            e@.time is None,
            e@.payload is None,
            e@.extensions == Seq::<(Seq<char>, Seq<char>)>::empty(),
    {
        let id = fresh_event_id();
        let source = match machine_hostname() {
            Some(h) => h,
            None => String::from_str("rustfaasruntime.com"),
        };
        let extensions: Vec<(String, String)> = Vec::new();
        proof {
            assert(extensions.deep_view() =~= Seq::<(Seq<char>, Seq<char>)>::empty());
        }
        Event {
            id,
            source,
            spec_version: SpecVersion::V03,
            event_type: String::from_str("generated.rust-faas-runtime"),
            subject: None,
            time: None,
            payload: None,
            extensions,
        }
    }
}


/// How the encode-side wire string decodes: faithfully for the symmetric
/// versions, and not at all for the newest, whose decode string differs.
pub proof fn lemma_version_encode_decode(v: SpecVersion)
    ensures
        v != SpecVersion::V10 ==> spec_version_of_str(spec_version_encode_str(v)) == Some(v),
        v == SpecVersion::V10 ==> spec_version_of_str(spec_version_encode_str(v)) is None,
{
    reveal_strlit("0.2");
    reveal_strlit("0.3");
    reveal_strlit("1.0");
    reveal_strlit("1.0-rc1");
    assert("0.2"@.len() == 3);
    assert("0.3"@.len() == 3);
    assert("1.0"@.len() == 3);
    assert("1.0-rc1"@.len() == 7);
    assert("0.2"@[2] == '2' && "0.3"@[2] == '3' && "1.0"@[2] == '0');
    assert("0.2"@[0] == '0' && "0.3"@[0] == '0' && "1.0"@[0] == '1');
}


/// Writing a payload: replace an event's domain data, leaving every other
/// attribute untouched.
pub trait Writer: Sized {
    /// The event view this value exposes to the payload contracts.
    spec fn wv(&self) -> EventView;

    /// Replace the payload with the given content type and data. The
    /// verified implementation cannot fail; the `Result` mirrors the shape
    /// fallible writers share.
    fn write_payload(&mut self, content_type: &str, value: &str) -> (r: Result<(), String>)
        ensures
            r is Ok,
            final(self).wv() == (EventView {
                payload: Some((content_type@, value@)),
                ..old(self).wv()
            }),
    ;

    /// A copy of this value with the payload replaced; the value itself is
    /// untouched.
    fn clone_with_new_payload(&self, content_type: &str, value: &str) -> (r: Result<Self, String>)
        ensures
            (r matches Ok(n) && n.wv() == (EventView {
                payload: Some((content_type@, value@)),
                ..self.wv()
            })),
    ;
}

impl Writer for Event {
    open spec fn wv(&self) -> EventView {
        self@
    }

    fn write_payload(&mut self, content_type: &str, value: &str) -> (r: Result<(), String>) {
        self.payload = Some(
            Payload {
                content_type: String::from_str(content_type),
                data: String::from_str(value),
            },
        );
        proof {
            assert(self@ =~= (EventView {
                payload: Some((content_type@, value@)),
                ..old(self)@
            }));
        }
        Ok(())
    }

    fn clone_with_new_payload(&self, content_type: &str, value: &str) -> (r: Result<Self, String>) {
        let mut n = self.clone();
        match n.write_payload(content_type, value) {
            Ok(_) => Ok(n),
            Err(e) => Err(e),
        }
    }
}

/// Reading a payload: the domain data an event carries, if any.
pub trait Reader {
    /// The payload this value exposes to the reading contracts.
    spec fn rv(&self) -> Option<(Seq<char>, Seq<char>)>;

    /// The payload's content type and data. The verified implementations
    /// cannot fail on a carried payload; the nested `Result` mirrors the
    /// shape fallible readers share.
    fn read_payload_with_content_type(&self) -> (r: Option<Result<(String, String), String>>)
        ensures
            match r {
                Some(res) => (res matches Ok(p) && self.rv() == Some((p.0@, p.1@))),
                None => self.rv() is None,
            },
    ;

    /// The payload's data alone.
    fn read_payload(&self) -> (r: Option<Result<String, String>>)
        ensures
            match r {
                Some(res) => (res matches Ok(d) && self.rv() matches Some(p) && d@ == p.1),
                None => self.rv() is None,
            },
    ;
}

impl Reader for Event {
    open spec fn rv(&self) -> Option<(Seq<char>, Seq<char>)> {
        self@.payload
    }

    fn read_payload_with_content_type(&self) -> (r: Option<Result<(String, String), String>>) {
        match &self.payload {
            Some(p) => Some(Ok((p.content_type.clone(), p.data.clone()))),
            None => None,
        }
    }

    fn read_payload(&self) -> (r: Option<Result<String, String>>) {
        match &self.payload {
            Some(p) => Some(Ok(p.data.clone())),
            None => None,
        }
    }
}

impl Reader for Option<Event> {
    open spec fn rv(&self) -> Option<(Seq<char>, Seq<char>)> {
        match self {
            Some(e) => e@.payload,
            None => None,
        }
    }

    fn read_payload_with_content_type(&self) -> (r: Option<Result<(String, String), String>>) {
        match self {
            Some(e) => e.read_payload_with_content_type(),
            None => None,
        }
    }

    fn read_payload(&self) -> (r: Option<Result<String, String>>) {
        match self {
            Some(e) => e.read_payload(),
            None => None,
        }
    }
}

/// Mapping a payload: build a new event whose data is a function of the old,
/// leaving an event without payload as it stands.
pub trait Mapper: Sized {
    /// The event view this value exposes to the mapping contract.
    spec fn mv(&self) -> EventView;

    /// A copy of this value with the payload's data passed through `f`; the
    /// content type and every other attribute are kept.
    fn map_payload<F: Fn(String) -> String>(&self, f: F) -> (r: Result<Self, String>)
        requires
            forall|s: String| #[trigger] call_requires(f, (s,)),
        ensures
            self.mv().payload is None ==> (r matches Ok(n) && n.mv() == self.mv()),
            self.mv().payload is Some ==> (r matches Ok(n) && exists|din: String, dout: String|
                {
                    &&& din@ == (self.mv().payload->0).1
                    &&& #[trigger] call_ensures(f, (din,), dout)
                    &&& n.mv() == (EventView {
                        payload: Some(((self.mv().payload->0).0, dout@)),
                        ..self.mv()
                    })
                }),
    ;
}

impl Mapper for Event {
    open spec fn mv(&self) -> EventView {
        self@
    }

    fn map_payload<F: Fn(String) -> String>(&self, f: F) -> (r: Result<Self, String>) {
        match &self.payload {
            Some(p) => {
                let din = p.data.clone();
                let ct = p.content_type.clone();
                let dout = f(din);
                let mut n = self.clone();
                n.payload = Some(Payload { content_type: ct, data: dout });
                proof {
                    assert(n@ =~= (EventView {
                        payload: Some(((self@.payload->0).0, (n@.payload->0).1)),
                        ..self@
                    }));
                }
                Ok(n)
            },
            None => {
                let n = self.clone();
                Ok(n)
            },
        }
    }
}

} // verus!
