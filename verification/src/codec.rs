//! The mapping between an event and its flat JSON object form, used by the
//! structured, batch and bundle wire forms.
//!
//! Encoding lays the context attributes out as top-level members (`id`,
//! `source`, `specversion`, `type`, `subject`, `time`, `datacontenttype`,
//! `data`) followed by the extension attributes. Decoding folds the members
//! back, treating every unrecognized name as an extension; a duplicated
//! name, an unknown version string, a malformed `time`, or a payload half
//! without its other half all reject the envelope.

use vstd::prelude::*;

use crate::errors::FaasError;
use crate::event::Event;
use crate::event::EventView;
use crate::event::SpecVersion;
use crate::event::Payload;
use crate::event::spec_version_encode_str;
use crate::event::spec_version_of_str;
use crate::json::parse_obj;
use crate::json::push_obj;
use crate::json::skip_ws;
use crate::json::spec_parse_obj;
use crate::json::spec_ser_obj;
use crate::json::spec_skip_ws;
use crate::json_multi::parse_batch;
use crate::json_multi::parse_bundle;
use crate::json_multi::push_batch;
use crate::json_multi::push_bundle;
use crate::json_multi::spec_parse_batch;
use crate::json_multi::spec_parse_bundle;
use crate::json_multi::spec_ser_batch;
use crate::json_multi::spec_ser_bundle;
use crate::strutil::chars_to_string;
use crate::strutil::str_eq;
use crate::strutil::str_to_chars;
use vstd::string::StringExecFns;
use crate::timestamp::Timestamp;
use crate::timestamp::format_ts;
use crate::timestamp::parse_rfc3339;
use crate::timestamp::spec_format_ts;
use crate::timestamp::spec_parse_ts;
use crate::timestamp::ts_wf;

verus! {

/// The event's time, where present, is a real calendar time: what every
/// decoded event satisfies and encoding requires.
pub open spec fn event_wf(e: EventView) -> bool {
    match e.time {
        Some(t) => ts_wf(t),
        None => true,
    }
}

/// The names that carry context attributes or the payload; an extension may
/// not use them.
pub open spec fn is_reserved_name(k: Seq<char>) -> bool {
    ||| k == "id"@
    ||| k == "source"@
    ||| k == "specversion"@
    ||| k == "type"@
    ||| k == "subject"@
    ||| k == "time"@
    ||| k == "datacontenttype"@
    ||| k == "data"@
}

/// Extension names are pairwise distinct and stay off the reserved names:
/// what every decoded event satisfies and a faithful re-encoding requires.
pub open spec fn extensions_ok(ext: Seq<(Seq<char>, Seq<char>)>) -> bool {
    &&& forall|i: int| 0 <= i < ext.len() ==> !is_reserved_name(#[trigger] ext[i].0)
    &&& forall|i: int, j: int| 0 <= i < j < ext.len() ==> (#[trigger] ext[i].0) != (
    #[trigger] ext[j].0)
}

/// The flat object members an event encodes to, in canonical order.
pub open spec fn spec_event_pairs(e: EventView) -> Seq<(Seq<char>, Seq<char>)> {
    seq![
        ("id"@, e.id),
        ("source"@, e.source),
        ("specversion"@, spec_version_encode_str(e.spec_version)),
        ("type"@, e.event_type),
    ] + (match e.subject {
        Some(s) => seq![("subject"@, s)],
        None => Seq::empty(),
    }) + (match e.time {
        Some(t) => seq![("time"@, spec_format_ts(t))],
        None => Seq::empty(),
    }) + (match e.payload {
        Some(p) => seq![("datacontenttype"@, p.0), ("data"@, p.1)],
        None => Seq::empty(),
    }) + e.extensions
}

/// An envelope in mid-decode: each attribute read so far, at most once.
#[verifier::ext_equal]
pub ghost struct PartialEvent {
    pub id: Option<Seq<char>>,
    pub source: Option<Seq<char>>,
    pub spec_version: Option<SpecVersion>,
    pub event_type: Option<Seq<char>>,
    pub subject: Option<Seq<char>>,
    pub time: Option<Timestamp>,
    pub payload_ct: Option<Seq<char>>,
    pub payload_data: Option<Seq<char>>,
    pub extensions: Seq<(Seq<char>, Seq<char>)>,
}

pub open spec fn spec_empty_partial() -> PartialEvent {
    PartialEvent {
        id: None,
        source: None,
        spec_version: None,
        event_type: None,
        subject: None,
        time: None,
        payload_ct: None,
        payload_data: None,
        extensions: Seq::empty(),
    }
}

/// Some extension already uses the name `k`.
pub open spec fn spec_has_key(ext: Seq<(Seq<char>, Seq<char>)>, k: Seq<char>) -> bool {
    exists|i: int| 0 <= i < ext.len() && (#[trigger] ext[i].0) == k
}

/// Read one member into the partial envelope: a reserved name fills its
/// attribute (rejecting a duplicate, an unknown version, or a malformed
/// time), any other name joins the extensions (rejecting a duplicate).
pub open spec fn spec_absorb(p: PartialEvent, k: Seq<char>, v: Seq<char>) -> Option<PartialEvent> {
    if k == "id"@ {
        if p.id is None {
            Some(PartialEvent { id: Some(v), ..p })
        } else {
            None
        }
    } else if k == "source"@ {
        if p.source is None {
            Some(PartialEvent { source: Some(v), ..p })
        } else {
            None
        }
    } else if k == "specversion"@ {
        if p.spec_version is None {
            match spec_version_of_str(v) {
                Some(sv) => Some(PartialEvent { spec_version: Some(sv), ..p }),
                None => None,
            }
        } else {
            None
        }
    } else if k == "type"@ {
        if p.event_type is None {
            Some(PartialEvent { event_type: Some(v), ..p })
        } else {
            None
        }
    } else if k == "subject"@ {
        if p.subject is None {
            Some(PartialEvent { subject: Some(v), ..p })
        } else {
            None
        }
    } else if k == "time"@ {
        if p.time is None {
            match spec_parse_ts(v) {
                Some(t) => Some(PartialEvent { time: Some(t), ..p }),
                None => None,
            }
        } else {
            None
        }
    } else if k == "datacontenttype"@ {
        if p.payload_ct is None {
            Some(PartialEvent { payload_ct: Some(v), ..p })
        } else {
            None
        }
    } else if k == "data"@ {
        if p.payload_data is None {
            Some(PartialEvent { payload_data: Some(v), ..p })
        } else {
            None
        }
    } else {
        if !spec_has_key(p.extensions, k) {
            Some(PartialEvent { extensions: p.extensions.push((k, v)), ..p })
        } else {
            None
        }
    }
}

/// Fold the members from index `i` on into the partial envelope.
pub open spec fn spec_absorb_all(
    p: PartialEvent,
    ps: Seq<(Seq<char>, Seq<char>)>,
    i: int,
) -> Option<PartialEvent>
    decreases ps.len() - i,
{
    if !(0 <= i < ps.len()) {
        Some(p)
    } else {
        match spec_absorb(p, ps[i].0, ps[i].1) {
            None => None,
            Some(p2) => spec_absorb_all(p2, ps, i + 1),
        }
    }
}

/// Close the fold: the four mandatory attributes must have been read, and
/// the payload members must come as a pair or not at all.
pub open spec fn spec_finish(p: PartialEvent) -> Option<EventView> {
    if p.id is Some && p.source is Some && p.spec_version is Some && p.event_type is Some {
        match (p.payload_ct, p.payload_data) {
            (Some(ct), Some(d)) => Some(
                EventView {
                    id: p.id.unwrap(),
                    source: p.source.unwrap(),
                    spec_version: p.spec_version.unwrap(),
                    event_type: p.event_type.unwrap(),
                    subject: p.subject,
                    time: p.time,
                    payload: Some((ct, d)),
                    extensions: p.extensions,
                },
            ),
            (None, None) => Some(
                EventView {
                    id: p.id.unwrap(),
                    source: p.source.unwrap(),
                    spec_version: p.spec_version.unwrap(),
                    event_type: p.event_type.unwrap(),
                    subject: p.subject,
                    time: p.time,
                    payload: None,
                    extensions: p.extensions,
                },
            ),
            _ => None,
        }
    } else {
        None
    }
}

/// The event a member list decodes to, if it is a well-formed envelope.
pub open spec fn spec_event_of_pairs(ps: Seq<(Seq<char>, Seq<char>)>) -> Option<EventView> {
    match spec_absorb_all(spec_empty_partial(), ps, 0) {
        None => None,
        Some(p) => spec_finish(p),
    }
}

/// Lay an event out as its flat object members.
pub fn event_pairs(e: &Event) -> (r: Vec<(String, String)>)
    requires
        event_wf(e@),
    ensures
        r.deep_view() == spec_event_pairs(e@),
{
    let mut r: Vec<(String, String)> = Vec::new();
    r.push((String::from_str("id"), e.id.clone()));
    r.push((String::from_str("source"), e.source.clone()));
    r.push((String::from_str("specversion"), String::from_str(e.spec_version.to_wire())));
    r.push((String::from_str("type"), e.event_type.clone()));
    match &e.subject {
        Some(s) => {
            r.push((String::from_str("subject"), s.clone()));
        },
        None => {},
    }
    match &e.time {
        Some(t) => {
            r.push((String::from_str("time"), format_ts(t)));
        },
        None => {},
    }
    match &e.payload {
        Some(p) => {
            r.push((String::from_str("datacontenttype"), p.content_type.clone()));
            r.push((String::from_str("data"), p.data.clone()));
        },
        None => {},
    }
    let ghost head = r.deep_view();
    let ghost rvpre = r@;
    let mut ext = crate::event::clone_string_pairs(&e.extensions);
    r.append(&mut ext);
    proof {
        assert(r@ == rvpre + e.extensions@);
        assert forall|x: int| 0 <= x < r@.len() implies r.deep_view()[x] == (head
            + e.extensions.deep_view())[x] by {
            if x < rvpre.len() {
                assert(r@[x] == rvpre[x]);
                assert(head[x] == rvpre[x].deep_view());
            } else {
                assert(r@[x] == e.extensions@[x - rvpre.len()]);
                assert(e.extensions.deep_view()[x - rvpre.len()] == e.extensions@[x
                    - rvpre.len()].deep_view());
            }
        }
        assert(r.deep_view() =~= head + e.extensions.deep_view());
        assert(r.deep_view() =~= spec_event_pairs(e@));
    }
    r
}

/// Some extension in `v` already uses the name `k`.
pub fn has_key(v: &Vec<(String, String)>, k: &str) -> (r: bool)
    ensures
        r == spec_has_key(v.deep_view(), k@),
{
    let mut i: usize = 0;
    while i < v.len()
        invariant
            i <= v@.len(),
            forall|j: int| 0 <= j < i ==> (#[trigger] v.deep_view()[j].0) != k@,
        decreases v@.len() - i,
    {
        if str_eq(v[i].0.as_str(), k) {
            proof {
                assert(v.deep_view()[i as int].0 == k@);
            }
            return true;
        }
        proof {
            assert(v.deep_view()[i as int].0 == v@[i as int].0@);
        }
        i = i + 1;
    }
    false
}

/// An envelope in mid-decode, as carried by the decoder.
struct Partial {
    id: Option<String>,
    source: Option<String>,
    spec_version: Option<SpecVersion>,
    event_type: Option<String>,
    subject: Option<String>,
    time: Option<Timestamp>,
    payload_ct: Option<String>,
    payload_data: Option<String>,
    extensions: Vec<(String, String)>,
}

impl Partial {
    spec fn view(&self) -> PartialEvent {
        PartialEvent {
            id: match self.id {
                Some(s) => Some(s@),
                None => None,
            },
            source: match self.source {
                Some(s) => Some(s@),
                None => None,
            },
            spec_version: self.spec_version,
            event_type: match self.event_type {
                Some(s) => Some(s@),
                None => None,
            },
            subject: match self.subject {
                Some(s) => Some(s@),
                None => None,
            },
            time: self.time,
            payload_ct: match self.payload_ct {
                Some(s) => Some(s@),
                None => None,
            },
            payload_data: match self.payload_data {
                Some(s) => Some(s@),
                None => None,
            },
            extensions: self.extensions.deep_view(),
        }
    }
}

/// Decode a member list into an event, as `spec_event_of_pairs` says.
pub fn event_from_pairs(ps: &Vec<(String, String)>) -> (r: Result<Event, FaasError>)
    ensures
        match r {
            Ok(e) => spec_event_of_pairs(ps.deep_view()) == Some(e@) && event_wf(e@),
            Err(er) => spec_event_of_pairs(ps.deep_view()) is None && er is Decode,
        },
{
    let ghost dv = ps.deep_view();
    let mut p = Partial {
        id: None,
        source: None,
        spec_version: None,
        event_type: None,
        subject: None,
        time: None,
        payload_ct: None,
        payload_data: None,
        extensions: Vec::new(),
    };
    proof {
        assert(p.view() =~= spec_empty_partial());
    }
    let mut i: usize = 0;
    while i < ps.len()
        invariant
            i <= ps@.len(),
            dv == ps.deep_view(),
            dv.len() == ps@.len(),
            spec_absorb_all(spec_empty_partial(), dv, 0) == spec_absorb_all(p.view(), dv, i as int),
            match p.view().time {
                Some(t) => ts_wf(t),
                None => true,
            },
        decreases ps@.len() - i,
    {
        let pair = &ps[i];
        let k = pair.0.as_str();
        let v = pair.1.clone();
        proof {
            assert(dv[i as int] == (ps@[i as int].0@, ps@[i as int].1@));
        }
        let ghost pre = p.view();
        if str_eq(k, "id") {
            if p.id.is_none() {
                p.id = Some(v);
            } else {
                return Err(FaasError::Decode(String::from_str("duplicate field id")));
            }
        } else if str_eq(k, "source") {
            if p.source.is_none() {
                p.source = Some(v);
            } else {
                return Err(FaasError::Decode(String::from_str("duplicate field source")));
            }
        } else if str_eq(k, "specversion") {
            if p.spec_version.is_none() {
                match SpecVersion::try_from_wire(v.as_str()) {
                    Some(sv) => {
                        p.spec_version = Some(sv);
                    },
                    None => {
                        return Err(
                            FaasError::Decode(
                                String::from_str("invalid specversion ").concat(v.as_str()),
                            ),
                        );
                    },
                }
            } else {
                return Err(FaasError::Decode(String::from_str("duplicate field specversion")));
            }
        } else if str_eq(k, "type") {
            if p.event_type.is_none() {
                p.event_type = Some(v);
            } else {
                return Err(FaasError::Decode(String::from_str("duplicate field type")));
            }
        } else if str_eq(k, "subject") {
            if p.subject.is_none() {
                p.subject = Some(v);
            } else {
                return Err(FaasError::Decode(String::from_str("duplicate field subject")));
            }
        } else if str_eq(k, "time") {
            if p.time.is_none() {
                match parse_rfc3339(v.as_str()) {
                    Some(t) => {
                        p.time = Some(t);
                    },
                    None => {
                        return Err(
                            FaasError::Decode(
                                String::from_str("invalid time ").concat(v.as_str()),
                            ),
                        );
                    },
                }
            } else {
                return Err(FaasError::Decode(String::from_str("duplicate field time")));
            }
        } else if str_eq(k, "datacontenttype") {
            if p.payload_ct.is_none() {
                p.payload_ct = Some(v);
            } else {
                return Err(FaasError::Decode(String::from_str("duplicate field datacontenttype")));
            }
        } else if str_eq(k, "data") {
            if p.payload_data.is_none() {
                p.payload_data = Some(v);
            } else {
                return Err(FaasError::Decode(String::from_str("duplicate field data")));
            }
        } else {
            if has_key(&p.extensions, k) {
                return Err(
                    FaasError::Decode(String::from_str("duplicate extension ").concat(k)),
                );
            } else {
                let ghost old_ext = p.extensions.deep_view();
                p.extensions.push((pair.0.clone(), v));
                proof {
                    assert(p.extensions.deep_view() =~= old_ext.push((k@, dv[i as int].1)));
                }
            }
        }
        proof {
            assert(spec_absorb(pre, dv[i as int].0, dv[i as int].1) == Some(p.view())) by {
                assert(p.view() =~= spec_absorb(pre, dv[i as int].0, dv[i as int].1).unwrap());
            }
        }
        i = i + 1;
    }
    // the fold is done; close it
    if !(p.id.is_some() && p.source.is_some() && p.spec_version.is_some()
        && p.event_type.is_some()) {
        return Err(FaasError::Decode(String::from_str("missing mandatory field")));
    }
    let payload: Option<Payload> = match (p.payload_ct, p.payload_data) {
        (Some(ct), Some(d)) => Some(Payload { content_type: ct, data: d }),
        (None, None) => None,
        _ => {
            return Err(
                FaasError::Decode(String::from_str("datacontenttype and data must come together")),
            );
        },
    };
    let e = Event {
        id: p.id.unwrap(),
        source: p.source.unwrap(),
        spec_version: p.spec_version.unwrap(),
        event_type: p.event_type.unwrap(),
        subject: p.subject,
        time: p.time,
        payload,
        extensions: p.extensions,
    };
    proof {
        assert(spec_finish(spec_absorb_all(spec_empty_partial(), dv, 0).unwrap()) =~= Some(e@));
    }
    Ok(e)
}

/// Folding a run of extension members (names distinct, none reserved, none
/// already read) appends them all.
proof fn lemma_absorb_exts(ps: Seq<(Seq<char>, Seq<char>)>, i: int, p: PartialEvent)
    requires
        0 <= i <= ps.len(),
        forall|j: int| i <= j < ps.len() ==> !is_reserved_name((#[trigger] ps[j]).0),
        forall|j1: int, j2: int| i <= j1 < j2 < ps.len() ==> (#[trigger] ps[j1]).0 != (
        #[trigger] ps[j2]).0,
        forall|j: int| i <= j < ps.len() ==> !spec_has_key(p.extensions, (#[trigger] ps[j]).0),
    ensures
        spec_absorb_all(p, ps, i) == Some(
            PartialEvent { extensions: p.extensions + ps.subrange(i, ps.len() as int), ..p },
        ),
    decreases ps.len() - i,
{
    if i >= ps.len() {
        assert(ps.subrange(i, ps.len() as int) =~= Seq::<(Seq<char>, Seq<char>)>::empty());
        assert(p.extensions + ps.subrange(i, ps.len() as int) =~= p.extensions);
        assert(PartialEvent { extensions: p.extensions + ps.subrange(i, ps.len() as int), ..p }
            =~= p);
    } else {
        let k = ps[i].0;
        let v = ps[i].1;
        assert(!is_reserved_name(k));
        assert(!spec_has_key(p.extensions, k));
        let p2 = PartialEvent { extensions: p.extensions.push((k, v)), ..p };
        assert(spec_absorb(p, k, v) == Some(p2));
        assert forall|j: int| i + 1 <= j < ps.len() implies !spec_has_key(
            p2.extensions,
            (#[trigger] ps[j]).0,
        ) by {
            assert(!spec_has_key(p.extensions, ps[j].0));
            assert(ps[i].0 != ps[j].0);
            assert forall|x: int| 0 <= x < p2.extensions.len() implies (#[trigger] p2.extensions[x]).0
                != ps[j].0 by {
                if x < p.extensions.len() {
                    assert(!spec_has_key(p.extensions, ps[j].0));
                    assert(p.extensions[x].0 != ps[j].0);
                }
            }
        }
        lemma_absorb_exts(ps, i + 1, p2);
        assert(p.extensions.push((k, v)) + ps.subrange(i + 1, ps.len() as int) =~= p.extensions
            + ps.subrange(i, ps.len() as int));
        assert(PartialEvent {
            extensions: p2.extensions + ps.subrange(i + 1, ps.len() as int),
            ..p2
        } =~= PartialEvent { extensions: p.extensions + ps.subrange(i, ps.len() as int), ..p });
    }
}

/// The reserved member names, and the version wire strings, are pairwise
/// distinct sequences.
proof fn lemma_reserved_names_distinct()
    ensures
        "id"@.len() == 2,
        "source"@.len() == 6,
        "specversion"@.len() == 11,
        "type"@.len() == 4,
        "subject"@.len() == 7,
        "time"@.len() == 4,
        "datacontenttype"@.len() == 15,
        "data"@.len() == 4,
        "type"@ != "time"@,
        "type"@ != "data"@,
        "time"@ != "data"@,
        "0.2"@.len() == 3,
        "0.3"@.len() == 3,
        "1.0"@.len() == 3,
        "0.2"@ != "0.3"@,
        "0.2"@ != "1.0"@,
        "0.3"@ != "1.0"@,
{
    reveal_strlit("id");
    reveal_strlit("source");
    reveal_strlit("specversion");
    reveal_strlit("type");
    reveal_strlit("subject");
    reveal_strlit("time");
    reveal_strlit("datacontenttype");
    reveal_strlit("data");
    reveal_strlit("0.2");
    reveal_strlit("0.3");
    reveal_strlit("1.0");
    assert("id"@.len() == 2);
    assert("source"@.len() == 6);
    assert("specversion"@.len() == 11);
    assert("type"@.len() == 4);
    assert("subject"@.len() == 7);
    assert("time"@.len() == 4);
    assert("datacontenttype"@.len() == 15);
    assert("data"@.len() == 4);
    assert("type"@[1] == 'y' && "time"@[1] == 'i' && "data"@[1] == 'a');
    assert("0.2"@.len() == 3);
    assert("0.3"@.len() == 3);
    assert("1.0"@.len() == 3);
    assert("0.2"@[2] == '2' && "0.3"@[2] == '3' && "1.0"@[2] == '0');
    assert("0.2"@[0] == '0' && "1.0"@[0] == '1');
}

/// The partial envelope after the context, time and payload members of
/// `spec_event_pairs(e)` have been folded, before any extension.
pub open spec fn spec_fixed_partial(e: EventView) -> PartialEvent {
    PartialEvent {
        id: Some(e.id),
        source: Some(e.source),
        spec_version: Some(e.spec_version),
        event_type: Some(e.event_type),
        subject: e.subject,
        time: e.time,
        payload_ct: match e.payload {
            Some(p) => Some(p.0),
            None => None,
        },
        payload_data: match e.payload {
            Some(p) => Some(p.1),
            None => None,
        },
        extensions: Seq::empty(),
    }
}

/// How many members of `spec_event_pairs(e)` precede the extensions.
pub open spec fn spec_fixed_len(e: EventView) -> int {
    4 + (match e.subject {
        Some(_) => 1int,
        None => 0int,
    }) + (match e.time {
        Some(_) => 1int,
        None => 0int,
    }) + (match e.payload {
        Some(_) => 2int,
        None => 0int,
    })
}

/// Folding the four mandatory members fills the four mandatory attributes.
#[verifier::rlimit(100)]
#[verifier::spinoff_prover]
proof fn lemma_absorb_base(e: EventView)
    requires
        e.spec_version != SpecVersion::V10,
    ensures
        ({
            let ps = spec_event_pairs(e);
            let p4 = PartialEvent {
                id: Some(e.id),
                source: Some(e.source),
                spec_version: Some(e.spec_version),
                event_type: Some(e.event_type),
                ..spec_empty_partial()
            };
            spec_absorb_all(spec_empty_partial(), ps, 0) == spec_absorb_all(p4, ps, 4)
        }),
{
    lemma_reserved_names_distinct();
    reveal_strlit("1.0-rc1");
    assert("1.0-rc1"@.len() == 7);
    let ps = spec_event_pairs(e);
    let p0 = spec_empty_partial();
    let p1 = PartialEvent { id: Some(e.id), ..p0 };
    let p2 = PartialEvent { source: Some(e.source), ..p1 };
    let p3 = PartialEvent { spec_version: Some(e.spec_version), ..p2 };
    let p4 = PartialEvent { event_type: Some(e.event_type), ..p3 };

    assert(ps[0] == ("id"@, e.id));
    assert(spec_absorb(p0, "id"@, e.id) == Some(p1));
    assert(spec_absorb_all(p0, ps, 0) == spec_absorb_all(p1, ps, 1));

    assert(ps[1] == ("source"@, e.source));
    assert(spec_absorb(p1, "source"@, e.source) == Some(p2));
    assert(spec_absorb_all(p1, ps, 1) == spec_absorb_all(p2, ps, 2));

    assert(ps[2] == ("specversion"@, spec_version_encode_str(e.spec_version)));
    assert(spec_version_of_str(spec_version_encode_str(e.spec_version)) == Some(e.spec_version));
    assert(spec_absorb(p2, "specversion"@, spec_version_encode_str(e.spec_version)) == Some(p3));
    assert(spec_absorb_all(p2, ps, 2) == spec_absorb_all(p3, ps, 3));

    assert(ps[3] == ("type"@, e.event_type));
    assert(spec_absorb(p3, "type"@, e.event_type) == Some(p4));
    assert(spec_absorb_all(p3, ps, 3) == spec_absorb_all(p4, ps, 4));
}

/// Folding the optional members (subject, time, payload) fills their
/// attributes and lands at the first extension.
#[verifier::rlimit(100)]
#[verifier::spinoff_prover]
proof fn lemma_absorb_optional(e: EventView)
    requires
        event_wf(e),
    ensures
        ({
            let ps = spec_event_pairs(e);
            let p4 = PartialEvent {
                id: Some(e.id),
                source: Some(e.source),
                spec_version: Some(e.spec_version),
                event_type: Some(e.event_type),
                ..spec_empty_partial()
            };
            spec_absorb_all(p4, ps, 4) == spec_absorb_all(
                spec_fixed_partial(e),
                ps,
                spec_fixed_len(e),
            )
        }),
{
    lemma_reserved_names_distinct();
    let ps = spec_event_pairs(e);
    let p4 = PartialEvent {
        id: Some(e.id),
        source: Some(e.source),
        spec_version: Some(e.spec_version),
        event_type: Some(e.event_type),
        ..spec_empty_partial()
    };

    let isub = 4 + (match e.subject {
        Some(_) => 1int,
        None => 0int,
    });
    let p5 = if e.subject is Some {
        PartialEvent { subject: e.subject, ..p4 }
    } else {
        p4
    };
    if e.subject is Some {
        assert(ps[4] == ("subject"@, e.subject.unwrap()));
        assert(spec_absorb(p4, "subject"@, e.subject.unwrap()) == Some(p5));
        assert(spec_absorb_all(p4, ps, 4) == spec_absorb_all(p5, ps, isub));
    }

    let itime = isub + (match e.time {
        Some(_) => 1int,
        None => 0int,
    });
    let p6 = if e.time is Some {
        PartialEvent { time: e.time, ..p5 }
    } else {
        p5
    };
    if e.time is Some {
        let t = e.time.unwrap();
        assert(ps[isub] == ("time"@, spec_format_ts(t)));
        crate::timestamp::lemma_parse_format_ts(t);
        assert(spec_absorb(p5, "time"@, spec_format_ts(t)) == Some(p6));
        assert(spec_absorb_all(p5, ps, isub) == spec_absorb_all(p6, ps, itime));
    }

    let ipl = itime + (match e.payload {
        Some(_) => 2int,
        None => 0int,
    });
    let p7 = if e.payload is Some {
        PartialEvent { payload_ct: Some(e.payload.unwrap().0), ..p6 }
    } else {
        p6
    };
    let p8 = if e.payload is Some {
        PartialEvent { payload_data: Some(e.payload.unwrap().1), ..p7 }
    } else {
        p6
    };
    if e.payload is Some {
        let pl = e.payload.unwrap();
        assert(ps[itime] == ("datacontenttype"@, pl.0));
        assert(spec_absorb(p6, "datacontenttype"@, pl.0) == Some(p7));
        assert(spec_absorb_all(p6, ps, itime) == spec_absorb_all(p7, ps, itime + 1));
        assert(ps[itime + 1] == ("data"@, pl.1));
        assert(spec_absorb(p7, "data"@, pl.1) == Some(p8));
        assert(spec_absorb_all(p7, ps, itime + 1) == spec_absorb_all(p8, ps, ipl));
    }
    assert(ipl == spec_fixed_len(e));
    assert(p8 =~= spec_fixed_partial(e));
}

/// Laying an event out as members and folding them back yields the same
/// event, for every well-formed event whose extensions keep to their rules
/// and whose version encodes to a string that decodes (the newest version's
/// wire strings are asymmetric, so it is excluded here).
#[verifier::rlimit(100)]
#[verifier::spinoff_prover]
pub proof fn lemma_event_pairs_round_trip(e: EventView)
    requires
        event_wf(e),
        extensions_ok(e.extensions),
        e.spec_version != SpecVersion::V10,
    ensures
        spec_event_of_pairs(spec_event_pairs(e)) == Some(e),
{
    let ps = spec_event_pairs(e);
    let p0 = spec_empty_partial();
    lemma_absorb_base(e);
    lemma_absorb_optional(e);
    let p8 = spec_fixed_partial(e);
    let ipl = spec_fixed_len(e);
    assert(spec_absorb_all(p0, ps, 0) == spec_absorb_all(p8, ps, ipl));

    // the rest of the members are exactly the extensions
    assert(ps.len() == ipl + e.extensions.len());
    assert forall|j: int| ipl <= j < ps.len() implies #[trigger] ps[j] == e.extensions[j - ipl] by {
    }
    assert forall|j: int| ipl <= j < ps.len() implies !is_reserved_name((#[trigger] ps[j]).0) by {
        assert(ps[j] == e.extensions[j - ipl]);
    }
    assert forall|j1: int, j2: int| ipl <= j1 < j2 < ps.len() implies (#[trigger] ps[j1]).0 != (
    #[trigger] ps[j2]).0 by {
        assert(ps[j1] == e.extensions[j1 - ipl]);
        assert(ps[j2] == e.extensions[j2 - ipl]);
    }
    assert(p8.extensions =~= Seq::<(Seq<char>, Seq<char>)>::empty());
    assert forall|j: int| ipl <= j < ps.len() implies !spec_has_key(
        p8.extensions,
        (#[trigger] ps[j]).0,
    ) by {
    }
    lemma_absorb_exts(ps, ipl, p8);
    let pfin = PartialEvent { extensions: p8.extensions + ps.subrange(ipl, ps.len() as int), ..p8 };
    assert(pfin.extensions =~= e.extensions) by {
        assert(ps.subrange(ipl, ps.len() as int) =~= e.extensions);
    }
    assert(spec_absorb_all(p0, ps, 0) == Some(pfin));
    assert(spec_finish(pfin) =~= Some(e));
}


/// The structured wire form: the event's members as one JSON object.
pub open spec fn spec_encode_structured(e: EventView) -> Seq<char> {
    spec_ser_obj(spec_event_pairs(e))
}

/// What a structured body decodes to: one JSON object of members, nothing
/// but whitespace after it, folded into an event.
pub open spec fn spec_decode_structured(s: Seq<char>) -> Option<EventView> {
    match spec_parse_obj(s, 0) {
        Some((ps, j)) => if spec_skip_ws(s, j) == s.len() {
            spec_event_of_pairs(ps)
        } else {
            None
        },
        None => None,
    }
}

/// Serialize one event in the structured wire form.
pub fn encode_structured(e: &Event) -> (r: String)
    requires
        event_wf(e@),
    ensures
        r@ == spec_encode_structured(e@),
{
    let ps = event_pairs(e);
    let mut out: Vec<char> = Vec::new();
    push_obj(&mut out, &ps);
    proof {
        assert(out@ =~= spec_encode_structured(e@));
    }
    chars_to_string(&out)
}

/// Decode one event from a structured body.
pub fn decode_structured(s: &str) -> (r: Result<Event, FaasError>)
    ensures
        match r {
            Ok(e) => spec_decode_structured(s@) == Some(e@) && event_wf(e@),
            Err(er) => spec_decode_structured(s@) is None && er is Decode,
        },
{
    let v = str_to_chars(s);
    match parse_obj(&v, 0) {
        None => Err(FaasError::Decode(String::from_str("expected a JSON object"))),
        Some((ps, j)) => {
            let k = skip_ws(&v, j);
            if k != v.len() {
                Err(FaasError::Decode(String::from_str("unexpected characters after the object")))
            } else {
                event_from_pairs(&ps)
            }
        },
    }
}

/// The batch wire form: a JSON array of event objects.
pub open spec fn spec_encode_batch(es: Seq<EventView>) -> Seq<char> {
    spec_ser_batch(es.map_values(|e: EventView| spec_event_pairs(e)))
}

/// Fold each parsed object of a batch into an event, in order.
pub open spec fn spec_events_of_objs(os: Seq<Seq<(Seq<char>, Seq<char>)>>, i: int) -> Option<
    Seq<EventView>,
>
    decreases os.len() - i,
{
    if !(0 <= i < os.len()) {
        Some(Seq::empty())
    } else {
        match spec_event_of_pairs(os[i]) {
            None => None,
            Some(e) => match spec_events_of_objs(os, i + 1) {
                None => None,
                Some(rest) => Some(seq![e] + rest),
            },
        }
    }
}

/// What a batch body decodes to: a JSON array of event objects, nothing but
/// whitespace after it, each object folded into an event.
pub open spec fn spec_decode_batch(s: Seq<char>) -> Option<Seq<EventView>> {
    match spec_parse_batch(s, 0) {
        Some((os, j)) => if spec_skip_ws(s, j) == s.len() {
            spec_events_of_objs(os, 0)
        } else {
            None
        },
        None => None,
    }
}

/// Serialize a list of events in the batch wire form.
pub fn encode_batch(events: &Vec<Event>) -> (r: String)
    requires
        forall|i: int| 0 <= i < events.deep_view().len() ==> event_wf(
            #[trigger] events.deep_view()[i],
        ),
    ensures
        r@ == spec_encode_batch(events.deep_view()),
{
    let ghost dv = events.deep_view();
    proof {
        assert(dv.len() == events@.len());
    }
    let mut objs: Vec<Vec<(String, String)>> = Vec::new();
    let mut i: usize = 0;
    while i < events.len()
        invariant
            i <= events@.len(),
            dv == events.deep_view(),
            dv.len() == events@.len(),
            forall|j: int| 0 <= j < dv.len() ==> event_wf(#[trigger] dv[j]),
            objs.deep_view().len() == i,
            forall|j: int| 0 <= j < i ==> #[trigger] objs.deep_view()[j] == spec_event_pairs(dv[j]),
        decreases events@.len() - i,
    {
        let ghost opre = objs.deep_view();
        proof {
            assert(dv[i as int] == events@[i as int].deep_view());
            assert(events@[i as int].deep_view() == events@[i as int]@);
        }
        let ps = event_pairs(&events[i]);
        let ghost psd = ps.deep_view();
        let ghost opre = objs.deep_view();
        let ghost ovpre = objs@;
        objs.push(ps);
        proof {
            assert(objs@ == ovpre.push(ps));
            assert forall|x: int| 0 <= x < opre.len() implies objs.deep_view()[x] == opre[x] by {
                assert(objs@[x] == ovpre[x]);
            }
            assert(objs.deep_view()[opre.len() as int] == psd);
            assert(objs.deep_view().len() == objs@.len());
            assert(psd == spec_event_pairs(dv[i as int]));
            assert forall|j: int| 0 <= j < i + 1 implies #[trigger] objs.deep_view()[j]
                == spec_event_pairs(dv[j]) by {
                if j < i {
                    assert(objs.deep_view()[j] == opre[j]);
                    assert(opre[j] == spec_event_pairs(dv[j]));
                } else {
                    assert(objs.deep_view()[j] == psd);
                }
            }
        }
        i = i + 1;
    }
    let mut out: Vec<char> = Vec::new();
    proof {
        assert(objs.deep_view() =~= dv.map_values(|e: EventView| spec_event_pairs(e)));
    }
    push_batch(&mut out, &objs);
    proof {
        assert(out@ =~= spec_encode_batch(dv));
    }
    chars_to_string(&out)
}

/// Decode a list of events from a batch body.
pub fn decode_batch(s: &str) -> (r: Result<Vec<Event>, FaasError>)
    ensures
        match r {
            Ok(es) => spec_decode_batch(s@) == Some(es.deep_view()) && forall|i: int|
                0 <= i < es.deep_view().len() ==> event_wf(#[trigger] es.deep_view()[i]),
            Err(er) => spec_decode_batch(s@) is None && er is Decode,
        },
{
    let v = str_to_chars(s);
    match parse_batch(&v, 0) {
        None => Err(FaasError::Decode(String::from_str("expected a JSON array of objects"))),
        Some((os, j)) => {
            let k = skip_ws(&v, j);
            if k != v.len() {
                return Err(
                    FaasError::Decode(String::from_str("unexpected characters after the array")),
                );
            }
            let ghost odv = os.deep_view();
            let mut acc: Vec<Event> = Vec::new();
            proof {
                assert(acc.deep_view() =~= Seq::<EventView>::empty());
                if spec_events_of_objs(odv, 0) is Some {
                    assert(Seq::<EventView>::empty() + spec_events_of_objs(odv, 0).unwrap()
                        =~= spec_events_of_objs(odv, 0).unwrap());
                }
            }
            let mut i: usize = 0;
            while i < os.len()
                invariant
                    i <= os@.len(),
                    odv == os.deep_view(),
                    odv.len() == os@.len(),
                    forall|x: int| 0 <= x < acc.deep_view().len() ==> event_wf(
                        #[trigger] acc.deep_view()[x],
                    ),
                    spec_decode_batch(s@) == spec_events_of_objs(odv, 0),
                    spec_events_of_objs(odv, 0) == (match spec_events_of_objs(odv, i as int) {
                        None => None::<Seq<EventView>>,
                        Some(rest) => Some(acc.deep_view() + rest),
                    }),
                decreases os@.len() - i,
            {
                proof {
                    assert(odv[i as int] == os@[i as int].deep_view());
                }
                match event_from_pairs(&os[i]) {
                    Err(er) => {
                        proof {
                            assert(spec_events_of_objs(odv, i as int) is None);
                        }
                        return Err(er);
                    },
                    Ok(e) => {
                        let ghost apre = acc.deep_view();
                        let ghost evw = e@;
                        acc.push(e);
                        proof {
                            assert(acc.deep_view() =~= apre.push(evw));
                            if spec_events_of_objs(odv, i + 1) is Some {
                                let rest = spec_events_of_objs(odv, i + 1).unwrap();
                                assert(apre.push(evw) + rest =~= apre + (seq![evw] + rest));
                            }
                        }
                        i = i + 1;
                    },
                }
            }
            proof {
                assert(spec_events_of_objs(odv, os@.len() as int) == Some(Seq::<EventView>::empty()));
                assert(acc.deep_view() + Seq::<EventView>::empty() =~= acc.deep_view());
            }
            Ok(acc)
        },
    }
}

/// The bundle wire form: a JSON object naming event objects.
pub open spec fn spec_encode_bundle(es: Seq<(Seq<char>, EventView)>) -> Seq<char> {
    spec_ser_bundle(
        es.map_values(|p: (Seq<char>, EventView)| (p.0, spec_event_pairs(p.1))),
    )
}

/// Fold each named object of a bundle into a named event, in order.
pub open spec fn spec_events_of_bentries(
    es: Seq<(Seq<char>, Seq<(Seq<char>, Seq<char>)>)>,
    i: int,
) -> Option<Seq<(Seq<char>, EventView)>>
    decreases es.len() - i,
{
    if !(0 <= i < es.len()) {
        Some(Seq::empty())
    } else {
        match spec_event_of_pairs(es[i].1) {
            None => None,
            Some(e) => match spec_events_of_bentries(es, i + 1) {
                None => None,
                Some(rest) => Some(seq![(es[i].0, e)] + rest),
            },
        }
    }
}

/// What a bundle body decodes to: a JSON object of named event objects,
/// nothing but whitespace after it, each folded into a named event.
pub open spec fn spec_decode_bundle(s: Seq<char>) -> Option<Seq<(Seq<char>, EventView)>> {
    match spec_parse_bundle(s, 0) {
        Some((es, j)) => if spec_skip_ws(s, j) == s.len() {
            spec_events_of_bentries(es, 0)
        } else {
            None
        },
        None => None,
    }
}

/// Serialize named events in the bundle wire form.
pub fn encode_bundle(entries: &Vec<(String, Event)>) -> (r: String)
    requires
        forall|i: int| 0 <= i < entries.deep_view().len() ==> event_wf(
            (#[trigger] entries.deep_view()[i]).1,
        ),
    ensures
        r@ == spec_encode_bundle(entries.deep_view()),
{
    let ghost dv = entries.deep_view();
    proof {
        assert(dv.len() == entries@.len());
    }
    let mut objs: Vec<(String, Vec<(String, String)>)> = Vec::new();
    let mut i: usize = 0;
    while i < entries.len()
        invariant
            i <= entries@.len(),
            dv == entries.deep_view(),
            dv.len() == entries@.len(),
            forall|j: int| 0 <= j < dv.len() ==> event_wf((#[trigger] dv[j]).1),
            objs.deep_view().len() == i,
            forall|j: int| 0 <= j < i ==> #[trigger] objs.deep_view()[j] == (
                dv[j].0,
                spec_event_pairs(dv[j].1),
            ),
        decreases entries@.len() - i,
    {
        proof {
            assert(dv[i as int] == entries@[i as int].deep_view());
            assert(entries@[i as int].deep_view() == (entries@[i as int].0@, entries@[i as int].1@));
        }
        let entry = &entries[i];
        let ps = event_pairs(&entry.1);
        let t = (entry.0.clone(), ps);
        let ghost td = t.deep_view();
        let ghost opre = objs.deep_view();
        let ghost ovpre = objs@;
        proof {
            assert(td == (entries@[i as int].0@, t.1.deep_view()));
        }
        objs.push(t);
        proof {
            assert(objs@ == ovpre.push(t));
            assert forall|x: int| 0 <= x < opre.len() implies objs.deep_view()[x] == opre[x] by {
                assert(objs@[x] == ovpre[x]);
            }
            assert(objs.deep_view()[opre.len() as int] == td);
            assert(objs.deep_view().len() == objs@.len());
            assert(td == (dv[i as int].0, spec_event_pairs(dv[i as int].1)));
            assert forall|j: int| 0 <= j < i + 1 implies #[trigger] objs.deep_view()[j] == (
                dv[j].0,
                spec_event_pairs(dv[j].1),
            ) by {
                if j < i {
                    assert(objs.deep_view()[j] == opre[j]);
                    assert(opre[j] == (dv[j].0, spec_event_pairs(dv[j].1)));
                } else {
                    assert(objs.deep_view()[j] == td);
                }
            }
        }
        i = i + 1;
    }
    let mut out: Vec<char> = Vec::new();
    proof {
        assert(objs.deep_view() =~= dv.map_values(
            |p: (Seq<char>, EventView)| (p.0, spec_event_pairs(p.1)),
        ));
    }
    push_bundle(&mut out, &objs);
    proof {
        assert(out@ =~= spec_encode_bundle(dv));
    }
    chars_to_string(&out)
}

/// Decode named events from a bundle body.
pub fn decode_bundle(s: &str) -> (r: Result<Vec<(String, Event)>, FaasError>)
    ensures
        match r {
            Ok(es) => spec_decode_bundle(s@) == Some(es.deep_view()) && forall|i: int|
                0 <= i < es.deep_view().len() ==> event_wf((#[trigger] es.deep_view()[i]).1),
            Err(er) => spec_decode_bundle(s@) is None && er is Decode,
        },
{
    let v = str_to_chars(s);
    match parse_bundle(&v, 0) {
        None => Err(FaasError::Decode(String::from_str("expected a JSON object of objects"))),
        Some((es, j)) => {
            let k = skip_ws(&v, j);
            if k != v.len() {
                return Err(
                    FaasError::Decode(String::from_str("unexpected characters after the object")),
                );
            }
            let ghost edv = es.deep_view();
            let mut acc: Vec<(String, Event)> = Vec::new();
            proof {
                assert(acc.deep_view() =~= Seq::<(Seq<char>, EventView)>::empty());
                if spec_events_of_bentries(edv, 0) is Some {
                    assert(Seq::<(Seq<char>, EventView)>::empty() + spec_events_of_bentries(
                        edv,
                        0,
                    ).unwrap() =~= spec_events_of_bentries(edv, 0).unwrap());
                }
            }
            let mut i: usize = 0;
            while i < es.len()
                invariant
                    i <= es@.len(),
                    edv == es.deep_view(),
                    edv.len() == es@.len(),
                    forall|x: int| 0 <= x < acc.deep_view().len() ==> event_wf(
                        (#[trigger] acc.deep_view()[x]).1,
                    ),
                    spec_decode_bundle(s@) == spec_events_of_bentries(edv, 0),
                    spec_events_of_bentries(edv, 0) == (match spec_events_of_bentries(
                        edv,
                        i as int,
                    ) {
                        None => None::<Seq<(Seq<char>, EventView)>>,
                        Some(rest) => Some(acc.deep_view() + rest),
                    }),
                decreases es@.len() - i,
            {
                proof {
                    assert(edv[i as int] == es@[i as int].deep_view());
                    assert(es@[i as int].deep_view() == (es@[i as int].0@, es@[
                        i as int].1.deep_view()));
                }
                let entry = &es[i];
                match event_from_pairs(&entry.1) {
                    Err(er) => {
                        proof {
                            assert(spec_events_of_bentries(edv, i as int) is None);
                        }
                        return Err(er);
                    },
                    Ok(e) => {
                        let ghost apre = acc.deep_view();
                        let ghost evw = e@;
                        let ghost name = es@[i as int].0@;
                        acc.push((entry.0.clone(), e));
                        proof {
                            assert(acc.deep_view() =~= apre.push((name, evw)));
                            if spec_events_of_bentries(edv, i + 1) is Some {
                                let rest = spec_events_of_bentries(edv, i + 1).unwrap();
                                assert(apre.push((name, evw)) + rest =~= apre + (seq![(name, evw)]
                                    + rest));
                            }
                        }
                        i = i + 1;
                    },
                }
            }
            proof {
                assert(spec_events_of_bentries(edv, es@.len() as int) == Some(Seq::<
                    (Seq<char>, EventView),
                >::empty()));
                assert(acc.deep_view() + Seq::<(Seq<char>, EventView)>::empty() =~= acc.deep_view());
            }
            Ok(acc)
        },
    }
}

/// Serializing an event in the structured wire form and decoding the text
/// back yields the same event, under the same conditions as the member-level
/// round trip.
pub proof fn lemma_structured_round_trip(e: EventView)
    requires
        event_wf(e),
        extensions_ok(e.extensions),
        e.spec_version != SpecVersion::V10,
    ensures
        spec_decode_structured(spec_encode_structured(e)) == Some(e),
{
    let ps = spec_event_pairs(e);
    let s = spec_ser_obj(ps);
    assert(s.subrange(0, s.len() as int) =~= s);
    crate::json::lemma_parse_obj_of_ser(s, 0, ps);
    assert(spec_skip_ws(s, s.len() as int) == s.len());
    lemma_event_pairs_round_trip(e);
}


/// Folding preserves the envelope's sanity: extension names stay pairwise
/// distinct and off the reserved names, and any time read is well-formed.
proof fn lemma_absorb_all_sane(p: PartialEvent, ps: Seq<(Seq<char>, Seq<char>)>, i: int)
    requires
        spec_absorb_all(p, ps, i) is Some,
        extensions_ok(p.extensions),
        match p.time {
            Some(t) => ts_wf(t),
            None => true,
        },
    ensures
        extensions_ok(spec_absorb_all(p, ps, i)->Some_0.extensions),
        match spec_absorb_all(p, ps, i)->Some_0.time {
            Some(t) => ts_wf(t),
            None => true,
        },
    decreases ps.len() - i,
{
    if 0 <= i < ps.len() {
        let k = ps[i].0;
        let v = ps[i].1;
        let p2 = spec_absorb(p, k, v)->Some_0;
        if k == "time"@ && p.time is None && spec_parse_ts(v) is Some {
            crate::timestamp::lemma_parse_ts_wf(v);
        }
        if !(k == "id"@ || k == "source"@ || k == "specversion"@ || k == "type"@ || k
            == "subject"@ || k == "time"@ || k == "datacontenttype"@ || k == "data"@) {
            assert(!is_reserved_name(k));
            assert(p2.extensions == p.extensions.push((k, v)));
            assert(extensions_ok(p2.extensions)) by {
                assert forall|x: int| 0 <= x < p2.extensions.len() implies !is_reserved_name(
                    (#[trigger] p2.extensions[x]).0,
                ) by {
                    if x < p.extensions.len() {
                        assert(p2.extensions[x] == p.extensions[x]);
                    }
                }
                assert forall|x: int, y: int| 0 <= x < y < p2.extensions.len() implies (
                #[trigger] p2.extensions[x]).0 != (#[trigger] p2.extensions[y]).0 by {
                    if y < p.extensions.len() {
                        assert(p2.extensions[x] == p.extensions[x]);
                        assert(p2.extensions[y] == p.extensions[y]);
                    } else {
                        assert(p2.extensions[x] == p.extensions[x]);
                        assert(!spec_has_key(p.extensions, k));
                        assert(p.extensions[x].0 != k);
                    }
                }
            }
        }
        lemma_absorb_all_sane(p2, ps, i + 1);
    }
}

/// A decoded envelope is sane: its time, where present, is well-formed, and
/// its extensions keep to their rules.
pub proof fn lemma_event_of_pairs_sane(ps: Seq<(Seq<char>, Seq<char>)>)
    requires
        spec_event_of_pairs(ps) is Some,
    ensures
        event_wf(spec_event_of_pairs(ps)->Some_0),
        extensions_ok(spec_event_of_pairs(ps)->Some_0.extensions),
{
    let p0 = spec_empty_partial();
    assert(extensions_ok(p0.extensions));
    lemma_absorb_all_sane(p0, ps, 0);
}

/// A structured body's decoded event is sane.
pub proof fn lemma_decode_structured_sane(s: Seq<char>)
    requires
        spec_decode_structured(s) is Some,
    ensures
        event_wf(spec_decode_structured(s)->Some_0),
        extensions_ok(spec_decode_structured(s)->Some_0.extensions),
{
    let (ps, j) = spec_parse_obj(s, 0)->Some_0;
    lemma_event_of_pairs_sane(ps);
}


/// Whether the event's time, where present, is well-formed.
pub fn event_is_wf(e: &Event) -> (r: bool)
    ensures
        r == event_wf(e@),
{
    match &e.time {
        Some(t) => t.is_wf(),
        None => true,
    }
}

} // verus!


