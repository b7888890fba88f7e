//! The collection wire forms: a batch as a JSON array of flat objects, and
//! a bundle as a JSON object whose values are flat objects. Built on the
//! string and object grammar of the sibling module.

use vstd::prelude::*;

use crate::json::is_ws;
use crate::json::lemma_parse_obj_advances;
use crate::json::lemma_parse_obj_of_ser;
use crate::json::lemma_parse_of_escaped;
use crate::json::lemma_parse_str_body_advances;
use crate::json::lemma_skip_ws_ge;
use crate::json::parse_obj;
use crate::json::parse_string_at;
use crate::json::push_obj;
use crate::json::push_quoted;
use crate::json::skip_ws;
use crate::json::spec_escape;
use crate::json::spec_parse_obj;
use crate::json::spec_parse_str_body;
use crate::json::spec_quote;
use crate::json::spec_ser_obj;
use crate::json::spec_skip_ws;
use crate::strutil::chars_to_string;
use crate::strutil::str_to_chars;

verus! {

/// Parse the elements of a JSON array of flat objects, `i` standing just
/// after the opening bracket or a separating comma and `acc` holding the
/// elements read so far. Yields the elements and the index just after the
/// closing bracket.
pub open spec fn spec_parse_objs(
    s: Seq<char>,
    i: int,
    acc: Seq<Seq<(Seq<char>, Seq<char>)>>,
) -> Option<(Seq<Seq<(Seq<char>, Seq<char>)>>, int)>
    decreases s.len() - i,
    via spec_parse_objs_dec
{
    match spec_parse_obj(s, i) {
        None => None,
        Some((ps, j)) => {
            let e = spec_skip_ws(s, j);
            if e < s.len() && s[e] == ',' {
                spec_parse_objs(s, e + 1, acc.push(ps))
            } else if e < s.len() && s[e] == ']' {
                Some((acc.push(ps), e + 1))
            } else {
                None
            }
        },
    }
}

#[via_fn]
proof fn spec_parse_objs_dec(s: Seq<char>, i: int, acc: Seq<Seq<(Seq<char>, Seq<char>)>>) {
    if spec_parse_obj(s, i) is Some {
        lemma_parse_obj_advances(s, i);
        let (ps, j) = spec_parse_obj(s, i).unwrap();
        lemma_skip_ws_ge(s, j);
    }
}

/// Parse a JSON array of flat objects (a batch) whose text begins, after
/// whitespace, at `i`.
pub open spec fn spec_parse_batch(s: Seq<char>, i: int) -> Option<
    (Seq<Seq<(Seq<char>, Seq<char>)>>, int),
> {
    let j = spec_skip_ws(s, i);
    if j < s.len() && s[j] == '[' {
        let k = spec_skip_ws(s, j + 1);
        if k < s.len() && s[k] == ']' {
            Some((Seq::empty(), k + 1))
        } else {
            spec_parse_objs(s, j + 1, Seq::empty())
        }
    } else {
        None
    }
}

/// Parse the members of a JSON object whose values are flat objects, `i`
/// standing just after the opening brace or a separating comma. Yields the
/// named members and the index just after the closing brace.
pub open spec fn spec_parse_bundle_pairs(
    s: Seq<char>,
    i: int,
    acc: Seq<(Seq<char>, Seq<(Seq<char>, Seq<char>)>)>,
) -> Option<(Seq<(Seq<char>, Seq<(Seq<char>, Seq<char>)>)>, int)>
    decreases s.len() - i,
    via spec_parse_bundle_pairs_dec
{
    let k = spec_skip_ws(s, i);
    if !(k < s.len() && s[k] == '"') {
        None
    } else {
        match spec_parse_str_body(s, k + 1, Seq::empty()) {
            None => None,
            Some((key, a)) => {
                let b = spec_skip_ws(s, a);
                if !(b < s.len() && s[b] == ':') {
                    None
                } else {
                    match spec_parse_obj(s, b + 1) {
                        None => None,
                        Some((ps, d)) => {
                            let e = spec_skip_ws(s, d);
                            if e < s.len() && s[e] == ',' {
                                spec_parse_bundle_pairs(s, e + 1, acc.push((key, ps)))
                            } else if e < s.len() && s[e] == '}' {
                                Some((acc.push((key, ps)), e + 1))
                            } else {
                                None
                            }
                        },
                    }
                }
            },
        }
    }
}

#[via_fn]
proof fn spec_parse_bundle_pairs_dec(
    s: Seq<char>,
    i: int,
    acc: Seq<(Seq<char>, Seq<(Seq<char>, Seq<char>)>)>,
) {
    let k = spec_skip_ws(s, i);
    lemma_skip_ws_ge(s, i);
    if k < s.len() && s[k] == '"' {
        if spec_parse_str_body(s, k + 1, Seq::empty()) is Some {
            lemma_parse_str_body_advances(s, k + 1, Seq::empty());
            let (key, a) = spec_parse_str_body(s, k + 1, Seq::empty()).unwrap();
            let b = spec_skip_ws(s, a);
            lemma_skip_ws_ge(s, a);
            if b < s.len() && s[b] == ':' {
                if spec_parse_obj(s, b + 1) is Some {
                    lemma_parse_obj_advances(s, b + 1);
                    let (ps, d) = spec_parse_obj(s, b + 1).unwrap();
                    lemma_skip_ws_ge(s, d);
                }
            }
        }
    }
}

/// Parse a JSON object whose values are flat objects (a bundle) beginning,
/// after whitespace, at `i`.
pub open spec fn spec_parse_bundle(s: Seq<char>, i: int) -> Option<
    (Seq<(Seq<char>, Seq<(Seq<char>, Seq<char>)>)>, int),
> {
    let j = spec_skip_ws(s, i);
    if j < s.len() && s[j] == '{' {
        let k = spec_skip_ws(s, j + 1);
        if k < s.len() && s[k] == '}' {
            Some((Seq::empty(), k + 1))
        } else {
            spec_parse_bundle_pairs(s, j + 1, Seq::empty())
        }
    } else {
        None
    }
}

/// Parse the elements of a batch, starting just after the opening bracket or
/// a separating comma.
pub fn parse_objs(s: &Vec<char>, start: usize) -> (r: Option<(Vec<Vec<(String, String)>>, usize)>)
    requires
        start <= s@.len(),
    ensures
        match r {
            Some((os, j)) => {
                &&& spec_parse_objs(s@, start as int, Seq::empty()) == Some(
                    (os.deep_view(), j as int),
                )
                &&& j <= s@.len()
            },
            None => spec_parse_objs(s@, start as int, Seq::empty()) is None,
        },
{
    let mut acc: Vec<Vec<(String, String)>> = Vec::new();
    proof {
        assert(acc.deep_view() =~= Seq::<Seq<(Seq<char>, Seq<char>)>>::empty());
    }
    let mut i: usize = start;
    loop
        invariant
            start <= i <= s@.len(),
            spec_parse_objs(s@, start as int, Seq::empty()) == spec_parse_objs(
                s@,
                i as int,
                acc.deep_view(),
            ),
        decreases s@.len() - i,
    {
        match parse_obj(s, i) {
            None => {
                return None;
            },
            Some((ps, j)) => {
                let e = skip_ws(s, j);
                let ghost old_acc = acc.deep_view();
                let ghost psd = ps.deep_view();
                acc.push(ps);
                proof {
                    assert(acc.deep_view() =~= old_acc.push(psd));
                }
                if e < s.len() && s[e] == ',' {
                    i = e + 1;
                } else if e < s.len() && s[e] == ']' {
                    return Some((acc, e + 1));
                } else {
                    return None;
                }
            },
        }
    }
}

/// Parse a batch (array of flat objects) beginning, after whitespace, at
/// `start`.
pub fn parse_batch(s: &Vec<char>, start: usize) -> (r: Option<(Vec<Vec<(String, String)>>, usize)>)
    requires
        start <= s@.len(),
    ensures
        match r {
            Some((os, j)) => {
                &&& spec_parse_batch(s@, start as int) == Some((os.deep_view(), j as int))
                &&& j <= s@.len()
            },
            None => spec_parse_batch(s@, start as int) is None,
        },
{
    let j = skip_ws(s, start);
    if !(j < s.len()) {
        return None;
    }
    if s[j] != '[' {
        return None;
    }
    let k = skip_ws(s, j + 1);
    if k < s.len() && s[k] == ']' {
        let empty: Vec<Vec<(String, String)>> = Vec::new();
        proof {
            assert(empty.deep_view() =~= Seq::<Seq<(Seq<char>, Seq<char>)>>::empty());
        }
        return Some((empty, k + 1));
    }
    parse_objs(s, j + 1)
}

/// Parse the members of a bundle, starting just after the opening brace or a
/// separating comma.
pub fn parse_bundle_pairs(s: &Vec<char>, start: usize) -> (r: Option<
    (Vec<(String, Vec<(String, String)>)>, usize),
>)
    requires
        start <= s@.len(),
    ensures
        match r {
            Some((es, j)) => {
                &&& spec_parse_bundle_pairs(s@, start as int, Seq::empty()) == Some(
                    (es.deep_view(), j as int),
                )
                &&& j <= s@.len()
            },
            None => spec_parse_bundle_pairs(s@, start as int, Seq::empty()) is None,
        },
{
    let mut acc: Vec<(String, Vec<(String, String)>)> = Vec::new();
    proof {
        assert(acc.deep_view() =~= Seq::<(Seq<char>, Seq<(Seq<char>, Seq<char>)>)>::empty());
    }
    let mut i: usize = start;
    loop
        invariant
            start <= i <= s@.len(),
            spec_parse_bundle_pairs(s@, start as int, Seq::empty()) == spec_parse_bundle_pairs(
                s@,
                i as int,
                acc.deep_view(),
            ),
        decreases s@.len() - i,
    {
        let k = skip_ws(s, i);
        let key_r = parse_string_at(s, k);
        match key_r {
            None => {
                return None;
            },
            Some((key_chars, a)) => {
                let b = skip_ws(s, a);
                if !(b < s.len()) {
                    return None;
                }
                if s[b] != ':' {
                    return None;
                }
                match parse_obj(s, b + 1) {
                    None => {
                        return None;
                    },
                    Some((ps, d)) => {
                        let e = skip_ws(s, d);
                        let key = chars_to_string(&key_chars);
                        let ghost old_acc = acc.deep_view();
                        let ghost psd = ps.deep_view();
                        acc.push((key, ps));
                        proof {
                            assert(acc.deep_view() =~= old_acc.push((key_chars@, psd)));
                        }
                        if e < s.len() && s[e] == ',' {
                            i = e + 1;
                        } else if e < s.len() && s[e] == '}' {
                            return Some((acc, e + 1));
                        } else {
                            return None;
                        }
                    },
                }
            },
        }
    }
}

/// Parse a bundle (object of flat objects) beginning, after whitespace, at
/// `start`.
pub fn parse_bundle(s: &Vec<char>, start: usize) -> (r: Option<
    (Vec<(String, Vec<(String, String)>)>, usize),
>)
    requires
        start <= s@.len(),
    ensures
        match r {
            Some((es, j)) => {
                &&& spec_parse_bundle(s@, start as int) == Some((es.deep_view(), j as int))
                &&& j <= s@.len()
            },
            None => spec_parse_bundle(s@, start as int) is None,
        },
{
    let j = skip_ws(s, start);
    if !(j < s.len()) {
        return None;
    }
    if s[j] != '{' {
        return None;
    }
    let k = skip_ws(s, j + 1);
    if k < s.len() && s[k] == '}' {
        let empty: Vec<(String, Vec<(String, String)>)> = Vec::new();
        proof {
            assert(empty.deep_view() =~= Seq::<
                (Seq<char>, Seq<(Seq<char>, Seq<char>)>),
            >::empty());
        }
        return Some((empty, k + 1));
    }
    parse_bundle_pairs(s, j + 1)
}

/// The batch elements after the first, each preceded by a comma.
pub open spec fn spec_ser_objs_rest(os: Seq<Seq<(Seq<char>, Seq<char>)>>) -> Seq<char>
    decreases os.len(),
{
    if os.len() == 0 {
        Seq::empty()
    } else {
        seq![','] + spec_ser_obj(os[0]) + spec_ser_objs_rest(os.drop_first())
    }
}

/// A serialized batch: brackets around comma-separated flat objects.
pub open spec fn spec_ser_batch(os: Seq<Seq<(Seq<char>, Seq<char>)>>) -> Seq<char> {
    if os.len() == 0 {
        seq!['[', ']']
    } else {
        seq!['['] + spec_ser_obj(os[0]) + spec_ser_objs_rest(os.drop_first()) + seq![']']
    }
}

/// One serialized bundle member: quoted name, colon, flat object.
pub open spec fn spec_ser_bentry(e: (Seq<char>, Seq<(Seq<char>, Seq<char>)>)) -> Seq<char> {
    spec_quote(e.0) + seq![':'] + spec_ser_obj(e.1)
}

/// The bundle members after the first, each preceded by a comma.
pub open spec fn spec_ser_bentries_rest(es: Seq<(Seq<char>, Seq<(Seq<char>, Seq<char>)>)>) -> Seq<
    char,
>
    decreases es.len(),
{
    if es.len() == 0 {
        Seq::empty()
    } else {
        seq![','] + spec_ser_bentry(es[0]) + spec_ser_bentries_rest(es.drop_first())
    }
}

/// A serialized bundle: braces around comma-separated named flat objects.
pub open spec fn spec_ser_bundle(es: Seq<(Seq<char>, Seq<(Seq<char>, Seq<char>)>)>) -> Seq<char> {
    if es.len() == 0 {
        seq!['{', '}']
    } else {
        seq!['{'] + spec_ser_bentry(es[0]) + spec_ser_bentries_rest(es.drop_first()) + seq!['}']
    }
}

pub proof fn lemma_ser_objs_rest_push(
    os: Seq<Seq<(Seq<char>, Seq<char>)>>,
    o: Seq<(Seq<char>, Seq<char>)>,
)
    ensures
        spec_ser_objs_rest(os.push(o)) == spec_ser_objs_rest(os) + seq![','] + spec_ser_obj(o),
    decreases os.len(),
{
    if os.len() == 0 {
        assert(os.push(o).drop_first() =~= Seq::<Seq<(Seq<char>, Seq<char>)>>::empty());
        assert(os.push(o)[0] == o);
        assert(spec_ser_objs_rest(Seq::<Seq<(Seq<char>, Seq<char>)>>::empty())
            == Seq::<char>::empty());
        assert(spec_ser_objs_rest(os.push(o)) == seq![','] + spec_ser_obj(o) + spec_ser_objs_rest(
            os.push(o).drop_first(),
        ));
        assert(seq![','] + spec_ser_obj(o) + Seq::<char>::empty() =~= Seq::<char>::empty()
            + seq![','] + spec_ser_obj(o));
    } else {
        lemma_ser_objs_rest_push(os.drop_first(), o);
        assert(os.push(o).drop_first() =~= os.drop_first().push(o));
        assert(os.push(o)[0] == os[0]);
        assert(spec_ser_objs_rest(os.push(o)) == seq![','] + spec_ser_obj(os[0])
            + spec_ser_objs_rest(os.push(o).drop_first()));
        assert(spec_ser_objs_rest(os) == seq![','] + spec_ser_obj(os[0]) + spec_ser_objs_rest(
            os.drop_first(),
        ));
        assert(seq![','] + spec_ser_obj(os[0]) + (spec_ser_objs_rest(os.drop_first()) + seq![',']
            + spec_ser_obj(o)) =~= (seq![','] + spec_ser_obj(os[0]) + spec_ser_objs_rest(
            os.drop_first(),
        )) + seq![','] + spec_ser_obj(o));
    }
}

pub proof fn lemma_ser_bentries_rest_push(
    es: Seq<(Seq<char>, Seq<(Seq<char>, Seq<char>)>)>,
    e: (Seq<char>, Seq<(Seq<char>, Seq<char>)>),
)
    ensures
        spec_ser_bentries_rest(es.push(e)) == spec_ser_bentries_rest(es) + seq![',']
            + spec_ser_bentry(e),
    decreases es.len(),
{
    if es.len() == 0 {
        assert(es.push(e).drop_first() =~= Seq::<
            (Seq<char>, Seq<(Seq<char>, Seq<char>)>),
        >::empty());
        assert(es.push(e)[0] == e);
        assert(spec_ser_bentries_rest(Seq::<(Seq<char>, Seq<(Seq<char>, Seq<char>)>)>::empty())
            == Seq::<char>::empty());
        assert(spec_ser_bentries_rest(es.push(e)) == seq![','] + spec_ser_bentry(e)
            + spec_ser_bentries_rest(es.push(e).drop_first()));
        assert(seq![','] + spec_ser_bentry(e) + Seq::<char>::empty() =~= Seq::<char>::empty()
            + seq![','] + spec_ser_bentry(e));
    } else {
        lemma_ser_bentries_rest_push(es.drop_first(), e);
        assert(es.push(e).drop_first() =~= es.drop_first().push(e));
        assert(es.push(e)[0] == es[0]);
        assert(spec_ser_bentries_rest(es.push(e)) == seq![','] + spec_ser_bentry(es[0])
            + spec_ser_bentries_rest(es.push(e).drop_first()));
        assert(spec_ser_bentries_rest(es) == seq![','] + spec_ser_bentry(es[0])
            + spec_ser_bentries_rest(es.drop_first()));
        assert(seq![','] + spec_ser_bentry(es[0]) + (spec_ser_bentries_rest(es.drop_first())
            + seq![','] + spec_ser_bentry(e)) =~= (seq![','] + spec_ser_bentry(es[0])
            + spec_ser_bentries_rest(es.drop_first())) + seq![','] + spec_ser_bentry(e));
    }
}

/// Append the serialized form of a batch to `out`.
pub fn push_batch(out: &mut Vec<char>, os: &Vec<Vec<(String, String)>>)
    ensures
        final(out)@ == old(out)@ + spec_ser_batch(os.deep_view()),
{
    let ghost dv = os.deep_view();
    out.push('[');
    let mut i: usize = 0;
    while i < os.len()
        invariant
            i <= os@.len(),
            dv == os.deep_view(),
            dv.len() == os@.len(),
            i == 0 ==> out@ == old(out)@ + seq!['['],
            i > 0 ==> out@ == old(out)@ + seq!['['] + spec_ser_obj(dv[0]) + spec_ser_objs_rest(
                dv.subrange(1, i as int),
            ),
        decreases os@.len() - i,
    {
        if i > 0 {
            out.push(',');
        }
        push_obj(out, &os[i]);
        proof {
            assert(dv[i as int] == os@[i as int].deep_view());
            if i == 0 {
                assert(dv.subrange(1, 1) =~= Seq::<Seq<(Seq<char>, Seq<char>)>>::empty());
                assert(out@ =~= old(out)@ + seq!['['] + spec_ser_obj(dv[0]) + spec_ser_objs_rest(
                    dv.subrange(1, 1),
                ));
            } else {
                lemma_ser_objs_rest_push(dv.subrange(1, i as int), dv[i as int]);
                assert(dv.subrange(1, i + 1 as int) =~= dv.subrange(1, i as int).push(
                    dv[i as int],
                ));
                assert(out@ =~= old(out)@ + seq!['['] + spec_ser_obj(dv[0]) + spec_ser_objs_rest(
                    dv.subrange(1, i + 1 as int),
                ));
            }
        }
        i = i + 1;
    }
    out.push(']');
    proof {
        if dv.len() == 0 {
            assert(out@ =~= old(out)@ + spec_ser_batch(dv));
        } else {
            assert(dv.subrange(1, dv.len() as int) =~= dv.drop_first());
            assert(out@ =~= old(out)@ + spec_ser_batch(dv));
        }
    }
}

/// Append the serialized form of a bundle to `out`.
pub fn push_bundle(out: &mut Vec<char>, es: &Vec<(String, Vec<(String, String)>)>)
    ensures
        final(out)@ == old(out)@ + spec_ser_bundle(es.deep_view()),
{
    let ghost dv = es.deep_view();
    out.push('{');
    let mut i: usize = 0;
    while i < es.len()
        invariant
            i <= es@.len(),
            dv == es.deep_view(),
            dv.len() == es@.len(),
            i == 0 ==> out@ == old(out)@ + seq!['{'],
            i > 0 ==> out@ == old(out)@ + seq!['{'] + spec_ser_bentry(dv[0])
                + spec_ser_bentries_rest(dv.subrange(1, i as int)),
        decreases es@.len() - i,
    {
        if i > 0 {
            out.push(',');
        }
        let entry = &es[i];
        let key_chars = str_to_chars(entry.0.as_str());
        push_quoted(out, &key_chars);
        out.push(':');
        push_obj(out, &entry.1);
        proof {
            assert(dv[i as int] == (es@[i as int].0@, es@[i as int].1.deep_view()));
            if i == 0 {
                assert(dv.subrange(1, 1) =~= Seq::<
                    (Seq<char>, Seq<(Seq<char>, Seq<char>)>),
                >::empty());
                assert(out@ =~= old(out)@ + seq!['{'] + spec_ser_bentry(dv[0])
                    + spec_ser_bentries_rest(dv.subrange(1, 1)));
            } else {
                lemma_ser_bentries_rest_push(dv.subrange(1, i as int), dv[i as int]);
                assert(dv.subrange(1, i + 1 as int) =~= dv.subrange(1, i as int).push(
                    dv[i as int],
                ));
                assert(out@ =~= old(out)@ + seq!['{'] + spec_ser_bentry(dv[0])
                    + spec_ser_bentries_rest(dv.subrange(1, i + 1 as int)));
            }
        }
        i = i + 1;
    }
    out.push('}');
    proof {
        if dv.len() == 0 {
            assert(out@ =~= old(out)@ + spec_ser_bundle(dv));
        } else {
            assert(dv.subrange(1, dv.len() as int) =~= dv.drop_first());
            assert(out@ =~= old(out)@ + spec_ser_bundle(dv));
        }
    }
}

/// Parsing an element list over the serialized elements of `os`, followed by
/// a closing bracket, yields exactly `os` appended to what was already read.
pub proof fn lemma_parse_objs_of_ser(
    s: Seq<char>,
    i: int,
    os: Seq<Seq<(Seq<char>, Seq<char>)>>,
    acc: Seq<Seq<(Seq<char>, Seq<char>)>>,
)
    requires
        os.len() >= 1,
        0 <= i,
        i + spec_ser_obj(os[0]).len() + spec_ser_objs_rest(os.drop_first()).len() + 1 <= s.len(),
        s.subrange(
            i,
            i + spec_ser_obj(os[0]).len() + spec_ser_objs_rest(os.drop_first()).len(),
        ) == spec_ser_obj(os[0]) + spec_ser_objs_rest(os.drop_first()),
        s[i + spec_ser_obj(os[0]).len() + spec_ser_objs_rest(os.drop_first()).len()] == ']',
    ensures
        spec_parse_objs(s, i, acc) == Some(
            (
                acc + os,
                i + spec_ser_obj(os[0]).len() + spec_ser_objs_rest(os.drop_first()).len() + 1,
            ),
        ),
    decreases os.len(),
{
    let so0 = spec_ser_obj(os[0]);
    let l0 = so0.len() as int;
    let rest = spec_ser_objs_rest(os.drop_first());
    let w = so0 + rest;
    let lw = w.len() as int;
    assert(s.subrange(i, i + l0) =~= so0) by {
        assert forall|x: int| 0 <= x < l0 implies s.subrange(i, i + l0)[x] == so0[x] by {
            assert(s.subrange(i, i + lw)[x] == s[i + x]);
            assert(w[x] == so0[x]);
        }
    }
    lemma_parse_obj_of_ser(s, i, os[0]);
    let j = i + l0;
    if os.len() == 1 {
        assert(rest =~= Seq::empty());
        assert(s[j] == ']');
        assert(spec_skip_ws(s, j) == j);
        assert(spec_parse_objs(s, i, acc) == Some((acc.push(os[0]), j + 1)));
        assert(acc.push(os[0]) =~= acc + os);
    } else {
        let os1 = os.drop_first();
        let so1 = spec_ser_obj(os1[0]);
        let r1 = spec_ser_objs_rest(os1.drop_first());
        assert(rest == seq![','] + so1 + r1);
        assert(s[j] == ',') by {
            assert(s.subrange(i, i + lw)[l0] == s[i + l0]);
            assert(w[l0] == ',');
        }
        assert(spec_skip_ws(s, j) == j);
        assert(s.subrange(j + 1, j + 1 + (so1.len() + r1.len())) =~= so1 + r1) by {
            assert forall|x: int| 0 <= x < so1.len() + r1.len() implies s.subrange(
                j + 1,
                j + 1 + (so1.len() + r1.len()),
            )[x] == (so1 + r1)[x] by {
                assert(s.subrange(i, i + lw)[l0 + 1 + x] == s[i + (l0 + 1 + x)]);
                assert(w[l0 + 1 + x] == rest[1 + x]);
                assert(rest[1 + x] == (so1 + r1)[x]);
            }
        }
        assert(s[j + 1 + (so1.len() + r1.len())] == ']') by {
            assert(j + 1 + (so1.len() + r1.len()) == i + lw);
        }
        lemma_parse_objs_of_ser(s, j + 1, os1, acc.push(os[0]));
        assert(acc.push(os[0]) + os1 =~= acc + os);
    }
}

/// Parsing a batch over the serialized form of `os` yields exactly `os` and
/// stops just after the closing bracket.
pub proof fn lemma_parse_batch_of_ser(s: Seq<char>, i: int, os: Seq<Seq<(Seq<char>, Seq<char>)>>)
    requires
        0 <= i,
        i + spec_ser_batch(os).len() <= s.len(),
        s.subrange(i, i + spec_ser_batch(os).len()) == spec_ser_batch(os),
    ensures
        spec_parse_batch(s, i) == Some((os, i + spec_ser_batch(os).len())),
{
    let sb = spec_ser_batch(os);
    let lb = sb.len() as int;
    assert(s[i] == '[') by {
        assert(s.subrange(i, i + lb)[0] == s[i + 0]);
        assert(sb[0] == '[');
    }
    assert(spec_skip_ws(s, i) == i);
    if os.len() == 0 {
        assert(s[i + 1] == ']') by {
            assert(s.subrange(i, i + lb)[1] == s[i + 1]);
            assert(sb[1] == ']');
        }
        assert(spec_skip_ws(s, i + 1) == i + 1);
        assert(os =~= Seq::<Seq<(Seq<char>, Seq<char>)>>::empty());
    } else {
        let so0 = spec_ser_obj(os[0]);
        let rest = spec_ser_objs_rest(os.drop_first());
        assert(sb == seq!['['] + so0 + rest + seq![']']);
        assert(s[i + 1] == '{') by {
            assert(s.subrange(i, i + lb)[1] == s[i + 1]);
            assert(sb[1] == '{') by {
                assert(so0[0] == '{');
            }
        }
        assert(spec_skip_ws(s, i + 1) == i + 1);
        assert(s.subrange(i + 1, i + 1 + (so0.len() + rest.len())) =~= so0 + rest) by {
            assert forall|x: int| 0 <= x < so0.len() + rest.len() implies s.subrange(
                i + 1,
                i + 1 + (so0.len() + rest.len()),
            )[x] == (so0 + rest)[x] by {
                assert(s.subrange(i, i + lb)[1 + x] == s[i + (1 + x)]);
                assert(sb[1 + x] == (so0 + rest)[x]);
            }
        }
        assert(s[i + 1 + (so0.len() + rest.len())] == ']') by {
            assert(s.subrange(i, i + lb)[lb - 1] == s[i + (lb - 1)]);
            assert(sb[lb - 1] == ']');
        }
        lemma_parse_objs_of_ser(s, i + 1, os, Seq::empty());
        assert(Seq::<Seq<(Seq<char>, Seq<char>)>>::empty() + os =~= os);
    }
}

/// Parsing a bundle member list over the serialized members of `es`,
/// followed by a closing brace, yields exactly `es` appended to what was
/// already read.
#[verifier::rlimit(100)]
pub proof fn lemma_parse_bundle_pairs_of_ser(
    s: Seq<char>,
    i: int,
    es: Seq<(Seq<char>, Seq<(Seq<char>, Seq<char>)>)>,
    acc: Seq<(Seq<char>, Seq<(Seq<char>, Seq<char>)>)>,
)
    requires
        es.len() >= 1,
        0 <= i,
        i + spec_ser_bentry(es[0]).len() + spec_ser_bentries_rest(es.drop_first()).len() + 1
            <= s.len(),
        s.subrange(
            i,
            i + spec_ser_bentry(es[0]).len() + spec_ser_bentries_rest(es.drop_first()).len(),
        ) == spec_ser_bentry(es[0]) + spec_ser_bentries_rest(es.drop_first()),
        s[i + spec_ser_bentry(es[0]).len() + spec_ser_bentries_rest(es.drop_first()).len()] == '}',
    ensures
        spec_parse_bundle_pairs(s, i, acc) == Some(
            (
                acc + es,
                i + spec_ser_bentry(es[0]).len() + spec_ser_bentries_rest(es.drop_first()).len()
                    + 1,
            ),
        ),
    decreases es.len(),
{
    let k0 = es[0].0;
    let o0 = es[0].1;
    let elk = spec_escape(k0).len() as int;
    let lk = spec_quote(k0).len() as int;
    assert(lk == elk + 2);
    let so = spec_ser_obj(o0);
    let lo = so.len() as int;
    let rest = spec_ser_bentries_rest(es.drop_first());
    let w = spec_ser_bentry(es[0]) + rest;
    let lw = w.len() as int;
    let l0 = lk + 1 + lo;

    // the name's escaped body stands at i + 1
    assert(s.subrange(i + 1, i + 1 + elk) =~= spec_escape(k0)) by {
        assert forall|x: int| 0 <= x < elk implies s.subrange(i + 1, i + 1 + elk)[x]
            == spec_escape(k0)[x] by {
            assert(s.subrange(i, i + lw)[x + 1] == s[i + (x + 1)]);
            assert(w[x + 1] == spec_escape(k0)[x]);
        }
    }
    assert(s[i + (1 + elk)] == '"') by {
        assert(s.subrange(i, i + lw)[1 + elk] == s[i + (1 + elk)]);
        assert(w[1 + elk] == '"');
    }
    lemma_parse_of_escaped(s, i + 1, k0, Seq::empty());
    assert(Seq::<char>::empty() + k0 =~= k0);
    let a = i + elk + 2;
    assert(spec_parse_str_body(s, i + 1, Seq::empty()) == Some((k0, a)));

    // the colon and the object follow
    assert(s[i + lk] == ':') by {
        assert(s.subrange(i, i + lw)[lk] == s[i + lk]);
        assert(w[lk] == ':');
    }
    assert(s.subrange(i + (lk + 1), i + (lk + 1) + lo) =~= so) by {
        assert forall|x: int| 0 <= x < lo implies s.subrange(i + (lk + 1), i + (lk + 1) + lo)[x]
            == so[x] by {
            assert(s.subrange(i, i + lw)[lk + 1 + x] == s[i + (lk + 1 + x)]);
            assert(w[lk + 1 + x] == so[x]);
        }
    }
    lemma_parse_obj_of_ser(s, i + (lk + 1), o0);
    let d = i + l0;
    assert(spec_parse_obj(s, a + 1) == Some((o0, d)));

    // the parser walks the member exactly as serialized
    assert(s[i] == '"') by {
        assert(s.subrange(i, i + lw)[0] == s[i + 0]);
        assert(w[0] == '"');
    }
    assert(spec_skip_ws(s, i) == i);
    assert(spec_skip_ws(s, a) == a) by {
        assert(!is_ws(s[a]));
    }

    if es.len() == 1 {
        assert(rest =~= Seq::empty());
        assert(s[d] == '}');
        assert(spec_skip_ws(s, d) == d);
        assert(spec_parse_bundle_pairs(s, i, acc) == Some((acc.push((k0, o0)), d + 1)));
        assert(acc.push((k0, o0)) =~= acc + es) by {
            assert(es[0] == (k0, o0));
        }
    } else {
        let es1 = es.drop_first();
        let se1 = spec_ser_bentry(es1[0]);
        let r1 = spec_ser_bentries_rest(es1.drop_first());
        assert(rest == seq![','] + se1 + r1);
        assert(s[d] == ',') by {
            assert(s.subrange(i, i + lw)[l0] == s[i + l0]);
            assert(w[l0] == ',');
        }
        assert(spec_skip_ws(s, d) == d);
        assert(s.subrange(d + 1, d + 1 + (se1.len() + r1.len())) =~= se1 + r1) by {
            assert forall|x: int| 0 <= x < se1.len() + r1.len() implies s.subrange(
                d + 1,
                d + 1 + (se1.len() + r1.len()),
            )[x] == (se1 + r1)[x] by {
                assert(s.subrange(i, i + lw)[l0 + 1 + x] == s[i + (l0 + 1 + x)]);
                assert(w[l0 + 1 + x] == rest[1 + x]);
                assert(rest[1 + x] == (se1 + r1)[x]);
            }
        }
        assert(s[d + 1 + (se1.len() + r1.len())] == '}') by {
            assert(d + 1 + (se1.len() + r1.len()) == i + lw);
        }
        lemma_parse_bundle_pairs_of_ser(s, d + 1, es1, acc.push((k0, o0)));
        assert(acc.push((k0, o0)) + es1 =~= acc + es) by {
            assert(es[0] == (k0, o0));
        }
    }
}

/// Parsing a bundle over the serialized form of `es` yields exactly `es` and
/// stops just after the closing brace.
#[verifier::rlimit(100)]
pub proof fn lemma_parse_bundle_of_ser(
    s: Seq<char>,
    i: int,
    es: Seq<(Seq<char>, Seq<(Seq<char>, Seq<char>)>)>,
)
    requires
        0 <= i,
        i + spec_ser_bundle(es).len() <= s.len(),
        s.subrange(i, i + spec_ser_bundle(es).len()) == spec_ser_bundle(es),
    ensures
        spec_parse_bundle(s, i) == Some((es, i + spec_ser_bundle(es).len())),
{
    let sb = spec_ser_bundle(es);
    let lb = sb.len() as int;
    assert(s[i] == '{') by {
        assert(s.subrange(i, i + lb)[0] == s[i + 0]);
        assert(sb[0] == '{');
    }
    assert(spec_skip_ws(s, i) == i);
    if es.len() == 0 {
        assert(s[i + 1] == '}') by {
            assert(s.subrange(i, i + lb)[1] == s[i + 1]);
            assert(sb[1] == '}');
        }
        assert(spec_skip_ws(s, i + 1) == i + 1);
        assert(es =~= Seq::<(Seq<char>, Seq<(Seq<char>, Seq<char>)>)>::empty());
    } else {
        let se0 = spec_ser_bentry(es[0]);
        let rest = spec_ser_bentries_rest(es.drop_first());
        assert(sb == seq!['{'] + se0 + rest + seq!['}']);
        assert(s[i + 1] == '"') by {
            assert(s.subrange(i, i + lb)[1] == s[i + 1]);
            assert(sb[1] == '"') by {
                assert(se0[0] == '"');
            }
        }
        assert(spec_skip_ws(s, i + 1) == i + 1);
        assert(s.subrange(i + 1, i + 1 + (se0.len() + rest.len())) =~= se0 + rest) by {
            assert forall|x: int| 0 <= x < se0.len() + rest.len() implies s.subrange(
                i + 1,
                i + 1 + (se0.len() + rest.len()),
            )[x] == (se0 + rest)[x] by {
                assert(s.subrange(i, i + lb)[1 + x] == s[i + (1 + x)]);
                assert(sb[1 + x] == (se0 + rest)[x]);
            }
        }
        assert(s[i + 1 + (se0.len() + rest.len())] == '}') by {
            assert(s.subrange(i, i + lb)[lb - 1] == s[i + (lb - 1)]);
            assert(sb[lb - 1] == '}');
        }
        lemma_parse_bundle_pairs_of_ser(s, i + 1, es, Seq::empty());
        assert(Seq::<(Seq<char>, Seq<(Seq<char>, Seq<char>)>)>::empty() + es =~= es);
    }
}

} // verus!
