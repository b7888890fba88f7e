//! The JSON wire grammar this layer speaks, as verified parsing and
//! serializing functions over characters.
//!
//! The grammar is deliberately the fragment the protocol needs and nothing
//! more: strings with the standard escapes, flat objects whose values are
//! strings (one event), arrays of such objects (a batch), and objects whose
//! values are such objects (a bundle). Anything else in a body is rejected,
//! which mirrors how the envelope's field types reject non-string values.

use vstd::prelude::*;

use crate::strutil::char_from_u32;
use crate::strutil::chars_to_string;
use crate::strutil::str_to_chars;

verus! {

/// JSON insignificant whitespace.
pub open spec fn is_ws(c: char) -> bool {
    c == ' ' || c == '\t' || c == '\n' || c == '\r'
}

/// The first index at or after `i` holding a non-whitespace character.
pub open spec fn spec_skip_ws(s: Seq<char>, i: int) -> int
    decreases s.len() - i,
{
    if 0 <= i < s.len() && is_ws(s[i]) {
        spec_skip_ws(s, i + 1)
    } else {
        i
    }
}

pub proof fn lemma_skip_ws_bounds(s: Seq<char>, i: int)
    requires
        0 <= i <= s.len(),
    ensures
        i <= spec_skip_ws(s, i) <= s.len(),
        spec_skip_ws(s, i) < s.len() ==> !is_ws(s[spec_skip_ws(s, i)]),
    decreases s.len() - i,
{
    if i < s.len() && is_ws(s[i]) {
        lemma_skip_ws_bounds(s, i + 1);
    }
}

pub fn skip_ws(s: &Vec<char>, i: usize) -> (r: usize)
    requires
        i <= s@.len(),
    ensures
        r == spec_skip_ws(s@, i as int),
        i <= r <= s@.len(),
    decreases s@.len() - i,
{
    proof {
        lemma_skip_ws_bounds(s@, i as int);
    }
    if i < s.len() {
        let c = s[i];
        if c == ' ' || c == '\t' || c == '\n' || c == '\r' {
            return skip_ws(s, i + 1);
        }
    }
    i
}

/// The numeric value of a hexadecimal digit, either case.
pub open spec fn hex_val(c: char) -> Option<u32> {
    let v = c as u32;
    if 48 <= v <= 57 {
        Some((v - 48) as u32)
    } else if 97 <= v <= 102 {
        Some((v - 87) as u32)
    } else if 65 <= v <= 70 {
        Some((v - 55) as u32)
    } else {
        None
    }
}

pub fn hex_val_exec(c: char) -> (r: Option<u32>)
    ensures
        r == hex_val(c),
{
    let v = c as u32;
    if 48 <= v && v <= 57 {
        Some(v - 48)
    } else if 97 <= v && v <= 102 {
        Some(v - 87)
    } else if 65 <= v && v <= 70 {
        Some(v - 55)
    } else {
        None
    }
}

/// The scalar value written by four hex digits at `i`; meaningful only when
/// all four are hex digits.
pub open spec fn hex4_val(s: Seq<char>, i: int) -> u32 {
    (hex_val(s[i]).unwrap() * 0x1000 + hex_val(s[i + 1]).unwrap() * 0x100 + hex_val(
        s[i + 2],
    ).unwrap() * 0x10 + hex_val(s[i + 3]).unwrap()) as u32
}

/// All four characters at `i` are hex digits and name a Unicode scalar value.
pub open spec fn valid_hex4(s: Seq<char>, i: int) -> bool {
    &&& hex_val(s[i]) is Some
    &&& hex_val(s[i + 1]) is Some
    &&& hex_val(s[i + 2]) is Some
    &&& hex_val(s[i + 3]) is Some
    &&& vstd::utf8::is_scalar(hex4_val(s, i))
}

/// Parse the remainder of a JSON string, `i` standing just after the opening
/// quote and `acc` holding the characters read so far. Yields the string's
/// characters and the index just after the closing quote.
pub open spec fn spec_parse_str_body(s: Seq<char>, i: int, acc: Seq<char>) -> Option<
    (Seq<char>, int),
>
    decreases s.len() - i,
{
    if !(0 <= i < s.len()) {
        None
    } else if s[i] == '"' {
        Some((acc, i + 1))
    } else if s[i] == '\\' {
        if i + 1 < s.len() {
            let e = s[i + 1];
            if e == '"' {
                spec_parse_str_body(s, i + 2, acc.push('"'))
            } else if e == '\\' {
                spec_parse_str_body(s, i + 2, acc.push('\\'))
            } else if e == '/' {
                spec_parse_str_body(s, i + 2, acc.push('/'))
            } else if e == 'b' {
                spec_parse_str_body(s, i + 2, acc.push('\u{8}'))
            } else if e == 'f' {
                spec_parse_str_body(s, i + 2, acc.push('\u{c}'))
            } else if e == 'n' {
                spec_parse_str_body(s, i + 2, acc.push('\n'))
            } else if e == 'r' {
                spec_parse_str_body(s, i + 2, acc.push('\r'))
            } else if e == 't' {
                spec_parse_str_body(s, i + 2, acc.push('\t'))
            } else if e == 'u' {
                if i + 6 <= s.len() && valid_hex4(s, i + 2) {
                    spec_parse_str_body(s, i + 6, acc.push(hex4_val(s, i + 2) as char))
                } else {
                    None
                }
            } else {
                None
            }
        } else {
            None
        }
    } else if (s[i] as u32) < 0x20 {
        None
    } else {
        spec_parse_str_body(s, i + 1, acc.push(s[i]))
    }
}

/// A successful string parse starts inside the text and ends past where it
/// started, never beyond the end.
pub proof fn lemma_parse_str_body_advances(s: Seq<char>, i: int, acc: Seq<char>)
    requires
        spec_parse_str_body(s, i, acc) is Some,
    ensures
        0 <= i < spec_parse_str_body(s, i, acc).unwrap().1 <= s.len(),
    decreases s.len() - i,
{
    if s[i] == '"' {
    } else if s[i] == '\\' {
        let e = s[i + 1];
        if e == '"' {
            lemma_parse_str_body_advances(s, i + 2, acc.push('"'));
        } else if e == '\\' {
            lemma_parse_str_body_advances(s, i + 2, acc.push('\\'));
        } else if e == '/' {
            lemma_parse_str_body_advances(s, i + 2, acc.push('/'));
        } else if e == 'b' {
            lemma_parse_str_body_advances(s, i + 2, acc.push('\u{8}'));
        } else if e == 'f' {
            lemma_parse_str_body_advances(s, i + 2, acc.push('\u{c}'));
        } else if e == 'n' {
            lemma_parse_str_body_advances(s, i + 2, acc.push('\n'));
        } else if e == 'r' {
            lemma_parse_str_body_advances(s, i + 2, acc.push('\r'));
        } else if e == 't' {
            lemma_parse_str_body_advances(s, i + 2, acc.push('\t'));
        } else {
            lemma_parse_str_body_advances(s, i + 6, acc.push(hex4_val(s, i + 2) as char));
        }
    } else {
        lemma_parse_str_body_advances(s, i + 1, acc.push(s[i]));
    }
}

/// Parse a JSON string whose opening quote stands at `i`. Yields the decoded
/// characters and the index just after the closing quote.
pub fn parse_string_at(s: &Vec<char>, i: usize) -> (r: Option<(Vec<char>, usize)>)
    requires
        i <= s@.len(),
    ensures
        match r {
            Some((t, j)) => {
                &&& i < s@.len() && s@[i as int] == '"'
                &&& spec_parse_str_body(s@, i + 1, Seq::empty()) == Some((t@, j as int))
                &&& i < j <= s@.len()
            },
            None => !(i < s@.len() && s@[i as int] == '"') || spec_parse_str_body(
                s@,
                i + 1,
                Seq::empty(),
            ) is None,
        },
{
    if !(i < s.len()) {
        return None;
    }
    if s[i] != '"' {
        return None;
    }
    let mut acc: Vec<char> = Vec::new();
    let mut k: usize = i + 1;
    loop
        invariant
            i < s@.len(),
            s@[i as int] == '"',
            i + 1 <= k <= s@.len(),
            spec_parse_str_body(s@, i + 1, Seq::empty()) == spec_parse_str_body(
                s@,
                k as int,
                acc@,
            ),
        decreases s@.len() - k,
    {
        if !(k < s.len()) {
            return None;
        }
        let c = s[k];
        if c == '"' {
            proof {
                lemma_parse_str_body_advances(s@, i + 1, Seq::empty());
            }
            return Some((acc, k + 1));
        } else if c == '\\' {
            if !(k + 1 < s.len()) {
                return None;
            }
            let e = s[k + 1];
            if e == '"' {
                acc.push('"');
                k = k + 2;
            } else if e == '\\' {
                acc.push('\\');
                k = k + 2;
            } else if e == '/' {
                acc.push('/');
                k = k + 2;
            } else if e == 'b' {
                acc.push('\u{8}');
                k = k + 2;
            } else if e == 'f' {
                acc.push('\u{c}');
                k = k + 2;
            } else if e == 'n' {
                acc.push('\n');
                k = k + 2;
            } else if e == 'r' {
                acc.push('\r');
                k = k + 2;
            } else if e == 't' {
                acc.push('\t');
                k = k + 2;
            } else if e == 'u' {
                if s.len() - (k + 1) < 5 {
                    return None;
                }
                let h0 = hex_val_exec(s[k + 2]);
                let h1 = hex_val_exec(s[k + 3]);
                let h2 = hex_val_exec(s[k + 4]);
                let h3 = hex_val_exec(s[k + 5]);
                match (h0, h1, h2, h3) {
                    (Some(v0), Some(v1), Some(v2), Some(v3)) => {
                        let v: u32 = v0 * 0x1000 + v1 * 0x100 + v2 * 0x10 + v3;
                        proof {
                            assert(v == hex4_val(s@, k + 2));
                        }
                        match char_from_u32(v) {
                            Some(c) => {
                                proof {
                                    vstd::utf8::char_u32_cast(c, v);
                                }
                                acc.push(c);
                                k = k + 6;
                            },
                            None => {
                                return None;
                            },
                        }
                    },
                    _ => {
                        return None;
                    },
                }
            } else {
                return None;
            }
        } else if (c as u32) < 0x20 {
            return None;
        } else {
            acc.push(c);
            k = k + 1;
        }
    }
}

/// `spec_skip_ws` never moves backwards, and stays inside the text when it
/// starts inside it.
pub proof fn lemma_skip_ws_ge(s: Seq<char>, i: int)
    ensures
        i <= spec_skip_ws(s, i),
        i <= s.len() ==> spec_skip_ws(s, i) <= s.len(),
    decreases s.len() - i,
{
    if 0 <= i < s.len() && is_ws(s[i]) {
        lemma_skip_ws_ge(s, i + 1);
    }
}

/// Parse the members of a JSON object whose values are strings, `i` standing
/// just after the opening brace or a separating comma and `acc` holding the
/// members read so far. Yields the members and the index just after the
/// closing brace.
pub open spec fn spec_parse_pairs(
    s: Seq<char>,
    i: int,
    acc: Seq<(Seq<char>, Seq<char>)>,
) -> Option<(Seq<(Seq<char>, Seq<char>)>, int)>
    decreases s.len() - i,
    via spec_parse_pairs_dec
{
    let k = spec_skip_ws(s, i);
    if !(k < s.len() && s[k] == '"') {
        None
    } else {
        match spec_parse_str_body(s, k + 1, Seq::empty()) {
            None => None,
            Some((key, a)) => {
                let b = spec_skip_ws(s, a);
                if !(b < s.len() && s[b] == ':') {
                    None
                } else {
                    let c = spec_skip_ws(s, b + 1);
                    if !(c < s.len() && s[c] == '"') {
                        None
                    } else {
                        match spec_parse_str_body(s, c + 1, Seq::empty()) {
                            None => None,
                            Some((val, d)) => {
                                let e = spec_skip_ws(s, d);
                                if e < s.len() && s[e] == ',' {
                                    spec_parse_pairs(s, e + 1, acc.push((key, val)))
                                } else if e < s.len() && s[e] == '}' {
                                    Some((acc.push((key, val)), e + 1))
                                } else {
                                    None
                                }
                            },
                        }
                    }
                }
            },
        }
    }
}

#[via_fn]
proof fn spec_parse_pairs_dec(s: Seq<char>, i: int, acc: Seq<(Seq<char>, Seq<char>)>) {
    let k = spec_skip_ws(s, i);
    lemma_skip_ws_ge(s, i);
    if k < s.len() && s[k] == '"' {
        if spec_parse_str_body(s, k + 1, Seq::empty()) is Some {
            lemma_parse_str_body_advances(s, k + 1, Seq::empty());
            let (key, a) = spec_parse_str_body(s, k + 1, Seq::empty()).unwrap();
            let b = spec_skip_ws(s, a);
            lemma_skip_ws_ge(s, a);
            if b < s.len() && s[b] == ':' {
                let c = spec_skip_ws(s, b + 1);
                lemma_skip_ws_ge(s, b + 1);
                if c < s.len() && s[c] == '"' {
                    if spec_parse_str_body(s, c + 1, Seq::empty()) is Some {
                        lemma_parse_str_body_advances(s, c + 1, Seq::empty());
                        let (val, d) = spec_parse_str_body(s, c + 1, Seq::empty()).unwrap();
                        lemma_skip_ws_ge(s, d);
                    }
                }
            }
        }
    }
}

/// A successful member-list parse ends past where it started, never beyond
/// the end of the text.
pub proof fn lemma_parse_pairs_advances(s: Seq<char>, i: int, acc: Seq<(Seq<char>, Seq<char>)>)
    requires
        spec_parse_pairs(s, i, acc) is Some,
    ensures
        i < spec_parse_pairs(s, i, acc).unwrap().1 <= s.len(),
    decreases s.len() - i,
{
    let k = spec_skip_ws(s, i);
    lemma_skip_ws_ge(s, i);
    let (key, a) = spec_parse_str_body(s, k + 1, Seq::empty()).unwrap();
    lemma_parse_str_body_advances(s, k + 1, Seq::empty());
    let b = spec_skip_ws(s, a);
    lemma_skip_ws_ge(s, a);
    let c = spec_skip_ws(s, b + 1);
    lemma_skip_ws_ge(s, b + 1);
    let (val, d) = spec_parse_str_body(s, c + 1, Seq::empty()).unwrap();
    lemma_parse_str_body_advances(s, c + 1, Seq::empty());
    let e = spec_skip_ws(s, d);
    lemma_skip_ws_ge(s, d);
    if e < s.len() && s[e] == ',' {
        lemma_parse_pairs_advances(s, e + 1, acc.push((key, val)));
    }
}

/// Parse a flat JSON object (all values strings) whose text begins, after
/// whitespace, at `i`. Yields the members and the index just after the
/// closing brace.
pub open spec fn spec_parse_obj(s: Seq<char>, i: int) -> Option<(Seq<(Seq<char>, Seq<char>)>, int)> {
    let j = spec_skip_ws(s, i);
    if j < s.len() && s[j] == '{' {
        let k = spec_skip_ws(s, j + 1);
        if k < s.len() && s[k] == '}' {
            Some((Seq::empty(), k + 1))
        } else {
            spec_parse_pairs(s, j + 1, Seq::empty())
        }
    } else {
        None
    }
}

/// A successful object parse ends past where it started, never beyond the
/// end of the text.
pub proof fn lemma_parse_obj_advances(s: Seq<char>, i: int)
    requires
        spec_parse_obj(s, i) is Some,
    ensures
        i < spec_parse_obj(s, i).unwrap().1 <= s.len(),
{
    let j = spec_skip_ws(s, i);
    lemma_skip_ws_ge(s, i);
    let k = spec_skip_ws(s, j + 1);
    lemma_skip_ws_ge(s, j + 1);
    if !(k < s.len() && s[k] == '}') {
        lemma_parse_pairs_advances(s, j + 1, Seq::empty());
    }
}

/// Parse the members of a flat object, starting just after the opening brace
/// or a separating comma.
pub fn parse_pairs(s: &Vec<char>, start: usize) -> (r: Option<(Vec<(String, String)>, usize)>)
    requires
        start <= s@.len(),
    ensures
        match r {
            Some((ps, j)) => {
                &&& spec_parse_pairs(s@, start as int, Seq::empty()) == Some(
                    (ps.deep_view(), j as int),
                )
                &&& start < j <= s@.len()
            },
            None => spec_parse_pairs(s@, start as int, Seq::empty()) is None,
        },
{
    let mut acc: Vec<(String, String)> = Vec::new();
    proof {
        assert(acc.deep_view() =~= Seq::<(Seq<char>, Seq<char>)>::empty());
    }
    let mut i: usize = start;
    loop
        invariant
            start <= i <= s@.len(),
            spec_parse_pairs(s@, start as int, Seq::empty()) == spec_parse_pairs(
                s@,
                i as int,
                acc.deep_view(),
            ),
        decreases s@.len() - i,
    {
        let k = skip_ws(s, i);
        let key_r = parse_string_at(s, k);
        match key_r {
            None => {
                return None;
            },
            Some((key_chars, a)) => {
                let b = skip_ws(s, a);
                if !(b < s.len()) {
                    return None;
                }
                if s[b] != ':' {
                    return None;
                }
                let c = skip_ws(s, b + 1);
                let val_r = parse_string_at(s, c);
                match val_r {
                    None => {
                        return None;
                    },
                    Some((val_chars, d)) => {
                        let e = skip_ws(s, d);
                        let key = chars_to_string(&key_chars);
                        let val = chars_to_string(&val_chars);
                        let ghost old_acc = acc.deep_view();
                        acc.push((key, val));
                        proof {
                            assert(acc.deep_view() =~= old_acc.push((key_chars@, val_chars@)));
                        }
                        if e < s.len() && s[e] == ',' {
                            i = e + 1;
                        } else if e < s.len() && s[e] == '}' {
                            proof {
                                lemma_parse_pairs_advances(s@, start as int, Seq::empty());
                            }
                            return Some((acc, e + 1));
                        } else {
                            return None;
                        }
                    },
                }
            },
        }
    }
}

/// Parse a flat JSON object beginning, after whitespace, at `start`.
pub fn parse_obj(s: &Vec<char>, start: usize) -> (r: Option<(Vec<(String, String)>, usize)>)
    requires
        start <= s@.len(),
    ensures
        match r {
            Some((ps, j)) => {
                &&& spec_parse_obj(s@, start as int) == Some((ps.deep_view(), j as int))
                &&& start < j <= s@.len()
            },
            None => spec_parse_obj(s@, start as int) is None,
        },
{
    let j = skip_ws(s, start);
    if !(j < s.len()) {
        return None;
    }
    if s[j] != '{' {
        return None;
    }
    let k = skip_ws(s, j + 1);
    if k < s.len() && s[k] == '}' {
        let empty: Vec<(String, String)> = Vec::new();
        proof {
            assert(empty.deep_view() =~= Seq::<(Seq<char>, Seq<char>)>::empty());
        }
        return Some((empty, k + 1));
    }
    parse_pairs(s, j + 1)
}

/// The character a hexadecimal digit value writes as, lower case.
pub open spec fn hex_digit(v: u32) -> char {
    if v == 0 {
        '0'
    } else if v == 1 {
        '1'
    } else if v == 2 {
        '2'
    } else if v == 3 {
        '3'
    } else if v == 4 {
        '4'
    } else if v == 5 {
        '5'
    } else if v == 6 {
        '6'
    } else if v == 7 {
        '7'
    } else if v == 8 {
        '8'
    } else if v == 9 {
        '9'
    } else if v == 10 {
        'a'
    } else if v == 11 {
        'b'
    } else if v == 12 {
        'c'
    } else if v == 13 {
        'd'
    } else if v == 14 {
        'e'
    } else {
        'f'
    }
}

pub fn hex_digit_exec(v: u32) -> (r: char)
    requires
        v < 16,
    ensures
        r == hex_digit(v),
{
    if v == 0 {
        '0'
    } else if v == 1 {
        '1'
    } else if v == 2 {
        '2'
    } else if v == 3 {
        '3'
    } else if v == 4 {
        '4'
    } else if v == 5 {
        '5'
    } else if v == 6 {
        '6'
    } else if v == 7 {
        '7'
    } else if v == 8 {
        '8'
    } else if v == 9 {
        '9'
    } else if v == 10 {
        'a'
    } else if v == 11 {
        'b'
    } else if v == 12 {
        'c'
    } else if v == 13 {
        'd'
    } else if v == 14 {
        'e'
    } else {
        'f'
    }
}

pub proof fn lemma_hex_digit_val(v: u32)
    requires
        v < 16,
    ensures
        hex_val(hex_digit(v)) == Some(v),
{
}

/// How one character is written inside a JSON string: quote and backslash get
/// a two-character escape, control characters a `\u00..` escape, everything
/// else stands as itself.
pub open spec fn spec_escape_char(c: char) -> Seq<char> {
    if c == '"' {
        seq!['\\', '"']
    } else if c == '\\' {
        seq!['\\', '\\']
    } else if (c as u32) < 0x20 {
        seq!['\\', 'u', '0', '0', hex_digit((c as u32) / 16), hex_digit((c as u32) % 16)]
    } else {
        seq![c]
    }
}

/// The escaped body of a JSON string.
pub open spec fn spec_escape(s: Seq<char>) -> Seq<char>
    decreases s.len(),
{
    if s.len() == 0 {
        Seq::empty()
    } else {
        spec_escape(s.drop_last()) + spec_escape_char(s.last())
    }
}

/// A complete JSON string: quotes around the escaped body.
pub open spec fn spec_quote(s: Seq<char>) -> Seq<char> {
    seq!['"'] + spec_escape(s) + seq!['"']
}

pub proof fn lemma_escape_unfold_first(s: Seq<char>)
    requires
        s.len() > 0,
    ensures
        spec_escape(s) == spec_escape_char(s[0]) + spec_escape(s.drop_first()),
    decreases s.len(),
{
    if s.len() == 1 {
        assert(s.drop_last() =~= Seq::empty());
        assert(s.drop_first() =~= Seq::empty());
        assert(spec_escape_char(s[0]) + Seq::<char>::empty() =~= spec_escape_char(s.last()));
        assert(Seq::<char>::empty() + spec_escape_char(s.last()) =~= spec_escape_char(s.last()));
    } else {
        lemma_escape_unfold_first(s.drop_last());
        assert(s.drop_last()[0] == s[0]);
        assert(s.drop_first().drop_last() =~= s.drop_last().drop_first());
        assert(s.drop_first().last() == s.last());
        assert(spec_escape(s.drop_first()) == spec_escape(s.drop_first().drop_last())
            + spec_escape_char(s.drop_first().last()));
        assert((spec_escape_char(s[0]) + spec_escape(s.drop_last().drop_first()))
            + spec_escape_char(s.last()) =~= spec_escape_char(s[0]) + (spec_escape(
            s.drop_last().drop_first(),
        ) + spec_escape_char(s.last())));
    }
}

/// Parsing a string body over the escaped form of `t`, followed by a closing
/// quote, yields exactly `t` and stops just after that quote: serializing a
/// string and parsing it back is the identity wherever it is embedded.
pub proof fn lemma_parse_of_escaped(s: Seq<char>, i: int, t: Seq<char>, acc: Seq<char>)
    requires
        0 <= i,
        i + spec_escape(t).len() + 1 <= s.len(),
        s.subrange(i, i + spec_escape(t).len() as int) == spec_escape(t),
        s[i + spec_escape(t).len() as int] == '"',
    ensures
        spec_parse_str_body(s, i, acc) == Some(
            (acc + t, i + spec_escape(t).len() + 1 as int),
        ),
    decreases t.len(),
{
    if t.len() == 0 {
        assert(acc + t =~= acc);
    } else {
        let c = t[0];
        let ec = spec_escape_char(c);
        let t2 = t.drop_first();
        lemma_escape_unfold_first(t);
        let el = spec_escape(t).len() as int;
        assert forall|x: int| 0 <= x < ec.len() implies s[i + x] == ec[x] by {
            assert(s.subrange(i, i + el)[x] == s[i + x]);
        }
        let i2 = i + ec.len() as int;
        assert(s.subrange(i2, i + el) =~= spec_escape(t2)) by {
            assert forall|x: int| 0 <= x < el - ec.len() implies s.subrange(i2, i + el)[x]
                == spec_escape(t2)[x] by {
                assert(s.subrange(i, i + el)[ec.len() + x] == s[i2 + x]);
                assert((ec + spec_escape(t2))[ec.len() + x] == spec_escape(t2)[x]);
            }
        }
        assert(i2 + spec_escape(t2).len() == i + el);
        if c == '"' {
            assert(s[i] == '\\' && s[i + 1] == '"');
            assert(spec_parse_str_body(s, i, acc) == spec_parse_str_body(s, i2, acc.push(c)));
            lemma_parse_of_escaped(s, i2, t2, acc.push(c));
            assert(acc.push(c) + t2 =~= acc + t);
        } else if c == '\\' {
            assert(s[i] == '\\' && s[i + 1] == '\\');
            assert(spec_parse_str_body(s, i, acc) == spec_parse_str_body(s, i2, acc.push(c)));
            lemma_parse_of_escaped(s, i2, t2, acc.push(c));
            assert(acc.push(c) + t2 =~= acc + t);
        } else if (c as u32) < 0x20 {
            let v = c as u32;
            lemma_hex_digit_val(v / 16);
            lemma_hex_digit_val(v % 16);
            assert(s[i] == '\\' && s[i + 1] == 'u' && s[i + 2] == '0' && s[i + 3] == '0' && s[i
                + 4] == hex_digit(v / 16) && s[i + 5] == hex_digit(v % 16));
            assert(hex4_val(s, i + 2) == v);
            assert(vstd::utf8::is_scalar(v)) by {
                vstd::utf8::char_is_scalar(c);
            }
            assert(valid_hex4(s, i + 2));
            vstd::utf8::char_u32_cast(c, v);
            assert((v as char) == c);
            assert(i + 6 <= s.len());
            assert(spec_parse_str_body(s, i, acc) == spec_parse_str_body(s, i2, acc.push(c)));
            lemma_parse_of_escaped(s, i2, t2, acc.push(c));
            assert(acc.push(c) + t2 =~= acc + t);
        } else {
            assert(s[i + 0] == ec[0]);
            assert(s[i] == c);
            assert(spec_parse_str_body(s, i, acc) == spec_parse_str_body(s, i2, acc.push(c)));
            lemma_parse_of_escaped(s, i2, t2, acc.push(c));
            assert(acc.push(c) + t2 =~= acc + t);
        }
    }
}

/// One serialized object member: quoted key, colon, quoted value.
pub open spec fn spec_ser_pair(p: (Seq<char>, Seq<char>)) -> Seq<char> {
    spec_quote(p.0) + seq![':'] + spec_quote(p.1)
}

/// The members after the first, each preceded by a comma.
pub open spec fn spec_ser_pairs_rest(ps: Seq<(Seq<char>, Seq<char>)>) -> Seq<char>
    decreases ps.len(),
{
    if ps.len() == 0 {
        Seq::empty()
    } else {
        seq![','] + spec_ser_pair(ps[0]) + spec_ser_pairs_rest(ps.drop_first())
    }
}

/// A serialized flat object: braces around comma-separated members, without
/// any insignificant whitespace.
pub open spec fn spec_ser_obj(ps: Seq<(Seq<char>, Seq<char>)>) -> Seq<char> {
    if ps.len() == 0 {
        seq!['{', '}']
    } else {
        seq!['{'] + spec_ser_pair(ps[0]) + spec_ser_pairs_rest(ps.drop_first()) + seq!['}']
    }
}

pub proof fn lemma_ser_pairs_rest_push(ps: Seq<(Seq<char>, Seq<char>)>, p: (Seq<char>, Seq<char>))
    ensures
        spec_ser_pairs_rest(ps.push(p)) == spec_ser_pairs_rest(ps) + seq![','] + spec_ser_pair(p),
    decreases ps.len(),
{
    if ps.len() == 0 {
        assert(ps.push(p).drop_first() =~= Seq::<(Seq<char>, Seq<char>)>::empty());
        assert(ps.push(p)[0] == p);
        assert(spec_ser_pairs_rest(Seq::<(Seq<char>, Seq<char>)>::empty()) == Seq::<char>::empty());
        assert(spec_ser_pairs_rest(ps.push(p)) == seq![','] + spec_ser_pair(p)
            + spec_ser_pairs_rest(ps.push(p).drop_first()));
        assert(seq![','] + spec_ser_pair(p) + Seq::<char>::empty() =~= Seq::<char>::empty()
            + seq![','] + spec_ser_pair(p));
    } else {
        lemma_ser_pairs_rest_push(ps.drop_first(), p);
        assert(ps.push(p).drop_first() =~= ps.drop_first().push(p));
        assert(ps.push(p)[0] == ps[0]);
        assert(spec_ser_pairs_rest(ps.push(p)) == seq![','] + spec_ser_pair(ps[0])
            + spec_ser_pairs_rest(ps.push(p).drop_first()));
        assert(spec_ser_pairs_rest(ps) == seq![','] + spec_ser_pair(ps[0]) + spec_ser_pairs_rest(
            ps.drop_first(),
        ));
        assert(seq![','] + spec_ser_pair(ps[0]) + (spec_ser_pairs_rest(ps.drop_first())
            + seq![','] + spec_ser_pair(p)) =~= (seq![','] + spec_ser_pair(ps[0])
            + spec_ser_pairs_rest(ps.drop_first())) + seq![','] + spec_ser_pair(p));
    }
}

/// Append the JSON string form of `s` (quotes and escapes) to `out`.
pub fn push_quoted(out: &mut Vec<char>, s: &Vec<char>)
    ensures
        final(out)@ == old(out)@ + spec_quote(s@),
{
    out.push('"');
    let mut i: usize = 0;
    while i < s.len()
        invariant
            i <= s@.len(),
            out@ == old(out)@ + seq!['"'] + spec_escape(s@.subrange(0, i as int)),
        decreases s@.len() - i,
    {
        let c = s[i];
        if c == '"' {
            out.push('\\');
            out.push('"');
        } else if c == '\\' {
            out.push('\\');
            out.push('\\');
        } else if (c as u32) < 0x20 {
            out.push('\\');
            out.push('u');
            out.push('0');
            out.push('0');
            out.push(hex_digit_exec((c as u32) / 16));
            out.push(hex_digit_exec((c as u32) % 16));
        } else {
            out.push(c);
        }
        proof {
            let pre = s@.subrange(0, i as int);
            let cur = s@.subrange(0, i + 1 as int);
            assert(cur.drop_last() =~= pre);
            assert(cur.last() == s@[i as int]);
            assert(spec_escape(cur) == spec_escape(pre) + spec_escape_char(s@[i as int]));
            assert(out@ =~= old(out)@ + seq!['"'] + spec_escape(cur));
        }
        i = i + 1;
    }
    out.push('"');
    proof {
        assert(s@.subrange(0, s@.len() as int) =~= s@);
        assert(out@ =~= old(out)@ + spec_quote(s@));
    }
}

/// Append the serialized form of a flat object to `out`.
pub fn push_obj(out: &mut Vec<char>, ps: &Vec<(String, String)>)
    ensures
        final(out)@ == old(out)@ + spec_ser_obj(ps.deep_view()),
{
    let ghost dv = ps.deep_view();
    out.push('{');
    let mut i: usize = 0;
    while i < ps.len()
        invariant
            i <= ps@.len(),
            dv == ps.deep_view(),
            dv.len() == ps@.len(),
            i == 0 ==> out@ == old(out)@ + seq!['{'],
            i > 0 ==> out@ == old(out)@ + seq!['{'] + spec_ser_pair(dv[0])
                + spec_ser_pairs_rest(dv.subrange(1, i as int)),
        decreases ps@.len() - i,
    {
        if i > 0 {
            out.push(',');
        }
        let pair = &ps[i];
        let key_chars = str_to_chars(pair.0.as_str());
        push_quoted(out, &key_chars);
        out.push(':');
        let val_chars = str_to_chars(pair.1.as_str());
        push_quoted(out, &val_chars);
        proof {
            assert(dv[i as int] == (ps@[i as int].0@, ps@[i as int].1@));
            if i == 0 {
                assert(dv.subrange(1, 1) =~= Seq::<(Seq<char>, Seq<char>)>::empty());
                assert(out@ =~= old(out)@ + seq!['{'] + spec_ser_pair(dv[0])
                    + spec_ser_pairs_rest(dv.subrange(1, 1)));
            } else {
                lemma_ser_pairs_rest_push(dv.subrange(1, i as int), dv[i as int]);
                assert(dv.subrange(1, i + 1 as int) =~= dv.subrange(1, i as int).push(
                    dv[i as int],
                ));
                assert(out@ =~= old(out)@ + seq!['{'] + spec_ser_pair(dv[0])
                    + spec_ser_pairs_rest(dv.subrange(1, i + 1 as int)));
            }
        }
        i = i + 1;
    }
    out.push('}');
    proof {
        if dv.len() == 0 {
            assert(out@ =~= old(out)@ + spec_ser_obj(dv));
        } else {
            assert(dv.subrange(1, dv.len() as int) =~= dv.drop_first());
            assert(out@ =~= old(out)@ + spec_ser_obj(dv));
        }
    }
}

/// Parsing a member list over the serialized members of `ps`, followed by a
/// closing brace, yields exactly `ps` appended to what was already read.
pub proof fn lemma_parse_pairs_of_ser(
    s: Seq<char>,
    i: int,
    ps: Seq<(Seq<char>, Seq<char>)>,
    acc: Seq<(Seq<char>, Seq<char>)>,
)
    requires
        ps.len() >= 1,
        0 <= i,
        i + spec_ser_pair(ps[0]).len() + spec_ser_pairs_rest(ps.drop_first()).len() + 1 <= s.len(),
        s.subrange(
            i,
            i + spec_ser_pair(ps[0]).len() + spec_ser_pairs_rest(ps.drop_first()).len(),
        ) == spec_ser_pair(ps[0]) + spec_ser_pairs_rest(ps.drop_first()),
        s[i + spec_ser_pair(ps[0]).len() + spec_ser_pairs_rest(ps.drop_first()).len()] == '}',
    ensures
        spec_parse_pairs(s, i, acc) == Some(
            (
                acc + ps,
                i + spec_ser_pair(ps[0]).len() + spec_ser_pairs_rest(ps.drop_first()).len() + 1,
            ),
        ),
    decreases ps.len(),
{
    let k0 = ps[0].0;
    let v0 = ps[0].1;
    let elk = spec_escape(k0).len() as int;
    let elv = spec_escape(v0).len() as int;
    let lk = spec_quote(k0).len() as int;
    let lv = spec_quote(v0).len() as int;
    assert(lk == elk + 2);
    assert(lv == elv + 2);
    let rest = spec_ser_pairs_rest(ps.drop_first());
    let w = spec_ser_pair(ps[0]) + rest;
    let lw = w.len() as int;
    let l0 = lk + 1 + lv;

    // the key's escaped body stands at i + 1
    assert(s.subrange(i + 1, i + 1 + elk) =~= spec_escape(k0)) by {
        assert forall|x: int| 0 <= x < elk implies s.subrange(i + 1, i + 1 + elk)[x]
            == spec_escape(k0)[x] by {
            assert(s.subrange(i, i + lw)[x + 1] == s[i + (x + 1)]);
            assert(w[x + 1] == spec_escape(k0)[x]);
        }
    }
    assert(s[i + (1 + elk)] == '"') by {
        assert(s.subrange(i, i + lw)[1 + elk] == s[i + (1 + elk)]);
        assert(w[1 + elk] == '"');
    }
    lemma_parse_of_escaped(s, i + 1, k0, Seq::empty());
    assert(Seq::<char>::empty() + k0 =~= k0);
    let a = i + elk + 2;
    assert(spec_parse_str_body(s, i + 1, Seq::empty()) == Some((k0, a)));

    // the colon and the value's opening quote follow
    assert(s[i + lk] == ':') by {
        assert(s.subrange(i, i + lw)[lk] == s[i + lk]);
        assert(w[lk] == ':');
    }
    assert(s[i + (lk + 1)] == '"') by {
        assert(s.subrange(i, i + lw)[lk + 1] == s[i + (lk + 1)]);
        assert(w[lk + 1] == '"');
    }
    // the value's escaped body stands at i + lk + 2
    assert(s.subrange(i + (lk + 2), i + (lk + 2) + elv) =~= spec_escape(v0)) by {
        assert forall|x: int| 0 <= x < elv implies s.subrange(i + (lk + 2), i + (lk + 2) + elv)[x]
            == spec_escape(v0)[x] by {
            assert(s.subrange(i, i + lw)[lk + 2 + x] == s[i + (lk + 2 + x)]);
            assert(w[lk + 2 + x] == spec_escape(v0)[x]);
        }
    }
    assert(s[i + (lk + 2) + elv] == '"') by {
        assert(s.subrange(i, i + lw)[lk + 2 + elv] == s[i + (lk + 2 + elv)]);
        assert(w[lk + 2 + elv] == '"');
    }
    lemma_parse_of_escaped(s, i + (lk + 2), v0, Seq::empty());
    assert(Seq::<char>::empty() + v0 =~= v0);
    let d = i + l0;
    assert(spec_parse_str_body(s, i + (lk + 2), Seq::empty()) == Some((v0, d)));

    // the parser walks the member exactly as serialized
    assert(s[i] == '"') by {
        assert(s.subrange(i, i + lw)[0] == s[i + 0]);
        assert(w[0] == '"');
    }
    assert(spec_skip_ws(s, i) == i);
    assert(spec_skip_ws(s, a) == a) by {
        assert(!is_ws(s[a]));
    }
    assert(spec_skip_ws(s, a + 1) == a + 1) by {
        assert(s[i + (lk + 1)] == '"');
        assert(!is_ws(s[a + 1]));
    }

    if ps.len() == 1 {
        assert(rest =~= Seq::empty());
        assert(s[d] == '}');
        assert(spec_skip_ws(s, d) == d);
        assert(spec_parse_pairs(s, i, acc) == Some((acc.push((k0, v0)), d + 1)));
        assert(acc.push((k0, v0)) =~= acc + ps) by {
            assert(ps[0] == (k0, v0));
        }
    } else {
        let ps1 = ps.drop_first();
        let sp1 = spec_ser_pair(ps1[0]);
        let r1 = spec_ser_pairs_rest(ps1.drop_first());
        assert(rest == seq![','] + sp1 + r1);
        assert(s[d] == ',') by {
            assert(s.subrange(i, i + lw)[l0] == s[i + l0]);
            assert(w[l0] == ',');
        }
        assert(spec_skip_ws(s, d) == d);
        // the tail members stand at d + 1
        assert(s.subrange(d + 1, d + 1 + (sp1.len() + r1.len())) =~= sp1 + r1) by {
            assert forall|x: int| 0 <= x < sp1.len() + r1.len() implies s.subrange(
                d + 1,
                d + 1 + (sp1.len() + r1.len()),
            )[x] == (sp1 + r1)[x] by {
                assert(s.subrange(i, i + lw)[l0 + 1 + x] == s[i + (l0 + 1 + x)]);
                assert(w[l0 + 1 + x] == rest[1 + x]);
                assert(rest[1 + x] == (sp1 + r1)[x]);
            }
        }
        assert(s[d + 1 + (sp1.len() + r1.len())] == '}') by {
            assert(d + 1 + (sp1.len() + r1.len()) == i + lw);
        }
        lemma_parse_pairs_of_ser(s, d + 1, ps1, acc.push((k0, v0)));
        assert(acc.push((k0, v0)) + ps1 =~= acc + ps) by {
            assert(ps[0] == (k0, v0));
        }
    }
}

/// Parsing an object over the serialized form of `ps` yields exactly `ps`
/// and stops just after the closing brace: serializing a flat object and
/// parsing it back is the identity wherever it is embedded.
#[verifier::rlimit(100)]
pub proof fn lemma_parse_obj_of_ser(s: Seq<char>, i: int, ps: Seq<(Seq<char>, Seq<char>)>)
    requires
        0 <= i,
        i + spec_ser_obj(ps).len() <= s.len(),
        s.subrange(i, i + spec_ser_obj(ps).len()) == spec_ser_obj(ps),
    ensures
        spec_parse_obj(s, i) == Some((ps, i + spec_ser_obj(ps).len())),
{
    let so = spec_ser_obj(ps);
    let lo = so.len() as int;
    assert(s[i] == '{') by {
        assert(s.subrange(i, i + lo)[0] == s[i + 0]);
        assert(so[0] == '{');
    }
    assert(spec_skip_ws(s, i) == i);
    if ps.len() == 0 {
        assert(s[i + 1] == '}') by {
            assert(s.subrange(i, i + lo)[1] == s[i + 1]);
            assert(so[1] == '}');
        }
        assert(spec_skip_ws(s, i + 1) == i + 1);
        assert(spec_parse_obj(s, i) == Some((Seq::<(Seq<char>, Seq<char>)>::empty(), i + 2)));
        assert(ps =~= Seq::<(Seq<char>, Seq<char>)>::empty());
    } else {
        let sp0 = spec_ser_pair(ps[0]);
        let rest = spec_ser_pairs_rest(ps.drop_first());
        assert(so == seq!['{'] + sp0 + rest + seq!['}']);
        assert(s[i + 1] == '"') by {
            assert(s.subrange(i, i + lo)[1] == s[i + 1]);
            assert(so[1] == '"') by {
                assert(sp0[0] == '"');
            }
        }
        assert(spec_skip_ws(s, i + 1) == i + 1);
        assert(s.subrange(i + 1, i + 1 + (sp0.len() + rest.len())) =~= sp0 + rest) by {
            assert forall|x: int| 0 <= x < sp0.len() + rest.len() implies s.subrange(
                i + 1,
                i + 1 + (sp0.len() + rest.len()),
            )[x] == (sp0 + rest)[x] by {
                assert(s.subrange(i, i + lo)[1 + x] == s[i + (1 + x)]);
                assert(so[1 + x] == (sp0 + rest)[x]);
            }
        }
        assert(s[i + 1 + (sp0.len() + rest.len())] == '}') by {
            assert(s.subrange(i, i + lo)[lo - 1] == s[i + (lo - 1)]);
            assert(so[lo - 1] == '}');
        }
        lemma_parse_pairs_of_ser(s, i + 1, ps, Seq::empty());
        assert(Seq::<(Seq<char>, Seq<char>)>::empty() + ps =~= ps);
    }
}

} // verus!
