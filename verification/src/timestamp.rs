//! RFC 3339 timestamps as plain calendar fields, with verified parsing and
//! formatting. An envelope's `time` attribute travels as such a timestamp.

use vstd::prelude::*;

use crate::strutil::str_to_chars;
use crate::strutil::chars_to_string;

verus! {

/// A fixed-offset calendar timestamp, the value an RFC 3339 string names.
///
/// Equality is field-wise: two timestamps with different offsets naming the
/// same instant are distinct values, as they are distinct on the wire.
#[derive(PartialEq, Eq, Structural, Clone, Copy, Debug)]
pub struct Timestamp {
    pub year: u32,
    pub month: u32,
    pub day: u32,
    pub hour: u32,
    pub minute: u32,
    pub second: u32,
    /// Fraction of a second, in nanoseconds.
    pub nanos: u32,
    /// The UTC offset leans west (a `-` sign on the wire). A zero offset is
    /// always carried as positive, so `-00:00` normalizes to `+00:00`.
    pub offset_negative: bool,
    pub offset_hour: u32,
    pub offset_minute: u32,
}

pub open spec fn is_leap_year(y: int) -> bool {
    y % 4 == 0 && (y % 100 != 0 || y % 400 == 0)
}

pub open spec fn days_in_month(y: int, m: int) -> int {
    if m == 2 {
        if is_leap_year(y) {
            29
        } else {
            28
        }
    } else if m == 4 || m == 6 || m == 9 || m == 11 {
        30
    } else {
        31
    }
}

/// The fields name a real calendar date and time with a legal offset.
pub open spec fn ts_wf(t: Timestamp) -> bool {
    &&& t.year <= 9999
    &&& 1 <= t.month <= 12
    &&& 1 <= t.day <= days_in_month(t.year as int, t.month as int)
    &&& t.hour < 24
    &&& t.minute < 60
    &&& t.second < 60
    &&& t.nanos < 1000000000
    &&& t.offset_hour < 24
    &&& t.offset_minute < 60
    &&& t.offset_negative ==> t.offset_hour + t.offset_minute > 0
}

/// The numeric value of a decimal digit.
pub open spec fn dec_val(c: char) -> Option<u32> {
    let v = c as u32;
    if 48 <= v <= 57 {
        Some((v - 48) as u32)
    } else {
        None
    }
}

pub fn dec_val_exec(c: char) -> (r: Option<u32>)
    ensures
        r == dec_val(c),
{
    let v = c as u32;
    if 48 <= v && v <= 57 {
        Some(v - 48)
    } else {
        None
    }
}

/// The character a decimal digit value writes as.
pub open spec fn dec_digit(v: u32) -> char {
    if v == 0 {
        '0'
    } else if v == 1 {
        '1'
    } else if v == 2 {
        '2'
    } else if v == 3 {
        '3'
    } else if v == 4 {
        '4'
    } else if v == 5 {
        '5'
    } else if v == 6 {
        '6'
    } else if v == 7 {
        '7'
    } else if v == 8 {
        '8'
    } else {
        '9'
    }
}

pub fn dec_digit_exec(v: u32) -> (r: char)
    requires
        v < 10,
    ensures
        r == dec_digit(v),
{
    if v == 0 {
        '0'
    } else if v == 1 {
        '1'
    } else if v == 2 {
        '2'
    } else if v == 3 {
        '3'
    } else if v == 4 {
        '4'
    } else if v == 5 {
        '5'
    } else if v == 6 {
        '6'
    } else if v == 7 {
        '7'
    } else if v == 8 {
        '8'
    } else {
        '9'
    }
}

pub proof fn lemma_dec_digit_val(v: u32)
    requires
        v < 10,
    ensures
        dec_val(dec_digit(v)) == Some(v),
{
}

/// Two decimal digits at `i` read as a number, if both are digits.
pub open spec fn p2(s: Seq<char>, i: int) -> Option<u32> {
    if dec_val(s[i]) is Some && dec_val(s[i + 1]) is Some {
        Some((dec_val(s[i]).unwrap() * 10 + dec_val(s[i + 1]).unwrap()) as u32)
    } else {
        None
    }
}

/// Four decimal digits at `i` read as a number, if all four are digits.
pub open spec fn p4(s: Seq<char>, i: int) -> Option<u32> {
    if dec_val(s[i]) is Some && dec_val(s[i + 1]) is Some && dec_val(s[i + 2]) is Some && dec_val(
        s[i + 3],
    ) is Some {
        Some(
            (dec_val(s[i]).unwrap() * 1000 + dec_val(s[i + 1]).unwrap() * 100 + dec_val(
                s[i + 2],
            ).unwrap() * 10 + dec_val(s[i + 3]).unwrap()) as u32,
        )
    } else {
        None
    }
}

/// How many consecutive decimal digits stand at `i`.
pub open spec fn count_digits(s: Seq<char>, i: int) -> int
    decreases s.len() - i,
{
    if 0 <= i < s.len() && dec_val(s[i]) is Some {
        1 + count_digits(s, i + 1)
    } else {
        0
    }
}

/// The number the `k` digits at `i` write, most significant first.
pub open spec fn digits_value(s: Seq<char>, i: int, k: int) -> int
    decreases k,
{
    if k <= 0 {
        0
    } else {
        digits_value(s, i, k - 1) * 10 + dec_val(s[i + k - 1]).unwrap()
    }
}

pub open spec fn pow10(k: int) -> int
    decreases k,
{
    if k <= 0 {
        1
    } else {
        10 * pow10(k - 1)
    }
}

pub proof fn lemma_digits_value_bound(s: Seq<char>, i: int, k: int)
    requires
        k >= 0,
        forall|j: int| 0 <= j < k ==> dec_val(s[#[trigger] (i + j)]) is Some,
    ensures
        0 <= digits_value(s, i, k) < pow10(k),
    decreases k,
{
    if k > 0 {
        lemma_digits_value_bound(s, i, k - 1);
        assert(pow10(k) == 10 * pow10(k - 1));
        assert(dec_val(s[i + (k - 1)]) is Some);
        assert(dec_val(s[i + k - 1]).unwrap() < 10);
    }
}

/// Where `count_digits` says `k` digits stand, each of those positions is in
/// range and holds a digit, and the position after the run is not a digit.
pub proof fn lemma_count_digits_props(s: Seq<char>, i: int)
    requires
        0 <= i <= s.len(),
    ensures
        i + count_digits(s, i) <= s.len(),
        count_digits(s, i) >= 0,
        forall|j: int| 0 <= j < count_digits(s, i) ==> dec_val(s[#[trigger] (i + j)]) is Some,
        i + count_digits(s, i) < s.len() ==> dec_val(s[i + count_digits(s, i)]) is None,
    decreases s.len() - i,
{
    if i < s.len() && dec_val(s[i]) is Some {
        lemma_count_digits_props(s, i + 1);
        let k = count_digits(s, i);
        assert forall|j: int| 0 <= j < k implies dec_val(s[#[trigger] (i + j)]) is Some by {
            if j > 0 {
                assert(dec_val(s[(i + 1) + (j - 1)]) is Some);
            }
        }
    }
}

/// The two-digit rendering of a value under 100.
pub open spec fn dd(v: u32) -> Seq<char> {
    seq![dec_digit(v / 10), dec_digit(v % 10)]
}

/// The four-digit rendering of a value under 10000.
pub open spec fn d4(v: u32) -> Seq<char> {
    seq![
        dec_digit(v / 1000),
        dec_digit((v / 100) % 10),
        dec_digit((v / 10) % 10),
        dec_digit(v % 10),
    ]
}

/// The nine-digit rendering of a value under 1000000000.
pub open spec fn d9(v: u32) -> Seq<char> {
    seq![
        dec_digit(v / 100000000),
        dec_digit((v / 10000000) % 10),
        dec_digit((v / 1000000) % 10),
        dec_digit((v / 100000) % 10),
        dec_digit((v / 10000) % 10),
        dec_digit((v / 1000) % 10),
        dec_digit((v / 100) % 10),
        dec_digit((v / 10) % 10),
        dec_digit(v % 10),
    ]
}

/// The canonical RFC 3339 rendering of a timestamp: date, `T`, time, the
/// fraction only when it is non-zero (then at full nanosecond width), and a
/// signed numeric offset (never `Z`).
pub open spec fn spec_format_ts(t: Timestamp) -> Seq<char> {
    d4(t.year) + seq!['-'] + dd(t.month) + seq!['-'] + dd(t.day) + seq!['T'] + dd(t.hour)
        + seq![':'] + dd(t.minute) + seq![':'] + dd(t.second) + (if t.nanos == 0 {
        Seq::<char>::empty()
    } else {
        seq!['.'] + d9(t.nanos)
    }) + seq![if t.offset_negative { '-' } else { '+' }] + dd(t.offset_hour) + seq![':'] + dd(
        t.offset_minute,
    )
}

/// What an RFC 3339 string names, if it is well-formed: fixed-width date and
/// time fields, an optional fraction of one to nine digits, and `Z`, `z` or a
/// signed numeric offset, with nothing after it. Calendar validity is
/// enforced; a westward zero offset normalizes to the positive zero offset.
pub open spec fn spec_parse_ts(s: Seq<char>) -> Option<Timestamp> {
    if s.len() < 20 {
        None
    } else if !(p4(s, 0) is Some && s[4] == '-' && p2(s, 5) is Some && s[7] == '-' && p2(
        s,
        8,
    ) is Some && (s[10] == 'T' || s[10] == 't') && p2(s, 11) is Some && s[13] == ':' && p2(
        s,
        14,
    ) is Some && s[16] == ':' && p2(s, 17) is Some) {
        None
    } else {
        let year = p4(s, 0).unwrap();
        let month = p2(s, 5).unwrap();
        let day = p2(s, 8).unwrap();
        let hour = p2(s, 11).unwrap();
        let minute = p2(s, 14).unwrap();
        let second = p2(s, 17).unwrap();
        if !(1 <= month <= 12 && 1 <= day <= days_in_month(year as int, month as int) && hour < 24
            && minute < 60 && second < 60) {
            None
        } else {
            let frac = if s[19] == '.' {
                let k = count_digits(s, 20);
                if 1 <= k <= 9 {
                    Some((digits_value(s, 20, k) * pow10(9 - k), 20 + k))
                } else {
                    None
                }
            } else {
                Some((0, 19))
            };
            match frac {
                None => None,
                Some((nanos, i)) => spec_parse_offset(s, i, year, month, day, hour, minute, second, nanos),
            }
        }
    }
}

/// The offset tail of an RFC 3339 string, from index `i`, combined with the
/// fields already read.
pub open spec fn spec_parse_offset(
    s: Seq<char>,
    i: int,
    year: u32,
    month: u32,
    day: u32,
    hour: u32,
    minute: u32,
    second: u32,
    nanos: int,
) -> Option<Timestamp> {
    if i < s.len() && (s[i] == 'Z' || s[i] == 'z') && i + 1 == s.len() {
        Some(
            Timestamp {
                year,
                month,
                day,
                hour,
                minute,
                second,
                nanos: nanos as u32,
                offset_negative: false,
                offset_hour: 0,
                offset_minute: 0,
            },
        )
    } else if i < s.len() && (s[i] == '+' || s[i] == '-') && i + 6 == s.len() && p2(
        s,
        i + 1,
    ) is Some && s[i + 3] == ':' && p2(s, i + 4) is Some {
        let oh = p2(s, i + 1).unwrap();
        let om = p2(s, i + 4).unwrap();
        if oh < 24 && om < 60 {
            Some(
                Timestamp {
                    year,
                    month,
                    day,
                    hour,
                    minute,
                    second,
                    nanos: nanos as u32,
                    offset_negative: s[i] == '-' && oh + om > 0,
                    offset_hour: oh,
                    offset_minute: om,
                },
            )
        } else {
            None
        }
    } else {
        None
    }
}

/// A parsed timestamp is well-formed.
pub proof fn lemma_parse_ts_wf(s: Seq<char>)
    requires
        spec_parse_ts(s) is Some,
    ensures
        ts_wf(spec_parse_ts(s).unwrap()),
{
    let t = spec_parse_ts(s).unwrap();
    if s[19] == '.' {
        let k = count_digits(s, 20);
        lemma_count_digits_props(s, 20);
        lemma_digits_value_bound(s, 20, k);
        assert(digits_value(s, 20, k) * pow10(9 - k) < pow10(k) * pow10(9 - k)) by {
            lemma_pow10_pos(9 - k);
            vstd::arithmetic::mul::lemma_mul_strict_inequality(
                digits_value(s, 20, k),
                pow10(k),
                pow10(9 - k),
            );
        }
        lemma_pow10_mul(k, 9 - k);
        assert(digits_value(s, 20, k) * pow10(9 - k) >= 0) by {
            lemma_pow10_pos(9 - k);
            lemma_digits_value_bound(s, 20, k);
            vstd::arithmetic::mul::lemma_mul_nonnegative(digits_value(s, 20, k), pow10(9 - k));
        }
        assert(pow10(9) == 1000000000) by {
            reveal_with_fuel(pow10, 11);
        }
        assert(0 <= digits_value(s, 20, k) * pow10(9 - k) < 1000000000);
    }
}

pub fn p2_exec(v: &Vec<char>, i: usize) -> (r: Option<u32>)
    requires
        i + 2 <= v@.len(),
    ensures
        r == p2(v@, i as int),
{
    let n = v.len();
    let a = dec_val_exec(v[i]);
    let b = dec_val_exec(v[i + 1]);
    match (a, b) {
        (Some(x), Some(y)) => Some(x * 10 + y),
        _ => None,
    }
}

pub fn p4_exec(v: &Vec<char>, i: usize) -> (r: Option<u32>)
    requires
        i + 4 <= v@.len(),
    ensures
        r == p4(v@, i as int),
{
    let n = v.len();
    let a = dec_val_exec(v[i]);
    let b = dec_val_exec(v[i + 1]);
    let c = dec_val_exec(v[i + 2]);
    let d = dec_val_exec(v[i + 3]);
    match (a, b, c, d) {
        (Some(x), Some(y), Some(z), Some(w)) => Some(x * 1000 + y * 100 + z * 10 + w),
        _ => None,
    }
}

pub fn count_digits_exec(v: &Vec<char>, i: usize) -> (r: usize)
    requires
        i <= v@.len(),
    ensures
        r == count_digits(v@, i as int),
        i + r <= v@.len(),
    decreases v@.len() - i,
{
    if i < v.len() && dec_val_exec(v[i]).is_some() {
        1 + count_digits_exec(v, i + 1)
    } else {
        0
    }
}

pub fn pow10_exec(k: u32) -> (r: u32)
    requires
        k <= 9,
    ensures
        r == pow10(k as int),
{
    proof {
        reveal_with_fuel(pow10, 11);
    }
    if k == 0 {
        1
    } else if k == 1 {
        10
    } else if k == 2 {
        100
    } else if k == 3 {
        1000
    } else if k == 4 {
        10000
    } else if k == 5 {
        100000
    } else if k == 6 {
        1000000
    } else if k == 7 {
        10000000
    } else if k == 8 {
        100000000
    } else {
        1000000000
    }
}

pub fn digits_value_exec(v: &Vec<char>, i: usize, k: usize) -> (r: u32)
    requires
        i + k <= v@.len(),
        k <= 9,
        forall|j: int| 0 <= j < k ==> dec_val(v@[#[trigger] (i + j)]) is Some,
    ensures
        r == digits_value(v@, i as int, k as int),
{
    let mut acc: u32 = 0;
    let mut j: usize = 0;
    while j < k
        invariant
            j <= k,
            k <= 9,
            i + k <= v@.len(),
            forall|x: int| 0 <= x < k ==> dec_val(v@[#[trigger] (i + x)]) is Some,
            acc == digits_value(v@, i as int, j as int),
            acc < pow10(j as int),
        decreases k - j,
    {
        proof {
            assert(dec_val(v@[i + j]) is Some);
            lemma_pow10_pos(j as int);
            assert(pow10(j + 1 as int) == 10 * pow10(j as int));
            assert(pow10(9) == 1000000000) by {
                reveal_with_fuel(pow10, 11);
            }
            lemma_pow10_le(j + 1 as int, 9);
        }
        let n = v.len();
        let d = match dec_val_exec(v[i + j]) {
            Some(d) => d,
            None => 0,
        };
        acc = acc * 10 + d;
        j = j + 1;
    }
    acc
}

/// `pow10` grows with its argument.
pub proof fn lemma_pow10_le(a: int, b: int)
    requires
        a <= b,
    ensures
        pow10(a) <= pow10(b),
    decreases b - a,
{
    if a < b {
        lemma_pow10_le(a, b - 1);
        lemma_pow10_pos(b - 1);
    }
}

pub proof fn lemma_pow10_pos(k: int)
    ensures
        pow10(k) >= 1,
    decreases k,
{
    if k > 0 {
        lemma_pow10_pos(k - 1);
    }
}

pub proof fn lemma_pow10_mul(a: int, b: int)
    requires
        a >= 0,
        b >= 0,
    ensures
        pow10(a) * pow10(b) == pow10(a + b),
    decreases a,
{
    if a == 0 {
        assert(pow10(0) == 1);
    } else {
        lemma_pow10_mul(a - 1, b);
        assert(pow10(a) == 10 * pow10(a - 1));
        assert(pow10(a) * pow10(b) == 10 * (pow10(a - 1) * pow10(b))) by {
            vstd::arithmetic::mul::lemma_mul_is_associative(10, pow10(a - 1), pow10(b));
        }
        assert(pow10(a + b) == 10 * pow10(a + b - 1));
    }
}


/// Append the two-digit rendering of `v`.
pub fn push_dd(out: &mut Vec<char>, v: u32)
    requires
        v < 100,
    ensures
        final(out)@ == old(out)@ + dd(v),
{
    out.push(dec_digit_exec(v / 10));
    out.push(dec_digit_exec(v % 10));
    proof {
        assert(out@ =~= old(out)@ + dd(v));
    }
}

/// Append the four-digit rendering of `v`.
pub fn push_d4(out: &mut Vec<char>, v: u32)
    requires
        v < 10000,
    ensures
        final(out)@ == old(out)@ + d4(v),
{
    out.push(dec_digit_exec(v / 1000));
    out.push(dec_digit_exec((v / 100) % 10));
    out.push(dec_digit_exec((v / 10) % 10));
    out.push(dec_digit_exec(v % 10));
    proof {
        assert(out@ =~= old(out)@ + d4(v));
    }
}

/// Append the nine-digit rendering of `v`.
pub fn push_d9(out: &mut Vec<char>, v: u32)
    requires
        v < 1000000000,
    ensures
        final(out)@ == old(out)@ + d9(v),
{
    out.push(dec_digit_exec(v / 100000000));
    out.push(dec_digit_exec((v / 10000000) % 10));
    out.push(dec_digit_exec((v / 1000000) % 10));
    out.push(dec_digit_exec((v / 100000) % 10));
    out.push(dec_digit_exec((v / 10000) % 10));
    out.push(dec_digit_exec((v / 1000) % 10));
    out.push(dec_digit_exec((v / 100) % 10));
    out.push(dec_digit_exec((v / 10) % 10));
    out.push(dec_digit_exec(v % 10));
    proof {
        assert(out@ =~= old(out)@ + d9(v));
    }
}

/// Append one character, stated as a one-element sequence so the rendering
/// lines up with the specification's concatenation.
pub fn push_one(out: &mut Vec<char>, c: char)
    ensures
        final(out)@ == old(out)@ + seq![c],
{
    out.push(c);
    proof {
        assert(out@ =~= old(out)@ + seq![c]);
    }
}

/// Render a timestamp in its canonical RFC 3339 form.
pub fn format_ts(t: &Timestamp) -> (r: String)
    requires
        ts_wf(*t),
    ensures
        r@ == spec_format_ts(*t),
{
    let mut out: Vec<char> = Vec::new();
    push_d4(&mut out, t.year);
    push_one(&mut out, '-');
    push_dd(&mut out, t.month);
    push_one(&mut out, '-');
    push_dd(&mut out, t.day);
    push_one(&mut out, 'T');
    push_dd(&mut out, t.hour);
    push_one(&mut out, ':');
    push_dd(&mut out, t.minute);
    push_one(&mut out, ':');
    push_dd(&mut out, t.second);
    if t.nanos != 0 {
        push_one(&mut out, '.');
        push_d9(&mut out, t.nanos);
    }
    if t.offset_negative {
        push_one(&mut out, '-');
    } else {
        push_one(&mut out, '+');
    }
    push_dd(&mut out, t.offset_hour);
    push_one(&mut out, ':');
    push_dd(&mut out, t.offset_minute);
    proof {
        assert(out@ =~= spec_format_ts(*t));
    }
    chars_to_string(&out)
}

/// Parse an RFC 3339 timestamp; `None` on anything malformed, out of range,
/// or trailed by extra characters.
pub fn parse_rfc3339(s: &str) -> (r: Option<Timestamp>)
    ensures
        r == spec_parse_ts(s@),
        r is Some ==> ts_wf(r.unwrap()),
{
    proof {
        if spec_parse_ts(s@) is Some {
            lemma_parse_ts_wf(s@);
        }
    }
    let v = str_to_chars(s);
    let n = v.len();
    if n < 20 {
        return None;
    }
    let year_r = p4_exec(&v, 0);
    let month_r = p2_exec(&v, 5);
    let day_r = p2_exec(&v, 8);
    let hour_r = p2_exec(&v, 11);
    let minute_r = p2_exec(&v, 14);
    let second_r = p2_exec(&v, 17);
    if !(year_r.is_some() && v[4] == '-' && month_r.is_some() && v[7] == '-' && day_r.is_some() && (
    v[10] == 'T' || v[10] == 't') && hour_r.is_some() && v[13] == ':' && minute_r.is_some() && v[16]
        == ':' && second_r.is_some()) {
        return None;
    }
    let year = year_r.unwrap();
    let month = month_r.unwrap();
    let day = day_r.unwrap();
    let hour = hour_r.unwrap();
    let minute = minute_r.unwrap();
    let second = second_r.unwrap();
    let days = days_in_month_exec(year, month);
    if !(1 <= month && month <= 12 && 1 <= day && day <= days && hour < 24 && minute < 60 && second
        < 60) {
        return None;
    }
    let nanos: u32;
    let i: usize;
    if v[19] == '.' {
        let k = count_digits_exec(&v, 20);
        if !(1 <= k && k <= 9) {
            return None;
        }
        proof {
            lemma_count_digits_props(v@, 20);
            lemma_digits_value_bound(v@, 20, k as int);
            lemma_pow10_mul(k as int, 9 - k as int);
            lemma_pow10_pos(9 - k as int);
            vstd::arithmetic::mul::lemma_mul_strict_inequality(
                digits_value(v@, 20, k as int),
                pow10(k as int),
                pow10(9 - k as int),
            );
            vstd::arithmetic::mul::lemma_mul_nonnegative(
                digits_value(v@, 20, k as int),
                pow10(9 - k as int),
            );
            assert(pow10(9) == 1000000000) by {
                reveal_with_fuel(pow10, 11);
            }
        }
        let dv = digits_value_exec(&v, 20, k);
        let scale = pow10_exec(9 - k as u32);
        nanos = dv * scale;
        i = 20 + k;
    } else {
        nanos = 0;
        i = 19;
    }
    if i < n && (v[i] == 'Z' || v[i] == 'z') && i + 1 == n {
        return Some(
            Timestamp {
                year,
                month,
                day,
                hour,
                minute,
                second,
                nanos,
                offset_negative: false,
                offset_hour: 0,
                offset_minute: 0,
            },
        );
    }
    if i < n && (v[i] == '+' || v[i] == '-') && i + 6 == n {
        let oh_r = p2_exec(&v, i + 1);
        let om_r = p2_exec(&v, i + 4);
        if oh_r.is_some() && v[i + 3] == ':' && om_r.is_some() {
            let oh = oh_r.unwrap();
            let om = om_r.unwrap();
            if oh < 24 && om < 60 {
                return Some(
                    Timestamp {
                        year,
                        month,
                        day,
                        hour,
                        minute,
                        second,
                        nanos,
                        offset_negative: v[i] == '-' && oh + om > 0,
                        offset_hour: oh,
                        offset_minute: om,
                    },
                );
            } else {
                return None;
            }
        }
        return None;
    }
    return None;
}

pub fn days_in_month_exec(y: u32, m: u32) -> (r: u32)
    ensures
        r == days_in_month(y as int, m as int),
{
    if m == 2 {
        if y % 4 == 0 && (y % 100 != 0 || y % 400 == 0) {
            29
        } else {
            28
        }
    } else if m == 4 || m == 6 || m == 9 || m == 11 {
        30
    } else {
        31
    }
}


/// Formatting a well-formed timestamp and parsing the result yields the same
/// timestamp: the canonical rendering is faithful.
#[verifier::rlimit(100)]
#[verifier::spinoff_prover]
pub proof fn lemma_parse_format_ts(t: Timestamp)
    requires
        ts_wf(t),
    ensures
        spec_parse_ts(spec_format_ts(t)) == Some(t),
{
    broadcast use vstd::arithmetic::div_mod::lemma_fundamental_div_mod;

    let s = spec_format_ts(t);
    let fr: Seq<char> = if t.nanos == 0 {
        Seq::<char>::empty()
    } else {
        seq!['.'] + d9(t.nanos)
    };
    let sign: Seq<char> = seq![if t.offset_negative {
        '-'
    } else {
        '+'
    }];
    assert(s == d4(t.year) + seq!['-'] + dd(t.month) + seq!['-'] + dd(t.day) + seq!['T'] + dd(
        t.hour,
    ) + seq![':'] + dd(t.minute) + seq![':'] + dd(t.second) + fr + sign + dd(t.offset_hour)
        + seq![':'] + dd(t.offset_minute));
    let fl = fr.len() as int;
    assert(s.len() == 25 + fl);

    // the date and time digits read back as the fields they render
    lemma_dec_digit_val(t.year / 1000);
    lemma_dec_digit_val((t.year / 100) % 10);
    lemma_dec_digit_val((t.year / 10) % 10);
    lemma_dec_digit_val(t.year % 10);
    lemma_dec_digit_val(t.month / 10);
    lemma_dec_digit_val(t.month % 10);
    lemma_dec_digit_val(t.day / 10);
    lemma_dec_digit_val(t.day % 10);
    lemma_dec_digit_val(t.hour / 10);
    lemma_dec_digit_val(t.hour % 10);
    lemma_dec_digit_val(t.minute / 10);
    lemma_dec_digit_val(t.minute % 10);
    lemma_dec_digit_val(t.second / 10);
    lemma_dec_digit_val(t.second % 10);
    lemma_dec_digit_val(t.offset_hour / 10);
    lemma_dec_digit_val(t.offset_hour % 10);
    lemma_dec_digit_val(t.offset_minute / 10);
    lemma_dec_digit_val(t.offset_minute % 10);

    assert(p4(s, 0) == Some(t.year)) by {
        assert(s[0] == dec_digit(t.year / 1000));
        assert(s[1] == dec_digit((t.year / 100) % 10));
        assert(s[2] == dec_digit((t.year / 10) % 10));
        assert(s[3] == dec_digit(t.year % 10));
        vstd::arithmetic::div_mod::lemma_div_denominator(t.year as int, 100, 10);
        vstd::arithmetic::div_mod::lemma_div_denominator(t.year as int, 10, 10);
        assert((t.year / 1000) * 1000 + ((t.year / 100) % 10) * 100 + ((t.year / 10) % 10) * 10 + (
        t.year % 10) == t.year);
    }
    assert(s[4] == '-');
    assert(p2(s, 5) == Some(t.month)) by {
        assert(s[5] == dec_digit(t.month / 10));
        assert(s[6] == dec_digit(t.month % 10));
    }
    assert(s[7] == '-');
    assert(p2(s, 8) == Some(t.day)) by {
        assert(s[8] == dec_digit(t.day / 10));
        assert(s[9] == dec_digit(t.day % 10));
    }
    assert(s[10] == 'T');
    assert(p2(s, 11) == Some(t.hour)) by {
        assert(s[11] == dec_digit(t.hour / 10));
        assert(s[12] == dec_digit(t.hour % 10));
    }
    assert(s[13] == ':');
    assert(p2(s, 14) == Some(t.minute)) by {
        assert(s[14] == dec_digit(t.minute / 10));
        assert(s[15] == dec_digit(t.minute % 10));
    }
    assert(s[16] == ':');
    assert(p2(s, 17) == Some(t.second)) by {
        assert(s[17] == dec_digit(t.second / 10));
        assert(s[18] == dec_digit(t.second % 10));
    }

    let i = 19 + fl;
    if t.nanos != 0 {
        lemma_frac_digits_read_back(s, t.nanos);
    } else {
        assert(s[19] == sign[0]);
        assert(s[19] != '.');
    }

    // the offset tail reads back as the offset fields
    assert(s[i] == sign[0]);
    assert(p2(s, i + 1) == Some(t.offset_hour)) by {
        assert(s[i + 1] == dec_digit(t.offset_hour / 10));
        assert(s[i + 2] == dec_digit(t.offset_hour % 10));
    }
    assert(s[i + 3] == ':');
    assert(p2(s, i + 4) == Some(t.offset_minute)) by {
        assert(s[i + 4] == dec_digit(t.offset_minute / 10));
        assert(s[i + 5] == dec_digit(t.offset_minute % 10));
    }
    assert(s[i] != 'Z' && s[i] != 'z');
    assert((s[i] == '-' && t.offset_hour + t.offset_minute > 0) == t.offset_negative);
    assert(spec_parse_offset(
        s,
        i,
        t.year,
        t.month,
        t.day,
        t.hour,
        t.minute,
        t.second,
        t.nanos as int,
    ) == Some(t));
}

/// In the canonical rendering with a non-zero fraction, the nine fraction
/// digits stand alone after the dot and read back as the nanosecond count.
#[verifier::rlimit(100)]
#[verifier::spinoff_prover]
proof fn lemma_frac_digits_read_back(s: Seq<char>, n: u32)
    requires
        0 < n < 1000000000,
        s.len() >= 30,
        s[19] == '.',
        forall|j: int| 0 <= j < 9 ==> s[#[trigger] (20 + j)] == d9(n)[j],
        s.len() > 29 ==> dec_val(s[29]) is None,
    ensures
        count_digits(s, 20) == 9,
        digits_value(s, 20, 9) == n,
{
    broadcast use vstd::arithmetic::div_mod::lemma_fundamental_div_mod;

    lemma_dec_digit_val(n / 100000000);
    lemma_dec_digit_val((n / 10000000) % 10);
    lemma_dec_digit_val((n / 1000000) % 10);
    lemma_dec_digit_val((n / 100000) % 10);
    lemma_dec_digit_val((n / 10000) % 10);
    lemma_dec_digit_val((n / 1000) % 10);
    lemma_dec_digit_val((n / 100) % 10);
    lemma_dec_digit_val((n / 10) % 10);
    lemma_dec_digit_val(n % 10);
    assert(s[20 + 0int] == dec_digit(n / 100000000));
    assert(s[20 + 1int] == dec_digit((n / 10000000) % 10));
    assert(s[20 + 2int] == dec_digit((n / 1000000) % 10));
    assert(s[20 + 3int] == dec_digit((n / 100000) % 10));
    assert(s[20 + 4int] == dec_digit((n / 10000) % 10));
    assert(s[20 + 5int] == dec_digit((n / 1000) % 10));
    assert(s[20 + 6int] == dec_digit((n / 100) % 10));
    assert(s[20 + 7int] == dec_digit((n / 10) % 10));
    assert(s[20 + 8int] == dec_digit(n % 10));

    // exactly nine digits: the run stops at the sign that follows
    assert(count_digits(s, 29) == 0);
    assert(count_digits(s, 28) == 1);
    assert(count_digits(s, 27) == 2);
    assert(count_digits(s, 26) == 3);
    assert(count_digits(s, 25) == 4);
    assert(count_digits(s, 24) == 5);
    assert(count_digits(s, 23) == 6);
    assert(count_digits(s, 22) == 7);
    assert(count_digits(s, 21) == 8);
    assert(count_digits(s, 20) == 9);

    // the digits accumulate back to n, one order of magnitude at a time
    vstd::arithmetic::div_mod::lemma_div_denominator(n as int, 10000000, 10);
    vstd::arithmetic::div_mod::lemma_div_denominator(n as int, 1000000, 10);
    vstd::arithmetic::div_mod::lemma_div_denominator(n as int, 100000, 10);
    vstd::arithmetic::div_mod::lemma_div_denominator(n as int, 10000, 10);
    vstd::arithmetic::div_mod::lemma_div_denominator(n as int, 1000, 10);
    vstd::arithmetic::div_mod::lemma_div_denominator(n as int, 100, 10);
    vstd::arithmetic::div_mod::lemma_div_denominator(n as int, 10, 10);
    assert(digits_value(s, 20, 0) == 0);
    assert(digits_value(s, 20, 1) == n / 100000000);
    assert(digits_value(s, 20, 2) == n / 10000000);
    assert(digits_value(s, 20, 3) == n / 1000000);
    assert(digits_value(s, 20, 4) == n / 100000);
    assert(digits_value(s, 20, 5) == n / 10000);
    assert(digits_value(s, 20, 6) == n / 1000);
    assert(digits_value(s, 20, 7) == n / 100);
    assert(digits_value(s, 20, 8) == n / 10);
    assert(digits_value(s, 20, 9) == n);
}


impl Timestamp {
    /// Whether the fields name a real calendar date and time with a legal
    /// offset.
    pub fn is_wf(&self) -> (r: bool)
        ensures
            r == ts_wf(*self),
    {
        let days = days_in_month_exec(self.year, self.month);
        self.year <= 9999 && 1 <= self.month && self.month <= 12 && 1 <= self.day && self.day
            <= days && self.hour < 24 && self.minute < 60 && self.second < 60 && self.nanos
            < 1000000000 && self.offset_hour < 24 && self.offset_minute < 60 && (
        !self.offset_negative || self.offset_hour + self.offset_minute > 0)
    }
}

} // verus!
