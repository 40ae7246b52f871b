//! Org timestamps (`[2025-01-07 Tue]`, `<2025-01-07>`) shown as dates.
//!
//! The date parts are read at fixed byte offsets of the UTF-8 text, so the
//! contracts speak of `encode_utf8` of the cleaned date.
use vstd::prelude::*;
use vstd::utf8::{encode_utf8, decode_utf8, valid_utf8, is_continuation_byte};
use vstd::string::StringSliceAdditionalSpecFns;
use crate::chars::{is_ws, is_whitespace, trim, trim_bounds, trim_start, str_chars, push_str, string_of_all};

verus! {

broadcast use {
    vstd::string::group_string_axioms,
    vstd::utf8::encode_utf8_valid_utf8,
    vstd::utf8::encode_utf8_decode_utf8,
    vstd::utf8::is_char_boundary_iff_not_is_continuation_byte,
};

pub open spec fn is_open_bracket(c: char) -> bool {
    c == '[' || c == '<'
}

pub open spec fn is_close_bracket(c: char) -> bool {
    c == ']' || c == '>'
}

/// The text without its leading `[` and `<` characters.
pub open spec fn strip_open(s: Seq<char>) -> Seq<char>
    decreases s.len(),
{
    if s.len() > 0 && is_open_bracket(s[0]) {
        strip_open(s.drop_first())
    } else {
        s
    }
}

/// The text without its trailing `]` and `>` characters.
pub open spec fn strip_close(s: Seq<char>) -> Seq<char>
    decreases s.len(),
{
    if s.len() > 0 && is_close_bracket(s.last()) {
        strip_close(s.drop_last())
    } else {
        s
    }
}

/// The leading run of non-whitespace characters.
pub open spec fn take_word(s: Seq<char>) -> Seq<char>
    decreases s.len(),
{
    if s.len() == 0 || is_ws(s[0]) {
        Seq::empty()
    } else {
        seq![s[0]] + take_word(s.drop_first())
    }
}

/// The first whitespace-separated word (`split_whitespace().next()`).
pub open spec fn first_word(s: Seq<char>) -> Option<Seq<char>> {
    if trim_start(s).len() == 0 {
        None
    } else {
        Some(take_word(trim_start(s)))
    }
}

/// `clean_org_date`: trimmed, without brackets, first word only.
pub open spec fn clean_date(s: Seq<char>) -> Seq<char> {
    let c = strip_close(strip_open(trim(s)));
    match first_word(c) {
        Some(w) => w,
        None => c,
    }
}

proof fn lemma_take_word_run(s: Seq<char>, e: int)
    requires
        0 <= e <= s.len(),
        forall|j: int| 0 <= j < e ==> !is_ws(#[trigger] s[j]),
        e == s.len() || is_ws(s[e]),
    ensures
        take_word(s) == s.take(e),
    decreases s.len(),
{
    if s.len() == 0 || is_ws(s[0]) {
        assert(s.take(e) =~= Seq::<char>::empty());
    } else {
        lemma_take_word_run(s.drop_first(), e - 1);
        assert(s.take(e) =~= seq![s[0]] + s.drop_first().take(e - 1));
    }
}

/// Character bounds of the cleaned date inside `v`.
fn clean_bounds(v: &Vec<char>) -> (r: (usize, usize))
    ensures
        r.0 <= r.1 <= v@.len(),
        v@.subrange(r.0 as int, r.1 as int) == clean_date(v@),
{
    let n: usize = v.len();
    let (a0, b0) = trim_bounds(v, 0, n);
    proof {
        assert(v@.subrange(0, n as int) =~= v@);
    }
    let mut a: usize = a0;
    while a < b0 && (v[a] == '[' || v[a] == '<')
        invariant
            a0 <= a <= b0 <= v@.len(),
            strip_open(trim(v@)) == strip_open(v@.subrange(a as int, b0 as int)),
        decreases b0 - a,
    {
        assert(v@.subrange(a as int, b0 as int).drop_first() =~= v@.subrange(a + 1, b0 as int));
        a = a + 1;
    }
    let mut b: usize = b0;
    while b > a && (v[b - 1] == ']' || v[b - 1] == '>')
        invariant
            a <= b <= b0 <= v@.len(),
            strip_open(trim(v@)) == v@.subrange(a as int, b0 as int) || a < b0,
            strip_close(strip_open(trim(v@))) == strip_close(v@.subrange(a as int, b as int)),
        decreases b,
    {
        assert(v@.subrange(a as int, b as int).drop_last() =~= v@.subrange(a as int, b - 1));
        b = b - 1;
    }
    let ghost c = v@.subrange(a as int, b as int);
    assert(strip_close(strip_open(trim(v@))) == c) by {
        if !(a < b0) {
            assert(v@.subrange(a as int, b0 as int).len() == 0);
        }
    }
    // first word of c
    let mut k: usize = a;
    while k < b && is_whitespace(v[k])
        invariant
            a <= k <= b <= v@.len(),
            trim_start(c) == trim_start(v@.subrange(k as int, b as int)),
        decreases b - k,
    {
        assert(v@.subrange(k as int, b as int).drop_first() =~= v@.subrange(k + 1, b as int));
        k = k + 1;
    }
    proof {
        let t = v@.subrange(k as int, b as int);
        if t.len() > 0 {
            assert(!is_ws(t[0]));
        }
        assert(trim_start(t) == t);
    }
    if k == b {
        proof {
            assert(trim_start(c).len() == 0);
        }
        return (a, b);
    }
    let mut e: usize = k;
    while e < b && !is_whitespace(v[e])
        invariant
            k <= e <= b <= v@.len(),
            forall|j: int| k <= j < e ==> !is_ws(#[trigger] v@[j]),
        decreases b - e,
    {
        e = e + 1;
    }
    proof {
        let t = v@.subrange(k as int, b as int);
        lemma_take_word_run(t, e - k);
        assert(t.take(e - k) =~= v@.subrange(k as int, e as int));
    }
    (k, e)
}

/// The date part of an org timestamp: `[2025-01-07 Tue]` gives `2025-01-07`.
pub fn clean_org_date(date: &str) -> (r: &str)
    ensures
        r@ == clean_date(date@),
{
    let v = str_chars(date);
    let (a, b) = clean_bounds(&v);
    date.substring_char(a, b)
}

/// The date as `YYYY-MM-DD` (the cleaned timestamp).
pub fn format_date_iso(date: &str) -> (r: String)
    ensures
        r@ == clean_date(date@),
{
    clean_org_date(date).to_owned()
}

// ---------------------------------------------------------------------------
// Numbers and month names
// ---------------------------------------------------------------------------

pub open spec fn is_digit_byte(b: u8) -> bool {
    0x30 <= b <= 0x39
}

/// `str::parse::<u32>` of a two-byte text: two digits, or `+` and a digit.
pub open spec fn parse_two(b0: u8, b1: u8) -> Option<u32> {
    if is_digit_byte(b0) && is_digit_byte(b1) {
        Some(((b0 - 0x30) * 10 + (b1 - 0x30)) as u32)
    } else if b0 == 0x2B && is_digit_byte(b1) {
        Some((b1 - 0x30) as u32)
    } else {
        None
    }
}

fn parse_two_exec(b0: u8, b1: u8) -> (r: Option<u32>)
    ensures
        r == parse_two(b0, b1),
{
    if 0x30 <= b0 && b0 <= 0x39 && 0x30 <= b1 && b1 <= 0x39 {
        Some(((b0 - 0x30) as u32) * 10 + ((b1 - 0x30) as u32))
    } else if b0 == 0x2B && 0x30 <= b1 && b1 <= 0x39 {
        Some((b1 - 0x30) as u32)
    } else {
        None
    }
}

pub open spec fn digit_char(d: nat) -> char {
    (d + 48) as char
}

/// Decimal digits of a number (`Display` for integers).
pub open spec fn decimal(n: nat) -> Seq<char>
    decreases n,
{
    if n < 10 {
        seq![digit_char(n)]
    } else {
        decimal(n / 10).push(digit_char(n % 10))
    }
}

/// Appends the decimal digits of `n`.
pub fn push_decimal(out: &mut Vec<char>, n: u64)
    ensures
        final(out)@ == old(out)@ + decimal(n as nat),
    decreases n,
{
    if n < 10 {
        out.push(crate::chars::char_from_ascii((n + 48) as u32));
        proof {
            assert(out@ =~= old(out)@ + decimal(n as nat));
        }
    } else {
        push_decimal(out, n / 10);
        out.push(crate::chars::char_from_ascii((n % 10 + 48) as u32));
        proof {
            assert(out@ =~= old(out)@ + decimal(n as nat));
        }
    }
}

pub open spec fn month_long(m: u32) -> Option<Seq<char>> {
    if m == 1 {
        Some("January"@)
    } else if m == 2 {
        Some("February"@)
    } else if m == 3 {
        Some("March"@)
    } else if m == 4 {
        Some("April"@)
    } else if m == 5 {
        Some("May"@)
    } else if m == 6 {
        Some("June"@)
    } else if m == 7 {
        Some("July"@)
    } else if m == 8 {
        Some("August"@)
    } else if m == 9 {
        Some("September"@)
    } else if m == 10 {
        Some("October"@)
    } else if m == 11 {
        Some("November"@)
    } else if m == 12 {
        Some("December"@)
    } else {
        None
    }
}

pub open spec fn month_short(m: u32) -> Option<Seq<char>> {
    if m == 1 {
        Some("Jan"@)
    } else if m == 2 {
        Some("Feb"@)
    } else if m == 3 {
        Some("Mar"@)
    } else if m == 4 {
        Some("Apr"@)
    } else if m == 5 {
        Some("May"@)
    } else if m == 6 {
        Some("Jun"@)
    } else if m == 7 {
        Some("Jul"@)
    } else if m == 8 {
        Some("Aug"@)
    } else if m == 9 {
        Some("Sep"@)
    } else if m == 10 {
        Some("Oct"@)
    } else if m == 11 {
        Some("Nov"@)
    } else if m == 12 {
        Some("Dec"@)
    } else {
        None
    }
}

fn month_long_exec(m: u32) -> (r: Option<&'static str>)
    ensures
        r matches Some(s) ==> month_long(m) == Some(s@),
        r is None ==> month_long(m) is None,
{
    if m == 1 {
        Some("January")
    } else if m == 2 {
        Some("February")
    } else if m == 3 {
        Some("March")
    } else if m == 4 {
        Some("April")
    } else if m == 5 {
        Some("May")
    } else if m == 6 {
        Some("June")
    } else if m == 7 {
        Some("July")
    } else if m == 8 {
        Some("August")
    } else if m == 9 {
        Some("September")
    } else if m == 10 {
        Some("October")
    } else if m == 11 {
        Some("November")
    } else if m == 12 {
        Some("December")
    } else {
        None
    }
}

fn month_short_exec(m: u32) -> (r: Option<&'static str>)
    ensures
        r matches Some(s) ==> month_short(m) == Some(s@),
        r is None ==> month_short(m) is None,
{
    if m == 1 {
        Some("Jan")
    } else if m == 2 {
        Some("Feb")
    } else if m == 3 {
        Some("Mar")
    } else if m == 4 {
        Some("Apr")
    } else if m == 5 {
        Some("May")
    } else if m == 6 {
        Some("Jun")
    } else if m == 7 {
        Some("Jul")
    } else if m == 8 {
        Some("Aug")
    } else if m == 9 {
        Some("Sep")
    } else if m == 10 {
        Some("Oct")
    } else if m == 11 {
        Some("Nov")
    } else if m == 12 {
        Some("Dec")
    } else {
        None
    }
}

// ---------------------------------------------------------------------------
// Human, month and year formats
// ---------------------------------------------------------------------------

/// The cleaned date begins `????-` (byte 4 is a hyphen) and is at least
/// `len` bytes long.
pub open spec fn dashed(b: Seq<u8>, len: int) -> bool {
    b.len() >= len && b[4] == 0x2D
}

/// Inputs on which `format_date_human` does not panic: it cuts the cleaned
/// date at bytes 5, 7, 8 and 10.
pub open spec fn human_safe(date: Seq<char>) -> bool {
    let b = encode_utf8(clean_date(date));
    dashed(b, 10) ==> vstd::utf8::is_char_boundary(b, 7) && vstd::utf8::is_char_boundary(b, 8)
        && vstd::utf8::is_char_boundary(b, 10)
}

/// What `format_date_human` writes: `January 7, 2025`, or the input as it
/// was when the cleaned date is not `YYYY-MM-DD...` with a valid month.
pub open spec fn human_spec(date: Seq<char>) -> Seq<char> {
    let b = encode_utf8(clean_date(date));
    if dashed(b, 10) {
        match (parse_two(b[5], b[6]), parse_two(b[8], b[9])) {
            (Some(m), Some(day)) => match month_long(m) {
                Some(name) => name + seq![' '] + decimal(day as nat) + seq![',', ' '] + decode_utf8(
                    b.take(4),
                ),
                None => date,
            },
            _ => date,
        }
    } else {
        date
    }
}

/// Inputs on which `format_date_month` does not panic: it cuts the cleaned
/// date at bytes 5 and 7.
pub open spec fn month_safe(date: Seq<char>) -> bool {
    let b = encode_utf8(clean_date(date));
    dashed(b, 7) ==> vstd::utf8::is_char_boundary(b, 7)
}

/// What `format_date_month` writes: `Jan 2025`, or the input as it was.
pub open spec fn month_spec(date: Seq<char>) -> Seq<char> {
    let b = encode_utf8(clean_date(date));
    if dashed(b, 7) {
        match parse_two(b[5], b[6]) {
            Some(m) => match month_short(m) {
                Some(name) => name + seq![' '] + decode_utf8(b.take(4)),
                None => date,
            },
            None => date,
        }
    } else {
        date
    }
}

/// What `extract_year` gives: the first four bytes of the cleaned date when
/// they end on a character boundary, else the whole cleaned date.
pub open spec fn year_spec(date: Seq<char>) -> Seq<char> {
    let b = encode_utf8(clean_date(date));
    if b.len() >= 4 && vstd::utf8::is_char_boundary(b, 4) {
        decode_utf8(b.take(4))
    } else {
        clean_date(date)
    }
}

/// The text of the first four bytes of `d`, when byte 4 starts a character.
fn year_prefix(d: &str) -> (r: &str)
    requires
        d.spec_bytes().len() >= 4,
        vstd::utf8::is_char_boundary(d.spec_bytes(), 4),
    ensures
        r@ == decode_utf8(d.spec_bytes().take(4)),
{
    let (y, _rest) = d.split_at(4);
    proof {
        assert(y.spec_bytes() =~= d.spec_bytes().take(4));
        assert(decode_utf8(encode_utf8(y@)) == y@);
    }
    y
}

proof fn lemma_hyphen_boundary(b: Seq<u8>)
    requires
        valid_utf8(b),
        b.len() > 5,
        b[4] == 0x2D,
    ensures
        vstd::utf8::is_char_boundary(b, 4),
{
    assert(!is_continuation_byte(b[4]));
}

/// `January 7, 2025` for a timestamp whose date is `2025-01-07`.
pub fn format_date_human(date: &str) -> (r: String)
    requires
        human_safe(date@),
    ensures
        r@ == human_spec(date@),
{
    let d = clean_org_date(date);
    let bytes = d.as_bytes();
    if bytes.len() >= 10 && bytes[4] == 0x2D {
        let month = parse_two_exec(bytes[5], bytes[6]);
        let day = parse_two_exec(bytes[8], bytes[9]);
        match (month, day) {
            (Some(m), Some(dd)) => {
                match month_long_exec(m) {
                    Some(name) => {
                        proof {
                            lemma_hyphen_boundary(d.spec_bytes());
                        }
                        let year = year_prefix(d);
                        let mut out: Vec<char> = Vec::new();
                        push_str(&mut out, name);
                        out.push(' ');
                        push_decimal(&mut out, dd as u64);
                        out.push(',');
                        out.push(' ');
                        push_str(&mut out, year);
                        proof {
                            assert(out@ =~= human_spec(date@));
                        }
                        return string_of_all(&out);
                    },
                    None => {
                        return date.to_owned();
                    },
                }
            },
            _ => {
                return date.to_owned();
            },
        }
    }
    date.to_owned()
}

/// `Jan 2025` for a timestamp whose date is `2025-01-07`.
pub fn format_date_month(date: &str) -> (r: String)
    requires
        month_safe(date@),
    ensures
        r@ == month_spec(date@),
{
    let d = clean_org_date(date);
    let bytes = d.as_bytes();
    if bytes.len() >= 7 && bytes[4] == 0x2D {
        match parse_two_exec(bytes[5], bytes[6]) {
            Some(m) => {
                match month_short_exec(m) {
                    Some(name) => {
                        proof {
                            lemma_hyphen_boundary(d.spec_bytes());
                        }
                        let year = year_prefix(d);
                        let mut out: Vec<char> = Vec::new();
                        push_str(&mut out, name);
                        out.push(' ');
                        push_str(&mut out, year);
                        proof {
                            assert(out@ =~= month_spec(date@));
                        }
                        return string_of_all(&out);
                    },
                    None => {
                        return date.to_owned();
                    },
                }
            },
            None => {
                return date.to_owned();
            },
        }
    }
    date.to_owned()
}

/// The year of a timestamp: the first four bytes of its date.
pub fn extract_year(date: &str) -> (r: String)
    ensures
        r@ == year_spec(date@),
{
    let d = clean_org_date(date);
    let bytes = d.as_bytes();
    if bytes.len() >= 4 && d.is_char_boundary(4) {
        year_prefix(d).to_owned()
    } else {
        d.to_owned()
    }
}

} // verus!
