//! Character-level text primitives.
//!
//! Text is modelled as `Seq<char>`, the view Verus gives to `str` and
//! `String`. Each primitive here has a spec function stating what it is and
//! an executable function proved to compute it.
use vstd::prelude::*;

verus! {

broadcast use vstd::string::group_string_axioms;

// ---------------------------------------------------------------------------
// Character classes
// ---------------------------------------------------------------------------

/// Unicode `White_Space` (the property `char::is_whitespace` tests).
pub open spec fn is_ws(c: char) -> bool {
    ||| c == '\t'
    ||| c == '\n'
    ||| c == '\u{0B}'
    ||| c == '\u{0C}'
    ||| c == '\r'
    ||| c == ' '
    ||| c == '\u{85}'
    ||| c == '\u{A0}'
    ||| c == '\u{1680}'
    ||| ('\u{2000}' <= c && c <= '\u{200A}')
    ||| c == '\u{2028}'
    ||| c == '\u{2029}'
    ||| c == '\u{202F}'
    ||| c == '\u{205F}'
    ||| c == '\u{3000}'
}

pub fn is_whitespace(c: char) -> (b: bool)
    ensures
        b == is_ws(c),
{
    c == '\t' || c == '\n' || c == '\u{0B}' || c == '\u{0C}' || c == '\r' || c == ' ' || c
        == '\u{85}' || c == '\u{A0}' || c == '\u{1680}' || ('\u{2000}' <= c && c <= '\u{200A}')
        || c == '\u{2028}' || c == '\u{2029}' || c == '\u{202F}' || c == '\u{205F}' || c
        == '\u{3000}'
}

pub open spec fn is_digit(c: char) -> bool {
    '0' <= c && c <= '9'
}

pub open spec fn is_upper(c: char) -> bool {
    'A' <= c && c <= 'Z'
}

pub open spec fn is_lower(c: char) -> bool {
    'a' <= c && c <= 'z'
}

/// ASCII upper-casing of one character (`char::to_ascii_uppercase`).
pub open spec fn ascii_upper(c: char) -> char {
    if is_lower(c) {
        ((c as u32) - 32) as char
    } else {
        c
    }
}

/// ASCII lower-casing of one character (`char::to_ascii_lowercase`).
pub open spec fn ascii_lower(c: char) -> char {
    if is_upper(c) {
        ((c as u32) + 32) as char
    } else {
        c
    }
}

pub fn to_ascii_upper(c: char) -> (r: char)
    ensures
        r == ascii_upper(c),
{
    if 'a' <= c && c <= 'z' {
        let u: u32 = (c as u32) - 32;
        proof {
            assert(0x41 <= u <= 0x5A);
        }
        char_from_ascii(u)
    } else {
        c
    }
}

pub fn to_ascii_lower(c: char) -> (r: char)
    ensures
        r == ascii_lower(c),
{
    if 'A' <= c && c <= 'Z' {
        let u: u32 = (c as u32) + 32;
        char_from_ascii(u)
    } else {
        c
    }
}

/// The character with an ASCII code.
pub fn char_from_ascii(u: u32) -> (c: char)
    requires
        u < 128,
    ensures
        c == u as char,
        c as u32 == u,
{
    let b: u8 = u as u8;
    b as char
}

/// Two strings equal up to ASCII case (`str::eq_ignore_ascii_case`).
pub open spec fn eq_ignore_case(a: Seq<char>, b: Seq<char>) -> bool {
    a.len() == b.len() && forall|i: int| 0 <= i < a.len() ==> ascii_lower(a[i]) == ascii_lower(b[i])
}

pub open spec fn upper_all(s: Seq<char>) -> Seq<char> {
    s.map_values(|c: char| ascii_upper(c))
}

// ---------------------------------------------------------------------------
// UTF-8 length
// ---------------------------------------------------------------------------

/// Number of bytes of the UTF-8 encoding of one character (`char::len_utf8`).
pub open spec fn utf8_width(c: char) -> nat {
    if (c as u32) < 0x80 {
        1
    } else if (c as u32) < 0x800 {
        2
    } else if (c as u32) < 0x10000 {
        3
    } else {
        4
    }
}

/// Number of bytes of the UTF-8 encoding of a text (`str::len`).
pub open spec fn byte_len(s: Seq<char>) -> nat
    decreases s.len(),
{
    if s.len() == 0 {
        0
    } else {
        byte_len(s.drop_last()) + utf8_width(s.last())
    }
}

pub proof fn lemma_byte_len_push(s: Seq<char>, c: char)
    ensures
        byte_len(s.push(c)) == byte_len(s) + utf8_width(c),
{
    assert(s.push(c).drop_last() =~= s);
}

pub proof fn lemma_byte_len_ge_len(s: Seq<char>)
    ensures
        byte_len(s) >= s.len(),
    decreases s.len(),
{
    if s.len() > 0 {
        lemma_byte_len_ge_len(s.drop_last());
    }
}

pub proof fn lemma_byte_len_mono(s: Seq<char>, n: int)
    requires
        0 <= n <= s.len(),
    ensures
        byte_len(s.take(n)) <= byte_len(s),
    decreases s.len() - n,
{
    if n < s.len() {
        lemma_byte_len_mono(s, n + 1);
        assert(s.take(n + 1).drop_last() =~= s.take(n));
    } else {
        assert(s.take(n) =~= s);
    }
}

pub proof fn lemma_byte_len_ascii(s: Seq<char>)
    requires
        forall|i: int| 0 <= i < s.len() ==> (s[i] as u32) < 0x80,
    ensures
        byte_len(s) == s.len(),
    decreases s.len(),
{
    if s.len() > 0 {
        lemma_byte_len_ascii(s.drop_last());
    }
}

/// Byte offset `b` of the UTF-8 encoding of `s` falls between two characters
/// (`str::is_char_boundary`).
pub open spec fn is_char_boundary(s: Seq<char>, b: int) -> bool {
    exists|k: int| 0 <= k <= s.len() && byte_len(s.take(k)) == b
}

pub proof fn lemma_byte_len_strict(s: Seq<char>, m: int, n: int)
    requires
        0 <= m < n <= s.len(),
    ensures
        byte_len(s.take(m)) < byte_len(s.take(n)),
    decreases n - m,
{
    assert(s.take(n).drop_last() =~= s.take(n - 1));
    if m < n - 1 {
        lemma_byte_len_strict(s, m, n - 1);
    }
}

/// The character index at byte offset `b`, if `b` is a character boundary.
pub fn char_index_at_byte(v: &Vec<char>, b: usize) -> (r: Option<usize>)
    ensures
        r matches Some(k) ==> k <= v@.len() && byte_len(v@.take(k as int)) == b,
        r is None ==> !is_char_boundary(v@, b as int),
{
    let mut k: usize = 0;
    let mut acc: usize = 0;
    while k < v.len() && acc < b
        invariant
            k <= v.len(),
            acc == byte_len(v@.take(k as int)),
            acc <= b,
            forall|j: int| 0 <= j < k ==> byte_len(#[trigger] v@.take(j)) < b,
        decreases v.len() - k,
    {
        let w = char_width(v[k]);
        proof {
            assert(v@.take(k + 1).drop_last() =~= v@.take(k as int));
        }
        if w > b - acc {
            proof {
                assert forall|j: int| 0 <= j <= v@.len() implies byte_len(#[trigger] v@.take(j))
                    != b by {
                    if j > k + 1 {
                        lemma_byte_len_strict(v@, k + 1, j);
                    } else if j == k + 1 {
                    } else if j < k {
                    }
                }
            }
            return None;
        }
        acc = acc + w;
        k = k + 1;
    }
    if acc == b {
        Some(k)
    } else {
        proof {
            assert(k == v.len());
            assert forall|j: int| 0 <= j <= v@.len() implies byte_len(#[trigger] v@.take(j))
                != b by {
                if j < k {
                }
            }
        }
        None
    }
}

/// `char_index_at_byte` for an offset held in a `u128`.
pub fn char_index_at_wide_byte(v: &Vec<char>, b: u128) -> (r: Option<usize>)
    ensures
        r matches Some(k) ==> k <= v@.len() && byte_len(v@.take(k as int)) == b,
        r is None ==> !is_char_boundary(v@, b as int),
{
    let mut k: usize = 0;
    let mut acc: u128 = 0;
    while k < v.len() && acc < b
        invariant
            k <= v.len(),
            acc == byte_len(v@.take(k as int)),
            acc <= b,
            forall|j: int| 0 <= j < k ==> byte_len(#[trigger] v@.take(j)) < b,
        decreases v.len() - k,
    {
        let w = char_width(v[k]) as u128;
        proof {
            assert(v@.take(k + 1).drop_last() =~= v@.take(k as int));
        }
        if w > b - acc {
            proof {
                assert forall|j: int| 0 <= j <= v@.len() implies byte_len(#[trigger] v@.take(j))
                    != b by {
                    if j > k + 1 {
                        lemma_byte_len_strict(v@, k + 1, j);
                    } else if j == k + 1 {
                    } else if j < k {
                    }
                }
            }
            return None;
        }
        acc = acc + w;
        k = k + 1;
    }
    if acc == b {
        Some(k)
    } else {
        proof {
            assert(k == v.len());
            assert forall|j: int| 0 <= j <= v@.len() implies byte_len(#[trigger] v@.take(j))
                != b by {
                if j < k {
                }
            }
        }
        None
    }
}

/// The character index at which byte offset `b` falls, when it is a boundary.
pub open spec fn char_index_of_byte(s: Seq<char>, b: int) -> int {
    choose|k: int| 0 <= k <= s.len() && byte_len(s.take(k)) == b
}

pub proof fn lemma_char_index_of_byte(s: Seq<char>, b: int, k: int)
    requires
        0 <= k <= s.len(),
        byte_len(s.take(k)) == b,
    ensures
        char_index_of_byte(s, b) == k,
{
    let c = char_index_of_byte(s, b);
    assert(0 <= c <= s.len() && byte_len(s.take(c)) == b);
    if c < k {
        lemma_byte_len_strict(s, c, k);
    } else if k < c {
        lemma_byte_len_strict(s, k, c);
    }
}

/// The view of an optional string.
pub open spec fn opt_view(o: Option<String>) -> Option<Seq<char>> {
    match o {
        Some(s) => Some(s@),
        None => None,
    }
}

pub fn char_width(c: char) -> (w: usize)
    ensures
        w == utf8_width(c),
{
    let u: u32 = c as u32;
    if u < 0x80 {
        1
    } else if u < 0x800 {
        2
    } else if u < 0x10000 {
        3
    } else {
        4
    }
}

// ---------------------------------------------------------------------------
// Trimming
// ---------------------------------------------------------------------------

/// `str::trim_start`: the text without its leading whitespace.
pub open spec fn trim_start(s: Seq<char>) -> Seq<char>
    decreases s.len(),
{
    if s.len() > 0 && is_ws(s[0]) {
        trim_start(s.drop_first())
    } else {
        s
    }
}

/// `str::trim_end`: the text without its trailing whitespace.
pub open spec fn trim_end(s: Seq<char>) -> Seq<char>
    decreases s.len(),
{
    if s.len() > 0 && is_ws(s.last()) {
        trim_end(s.drop_last())
    } else {
        s
    }
}

/// `str::trim`.
pub open spec fn trim(s: Seq<char>) -> Seq<char> {
    trim_end(trim_start(s))
}

/// Index of the first character of `s[from..]` that is not whitespace.
pub fn skip_ws_from(v: &Vec<char>, from: usize) -> (k: usize)
    requires
        from <= v.len(),
    ensures
        from <= k <= v.len(),
        trim_start(v@.skip(from as int)) == v@.skip(k as int),
        forall|j: int| from <= j < k ==> is_ws(#[trigger] v@[j]),
{
    let mut k: usize = from;
    while k < v.len() && is_whitespace(v[k])
        invariant
            from <= k <= v.len(),
            trim_start(v@.skip(from as int)) == trim_start(v@.skip(k as int)),
            forall|j: int| from <= j < k ==> is_ws(#[trigger] v@[j]),
        decreases v.len() - k,
    {
        assert(v@.skip(k as int).drop_first() =~= v@.skip(k + 1));
        k = k + 1;
    }
    k
}

/// Index just after the last non-whitespace character of `s[from..to]`.
pub fn trim_end_bound(v: &Vec<char>, from: usize, to: usize) -> (k: usize)
    requires
        from <= to <= v.len(),
    ensures
        from <= k <= to,
        trim_end(v@.subrange(from as int, to as int)) == v@.subrange(from as int, k as int),
        forall|j: int| k <= j < to ==> is_ws(#[trigger] v@[j]),
{
    let mut k: usize = to;
    while k > from && is_whitespace(v[k - 1])
        invariant
            from <= k <= to,
            to <= v.len(),
            trim_end(v@.subrange(from as int, to as int)) == trim_end(
                v@.subrange(from as int, k as int),
            ),
            forall|j: int| k <= j < to ==> is_ws(#[trigger] v@[j]),
        decreases k,
    {
        assert(v@.subrange(from as int, k as int).drop_last() =~= v@.subrange(
            from as int,
            k - 1,
        ));
        k = k - 1;
    }
    k
}

pub proof fn lemma_trim_start_skip(s: Seq<char>, a: int)
    requires
        0 <= a <= s.len(),
        forall|j: int| 0 <= j < a ==> is_ws(#[trigger] s[j]),
    ensures
        trim_start(s) == trim_start(s.skip(a)),
    decreases a,
{
    if a > 0 {
        assert(s.drop_first().skip(a - 1) =~= s.skip(a));
        lemma_trim_start_skip(s.drop_first(), a - 1);
    } else {
        assert(s.skip(0) =~= s);
    }
}

/// Bounds of the trimmed part of `s[from..to]`.
pub fn trim_bounds(v: &Vec<char>, from: usize, to: usize) -> (r: (usize, usize))
    requires
        from <= to <= v.len(),
    ensures
        from <= r.0 <= r.1 <= to,
        trim(v@.subrange(from as int, to as int)) == v@.subrange(r.0 as int, r.1 as int),
        trim_start(v@.subrange(from as int, to as int)) == v@.subrange(r.0 as int, to as int),
{
    let mut a: usize = from;
    while a < to && is_whitespace(v[a])
        invariant
            from <= a <= to <= v.len(),
            trim_start(v@.subrange(from as int, to as int)) == trim_start(
                v@.subrange(a as int, to as int),
            ),
        decreases to - a,
    {
        assert(v@.subrange(a as int, to as int).drop_first() =~= v@.subrange(a + 1, to as int));
        a = a + 1;
    }
    let b: usize = trim_end_bound(v, a, to);
    (a, b)
}

// ---------------------------------------------------------------------------
// Substrings
// ---------------------------------------------------------------------------

/// `p` occurs in `s` at index `i`.
pub open spec fn matches_at(s: Seq<char>, p: Seq<char>, i: int) -> bool {
    0 <= i && i + p.len() <= s.len() && s.subrange(i, i + p.len()) == p
}

/// `str::starts_with`.
pub open spec fn starts_with(s: Seq<char>, p: Seq<char>) -> bool {
    matches_at(s, p, 0)
}

/// `str::ends_with`.
pub open spec fn ends_with(s: Seq<char>, p: Seq<char>) -> bool {
    p.len() <= s.len() && matches_at(s, p, s.len() - p.len())
}

/// First index at or after `i` where `p` occurs.
pub open spec fn find_from(s: Seq<char>, p: Seq<char>, i: int) -> Option<int>
    decreases s.len() + 1 - i,
{
    if i < 0 || i + p.len() > s.len() {
        None
    } else if matches_at(s, p, i) {
        Some(i)
    } else {
        find_from(s, p, i + 1)
    }
}

/// `str::find` (as a character index).
pub open spec fn find(s: Seq<char>, p: Seq<char>) -> Option<int> {
    find_from(s, p, 0)
}

/// Last index at or before `i` where `p` occurs.
pub open spec fn rfind_upto(s: Seq<char>, p: Seq<char>, i: int) -> Option<int>
    decreases i + 1,
{
    if i < 0 {
        None
    } else if matches_at(s, p, i) {
        Some(i)
    } else {
        rfind_upto(s, p, i - 1)
    }
}

/// `str::rfind` (as a character index).
pub open spec fn rfind(s: Seq<char>, p: Seq<char>) -> Option<int> {
    rfind_upto(s, p, s.len() - p.len())
}

/// `str::contains`.
pub open spec fn contains(s: Seq<char>, p: Seq<char>) -> bool {
    find(s, p) is Some
}

pub proof fn lemma_find_from_spec(s: Seq<char>, p: Seq<char>, i: int)
    requires
        0 <= i,
    ensures
        find_from(s, p, i) matches Some(k) ==> i <= k && matches_at(s, p, k) && forall|j: int|
            i <= j < k ==> !matches_at(s, p, j),
        find_from(s, p, i) is None ==> forall|j: int| i <= j ==> !matches_at(s, p, j),
    decreases s.len() + 1 - i,
{
    if i + p.len() <= s.len() && !matches_at(s, p, i) {
        lemma_find_from_spec(s, p, i + 1);
    }
}

/// Copies `v[a..b]`.
pub fn copy_range(v: &Vec<char>, a: usize, b: usize) -> (r: Vec<char>)
    requires
        a <= b <= v.len(),
    ensures
        r@ == v@.subrange(a as int, b as int),
{
    let mut r: Vec<char> = Vec::new();
    let mut i: usize = a;
    while i < b
        invariant
            a <= i <= b <= v.len(),
            r@ == v@.subrange(a as int, i as int),
        decreases b - i,
    {
        r.push(v[i]);
        assert(r@ =~= v@.subrange(a as int, i + 1));
        i = i + 1;
    }
    r
}

/// Copies all of `v`.
pub fn copy_all(v: &Vec<char>) -> (r: Vec<char>)
    ensures
        r@ == v@,
{
    let r = copy_range(v, 0, v.len());
    assert(v@.subrange(0, v@.len() as int) =~= v@);
    r
}

/// A `String` holding `v[a..b]`.
pub fn string_of(v: &Vec<char>, a: usize, b: usize) -> (r: String)
    requires
        a <= b <= v.len(),
    ensures
        r@ == v@.subrange(a as int, b as int),
{
    let mut r = String::new();
    let mut i: usize = a;
    while i < b
        invariant
            a <= i <= b <= v.len(),
            r@ == v@.subrange(a as int, i as int),
        decreases b - i,
    {
        push_char(&mut r, v[i]);
        assert(r@ =~= v@.subrange(a as int, i + 1));
        i = i + 1;
    }
    r
}

/// A `String` holding all of `v`.
pub fn string_of_all(v: &Vec<char>) -> (r: String)
    ensures
        r@ == v@,
{
    let r = string_of(v, 0, v.len());
    assert(v@.subrange(0, v@.len() as int) =~= v@);
    r
}

/// Appends `v[a..b]` to `out`.
pub fn push_range(out: &mut Vec<char>, v: &Vec<char>, a: usize, b: usize)
    requires
        a <= b <= v.len(),
    ensures
        final(out)@ == old(out)@ + v@.subrange(a as int, b as int),
{
    let mut i: usize = a;
    while i < b
        invariant
            a <= i <= b <= v.len(),
            out@ == old(out)@ + v@.subrange(a as int, i as int),
        decreases b - i,
    {
        out.push(v[i]);
        assert(out@ =~= old(out)@ + v@.subrange(a as int, i + 1));
        i = i + 1;
    }
}

/// Appends all of `v` to `out`.
pub fn push_all(out: &mut Vec<char>, v: &Vec<char>)
    ensures
        final(out)@ == old(out)@ + v@,
{
    push_range(out, v, 0, v.len());
    assert(v@.subrange(0, v@.len() as int) =~= v@);
}

/// Appends the characters of `s` to `out`.
pub fn push_str(out: &mut Vec<char>, s: &str)
    ensures
        final(out)@ == old(out)@ + s@,
{
    let v = str_chars(s);
    push_all(out, &v);
}

/// `String::push`: appends one character to a string.
#[verifier::external_body]
pub(crate) fn push_char(s: &mut String, c: char)
    ensures
        final(s)@ == old(s)@.push(c),
{
    s.push(c);
}

/// The characters of a string slice, in order.
pub fn str_chars(s: &str) -> (v: Vec<char>)
    ensures
        v@ == s@,
{
    let mut v: Vec<char> = Vec::new();
    for c in it: s.chars()
        invariant
            it.seq() == s@,
            v@ == it.seq().take(it.index()),
    {
        v.push(c);
    }
    v
}

/// `p` occurs in `v` at `i`.
pub fn matches_at_exec(v: &Vec<char>, p: &Vec<char>, i: usize) -> (b: bool)
    ensures
        b == matches_at(v@, p@, i as int),
{
    if i > v.len() || p.len() > v.len() - i {
        return false;
    }
    let mut j: usize = 0;
    while j < p.len()
        invariant
            i + p.len() <= v.len(),
            j <= p.len(),
            forall|k: int| 0 <= k < j ==> v@[i + k] == p@[k],
        decreases p.len() - j,
    {
        if v[i + j] != p[j] {
            assert(v@.subrange(i as int, i + p.len())[j as int] != p@[j as int]);
            return false;
        }
        j = j + 1;
    }
    assert(v@.subrange(i as int, i + p.len()) =~= p@);
    true
}

pub fn starts_with_exec(v: &Vec<char>, p: &Vec<char>) -> (b: bool)
    ensures
        b == starts_with(v@, p@),
{
    matches_at_exec(v, p, 0)
}

pub fn starts_with_str(v: &Vec<char>, p: &str) -> (b: bool)
    ensures
        b == starts_with(v@, p@),
{
    let pv = str_chars(p);
    matches_at_exec(v, &pv, 0)
}

pub fn ends_with_exec(v: &Vec<char>, p: &Vec<char>) -> (b: bool)
    ensures
        b == ends_with(v@, p@),
{
    if p.len() > v.len() {
        false
    } else {
        matches_at_exec(v, p, v.len() - p.len())
    }
}

pub fn eq_exec(a: &Vec<char>, b: &Vec<char>) -> (r: bool)
    ensures
        r == (a@ == b@),
{
    if a.len() != b.len() {
        return false;
    }
    let r = matches_at_exec(a, b, 0);
    proof {
        if r {
            assert(a@.subrange(0, b@.len() as int) =~= a@);
        } else {
            assert(a@.subrange(0, b@.len() as int) =~= a@);
        }
    }
    r
}

pub fn eq_str(a: &Vec<char>, b: &str) -> (r: bool)
    ensures
        r == (a@ == b@),
{
    let bv = str_chars(b);
    eq_exec(a, &bv)
}

/// First occurrence of `p` in `v` at or after `from`.
pub fn find_from_exec(v: &Vec<char>, p: &Vec<char>, from: usize) -> (r: Option<usize>)
    ensures
        r matches Some(k) ==> find_from(v@, p@, from as int) == Some(k as int) && from <= k && k
            + p@.len() <= v@.len() && matches_at(v@, p@, k as int),
        r is None ==> find_from(v@, p@, from as int) is None,
{
    if p.len() == 0 {
        assert(from <= v.len() ==> v@.subrange(from as int, from as int) =~= p@);
        return if from <= v.len() {
            Some(from)
        } else {
            None
        };
    }
    let mut i: usize = from;
    while i < v.len() && p.len() <= v.len() - i
        invariant
            from <= i,
            find_from(v@, p@, from as int) == find_from(v@, p@, i as int),
        decreases v.len() + 1 - i,
    {
        if matches_at_exec(v, p, i) {
            return Some(i);
        }
        i = i + 1;
    }
    None
}

pub fn find_exec(v: &Vec<char>, p: &Vec<char>) -> (r: Option<usize>)
    ensures
        r matches Some(k) ==> find(v@, p@) == Some(k as int) && k + p@.len() <= v@.len()
            && matches_at(v@, p@, k as int),
        r is None ==> find(v@, p@) is None,
{
    find_from_exec(v, p, 0)
}

/// Last occurrence of `p` in `v`.
pub fn rfind_exec(v: &Vec<char>, p: &Vec<char>) -> (r: Option<usize>)
    ensures
        r matches Some(k) ==> rfind(v@, p@) == Some(k as int) && k + p@.len() <= v@.len()
            && matches_at(v@, p@, k as int),
        r is None ==> rfind(v@, p@) is None,
{
    if p.len() > v.len() {
        return None;
    }
    let mut i: usize = v.len() - p.len();
    loop
        invariant
            i + p.len() <= v.len(),
            rfind(v@, p@) == rfind_upto(v@, p@, i as int),
        decreases i,
    {
        if matches_at_exec(v, p, i) {
            return Some(i);
        }
        if i == 0 {
            assert(rfind_upto(v@, p@, -1) is None);
            return None;
        }
        i = i - 1;
    }
}

// ---------------------------------------------------------------------------
// Lines
// ---------------------------------------------------------------------------

/// Index of the first `'\n'` at or after `i`, or the length if there is none.
pub open spec fn line_end(s: Seq<char>, i: int) -> int
    decreases s.len() - i,
{
    if i >= s.len() {
        s.len() as int
    } else if s[i] == '\n' {
        i
    } else {
        line_end(s, i + 1)
    }
}

pub proof fn lemma_line_end(s: Seq<char>, i: int)
    requires
        0 <= i <= s.len(),
    ensures
        i <= line_end(s, i) <= s.len(),
        line_end(s, i) < s.len() ==> s[line_end(s, i)] == '\n',
        forall|j: int| i <= j < line_end(s, i) ==> s[j] != '\n',
    decreases s.len() - i,
{
    if i < s.len() && s[i] != '\n' {
        lemma_line_end(s, i + 1);
    }
}

/// End of the content of the line `s[i..e]`: a `'\r'` just before the `'\n'`
/// that ended it is dropped.
pub open spec fn content_end(s: Seq<char>, i: int, e: int) -> int {
    if e < s.len() && e > i && s[e - 1] == '\r' {
        e - 1
    } else {
        e
    }
}

/// Start and end indices of the lines of `s` from index `i` on, as
/// `str::lines` yields them.
pub open spec fn line_spans_from(s: Seq<char>, i: int) -> Seq<(int, int)>
    decreases s.len() - i,
{
    if i < 0 || i >= s.len() {
        seq![]
    } else {
        let e = line_end(s, i);
        if e < i {
            seq![]
        } else if e >= s.len() {
            seq![(i, content_end(s, i, e))]
        } else {
            seq![(i, content_end(s, i, e))] + line_spans_from(s, e + 1)
        }
    }
}

/// Start and end indices of the lines of `s`.
pub open spec fn line_spans(s: Seq<char>) -> Seq<(int, int)> {
    line_spans_from(s, 0)
}

/// `str::lines`: the lines of `s`, split at `'\n'`, each without a `'\r'`
/// that preceded its `'\n'`; no empty line after a final `'\n'`.
pub open spec fn lines(s: Seq<char>) -> Seq<Seq<char>> {
    line_spans(s).map_values(|sp: (int, int)| s.subrange(sp.0, sp.1))
}

pub open spec fn spans_ok(s: Seq<char>, sp: Seq<(int, int)>) -> bool {
    forall|j: int| 0 <= j < sp.len() ==> 0 <= (#[trigger] sp[j]).0 <= sp[j].1 <= s.len()
}

pub proof fn lemma_line_spans_from_ok(s: Seq<char>, i: int)
    ensures
        spans_ok(s, line_spans_from(s, i)),
        forall|j: int|
            0 <= j < line_spans_from(s, i).len() ==> i <= (#[trigger] line_spans_from(s, i)[j]).0,
    decreases s.len() - i,
{
    if !(i < 0 || i >= s.len()) {
        lemma_line_end(s, i);
        let e = line_end(s, i);
        if e < s.len() {
            lemma_line_spans_from_ok(s, e + 1);
        }
        let rest = line_spans_from(s, e + 1);
        let all = seq![(i, content_end(s, i, e))] + rest;
        assert(line_spans_from(s, i) == all);
        assert forall|j: int| 0 <= j < all.len() implies 0 <= (#[trigger] all[j]).0 <= all[j].1
            <= s.len() && i <= all[j].0 by {
            if j > 0 {
                assert(all[j] == rest[j - 1]);
            }
        }
    }
}

/// Line spans as executable `(start, end)` pairs.
pub fn line_spans_exec(v: &Vec<char>) -> (r: Vec<(usize, usize)>)
    ensures
        r@.len() == line_spans(v@).len(),
        forall|j: int|
            0 <= j < r@.len() ==> (#[trigger] r@[j]).0 as int == line_spans(v@)[j].0 && r@[j].1
                as int == line_spans(v@)[j].1,
        forall|j: int| 0 <= j < r@.len() ==> (#[trigger] r@[j]).0 <= r@[j].1 <= v@.len(),
{
    let mut r: Vec<(usize, usize)> = Vec::new();
    let mut i: usize = 0;
    proof {
        lemma_line_spans_from_ok(v@, 0);
    }
    while i < v.len()
        invariant
            i <= v.len(),
            line_spans(v@) == r@.map_values(|p: (usize, usize)| (p.0 as int, p.1 as int))
                + line_spans_from(v@, i as int),
            forall|j: int| 0 <= j < r@.len() ==> (#[trigger] r@[j]).0 <= r@[j].1 <= v@.len(),
        decreases v.len() - i,
    {
        let mut e: usize = i;
        while e < v.len() && v[e] != '\n'
            invariant
                i <= e <= v.len(),
                line_end(v@, i as int) == line_end(v@, e as int),
            decreases v.len() - e,
        {
            e = e + 1;
        }
        proof {
            lemma_line_end(v@, i as int);
        }
        let ce: usize = if e < v.len() && e > i && v[e - 1] == '\r' {
            e - 1
        } else {
            e
        };
        let ghost old_r = r@;
        r.push((i, ce));
        proof {
            let f = |p: (usize, usize)| (p.0 as int, p.1 as int);
            assert(r@.map_values(f) =~= old_r.map_values(f).push((i as int, ce as int)));
            assert(line_spans_from(v@, i as int) == seq![(i as int, ce as int)] + line_spans_from(
                v@,
                e + 1,
            ));
            assert(line_spans(v@) =~= r@.map_values(f) + line_spans_from(v@, e + 1));
        }
        if e < v.len() {
            i = e + 1;
        } else {
            assert(line_spans_from(v@, e + 1) =~= Seq::<(int, int)>::empty());
            assert(line_spans_from(v@, v@.len() as int) =~= Seq::<(int, int)>::empty());
            i = v.len();
        }
    }
    proof {
        let f = |p: (usize, usize)| (p.0 as int, p.1 as int);
        assert(line_spans_from(v@, i as int) =~= Seq::<(int, int)>::empty());
        assert(line_spans(v@) =~= r@.map_values(f));
    }
    r
}

// ---------------------------------------------------------------------------
// Searching a suffix
// ---------------------------------------------------------------------------

pub proof fn lemma_matches_skip(s: Seq<char>, p: Seq<char>, i: int, j: int)
    requires
        0 <= i <= s.len(),
        0 <= j,
    ensures
        matches_at(s.skip(i), p, j) == matches_at(s, p, i + j),
{
    if j + p.len() <= s.len() - i {
        assert(s.skip(i).subrange(j, j + p.len()) =~= s.subrange(i + j, i + j + p.len()));
    }
}

/// Searching from `i` is searching the suffix at `i`.
pub proof fn lemma_find_from_skip(s: Seq<char>, p: Seq<char>, i: int)
    requires
        0 <= i <= s.len(),
    ensures
        find_from(s, p, i) matches Some(k) ==> find(s.skip(i), p) == Some(k - i),
        find_from(s, p, i) is None ==> find(s.skip(i), p) is None,
{
    lemma_find_from_spec(s, p, i);
    lemma_find_from_spec(s.skip(i), p, 0);
    assert forall|j: int| 0 <= j implies matches_at(s.skip(i), p, j) == matches_at(s, p, i + j) by {
        lemma_matches_skip(s, p, i, j);
    }
    match find_from(s, p, i) {
        Some(k) => {
            match find(s.skip(i), p) {
                Some(m) => {
                    assert(matches_at(s, p, i + m));
                    assert(matches_at(s.skip(i), p, k - i));
                    if m < k - i {
                        assert(!matches_at(s, p, i + m));
                    }
                    if m > k - i {
                        assert(!matches_at(s.skip(i), p, k - i));
                    }
                },
                None => {
                    assert(!matches_at(s.skip(i), p, k - i));
                },
            }
        },
        None => {
            match find(s.skip(i), p) {
                Some(m) => {
                    assert(matches_at(s, p, i + m));
                },
                None => {},
            }
        },
    }
}

/// `find` on the suffix of `v` starting at `i`, as an index into that suffix.
pub fn find_in_suffix(v: &Vec<char>, p: &Vec<char>, i: usize) -> (r: Option<usize>)
    requires
        i <= v.len(),
    ensures
        r matches Some(k) ==> find(v@.skip(i as int), p@) == Some(k as int) && i + k + p@.len()
            <= v@.len() && matches_at(v@, p@, i + k),
        r is None ==> find(v@.skip(i as int), p@) is None,
{
    proof {
        lemma_find_from_skip(v@, p@, i as int);
    }
    match find_from_exec(v, p, i) {
        Some(k) => Some(k - i),
        None => None,
    }
}

/// Replaces every non-overlapping occurrence of `pat`, left to right
/// (`str::replace`).
pub open spec fn replace_all(s: Seq<char>, pat: Seq<char>, rep: Seq<char>) -> Seq<char>
    decreases s.len(),
{
    if s.len() == 0 {
        Seq::empty()
    } else if pat.len() > 0 && starts_with(s, pat) {
        rep + replace_all(s.skip(pat.len() as int), pat, rep)
    } else {
        seq![s[0]] + replace_all(s.drop_first(), pat, rep)
    }
}

pub fn replace_exec(v: &Vec<char>, pat: &Vec<char>, rep: &Vec<char>) -> (r: Vec<char>)
    requires
        pat@.len() > 0,
    ensures
        r@ == replace_all(v@, pat@, rep@),
{
    let mut out: Vec<char> = Vec::new();
    let mut i: usize = 0;
    proof {
        assert(v@.skip(0) =~= v@);
        assert(out@ + replace_all(v@, pat@, rep@) =~= replace_all(v@, pat@, rep@));
    }
    while i < v.len()
        invariant
            i <= v.len(),
            pat@.len() > 0,
            out@ + replace_all(v@.skip(i as int), pat@, rep@) == replace_all(v@, pat@, rep@),
        decreases v.len() - i,
    {
        let ghost t = v@.skip(i as int);
        if matches_at_exec(v, pat, i) {
            proof {
                lemma_matches_skip(v@, pat@, i as int, 0);
                assert(t.skip(pat@.len() as int) =~= v@.skip(i + pat@.len()));
            }
            push_all(&mut out, rep);
            i = i + pat.len();
            proof {
                assert(out@ + replace_all(v@.skip(i as int), pat@, rep@) =~= replace_all(
                    v@,
                    pat@,
                    rep@,
                ));
            }
        } else {
            proof {
                lemma_matches_skip(v@, pat@, i as int, 0);
                assert(t.drop_first() =~= v@.skip(i + 1));
            }
            out.push(v[i]);
            i = i + 1;
            proof {
                assert(out@ + replace_all(v@.skip(i as int), pat@, rep@) =~= replace_all(
                    v@,
                    pat@,
                    rep@,
                ));
            }
        }
    }
    proof {
        assert(v@.skip(i as int) =~= Seq::<char>::empty());
        assert(out@ + Seq::<char>::empty() =~= out@);
    }
    out
}

/// Whether the UTF-8 length of `v` is at most `n`.
pub fn byte_len_le(v: &Vec<char>, n: usize) -> (b: bool)
    ensures
        b == (byte_len(v@) <= n),
{
    let mut acc: usize = 0;
    let mut i: usize = 0;
    while i < v.len()
        invariant
            i <= v.len(),
            acc == byte_len(v@.take(i as int)),
            acc <= n,
        decreases v.len() - i,
    {
        let w = char_width(v[i]);
        proof {
            assert(v@.take(i + 1).drop_last() =~= v@.take(i as int));
        }
        if w > n - acc {
            proof {
                lemma_byte_len_mono(v@, i + 1);
            }
            return false;
        }
        acc = acc + w;
        i = i + 1;
    }
    proof {
        assert(v@.take(v@.len() as int) =~= v@);
    }
    true
}

/// The text without its leading `c` characters (`trim_start_matches(c)`).
pub open spec fn skip_char(s: Seq<char>, c: char) -> Seq<char>
    decreases s.len(),
{
    if s.len() > 0 && s[0] == c {
        skip_char(s.drop_first(), c)
    } else {
        s
    }
}

/// First index at or after `i` (and before `b`) whose character is not `c`.
pub fn skip_char_exec(v: &Vec<char>, i: usize, b: usize, c: char) -> (k: usize)
    requires
        i <= b <= v.len(),
    ensures
        i <= k <= b,
        skip_char(v@.subrange(i as int, b as int), c) == v@.subrange(k as int, b as int),
{
    let mut k: usize = i;
    while k < b && v[k] == c
        invariant
            i <= k <= b <= v.len(),
            skip_char(v@.subrange(i as int, b as int), c) == skip_char(
                v@.subrange(k as int, b as int),
                c,
            ),
        decreases b - k,
    {
        assert(v@.subrange(k as int, b as int).drop_first() =~= v@.subrange(k + 1, b as int));
        k = k + 1;
    }
    k
}

/// `v[a..b]` equals `key` up to ASCII case.
pub fn eq_ignore_case_range(v: &Vec<char>, a: usize, b: usize, key: &Vec<char>) -> (r: bool)
    requires
        a <= b <= v.len(),
    ensures
        r == eq_ignore_case(v@.subrange(a as int, b as int), key@),
{
    if b - a != key.len() {
        return false;
    }
    let mut i: usize = 0;
    while i < key.len()
        invariant
            i <= key.len(),
            b - a == key.len(),
            a <= b <= v.len(),
            forall|j: int| 0 <= j < i ==> ascii_lower(v@[a + j]) == ascii_lower(key@[j]),
        decreases key.len() - i,
    {
        if to_ascii_lower(v[a + i]) != to_ascii_lower(key[i]) {
            proof {
                assert(v@.subrange(a as int, b as int)[i as int] == v@[a + i]);
            }
            return false;
        }
        i = i + 1;
    }
    proof {
        let sr = v@.subrange(a as int, b as int);
        assert forall|j: int| 0 <= j < sr.len() implies ascii_lower(sr[j]) == ascii_lower(
            key@[j],
        ) by {
            assert(sr[j] == v@[a + j]);
        }
    }
    true
}

/// `v[a..b]` equals `p`.
pub fn eq_range(v: &Vec<char>, a: usize, b: usize, p: &Vec<char>) -> (r: bool)
    requires
        a <= b <= v.len(),
    ensures
        r == (v@.subrange(a as int, b as int) == p@),
{
    if b - a != p.len() {
        return false;
    }
    let r = matches_at_exec(v, p, a);
    r
}

pub proof fn lemma_byte_len_front(s: Seq<char>)
    requires
        s.len() > 0,
    ensures
        byte_len(s) == utf8_width(s[0]) + byte_len(s.drop_first()),
    decreases s.len(),
{
    if s.len() == 1 {
        assert(s.drop_last() =~= Seq::<char>::empty());
        assert(s.drop_first() =~= Seq::<char>::empty());
    } else {
        lemma_byte_len_front(s.drop_last());
        assert(s.drop_last().drop_first() =~= s.drop_first().drop_last());
        assert(s.drop_first().last() == s.last());
    }
}

/// `byte_len` is the length of vstd's UTF-8 encoding.
pub proof fn lemma_byte_len_encode(s: Seq<char>)
    ensures
        byte_len(s) == vstd::utf8::encode_utf8(s).len(),
    decreases s.len(),
{
    if s.len() > 0 {
        lemma_byte_len_front(s);
        lemma_byte_len_encode(s.drop_first());
        vstd::utf8::char_is_scalar(s[0]);
    }
}

} // verus!
