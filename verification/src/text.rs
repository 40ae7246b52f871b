//! Plain-text views of org-mode note bodies: markup stripping, excerpts,
//! property drawers, sections, links and fields.
use vstd::prelude::*;
use vstd::utf8::encode_utf8;
use crate::chars::{eq_ignore_case, eq_ignore_case_range, eq_range, ends_with, ends_with_exec, opt_view, skip_char, skip_char_exec, string_of, trim_start, matches_at_exec, byte_len, byte_len_le, char_width, push_str, replace_exec, rfind_exec, contains, copy_all, find_exec, line_spans_exec, starts_with_str, copy_range, find, find_in_suffix, is_upper, lemma_find_from_spec, push_all, push_range, replace_all, rfind, starts_with, str_chars, string_of_all, trim, trim_bounds, lines};

verus! {

broadcast use vstd::string::group_string_axioms;

/// Characters that open and close inline emphasis.
pub open spec fn is_marker(c: char) -> bool {
    c == '*' || c == '/' || c == '_' || c == '+' || c == '~' || c == '='
}

pub open spec fn link_close() -> Seq<char> {
    seq![']', ']']
}

pub open spec fn link_sep() -> Seq<char> {
    seq![']', '[']
}

/// The text shown for a link's inside: its description when it has one.
pub open spec fn link_shown(inner: Seq<char>) -> Seq<char> {
    match find(inner, link_sep()) {
        Some(p) => inner.skip(p + 2),
        None => inner,
    }
}

/// Where a link that starts the text ends: the first `]]`.
pub open spec fn link_end(s: Seq<char>) -> Option<int> {
    if s.len() >= 2 && s[0] == '[' && s[1] == '[' {
        match find(s, link_close()) {
            Some(c) => if 2 <= c && c + 2 <= s.len() {
                Some(c)
            } else {
                None
            },
            None => None,
        }
    } else {
        None
    }
}

/// Where emphasis that starts the text ends: the next same marker, with a
/// non-empty inside that neither starts nor ends with a space.
pub open spec fn emphasis_end(s: Seq<char>) -> Option<int> {
    if s.len() > 0 && is_marker(s[0]) {
        match find(s.drop_first(), seq![s[0]]) {
            Some(e) => if 0 < e && e + 2 <= s.len() && s[1] != ' ' && s[e] != ' ' {
                Some(e)
            } else {
                None
            },
            None => None,
        }
    } else {
        None
    }
}

/// Org markup removed: links shown as their description (or target),
/// emphasis markers dropped.
pub open spec fn strip_markup(s: Seq<char>) -> Seq<char>
    decreases s.len(),
{
    if s.len() == 0 {
        Seq::empty()
    } else {
        match link_end(s) {
            Some(c) => link_shown(s.subrange(2, c)) + strip_markup(s.skip(c + 2)),
            None => match emphasis_end(s) {
                Some(e) => s.subrange(1, e + 1) + strip_markup(s.skip(e + 2)),
                None => seq![s[0]] + strip_markup(s.drop_first()),
            },
        }
    }
}

fn is_marker_exec(c: char) -> (b: bool)
    ensures
        b == is_marker(c),
{
    c == '*' || c == '/' || c == '_' || c == '+' || c == '~' || c == '='
}

/// Removes org markup: `see [[https://x.com][example]]` gives `see example`,
/// `hello *world*` gives `hello world`.
pub fn strip_org_markup(input: &str) -> (r: String)
    ensures
        r@ == strip_markup(input@),
{
    let v = str_chars(input);
    let out = strip_markup_chars(&v);
    string_of_all(&out)
}

pub fn strip_markup_chars(v: &Vec<char>) -> (r: Vec<char>)
    ensures
        r@ == strip_markup(v@),
{
    let n: usize = v.len();
    let close = vec![']', ']'];
    let sep = vec![']', '['];
    proof {
        assert(close@ =~= link_close());
        assert(sep@ =~= link_sep());
        assert(v@.skip(0) =~= v@);
    }
    let mut out: Vec<char> = Vec::new();
    let mut i: usize = 0;
    while i < n
        invariant
            n == v@.len(),
            i <= n,
            close@ == link_close(),
            sep@ == link_sep(),
            out@ + strip_markup(v@.skip(i as int)) == strip_markup(v@),
        decreases n - i,
    {
        let ghost t = v@.skip(i as int);
        let ch = v[i];
        // a link `[[target][description]]`
        if i + 1 < n && ch == '[' && v[i + 1] == '[' {
            match find_in_suffix(v, &close, i) {
                Some(c) => {
                    proof {
                        lemma_find_from_spec(t, link_close(), 0);
                        assert(t.subrange(c as int, c + 2)[0] == t[c as int]);
                        assert(t[0] == '[' && t[1] == '[');
                        assert(c >= 2);
                        assert(link_end(t) == Some(c as int));
                    }
                    let inner = copy_range(v, i + 2, i + c);
                    proof {
                        assert(inner@ =~= t.subrange(2, c as int));
                    }
                    match find_in_suffix(&inner, &sep, 0) {
                        Some(p) => {
                            proof {
                                assert(inner@.skip(0) =~= inner@);
                                assert(link_shown(inner@) =~= inner@.skip(p + 2));
                            }
                            push_range(&mut out, &inner, p + 2, inner.len());
                            proof {
                                assert(inner@.subrange(p + 2, inner@.len() as int) =~= inner@.skip(
                                    p + 2,
                                ));
                            }
                        },
                        None => {
                            proof {
                                assert(inner@.skip(0) =~= inner@);
                            }
                            push_all(&mut out, &inner);
                        },
                    }
                    proof {
                        assert(t.skip(c + 2) =~= v@.skip(i + c + 2));
                    }
                    i = i + c + 2;
                    proof {
                        assert(out@ + strip_markup(v@.skip(i as int)) =~= strip_markup(v@));
                    }
                    continue ;
                },
                None => {
                    proof {
                        assert(link_end(t) is None);
                    }
                },
            }
        } else {
            proof {
                if t.len() >= 2 && t[0] == '[' && t[1] == '[' {
                    assert(false);
                }
            }
        }
        proof {
            assert(link_end(t) is None);
        }
        // emphasis `*text*`
        if is_marker_exec(ch) {
            let m = vec![ch];
            proof {
                assert(m@ =~= seq![t[0]]);
                assert(t.drop_first() =~= v@.skip(i + 1));
            }
            match find_in_suffix(v, &m, i + 1) {
                Some(e) => {
                    if e > 0 && v[i + 1] != ' ' && v[i + e] != ' ' {
                        proof {
                            assert(emphasis_end(t) == Some(e as int));
                        }
                        push_range(&mut out, v, i + 1, i + 1 + e);
                        proof {
                            assert(v@.subrange(i + 1, i + 1 + e) =~= t.subrange(1, e + 1));
                            assert(t.skip(e + 2) =~= v@.skip(i + e + 2));
                        }
                        i = i + e + 2;
                        proof {
                            assert(out@ + strip_markup(v@.skip(i as int)) =~= strip_markup(v@));
                        }
                        continue ;
                    }
                    proof {
                        assert(emphasis_end(t) is None);
                    }
                },
                None => {},
            }
        }
        proof {
            assert(emphasis_end(t) is None);
            assert(t.drop_first() =~= v@.skip(i + 1));
        }
        out.push(ch);
        i = i + 1;
        proof {
            assert(out@ + strip_markup(v@.skip(i as int)) =~= strip_markup(v@));
        }
    }
    proof {
        assert(v@.skip(n as int) =~= Seq::<char>::empty());
        assert(out@ + Seq::<char>::empty() =~= out@);
    }
    out
}

// ---------------------------------------------------------------------------
// Headlines
// ---------------------------------------------------------------------------

/// Number of leading `*` characters.
pub open spec fn star_run(s: Seq<char>) -> nat
    decreases s.len(),
{
    if s.len() > 0 && s[0] == '*' {
        1 + star_run(s.drop_first())
    } else {
        0
    }
}

/// The title of a headline line `** Title`, trimmed.
pub open spec fn headline_text(t: Seq<char>) -> Option<Seq<char>> {
    let n = star_run(t);
    if n > 0 && n < t.len() && t[n as int] == ' ' {
        Some(trim(t.skip(n as int + 1)))
    } else {
        None
    }
}

proof fn lemma_star_run(s: Seq<char>, k: int)
    requires
        0 <= k <= s.len(),
        forall|j: int| 0 <= j < k ==> s[j] == '*',
        k == s.len() || s[k] != '*',
    ensures
        star_run(s) == k,
    decreases k,
{
    if k > 0 {
        lemma_star_run(s.drop_first(), k - 1);
    }
}

/// Number of leading `*` characters of `v[a..b]`.
pub fn star_run_exec(v: &Vec<char>, a: usize, b: usize) -> (k: usize)
    requires
        a <= b <= v.len(),
    ensures
        k == star_run(v@.subrange(a as int, b as int)),
        a + k <= b,
{
    let mut k: usize = 0;
    while a + k < b && v[a + k] == '*'
        invariant
            a + k <= b <= v.len(),
            forall|j: int| a <= j < a + k ==> v@[j] == '*',
        decreases b - a - k,
    {
        k = k + 1;
    }
    proof {
        let sr = v@.subrange(a as int, b as int);
        assert forall|j: int| 0 <= j < k implies sr[j] == '*' by {
            assert(sr[j] == v@[a + j]);
        }
        lemma_star_run(sr, k as int);
    }
    k
}

/// Bounds of the trimmed title of the headline `v[a..b]`, if it is one.
pub fn headline_bounds(v: &Vec<char>, a: usize, b: usize) -> (r: Option<(usize, usize)>)
    requires
        a <= b <= v.len(),
    ensures
        r matches Some(p) ==> a <= p.0 <= p.1 <= b && headline_text(v@.subrange(a as int, b as int))
            == Some(v@.subrange(p.0 as int, p.1 as int)),
        r is None ==> headline_text(v@.subrange(a as int, b as int)) is None,
{
    let k = star_run_exec(v, a, b);
    if k > 0 && a + k < b && v[a + k] == ' ' {
        let (x, y) = trim_bounds(v, a + k + 1, b);
        proof {
            assert(v@.subrange(a as int, b as int).skip(k + 1) =~= v@.subrange(a + k + 1, b as int));
        }
        Some((x, y))
    } else {
        None
    }
}

/// The title of a headline line (`** Title` gives `Title`).
pub fn strip_headline_prefix(line: &str) -> (r: Option<&str>)
    ensures
        r matches Some(t) ==> headline_text(line@) == Some(t@),
        r is None ==> headline_text(line@) is None,
{
    let v = str_chars(line);
    let n: usize = v.len();
    proof {
        assert(v@.subrange(0, n as int) =~= v@);
    }
    match headline_bounds(&v, 0, n) {
        Some((x, y)) => Some(line.substring_char(x, y)),
        None => None,
    }
}

// ---------------------------------------------------------------------------
// Excerpts
// ---------------------------------------------------------------------------

/// A line `:NAME:` (more than two characters, colon at both ends).
pub open spec fn is_drawer_line(t: Seq<char>) -> bool {
    t.len() > 2 && t[0] == ':' && t.last() == ':'
}

pub open spec fn drawer_name(t: Seq<char>) -> Seq<char> {
    t.subrange(1, t.len() - 1)
}

pub open spec fn all_upper_or_underscore(s: Seq<char>) -> bool {
    forall|i: int| 0 <= i < s.len() ==> is_upper(#[trigger] s[i]) || s[i] == '_'
}

/// A planning or clock line.
pub open spec fn is_planning_line(t: Seq<char>) -> bool {
    starts_with(t, "SCHEDULED:"@) || starts_with(t, "DEADLINE:"@) || starts_with(t, "CLOSED:"@)
        || starts_with(t, "CLOCK:"@)
}

/// The prose of a content line: a headline's title, a list item's text, or
/// the line itself.
pub open spec fn prose_of(t: Seq<char>) -> Seq<char> {
    match headline_text(t) {
        Some(h) => h,
        None => if starts_with(t, "- "@) {
            t.skip(2)
        } else {
            t
        },
    }
}

pub open spec fn join_space(buf: Seq<char>) -> Seq<char> {
    if buf.len() > 0 {
        buf.push(' ')
    } else {
        buf
    }
}

/// One line of the excerpt scan: the new drawer state and buffer, and
/// whether the buffer has reached `max` bytes. Any `:NAME:` line made of
/// capitals and underscores (`:END:` among them) opens a drawer.
pub open spec fn excerpt_step(line: Seq<char>, in_drawer: bool, buf: Seq<char>, max: nat) -> (
    bool,
    Seq<char>,
    bool,
) {
    let t = trim(line);
    if starts_with(t, "#+"@) {
        (in_drawer, buf, false)
    } else if is_drawer_line(t) && all_upper_or_underscore(drawer_name(t)) {
        (true, buf, false)
    } else if in_drawer {
        (in_drawer, buf, false)
    } else if starts_with(t, ":"@) && contains(t, ": "@) {
        (in_drawer, buf, false)
    } else if is_planning_line(t) {
        (in_drawer, buf, false)
    } else if t.len() == 0 {
        (in_drawer, join_space(buf), false)
    } else if prose_of(t).len() == 0 {
        (in_drawer, buf, false)
    } else {
        let b = join_space(buf) + prose_of(t);
        (in_drawer, b, byte_len(b) >= max)
    }
}

/// The excerpt buffer after scanning lines, stopping once it reaches `max`
/// bytes.
pub open spec fn excerpt_scan(ls: Seq<Seq<char>>, in_drawer: bool, buf: Seq<char>, max: nat) -> Seq<
    char,
>
    decreases ls.len(),
{
    if ls.len() == 0 {
        buf
    } else {
        let (d, b, stop) = excerpt_step(ls[0], in_drawer, buf, max);
        if stop {
            b
        } else {
            excerpt_scan(ls.drop_first(), d, b, max)
        }
    }
}

/// The number of leading characters that fit in `max` bytes, counting from
/// `k`.
pub open spec fn fit_from(s: Seq<char>, max: nat, k: int) -> int
    decreases s.len() - k,
{
    if 0 <= k < s.len() && byte_len(s.take(k + 1)) <= max {
        fit_from(s, max, k + 1)
    } else {
        k
    }
}

/// Org special strings: `---` as an em dash, `--` as an en dash.
pub open spec fn special_strings(s: Seq<char>) -> Seq<char> {
    replace_all(replace_all(s, "---"@, seq!['\u{2014}']), "--"@, seq!['\u{2013}'])
}

/// What `extract_excerpt` gives: the scanned prose without markup, cut to
/// `max` bytes at the last space before the cut, with `...` appended.
pub open spec fn excerpt_spec(content: Seq<char>, max: nat) -> Seq<char> {
    let b = special_strings(strip_markup(excerpt_scan(lines(content), false, Seq::empty(), max)));
    if byte_len(b) > max {
        let k = fit_from(b, max, 0);
        let cut = match rfind(b.take(k), seq![' ']) {
            Some(p) => b.take(p),
            None => b.take(k),
        };
        cut + "..."@
    } else {
        b
    }
}

pub fn all_upper_or_underscore_range(v: &Vec<char>, a: usize, b: usize) -> (r: bool)
    requires
        a <= b <= v.len(),
    ensures
        r == all_upper_or_underscore(v@.subrange(a as int, b as int)),
{
    let mut i: usize = a;
    while i < b
        invariant
            a <= i <= b <= v.len(),
            forall|j: int| a <= j < i ==> is_upper(#[trigger] v@[j]) || v@[j] == '_',
        decreases b - i,
    {
        let c = v[i];
        if !(('A' <= c && c <= 'Z') || c == '_') {
            proof {
                assert(v@.subrange(a as int, b as int)[i - a] == c);
            }
            return false;
        }
        i = i + 1;
    }
    proof {
        let sr = v@.subrange(a as int, b as int);
        assert forall|j: int| 0 <= j < sr.len() implies is_upper(#[trigger] sr[j]) || sr[j] == '_' by {
            assert(sr[j] == v@[a + j]);
        }
    }
    true
}

fn is_drawer_line_exec(t: &Vec<char>) -> (r: bool)
    ensures
        r == is_drawer_line(t@),
{
    t.len() > 2 && t[0] == ':' && t[t.len() - 1] == ':'
}

fn is_planning_line_exec(t: &Vec<char>) -> (r: bool)
    ensures
        r == is_planning_line(t@),
{
    starts_with_str(t, "SCHEDULED:") || starts_with_str(t, "DEADLINE:") || starts_with_str(
        t,
        "CLOSED:",
    ) || starts_with_str(t, "CLOCK:")
}

/// The prose of a trimmed content line.
fn prose_exec(t: &Vec<char>) -> (r: Vec<char>)
    ensures
        r@ == prose_of(t@),
{
    let n: usize = t.len();
    proof {
        assert(t@.subrange(0, n as int) =~= t@);
    }
    match headline_bounds(t, 0, n) {
        Some((x, y)) => copy_range(t, x, y),
        None => {
            if starts_with_str(t, "- ") {
                proof {
                    assert("- "@.len() == 2) by {
                        reveal_strlit("- ");
                    }
                }
                let r = copy_range(t, 2, n);
                proof {
                    assert(r@ =~= t@.skip(2));
                }
                r
            } else {
                copy_all(t)
            }
        },
    }
}

fn join_space_exec(buf: &mut Vec<char>)
    ensures
        final(buf)@ == join_space(old(buf)@),
{
    if buf.len() > 0 {
        buf.push(' ');
    }
}

/// The excerpt buffer of a text.
pub fn excerpt_scan_exec(v: &Vec<char>, max: usize) -> (r: Vec<char>)
    ensures
        r@ == excerpt_scan(lines(v@), false, Seq::empty(), max as nat),
{
    let spans = line_spans_exec(v);
    let ghost ls = lines(v@);
    let mut buf: Vec<char> = Vec::new();
    let mut in_drawer = false;
    let mut j: usize = 0;
    proof {
        assert(ls.skip(0) =~= ls);
    }
    while j < spans.len()
        invariant
            j <= spans@.len(),
            ls == lines(v@),
            spans@.len() == ls.len(),
            forall|k: int|
                0 <= k < spans@.len() ==> (#[trigger] spans@[k]).0 <= spans@[k].1 <= v@.len()
                    && ls[k] == v@.subrange(spans@[k].0 as int, spans@[k].1 as int),
            excerpt_scan(ls, false, Seq::empty(), max as nat) == excerpt_scan(
                ls.skip(j as int),
                in_drawer,
                buf@,
                max as nat,
            ),
        decreases spans@.len() - j,
    {
        let (s0, s1) = spans[j];
        let (a, b) = trim_bounds(v, s0, s1);
        let t = copy_range(v, a, b);
        let ghost old_buf = buf@;
        let ghost old_d = in_drawer;
        proof {
            assert(ls.skip(j as int)[0] == ls[j as int]);
            assert(ls.skip(j as int).drop_first() =~= ls.skip(j + 1));
            assert(t@ == trim(ls[j as int]));
        }
        let mut stop = false;
        if starts_with_str(&t, "#+") {
        } else if is_drawer_line_exec(&t) && all_upper_or_underscore_range(&t, 1, t.len() - 1) {
            in_drawer = true;
        } else if in_drawer {
        } else if starts_with_str(&t, ":") && find_exec(&t, &str_chars(": ")).is_some() {
        } else if is_planning_line_exec(&t) {
        } else if t.len() == 0 {
            join_space_exec(&mut buf);
        } else {
            let prose = prose_exec(&t);
            if prose.len() > 0 {
                join_space_exec(&mut buf);
                push_all(&mut buf, &prose);
                stop = !(max > 0 && byte_len_le(&buf, max - 1));
            }
        }
        proof {
            let (d2, b2, st2) = excerpt_step(ls[j as int], old_d, old_buf, max as nat);
            assert(d2 == in_drawer);
            assert(b2 == buf@);
            assert(st2 == stop);
        }
        if stop {
            return buf;
        }
        j = j + 1;
    }
    proof {
        assert(ls.skip(j as int) =~= Seq::<Seq<char>>::empty());
    }
    buf
}

/// Number of leading characters of `v` that fit in `max` bytes.
fn fit_exec(v: &Vec<char>, max: usize) -> (k: usize)
    ensures
        k as int == fit_from(v@, max as nat, 0),
        k <= v@.len(),
{
    let mut k: usize = 0;
    let mut acc: usize = 0;
    while k < v.len()
        invariant
            k <= v.len(),
            acc == byte_len(v@.take(k as int)),
            acc <= max,
            fit_from(v@, max as nat, 0) == fit_from(v@, max as nat, k as int),
        decreases v.len() - k,
    {
        let w = char_width(v[k]);
        proof {
            assert(v@.take(k + 1).drop_last() =~= v@.take(k as int));
        }
        if w > max - acc {
            return k;
        }
        acc = acc + w;
        k = k + 1;
    }
    k
}

/// A plain-text excerpt of an org body: keywords, drawers, planning lines
/// and markup left out, cut near `max_chars` bytes.
pub fn extract_excerpt(content: &str, max_chars: usize) -> (r: String)
    ensures
        r@ == excerpt_spec(content@, max_chars as nat),
{
    let v = str_chars(content);
    let scanned = excerpt_scan_exec(&v, max_chars);
    let stripped = strip_markup_chars(&scanned);
    let em = str_chars("---");
    let en = str_chars("--");
    proof {
        reveal_strlit("---");
        reveal_strlit("--");
    }
    let emdash = vec!['\u{2014}'];
    let endash = vec!['\u{2013}'];
    proof {
        assert(emdash@ =~= seq!['\u{2014}']);
        assert(endash@ =~= seq!['\u{2013}']);
    }
    let b1 = replace_exec(&stripped, &em, &emdash);
    let b = replace_exec(&b1, &en, &endash);
    let ghost bs = special_strings(strip_markup(
        excerpt_scan(lines(v@), false, Seq::empty(), max_chars as nat),
    ));
    proof {
        assert(b@ =~= bs);
    }
    if byte_len_le(&b, max_chars) {
        string_of_all(&b)
    } else {
        let k = fit_exec(&b, max_chars);
        let head = copy_range(&b, 0, k);
        proof {
            assert(head@ =~= b@.take(k as int));
        }
        let sp = vec![' '];
        let mut cut = match rfind_exec(&head, &sp) {
            Some(p) => {
                proof {
                    assert(sp@ =~= seq![' ']);
                }
                let c = copy_range(&b, 0, p);
                proof {
                    assert(c@ =~= b@.take(p as int));
                }
                c
            },
            None => {
                proof {
                    assert(sp@ =~= seq![' ']);
                }
                head
            },
        };
        push_str(&mut cut, "...");
        string_of_all(&cut)
    }
}

// ---------------------------------------------------------------------------
// Property drawers
// ---------------------------------------------------------------------------

/// The value of a property line `:KEY: value` when its key equals `key` up
/// to ASCII case.
pub open spec fn property_value(line: Seq<char>, key: Seq<char>) -> Option<Seq<char>> {
    let l = trim_start(line);
    if l.len() == 0 || l[0] != ':' {
        None
    } else {
        let a = l.skip(1);
        match find(a, seq![':']) {
            Some(p) => if eq_ignore_case(a.take(p), key) {
                Some(trim(a.skip(p + 1)))
            } else {
                None
            },
            None => None,
        }
    }
}

/// The property scan: blank and `#+` lines may precede the drawer, which
/// must open with `:PROPERTIES:`; it ends at `:END:`.
pub open spec fn property_scan(ls: Seq<Seq<char>>, key: Seq<char>, in_drawer: bool) -> Option<
    Seq<char>,
>
    decreases ls.len(),
{
    if ls.len() == 0 {
        None
    } else {
        let t = trim(ls[0]);
        if !in_drawer {
            if t.len() == 0 || starts_with(t, "#+"@) {
                property_scan(ls.drop_first(), key, false)
            } else if t == ":PROPERTIES:"@ {
                property_scan(ls.drop_first(), key, true)
            } else {
                None
            }
        } else if t == ":END:"@ {
            None
        } else {
            match property_value(ls[0], key) {
                Some(v) => Some(v),
                None => property_scan(ls.drop_first(), key, true),
            }
        }
    }
}

/// Bounds of the value of the property line `v[s0..s1]`, when its key matches.
fn property_value_bounds(v: &Vec<char>, s0: usize, s1: usize, key: &Vec<char>) -> (r: Option<
    (usize, usize),
>)
    requires
        s0 <= s1 <= v.len(),
    ensures
        r matches Some(p) ==> p.0 <= p.1 <= v@.len() && property_value(
            v@.subrange(s0 as int, s1 as int),
            key@,
        ) == Some(v@.subrange(p.0 as int, p.1 as int)),
        r is None ==> property_value(v@.subrange(s0 as int, s1 as int), key@) is None,
{
    let (a, _b) = trim_bounds(v, s0, s1);
    if a >= s1 || v[a] != ':' {
        return None;
    }
    let rest = copy_range(v, a + 1, s1);
    let colon = vec![':'];
    proof {
        assert(colon@ =~= seq![':']);
        assert(rest@ =~= v@.subrange(a as int, s1 as int).skip(1));
    }
    match find_exec(&rest, &colon) {
        Some(p) => {
            if eq_ignore_case_range(v, a + 1, a + 1 + p, key) {
                let (x, y) = trim_bounds(v, a + 2 + p, s1);
                proof {
                    assert(v@.subrange(a + 1, a + 1 + p) =~= rest@.take(p as int));
                    assert(v@.subrange(a + 2 + p, s1 as int) =~= rest@.skip(p + 1));
                }
                Some((x, y))
            } else {
                proof {
                    assert(v@.subrange(a + 1, a + 1 + p) =~= rest@.take(p as int));
                }
                None
            }
        },
        None => None,
    }
}

/// The value of `key` (ASCII case ignored) in the property drawer that
/// opens the text, after any blank and `#+` lines.
pub fn parse_property<'a>(content: &'a str, key: &str) -> (r: Option<&'a str>)
    ensures
        r matches Some(t) ==> property_scan(lines(content@), key@, false) == Some(t@),
        r is None ==> property_scan(lines(content@), key@, false) is None,
{
    let v = str_chars(content);
    let kv = str_chars(key);
    let spans = line_spans_exec(&v);
    let ghost ls = lines(v@);
    let mut in_drawer = false;
    let mut j: usize = 0;
    proof {
        assert(ls.skip(0) =~= ls);
    }
    while j < spans.len()
        invariant
            j <= spans@.len(),
            ls == lines(v@),
            v@ == content@,
            kv@ == key@,
            spans@.len() == ls.len(),
            forall|k: int|
                0 <= k < spans@.len() ==> (#[trigger] spans@[k]).0 <= spans@[k].1 <= v@.len()
                    && ls[k] == v@.subrange(spans@[k].0 as int, spans@[k].1 as int),
            property_scan(ls, key@, false) == property_scan(ls.skip(j as int), key@, in_drawer),
        decreases spans@.len() - j,
    {
        let (s0, s1) = spans[j];
        let (a, b) = trim_bounds(&v, s0, s1);
        proof {
            assert(ls.skip(j as int)[0] == ls[j as int]);
            assert(ls.skip(j as int).drop_first() =~= ls.skip(j + 1));
        }
        if !in_drawer {
            if a == b || starts_with_str(&copy_range(&v, a, b), "#+") {
            } else if eq_range(&v, a, b, &str_chars(":PROPERTIES:")) {
                in_drawer = true;
            } else {
                return None;
            }
        } else if eq_range(&v, a, b, &str_chars(":END:")) {
            return None;
        } else {
            match property_value_bounds(&v, s0, s1, &kv) {
                Some((x, y)) => {
                    return Some(content.substring_char(x, y));
                },
                None => {},
            }
        }
        j = j + 1;
    }
    proof {
        assert(ls.skip(j as int) =~= Seq::<Seq<char>>::empty());
    }
    None
}

/// The key and value of a property line `:KEY: value`.
pub open spec fn property_pair(line: Seq<char>) -> Option<(Seq<char>, Seq<char>)> {
    let l = trim_start(line);
    if l.len() == 0 || l[0] != ':' {
        None
    } else {
        let a = l.skip(1);
        match find(a, seq![':']) {
            Some(p) => Some((a.take(p), trim(a.skip(p + 1)))),
            None => None,
        }
    }
}

/// Every property of the leading drawer, in order: the scan of
/// `property_scan`, collecting each key and value.
pub open spec fn properties_scan(ls: Seq<Seq<char>>, in_drawer: bool) -> Seq<
    (Seq<char>, Seq<char>),
>
    decreases ls.len(),
{
    if ls.len() == 0 {
        Seq::empty()
    } else {
        let t = trim(ls[0]);
        if !in_drawer {
            if t.len() == 0 || starts_with(t, "#+"@) {
                properties_scan(ls.drop_first(), false)
            } else if t == ":PROPERTIES:"@ {
                properties_scan(ls.drop_first(), true)
            } else {
                Seq::empty()
            }
        } else if t == ":END:"@ {
            Seq::empty()
        } else {
            match property_pair(ls[0]) {
                Some(kv) => seq![kv] + properties_scan(ls.drop_first(), true),
                None => properties_scan(ls.drop_first(), true),
            }
        }
    }
}

/// The value of the first pair whose key equals `key` ignoring ASCII case.
pub open spec fn first_value(ps: Seq<(Seq<char>, Seq<char>)>, key: Seq<char>) -> Option<Seq<char>>
    decreases ps.len(),
{
    if ps.len() == 0 {
        None
    } else if eq_ignore_case(ps[0].0, key) {
        Some(ps[0].1)
    } else {
        first_value(ps.drop_first(), key)
    }
}

/// Looking one property up finds what the list of all properties gives
/// first for that key.
pub proof fn lemma_property_lookup(ls: Seq<Seq<char>>, key: Seq<char>, in_drawer: bool)
    ensures
        property_scan(ls, key, in_drawer) == first_value(properties_scan(ls, in_drawer), key),
    decreases ls.len(),
{
    if ls.len() > 0 {
        lemma_property_lookup(ls.drop_first(), key, true);
        lemma_property_lookup(ls.drop_first(), key, false);
        let rest = properties_scan(ls.drop_first(), true);
        match property_pair(ls[0]) {
            Some(kv) => {
                assert((seq![kv] + rest).drop_first() =~= rest);
                assert((seq![kv] + rest)[0] == kv);
            },
            None => {},
        }
    }
}

/// Every property of the leading property drawer, keys as written, in order.
pub fn parse_properties(content: &str) -> (r: Vec<(String, String)>)
    ensures
        r@.map_values(|p: (String, String)| (p.0@, p.1@)) == properties_scan(lines(content@), false),
{
    proof {
        reveal_strlit("#+");
        reveal_strlit(":PROPERTIES:");
        reveal_strlit(":END:");
    }
    let v = str_chars(content);
    let spans = line_spans_exec(&v);
    let ghost ls = lines(v@);
    let mut out: Vec<(String, String)> = Vec::new();
    let mut in_drawer = false;
    let mut j: usize = 0;
    proof {
        assert(ls.skip(0) =~= ls);
        assert(out@.map_values(|p: (String, String)| (p.0@, p.1@)) =~= Seq::<
            (Seq<char>, Seq<char>),
        >::empty());
    }
    while j < spans.len()
        invariant
            j <= spans@.len(),
            ls == lines(v@),
            v@ == content@,
            spans@.len() == ls.len(),
            forall|k: int|
                0 <= k < spans@.len() ==> (#[trigger] spans@[k]).0 <= spans@[k].1 <= v@.len()
                    && ls[k] == v@.subrange(spans@[k].0 as int, spans@[k].1 as int),
            properties_scan(ls, false) == out@.map_values(|p: (String, String)| (p.0@, p.1@))
                + properties_scan(ls.skip(j as int), in_drawer),
        decreases spans@.len() - j,
    {
        let ghost before = out@.map_values(|p: (String, String)| (p.0@, p.1@));
        let (s0, s1) = spans[j];
        let (a, b) = trim_bounds(&v, s0, s1);
        proof {
            assert(ls.skip(j as int)[0] == ls[j as int]);
            assert(ls.skip(j as int).drop_first() =~= ls.skip(j + 1));
        }
        if !in_drawer {
            if a == b || starts_with_str(&copy_range(&v, a, b), "#+") {
            } else if eq_range(&v, a, b, &str_chars(":PROPERTIES:")) {
                in_drawer = true;
            } else {
                proof {
                    assert(before + Seq::<(Seq<char>, Seq<char>)>::empty() =~= before);
                }
                return out;
            }
        } else if eq_range(&v, a, b, &str_chars(":END:")) {
            proof {
                assert(before + Seq::<(Seq<char>, Seq<char>)>::empty() =~= before);
            }
            return out;
        } else {
            match property_pair_bounds(&v, s0, s1) {
                Some((k0, k1, x, y)) => {
                    out.push((string_of(&v, k0, k1), string_of(&v, x, y)));
                    proof {
                        let kv = (v@.subrange(k0 as int, k1 as int), v@.subrange(x as int, y as int));
                        assert(out@.map_values(|p: (String, String)| (p.0@, p.1@)) =~= before.push(kv));
                        assert(before.push(kv) + properties_scan(ls.skip(j + 1), true) =~= before + (
                        seq![kv] + properties_scan(ls.skip(j + 1), true)));
                    }
                },
                None => {},
            }
        }
        j = j + 1;
    }
    proof {
        assert(ls.skip(j as int) =~= Seq::<Seq<char>>::empty());
        assert(out@.map_values(|p: (String, String)| (p.0@, p.1@)) + Seq::<(Seq<char>, Seq<char>)>::empty()
            =~= out@.map_values(|p: (String, String)| (p.0@, p.1@)));
    }
    out
}

/// Bounds of the key and the value of the property line `v[s0..s1]`.
fn property_pair_bounds(v: &Vec<char>, s0: usize, s1: usize) -> (r: Option<(usize, usize, usize, usize)>)
    requires
        s0 <= s1 <= v.len(),
    ensures
        r matches Some(p) ==> p.0 <= p.1 <= v@.len() && p.2 <= p.3 <= v@.len() && property_pair(
            v@.subrange(s0 as int, s1 as int),
        ) == Some((v@.subrange(p.0 as int, p.1 as int), v@.subrange(p.2 as int, p.3 as int))),
        r is None ==> property_pair(v@.subrange(s0 as int, s1 as int)) is None,
{
    let (a, _b) = trim_bounds(v, s0, s1);
    if a >= s1 || v[a] != ':' {
        return None;
    }
    let rest = copy_range(v, a + 1, s1);
    let colon = vec![':'];
    proof {
        assert(colon@ =~= seq![':']);
        assert(rest@ =~= v@.subrange(a as int, s1 as int).skip(1));
    }
    match find_exec(&rest, &colon) {
        Some(p) => {
            let (x, y) = trim_bounds(v, a + 2 + p, s1);
            proof {
                assert(v@.subrange(a + 1, a + 1 + p) =~= rest@.take(p as int));
                assert(v@.subrange(a + 2 + p, s1 as int) =~= rest@.skip(p + 1));
            }
            Some((a + 1, a + 1 + p, x, y))
        },
        None => None,
    }
}

// ---------------------------------------------------------------------------
// Sections
// ---------------------------------------------------------------------------

/// A headline line: stars, then a space.
pub open spec fn is_headline(t: Seq<char>) -> bool {
    let n = star_run(t);
    n > 0 && n < t.len() && t[n as int] == ' '
}

/// The scan of `extract_section`: `Some(text)` once the top-level heading
/// has been met, the text being its body lines (drawers, `#+` and blank
/// lines left out) joined by spaces, up to the next headline.
pub open spec fn section_scan(
    ls: Seq<Seq<char>>,
    heading: Seq<char>,
    in_target: bool,
    in_drawer: bool,
    buf: Seq<char>,
) -> Option<Seq<char>>
    decreases ls.len(),
{
    if ls.len() == 0 {
        if in_target {
            Some(buf)
        } else {
            None
        }
    } else {
        let t = trim(ls[0]);
        let rest = ls.drop_first();
        if is_headline(t) {
            if in_target {
                Some(buf)
            } else if star_run(t) == 1 && trim(t.skip(2)) == heading {
                section_scan(rest, heading, true, false, buf)
            } else {
                section_scan(rest, heading, false, in_drawer, buf)
            }
        } else if !in_target {
            section_scan(rest, heading, false, in_drawer, buf)
        } else if is_drawer_line(t) && drawer_name(t) == "END"@ {
            section_scan(rest, heading, true, false, buf)
        } else if is_drawer_line(t) && all_upper_or_underscore(drawer_name(t)) {
            section_scan(rest, heading, true, true, buf)
        } else if in_drawer || starts_with(t, "#+"@) || t.len() == 0 {
            section_scan(rest, heading, true, in_drawer, buf)
        } else {
            section_scan(rest, heading, true, in_drawer, join_space(buf) + t)
        }
    }
}

/// The body of the top-level section `* heading`, as one line of text.
pub fn extract_section(content: &str, heading: &str) -> (r: Option<String>)
    ensures
        opt_view(r) == section_scan(lines(content@), heading@, false, false, Seq::empty()),
{
    let v = str_chars(content);
    let hv = str_chars(heading);
    let endv = str_chars("END");
    let spans = line_spans_exec(&v);
    let ghost ls = lines(v@);
    let mut buf: Vec<char> = Vec::new();
    let mut in_target = false;
    let mut in_drawer = false;
    let mut j: usize = 0;
    proof {
        assert(ls.skip(0) =~= ls);
    }
    while j < spans.len()
        invariant
            j <= spans@.len(),
            ls == lines(v@),
            v@ == content@,
            hv@ == heading@,
            endv@ == "END"@,
            spans@.len() == ls.len(),
            forall|k: int|
                0 <= k < spans@.len() ==> (#[trigger] spans@[k]).0 <= spans@[k].1 <= v@.len()
                    && ls[k] == v@.subrange(spans@[k].0 as int, spans@[k].1 as int),
            section_scan(ls, heading@, false, false, Seq::empty()) == section_scan(
                ls.skip(j as int),
                heading@,
                in_target,
                in_drawer,
                buf@,
            ),
        decreases spans@.len() - j,
    {
        let (s0, s1) = spans[j];
        let (a, b) = trim_bounds(&v, s0, s1);
        let t = copy_range(&v, a, b);
        proof {
            assert(ls.skip(j as int)[0] == ls[j as int]);
            assert(ls.skip(j as int).drop_first() =~= ls.skip(j + 1));
        }
        let n = star_run_exec(&t, 0, t.len());
        proof {
            assert(t@.subrange(0, t@.len() as int) =~= t@);
        }
        proof {
            assert(t@ == trim(ls[j as int]));
            assert(n == star_run(t@));
        }
        if n > 0 && n < t.len() && t[n] == ' ' {
            if in_target {
                proof {
                    assert(is_headline(t@));
                    assert(section_scan(ls.skip(j as int), heading@, in_target, in_drawer, buf@)
                        == Some(buf@));
                }
                return Some(string_of_all(&buf));
            }
            if n == 1 {
                let (x, y) = trim_bounds(&t, 2, t.len());
                proof {
                    assert(t@.subrange(2, t@.len() as int) =~= t@.skip(2));
                }
                if eq_range(&t, x, y, &hv) {
                    in_target = true;
                    in_drawer = false;
                }
            }
        } else if !in_target {
        } else if is_drawer_line_exec(&t) && eq_range(&t, 1, t.len() - 1, &endv) {
            in_drawer = false;
        } else if is_drawer_line_exec(&t) && all_upper_or_underscore_range(&t, 1, t.len() - 1) {
            in_drawer = true;
        } else if in_drawer || starts_with_str(&t, "#+") || t.len() == 0 {
        } else {
            join_space_exec(&mut buf);
            push_all(&mut buf, &t);
        }
        j = j + 1;
    }
    proof {
        assert(ls.skip(j as int) =~= Seq::<Seq<char>>::empty());
    }
    if in_target {
        Some(string_of_all(&buf))
    } else {
        None
    }
}

// ---------------------------------------------------------------------------
// Links and fields
// ---------------------------------------------------------------------------

/// `[[target][text]]` gives `(target, text)`, `[[target]]` gives
/// `(target, target)`, after trimming; anything else gives `None`.
pub open spec fn org_link_spec(s: Seq<char>) -> Option<(Seq<char>, Seq<char>)> {
    let t = trim(s);
    if starts_with(t, "[["@) && ends_with(t.skip(2), "]]"@) {
        let inner = t.subrange(2, t.len() - 2);
        match find(inner, "]["@) {
            Some(p) => Some((inner.take(p), inner.skip(p + 2))),
            None => Some((inner, inner)),
        }
    } else {
        None
    }
}

pub fn parse_org_link(input: &str) -> (r: Option<(String, String)>)
    ensures
        r matches Some(p) ==> org_link_spec(input@) == Some((p.0@, p.1@)),
        r is None ==> org_link_spec(input@) is None,
{
    let v = str_chars(input);
    let n: usize = v.len();
    let (a, b) = trim_bounds(&v, 0, n);
    let t = copy_range(&v, a, b);
    proof {
        assert(v@.subrange(0, n as int) =~= v@);
        reveal_strlit("[[");
        reveal_strlit("]]");
        reveal_strlit("][");
    }
    if !starts_with_str(&t, "[[") {
        return None;
    }
    let t2 = copy_range(&t, 2, t.len());
    proof {
        assert(t2@ =~= t@.skip(2));
    }
    if !ends_with_exec(&t2, &str_chars("]]")) {
        return None;
    }
    let inner = copy_range(&t, 2, t.len() - 2);
    match find_exec(&inner, &str_chars("][")) {
        Some(p) => {
            let url = string_of(&inner, 0, p);
            let text = string_of(&inner, p + 2, inner.len());
            proof {
                assert(inner@.subrange(0, p as int) =~= inner@.take(p as int));
                assert(inner@.subrange(p + 2, inner@.len() as int) =~= inner@.skip(p + 2));
            }
            Some((url, text))
        },
        None => {
            let url = string_of_all(&inner);
            let text = string_of_all(&inner);
            Some((url, text))
        },
    }
}

/// The value of a list field line `- Key: value` (stars around the key or
/// colon allowed, as in `- *Key:* value`).
pub open spec fn field_value(line: Seq<char>, key: Seq<char>) -> Option<Seq<char>> {
    let t = trim(line);
    if !starts_with(t, "- "@) {
        None
    } else {
        let r1 = skip_char(t.skip(2), '*');
        if !starts_with(r1, key) {
            None
        } else {
            let r2 = skip_char(r1.skip(key.len() as int), '*');
            if !starts_with(r2, ":"@) {
                None
            } else {
                let r3 = skip_char(r2.skip(1), '*');
                if !starts_with(r3, " "@) {
                    None
                } else {
                    Some(trim(r3.skip(1)))
                }
            }
        }
    }
}

/// The first field value found, line by line.
pub open spec fn field_scan(ls: Seq<Seq<char>>, key: Seq<char>) -> Option<Seq<char>>
    decreases ls.len(),
{
    if ls.len() == 0 {
        None
    } else {
        match field_value(ls[0], key) {
            Some(v) => Some(v),
            None => field_scan(ls.drop_first(), key),
        }
    }
}

fn field_value_bounds(v: &Vec<char>, s0: usize, s1: usize, key: &Vec<char>) -> (r: Option<
    (usize, usize),
>)
    requires
        s0 <= s1 <= v.len(),
    ensures
        r matches Some(p) ==> p.0 <= p.1 <= v@.len() && field_value(
            v@.subrange(s0 as int, s1 as int),
            key@,
        ) == Some(v@.subrange(p.0 as int, p.1 as int)),
        r is None ==> field_value(v@.subrange(s0 as int, s1 as int), key@) is None,
{
    proof {
        reveal_strlit("- ");
        reveal_strlit(":");
        reveal_strlit(" ");
    }
    let (a, b) = trim_bounds(v, s0, s1);
    if !(b - a >= 2 && v[a] == '-' && v[a + 1] == ' ') {
        proof {
            let t = v@.subrange(a as int, b as int);
            if starts_with(t, "- "@) {
                assert(t.subrange(0, 2)[0] == t[0]);
                assert(t.subrange(0, 2)[1] == t[1]);
            }
        }
        return None;
    }
    proof {
        assert(v@.subrange(a as int, b as int).subrange(0, 2) =~= "- "@);
        assert(v@.subrange(a as int, b as int).skip(2) =~= v@.subrange(a + 2, b as int));
    }
    let i1 = skip_char_exec(v, a + 2, b, '*');
    if !(key.len() <= b - i1 && matches_at_exec(v, key, i1)) {
        proof {
            let r1 = v@.subrange(i1 as int, b as int);
            if starts_with(r1, key@) {
                assert(r1.subrange(0, key@.len() as int) =~= v@.subrange(
                    i1 as int,
                    i1 + key@.len(),
                ));
            }
        }
        return None;
    }
    proof {
        let r1 = v@.subrange(i1 as int, b as int);
        assert(r1.subrange(0, key@.len() as int) =~= v@.subrange(i1 as int, i1 + key@.len()));
        assert(r1.skip(key@.len() as int) =~= v@.subrange(i1 + key@.len(), b as int));
    }
    let i2 = skip_char_exec(v, i1 + key.len(), b, '*');
    if !(i2 < b && v[i2] == ':') {
        proof {
            let r2 = v@.subrange(i2 as int, b as int);
            if starts_with(r2, ":"@) {
                assert(r2.subrange(0, 1)[0] == r2[0]);
            }
        }
        return None;
    }
    proof {
        let r2 = v@.subrange(i2 as int, b as int);
        assert(r2.subrange(0, 1) =~= ":"@);
        assert(r2.skip(1) =~= v@.subrange(i2 + 1, b as int));
    }
    let i3 = skip_char_exec(v, i2 + 1, b, '*');
    if !(i3 < b && v[i3] == ' ') {
        proof {
            let r3 = v@.subrange(i3 as int, b as int);
            if starts_with(r3, " "@) {
                assert(r3.subrange(0, 1)[0] == r3[0]);
            }
        }
        return None;
    }
    proof {
        let r3 = v@.subrange(i3 as int, b as int);
        assert(r3.subrange(0, 1) =~= " "@);
        assert(r3.skip(1) =~= v@.subrange(i3 + 1, b as int));
    }
    let (x, y) = trim_bounds(v, i3 + 1, b);
    Some((x, y))
}

/// The value of the first `- Key: value` line for `key`.
pub fn parse_field<'a>(content: &'a str, key: &str) -> (r: Option<&'a str>)
    ensures
        r matches Some(t) ==> field_scan(lines(content@), key@) == Some(t@),
        r is None ==> field_scan(lines(content@), key@) is None,
{
    let v = str_chars(content);
    let kv = str_chars(key);
    let spans = line_spans_exec(&v);
    let ghost ls = lines(v@);
    let mut j: usize = 0;
    proof {
        assert(ls.skip(0) =~= ls);
    }
    while j < spans.len()
        invariant
            j <= spans@.len(),
            ls == lines(v@),
            v@ == content@,
            kv@ == key@,
            spans@.len() == ls.len(),
            forall|k: int|
                0 <= k < spans@.len() ==> (#[trigger] spans@[k]).0 <= spans@[k].1 <= v@.len()
                    && ls[k] == v@.subrange(spans@[k].0 as int, spans@[k].1 as int),
            field_scan(ls, key@) == field_scan(ls.skip(j as int), key@),
        decreases spans@.len() - j,
    {
        let (s0, s1) = spans[j];
        proof {
            assert(ls.skip(j as int)[0] == ls[j as int]);
            assert(ls.skip(j as int).drop_first() =~= ls.skip(j + 1));
        }
        match field_value_bounds(&v, s0, s1, &kv) {
            Some((x, y)) => {
                return Some(content.substring_char(x, y));
            },
            None => {},
        }
        j = j + 1;
    }
    proof {
        assert(ls.skip(j as int) =~= Seq::<Seq<char>>::empty());
    }
    None
}

// ---------------------------------------------------------------------------
// Reading time and growth stage
// ---------------------------------------------------------------------------

/// Minutes to read a text: its UTF-8 length over five (letters a word)
/// over two hundred (words a minute), at least one.
pub open spec fn reading_minutes(content: Seq<char>) -> int {
    let m = encode_utf8(content).len() as int / 5 / 200;
    if m < 1 {
        1
    } else {
        m
    }
}

pub fn reading_time(content: &str) -> (r: usize)
    ensures
        r == reading_minutes(content@),
{
    let n: usize = content.as_bytes().len();
    let words: usize = n / 5;
    let m: usize = words / 200;
    if m < 1 {
        1
    } else {
        m
    }
}

/// The growth stage of a note of a given length: `(key, emoji, label)`.
pub open spec fn growth_stage_spec(content_len: usize) -> (Seq<char>, Seq<char>, Seq<char>) {
    if content_len >= 2000 {
        ("evergreen"@, "\u{1F332}"@, "Evergreen"@)
    } else if content_len >= 500 {
        ("budding"@, "\u{1F33F}"@, "Budding"@)
    } else {
        ("seedling"@, "\u{1F331}"@, "Seedling"@)
    }
}

pub fn growth_stage(content_len: usize) -> (r: (&'static str, &'static str, &'static str))
    ensures
        (r.0@, r.1@, r.2@) == growth_stage_spec(content_len),
{
    if content_len >= 2000 {
        ("evergreen", "\u{1F332}", "Evergreen")
    } else if content_len >= 500 {
        ("budding", "\u{1F33F}", "Budding")
    } else {
        ("seedling", "\u{1F331}", "Seedling")
    }
}

/// Emphasis closes at the next occurrence of its marker: a marker, a run
/// without that marker which neither starts nor ends with a space, and the
/// marker again lose the two markers, whatever follows.
pub proof fn lemma_emphasis_closes_at_next_marker(m: char, w: Seq<char>, rest: Seq<char>)
    requires
        is_marker(m),
        w.len() > 0,
        !w.contains(m),
        w[0] != ' ',
        w.last() != ' ',
    ensures
        strip_markup(seq![m] + w + seq![m] + rest) == w + strip_markup(rest),
{
    let s = seq![m] + w + seq![m] + rest;
    let t = s.drop_first();
    assert(t =~= w + seq![m] + rest);
    assert(crate::chars::matches_at(t, seq![m], w.len() as int)) by {
        assert(t.subrange(w.len() as int, w.len() as int + 1) =~= seq![m]);
    }
    assert forall|j: int| 0 <= j < w.len() implies !crate::chars::matches_at(t, seq![m], j) by {
        if crate::chars::matches_at(t, seq![m], j) {
            assert(t.subrange(j, j + 1)[0] == t[j]);
            assert(t[j] == w[j]);
            assert(w.contains(w[j]));
        }
    }
    crate::denote::lemma_find_is(t, seq![m], w.len() as int);
    assert(s[0] == m);
    assert(s[1] == w[0]);
    assert(s[w.len() as int] == w.last());
    assert(link_end(s) is None);
    assert(emphasis_end(s) == Some(w.len() as int));
    assert(s.subrange(1, w.len() as int + 1) =~= w);
    assert(s.skip(w.len() as int + 2) =~= rest);
}

/// A character of plain prose: a letter, a digit, a space, `.` or `,`.
pub open spec fn plain_char(c: char) -> bool {
    crate::chars::is_lower(c) || is_upper(c) || crate::chars::is_digit(c) || c == ' ' || c == '.'
        || c == ','
}

/// A line of plain prose: plain characters, not starting or ending with a
/// space.
pub open spec fn plain_line(l: Seq<char>) -> bool {
    &&& l.len() > 0
    &&& forall|i: int| 0 <= i < l.len() ==> plain_char(#[trigger] l[i])
    &&& l[0] != ' '
    &&& l.last() != ' '
}

proof fn lemma_plain_ascii(s: Seq<char>)
    requires
        forall|i: int| 0 <= i < s.len() ==> plain_char(#[trigger] s[i]),
    ensures
        byte_len(s) == s.len(),
{
    assert forall|i: int| 0 <= i < s.len() implies (s[i] as u32) < 0x80 by {
        assert(plain_char(s[i]));
    }
    crate::chars::lemma_byte_len_ascii(s);
}

proof fn lemma_strip_plain(s: Seq<char>)
    requires
        forall|i: int| 0 <= i < s.len() ==> plain_char(#[trigger] s[i]),
    ensures
        strip_markup(s) == s,
    decreases s.len(),
{
    if s.len() > 0 {
        assert(plain_char(s[0]));
        assert(link_end(s) is None);
        assert(emphasis_end(s) is None);
        let t = s.drop_first();
        assert forall|i: int| 0 <= i < t.len() implies plain_char(#[trigger] t[i]) by {
            assert(t[i] == s[i + 1]);
        }
        lemma_strip_plain(t);
        assert(seq![s[0]] + t =~= s);
    }
}

proof fn lemma_replace_absent(s: Seq<char>, pat: Seq<char>, rep: Seq<char>)
    requires
        pat.len() > 0,
        forall|i: int| 0 <= i < s.len() ==> #[trigger] s[i] != pat[0],
    ensures
        replace_all(s, pat, rep) == s,
    decreases s.len(),
{
    if s.len() > 0 {
        if starts_with(s, pat) {
            assert(s.subrange(0, pat.len() as int)[0] == s[0]);
        }
        let t = s.drop_first();
        assert forall|i: int| 0 <= i < t.len() implies #[trigger] t[i] != pat[0] by {
            assert(t[i] == s[i + 1]);
        }
        lemma_replace_absent(t, pat, rep);
        assert(seq![s[0]] + t =~= s);
    }
}

proof fn lemma_line_end_at(s: Seq<char>, i: int, k: int)
    requires
        0 <= i <= k <= s.len(),
        forall|j: int| i <= j < k ==> s[j] != '\n',
        k == s.len() || s[k] == '\n',
    ensures
        crate::chars::line_end(s, i) == k,
    decreases k - i,
{
    if i < k {
        lemma_line_end_at(s, i + 1, k);
    }
}

proof fn lemma_lines_of_two(l1: Seq<char>, l2: Seq<char>)
    requires
        plain_line(l1),
        plain_line(l2),
    ensures
        lines(l1 + seq!['\n'] + l2) == seq![l1, l2],
{
    let s = l1 + seq!['\n'] + l2;
    let e = l1.len() as int;
    assert forall|j: int| 0 <= j < e implies s[j] != '\n' by {
        assert(s[j] == l1[j]);
        assert(plain_char(l1[j]));
    }
    assert(s[e] == '\n');
    lemma_line_end_at(s, 0, e);
    assert forall|j: int| e + 1 <= j < s.len() implies s[j] != '\n' by {
        assert(s[j] == l2[j - e - 1]);
        assert(plain_char(l2[j - e - 1]));
    }
    lemma_line_end_at(s, e + 1, s.len() as int);
    assert(s[e - 1] == l1.last());
    assert(crate::chars::content_end(s, 0, e) == e);
    assert(crate::chars::line_spans_from(s, e + 1) == seq![(e + 1, s.len() as int)]);
    assert(crate::chars::line_spans(s) == seq![(0, e)] + seq![(e + 1, s.len() as int)]);
    assert(s.subrange(0, e) =~= l1);
    assert(s.subrange(e + 1, s.len() as int) =~= l2);
    assert(lines(s) =~= seq![l1, l2]);
}

proof fn lemma_plain_not_prefixed(l: Seq<char>, p: Seq<char>)
    requires
        plain_line(l),
        p.len() > 0,
        !plain_char(p[p.len() - 1]) || (p[0] != l[0]),
    ensures
        !starts_with(l, p),
{
    if starts_with(l, p) {
        assert(l.subrange(0, p.len() as int)[p.len() - 1] == l[p.len() - 1]);
        assert(l.subrange(0, p.len() as int)[0] == l[0]);
        assert(plain_char(l[p.len() - 1]));
    }
}

proof fn lemma_plain_step(l: Seq<char>, buf: Seq<char>, max: nat)
    requires
        plain_line(l),
    ensures
        excerpt_step(l, false, buf, max) == (
            false,
            join_space(buf) + l,
            byte_len(join_space(buf) + l) >= max,
        ),
{
    assert(plain_char(l[0]));
    assert(plain_char(l.last()));
    assert(trim_start(l) == l);
    assert(crate::chars::trim_end(l) == l);
    assert(trim(l) == l);
    reveal_strlit("#+");
    reveal_strlit(":");
    reveal_strlit(": ");
    reveal_strlit("- ");
    reveal_strlit("SCHEDULED:");
    reveal_strlit("DEADLINE:");
    reveal_strlit("CLOSED:");
    reveal_strlit("CLOCK:");
    lemma_plain_not_prefixed(l, "#+"@);
    lemma_plain_not_prefixed(l, ":"@);
    lemma_plain_not_prefixed(l, "- "@);
    lemma_plain_not_prefixed(l, "SCHEDULED:"@);
    lemma_plain_not_prefixed(l, "DEADLINE:"@);
    lemma_plain_not_prefixed(l, "CLOSED:"@);
    lemma_plain_not_prefixed(l, "CLOCK:"@);
    assert(!is_drawer_line(l));
    assert(star_run(l) == 0);
    assert(headline_text(l) is None);
    assert(prose_of(l) == l);
}

/// Consecutive prose lines of an excerpt are joined by one space: for two
/// lines of plain prose (letters, digits, spaces, `.` and `,`) that fit in
/// the limit, the excerpt of the two lines is the first, a space, and the
/// second.
pub proof fn lemma_excerpt_joins_lines_with_a_space(l1: Seq<char>, l2: Seq<char>, max: nat)
    requires
        plain_line(l1),
        plain_line(l2),
        l1.len() + 1 + l2.len() < max,
    ensures
        excerpt_spec(l1 + seq!['\n'] + l2, max) == l1 + seq![' '] + l2,
{
    let b = l1 + seq![' '] + l2;
    lemma_lines_of_two(l1, l2);
    lemma_plain_step(l1, Seq::empty(), max);
    assert(join_space(Seq::<char>::empty()) + l1 =~= l1);
    lemma_plain_ascii(l1);
    lemma_plain_step(l2, l1, max);
    assert(join_space(l1) + l2 =~= b);
    assert forall|i: int| 0 <= i < b.len() implies plain_char(#[trigger] b[i]) by {
        if i < l1.len() {
            assert(b[i] == l1[i]);
        } else if i > l1.len() {
            assert(b[i] == l2[i - l1.len() - 1]);
        }
    }
    lemma_plain_ascii(b);
    let ls = seq![l1, l2];
    assert(ls[0] == l1);
    assert(ls.drop_first()[0] == l2);
    assert(ls.drop_first().drop_first().len() == 0);
    assert(byte_len(l1) < max);
    assert(byte_len(b) < max);
    let rest = ls.drop_first();
    assert(excerpt_scan(rest.drop_first(), false, b, max) == b);
    assert(excerpt_step(rest[0], false, l1, max) == (false, b, false));
    assert(excerpt_scan(rest, false, l1, max) == b);
    assert(excerpt_step(ls[0], false, Seq::empty(), max) == (false, l1, false));
    assert(excerpt_scan(ls, false, Seq::empty(), max) == b);
    lemma_strip_plain(b);
    reveal_strlit("---");
    reveal_strlit("--");
    assert forall|i: int| 0 <= i < b.len() implies #[trigger] b[i] != "---"@[0] by {
        assert(plain_char(b[i]));
    }
    lemma_replace_absent(b, "---"@, seq!['\u{2014}']);
    assert forall|i: int| 0 <= i < b.len() implies #[trigger] b[i] != "--"@[0] by {
        assert(plain_char(b[i]));
    }
    lemma_replace_absent(b, "--"@, seq!['\u{2013}']);
    assert(special_strings(b) == b);
}

} // verus!
