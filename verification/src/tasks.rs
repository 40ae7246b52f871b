//! Task helpers: planning lines of org headlines.
use orgize::rowan::ast::AstNode;
use vstd::prelude::*;
use crate::chars::{
    copy_range, eq_ignore_case, eq_ignore_case_range, find, find_exec, is_digit, line_spans_exec,
    lines, rfind, rfind_exec, skip_ws_from, starts_with, starts_with_str, str_chars, trim,
    trim_bounds, trim_start,
};

verus! {

broadcast use vstd::string::group_string_axioms;

/// A planning line: `CLOSED:`, `SCHEDULED:` or `DEADLINE:` after leading
/// whitespace.
pub open spec fn is_planning_spec(s: Seq<char>) -> bool {
    let t = trim_start(s);
    starts_with(t, "CLOSED:"@) || starts_with(t, "SCHEDULED:"@) || starts_with(t, "DEADLINE:"@)
}

pub fn is_planning_text(text: &str) -> (r: bool)
    ensures
        r == is_planning_spec(text@),
{
    let v = str_chars(text);
    let k = skip_ws_from(&v, 0);
    let t = copy_range(&v, k, v.len());
    proof {
        assert(v@.skip(0) =~= v@);
        assert(v@.subrange(k as int, v@.len() as int) =~= v@.skip(k as int));
    }
    starts_with_str(&t, "CLOSED:") || starts_with_str(&t, "SCHEDULED:") || starts_with_str(
        &t,
        "DEADLINE:",
    )
}

// ---------------------------------------------------------------------------
// Clocked time
// ---------------------------------------------------------------------------

#[verifier::external_type_specification]
#[verifier::external_body]
pub struct ExHeadline(orgize::ast::Headline);

/// The value of a run of decimal digits.
pub open spec fn digits_value(d: Seq<char>) -> nat
    decreases d.len(),
{
    if d.len() == 0 {
        0
    } else {
        digits_value(d.drop_last()) * 10 + (d.last() as nat - 48) as nat
    }
}

/// `str::parse::<u64>`: an optional `+`, then one digit or more, within
/// `u64`.
pub open spec fn parse_u64_spec(s: Seq<char>) -> Option<nat> {
    let d = unsigned_part(s);
    if d.len() == 0 || !all_digits(d) {
        None
    } else if digits_value(d) > u64::MAX {
        None
    } else {
        Some(digits_value(d))
    }
}

/// The text without one leading `+`.
pub open spec fn unsigned_part(s: Seq<char>) -> Seq<char> {
    if s.len() > 0 && s[0] == '+' {
        s.skip(1)
    } else {
        s
    }
}

pub open spec fn all_digits(d: Seq<char>) -> bool {
    forall|i: int| 0 <= i < d.len() ==> is_digit(#[trigger] d[i])
}

/// The text after the last `=>` of a line (the whole line without one).
pub open spec fn after_arrow(line: Seq<char>) -> Seq<char> {
    match rfind(line, "=>"@) {
        Some(k) => line.skip(k + 2),
        None => line,
    }
}

/// The minutes a `CLOCK:` line of a logbook records (`=> H:MM`).
pub open spec fn line_minutes(line: Seq<char>) -> nat {
    let t = trim(after_arrow(line));
    match find(t, seq![':']) {
        Some(p) => match (parse_u64_spec(trim(t.take(p))), parse_u64_spec(trim(t.skip(p + 1)))) {
            (Some(h), Some(m)) => h * 60 + m,
            _ => 0,
        },
        None => 0,
    }
}

pub open spec fn lines_minutes(ls: Seq<Seq<char>>) -> nat
    decreases ls.len(),
{
    if ls.len() == 0 {
        0
    } else {
        lines_minutes(ls.drop_last()) + line_minutes(ls.last())
    }
}

/// The minutes clocked in the `LOGBOOK` drawers among `(name, text)`
/// drawers.
pub open spec fn clock_total(ds: Seq<(Seq<char>, Seq<char>)>) -> nat
    decreases ds.len(),
{
    if ds.len() == 0 {
        0
    } else {
        clock_total(ds.drop_last()) + if eq_ignore_case(ds.last().0, "LOGBOOK"@) {
            lines_minutes(lines(ds.last().1))
        } else {
            0
        }
    }
}

fn parse_u64_range(v: &Vec<char>, a: usize, b: usize) -> (r: Option<u64>)
    requires
        a <= b <= v.len(),
    ensures
        match r {
            Some(x) => parse_u64_spec(v@.subrange(a as int, b as int)) == Some(x as nat),
            None => parse_u64_spec(v@.subrange(a as int, b as int)) is None,
        },
{
    let ghost s = v@.subrange(a as int, b as int);
    let start: usize = if a < b && v[a] == '+' {
        a + 1
    } else {
        a
    };
    let ghost d = v@.subrange(start as int, b as int);
    proof {
        if a < b && v@[a as int] == '+' {
            assert(s.skip(1) =~= d);
        } else {
            assert(s =~= d);
        }
        assert(d == unsigned_part(s));
    }
    if start == b {
        return None;
    }
    let mut acc: u64 = 0;
    let mut i: usize = start;
    proof {
        assert(d.take(0) =~= Seq::<char>::empty());
    }
    while i < b
        invariant
            start <= i <= b <= v.len(),
            d == v@.subrange(start as int, b as int),
            s == v@.subrange(a as int, b as int),
            d == unsigned_part(s),
            forall|j: int| 0 <= j < i - start ==> is_digit(#[trigger] d[j]),
            acc as nat == digits_value(d.take(i - start)),
        decreases b - i,
    {
        let c = v[i];
        proof {
            assert(d[i - start] == c);
        }
        if !('0' <= c && c <= '9') {
            proof {
                assert(!is_digit(d[i - start]));
                assert(!all_digits(d));
                assert(parse_u64_spec(s) is None);
            }
            return None;
        }
        proof {
            assert(d.take(i - start + 1).drop_last() =~= d.take(i - start));
            assert(d.take(i - start + 1).last() == c);
        }
        let digit = ((c as u32) - 48) as u64;
        let next = match acc.checked_mul(10) {
            Some(t) => t.checked_add(digit),
            None => None,
        };
        match next {
            Some(n) => {
                acc = n;
            },
            None => {
                proof {
                    assert(digits_value(d.take(i - start + 1)) == digits_value(d.take(i - start)) * 10
                        + (c as nat - 48));
                    assert(digit == c as nat - 48);
                    assert(acc as nat * 10 + digit > u64::MAX);
                    assert(digits_value(d.take(i - start + 1)) > u64::MAX);
                    if all_digits(d) {
                        lemma_digits_grow(d, i - start + 1);
                        assert(digits_value(d) > u64::MAX);
                    }
                    assert(parse_u64_spec(s) is None);
                }
                return None;
            },
        }
        i = i + 1;
    }
    proof {
        assert(d.take(d.len() as int) =~= d);
    }
    Some(acc)
}

/// A longer digit run is worth at least as much as its prefix.
proof fn lemma_digits_grow(d: Seq<char>, n: int)
    requires
        0 <= n <= d.len(),
        forall|i: int| 0 <= i < d.len() ==> is_digit(#[trigger] d[i]),
    ensures
        digits_value(d.take(n)) <= digits_value(d),
    decreases d.len() - n,
{
    if n < d.len() {
        lemma_digits_grow(d, n + 1);
        assert(d.take(n + 1).drop_last() =~= d.take(n));
    } else {
        assert(d.take(n) =~= d);
    }
}

proof fn lemma_lines_minutes_mono(ls: Seq<Seq<char>>, k: int)
    requires
        0 <= k <= ls.len(),
    ensures
        lines_minutes(ls.take(k)) <= lines_minutes(ls),
    decreases ls.len() - k,
{
    if k < ls.len() {
        lemma_lines_minutes_mono(ls, k + 1);
        assert(ls.take(k + 1).drop_last() =~= ls.take(k));
    } else {
        assert(ls.take(k) =~= ls);
    }
}

proof fn lemma_clock_total_mono(ds: Seq<(Seq<char>, Seq<char>)>, k: int)
    requires
        0 <= k <= ds.len(),
    ensures
        clock_total(ds.take(k)) <= clock_total(ds),
    decreases ds.len() - k,
{
    if k < ds.len() {
        lemma_clock_total_mono(ds, k + 1);
        assert(ds.take(k + 1).drop_last() =~= ds.take(k));
    } else {
        assert(ds.take(k) =~= ds);
    }
}

/// The minutes the line `v[a..b]` records.
fn line_minutes_exec(v: &Vec<char>, a: usize, b: usize) -> (r: u128)
    requires
        a <= b <= v.len(),
    ensures
        r == line_minutes(v@.subrange(a as int, b as int)),
{
    proof {
        reveal_strlit("=>");
    }
    let line = copy_range(v, a, b);
    let arrow = str_chars("=>");
    let from: usize = match rfind_exec(&line, &arrow) {
        Some(k) => k + 2,
        None => 0,
    };
    proof {
        assert(line@.skip(0) =~= line@);
        assert(line@.subrange(from as int, line@.len() as int) =~= after_arrow(line@));
    }
    let (x, y) = trim_bounds(&line, from, line.len());
    let t = copy_range(&line, x, y);
    let colon = vec![':'];
    proof {
        assert(colon@ =~= seq![':']);
    }
    match find_exec(&t, &colon) {
        Some(p) => {
            let (h0, h1) = trim_bounds(&t, 0, p);
            let (m0, m1) = trim_bounds(&t, p + 1, t.len());
            proof {
                assert(t@.subrange(0, p as int) =~= t@.take(p as int));
                assert(t@.subrange(p + 1, t@.len() as int) =~= t@.skip(p + 1));
            }
            match (parse_u64_range(&t, h0, h1), parse_u64_range(&t, m0, m1)) {
                (Some(h), Some(m)) => (h as u128) * 60 + (m as u128),
                _ => 0,
            }
        },
        None => 0,
    }
}

/// The minutes clocked in the `LOGBOOK` drawers among `(name, text)`
/// drawers; `None` where the total does not fit in a `u64` (where summing
/// overflows).
pub fn clock_minutes(drawers: &Vec<(String, String)>) -> (r: Option<u64>)
    ensures
        match r {
            Some(x) => clock_total(drawers@.map_values(|d: (String, String)| (d.0@, d.1@)))
                == x as nat,
            None => clock_total(drawers@.map_values(|d: (String, String)| (d.0@, d.1@)))
                > u64::MAX,
        },
{
    proof {
        reveal_strlit("LOGBOOK");
    }
    let ghost ds = drawers@.map_values(|d: (String, String)| (d.0@, d.1@));
    let logbook = str_chars("LOGBOOK");
    let mut acc: u128 = 0;
    let mut i: usize = 0;
    proof {
        assert(ds.take(0) =~= Seq::<(Seq<char>, Seq<char>)>::empty());
    }
    while i < drawers.len()
        invariant
            i <= drawers@.len(),
            ds == drawers@.map_values(|d: (String, String)| (d.0@, d.1@)),
            logbook@ == "LOGBOOK"@,
            acc == clock_total(ds.take(i as int)),
            acc <= u64::MAX,
        decreases drawers@.len() - i,
    {
        let name = str_chars(drawers[i].0.as_str());
        proof {
            assert(ds.take(i + 1).drop_last() =~= ds.take(i as int));
            assert(ds.take(i + 1).last() == (drawers@[i as int].0@, drawers@[i as int].1@));
            assert(name@.subrange(0, name@.len() as int) =~= name@);
        }
        if eq_ignore_case_range(&name, 0, name.len(), &logbook) {
            let text = str_chars(drawers[i].1.as_str());
            let spans = line_spans_exec(&text);
            let ghost ls = lines(text@);
            let ghost base = acc;
            let mut j: usize = 0;
            proof {
                assert(ls.take(0) =~= Seq::<Seq<char>>::empty());
                assert(spans@.len() == ls.len()) by {
                    assert(ls.len() == crate::chars::line_spans(text@).len());
                }
            }
            while j < spans.len()
                invariant
                    j <= spans@.len(),
                    spans@.len() == ls.len(),
                    ls == lines(text@),
                    forall|k: int|
                        0 <= k < spans@.len() ==> (#[trigger] spans@[k]).0 <= spans@[k].1
                            <= text@.len() && ls[k] == text@.subrange(
                            spans@[k].0 as int,
                            spans@[k].1 as int,
                        ),
                    base == clock_total(ds.take(i as int)),
                    acc == base + lines_minutes(ls.take(j as int)),
                    acc <= u64::MAX,
                    i < drawers@.len(),
                    ds == drawers@.map_values(|d: (String, String)| (d.0@, d.1@)),
                    text@ == drawers@[i as int].1@,
                    eq_ignore_case(ds[i as int].0, "LOGBOOK"@),
                decreases spans@.len() - j,
            {
                let (s0, s1) = spans[j];
                let w = line_minutes_exec(&text, s0, s1);
                proof {
                    assert(ls.take(j + 1).drop_last() =~= ls.take(j as int));
                    assert(ls.take(j + 1).last() == ls[j as int]);
                }
                if w > u64::MAX as u128 - acc {
                    proof {
                        lemma_lines_minutes_mono(ls, j + 1);
                        assert(ds.take(i + 1).drop_last() =~= ds.take(i as int));
                        assert(ds.take(i + 1).last() == ds[i as int]);
                        lemma_clock_total_mono(ds, i + 1);
                    }
                    return None;
                }
                acc = acc + w;
                j = j + 1;
            }
            proof {
                assert(ls.take(spans@.len() as int) =~= ls);
                assert(ds.take(i + 1).last() == ds[i as int]);
            }
        }
        i = i + 1;
    }
    proof {
        assert(ds.take(drawers@.len() as int) =~= ds);
    }
    Some(acc as u64)
}

/// The drawers that a headline's section holds, as `(name, text)` in
/// order (none without a section).
pub uninterp spec fn headline_drawers(headline: orgize::ast::Headline) -> Seq<(Seq<char>, Seq<char>)>;

/// The drawers of the headline's section as `(name, text)`, in order:
/// orgize's `Headline::section`, the section's child nodes that cast to a
/// `Drawer`, each drawer's `name` and the text of its syntax node. The
/// contract claims that they are a function of the headline.
#[verifier::external_body]
fn section_drawers(headline: &orgize::ast::Headline) -> (r: Vec<(String, String)>)
    ensures
        r@.map_values(|d: (String, String)| (d.0@, d.1@)) == headline_drawers(*headline),
{
    match headline.section() {
        Some(section) => section.syntax().children().filter_map(orgize::ast::Drawer::cast).map(
            |d| (String::from(&*d.name()), d.syntax().text().to_string()),
        ).collect(),
        None => Vec::new(),
    }
}

/// The minutes clocked under a headline: the `H:MM` after `=>` of each line
/// of its `LOGBOOK` drawers, summed; `None` where the sum overflows a `u64`.
pub fn sum_clock_minutes(headline: &orgize::ast::Headline) -> (r: Option<u64>)
    ensures
        match r {
            Some(x) => clock_total(headline_drawers(*headline)) == x as nat,
            None => clock_total(headline_drawers(*headline)) > u64::MAX,
        },
{
    let drawers = section_drawers(headline);
    clock_minutes(&drawers)
}

} // verus!
