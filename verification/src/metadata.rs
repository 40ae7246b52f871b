//! The `#+TITLE:`, `#+DATE:` and `#+FILETAGS:` keywords at the top of an
//! org note.
use vstd::prelude::*;
use crate::chars::{copy_range, eq_ignore_case, find, find_exec, find_in_suffix, line_spans_exec, lines, opt_view, skip_char, skip_char_exec, starts_with, starts_with_str, str_chars, string_of, trim, trim_bounds, eq_ignore_case_range, eq_str};
use crate::text::{all_upper_or_underscore, drawer_name, is_drawer_line};
use crate::unicode::{lowercase, to_lowercase};
use crate::models::string_views;

verus! {

broadcast use vstd::string::group_string_axioms;

/// The text without its trailing `c` characters.
pub open spec fn drop_char_end(s: Seq<char>, c: char) -> Seq<char>
    decreases s.len(),
{
    if s.len() > 0 && s.last() == c {
        drop_char_end(s.drop_last(), c)
    } else {
        s
    }
}

/// The non-empty pieces of `s` between `c` separators, in order.
pub open spec fn nonempty_pieces(s: Seq<char>, c: char) -> Seq<Seq<char>>
    decreases s.len(),
{
    match find(s, seq![c]) {
        Some(k) => if 0 <= k < s.len() {
            (if k > 0 {
                seq![s.take(k)]
            } else {
                Seq::empty()
            }) + nonempty_pieces(s.skip(k + 1), c)
        } else {
            Seq::empty()
        },
        None => if s.len() > 0 {
            seq![s]
        } else {
            Seq::empty()
        },
    }
}

/// File tags `:a:b:` as `[a, b]`.
pub open spec fn tags_of(value: Seq<char>) -> Seq<Seq<char>> {
    nonempty_pieces(drop_char_end(skip_char(value, ':'), ':'), ':')
}

/// Title, date and tags found so far, as plain text.
pub struct Keywords {
    pub title: Option<Seq<char>>,
    pub date: Option<Seq<char>>,
    pub tags: Seq<Seq<char>>,
}

/// One `#+KEY: value` line applied to the keywords found so far; the key is
/// compared after Unicode lower-casing.
pub open spec fn apply_keyword(k: Keywords, rest: Seq<char>) -> Keywords {
    match find(rest, seq![':']) {
        Some(p) => {
            let key = lowercase(trim(rest.take(p)));
            let value = trim(rest.skip(p + 1));
            if key == "title"@ {
                Keywords { title: Some(value), ..k }
            } else if key == "date"@ {
                Keywords { date: Some(value), ..k }
            } else if key == "filetags"@ {
                Keywords { tags: tags_of(value), ..k }
            } else {
                k
            }
        },
        None => k,
    }
}

/// The keyword scan: blank lines and leading drawers are passed over, `#+`
/// lines read, and the first other line ends the scan.
pub open spec fn keyword_scan(ls: Seq<Seq<char>>, k: Keywords, in_drawer: bool) -> Keywords
    decreases ls.len(),
{
    if ls.len() == 0 {
        k
    } else {
        let t = trim(ls[0]);
        let rest = ls.drop_first();
        if t.len() == 0 {
            keyword_scan(rest, k, in_drawer)
        } else if in_drawer {
            keyword_scan(rest, k, !eq_ignore_case(t, ":END:"@))
        } else if is_drawer_line(t) && !eq_ignore_case(t, ":END:"@) && all_upper_or_underscore(
            drawer_name(t),
        ) {
            keyword_scan(rest, k, true)
        } else if starts_with(t, "#+"@) {
            keyword_scan(rest, apply_keyword(k, t.skip(2)), false)
        } else {
            k
        }
    }
}

pub open spec fn metadata_spec(content: Seq<char>) -> Keywords {
    keyword_scan(
        lines(content),
        Keywords { title: None, date: None, tags: Seq::empty() },
        false,
    )
}


/// The non-empty `c`-separated pieces of `v[a..b]`.
fn nonempty_pieces_exec(v: &Vec<char>, a: usize, b: usize, c: char) -> (r: Vec<String>)
    requires
        a <= b <= v.len(),
    ensures
        string_views(r@) == nonempty_pieces(v@.subrange(a as int, b as int), c),
{
    let s = copy_range(v, a, b);
    let sep = vec![c];
    proof {
        assert(sep@ =~= seq![c]);
        assert(s@.skip(0) =~= s@);
    }
    let mut out: Vec<String> = Vec::new();
    let mut i: usize = 0;
    while i < s.len()
        invariant
            i <= s@.len(),
            sep@ == seq![c],
            string_views(out@) + nonempty_pieces(s@.skip(i as int), c) == nonempty_pieces(s@, c),
        decreases s@.len() - i,
    {
        let ghost t = s@.skip(i as int);
        let ghost old_out = out@;
        match find_in_suffix(&s, &sep, i) {
            Some(k) => {
                if k > 0 {
                    out.push(string_of(&s, i, i + k));
                }
                proof {
                    assert(t.take(k as int) =~= s@.subrange(i as int, i + k));
                    assert(t.skip(k + 1) =~= s@.skip(i + k + 1));
                    assert(string_views(out@) =~= string_views(old_out) + (if k > 0 {
                        seq![t.take(k as int)]
                    } else {
                        Seq::<Seq<char>>::empty()
                    }));
                }
                i = i + k + 1;
            },
            None => {
                let n: usize = s.len();
                out.push(string_of(&s, i, n));
                proof {
                    assert(t =~= s@.subrange(i as int, n as int));
                    assert(string_views(out@) =~= string_views(old_out) + seq![t]);
                    assert(nonempty_pieces(s@.skip(n as int), c) =~= Seq::<Seq<char>>::empty());
                }
                i = n;
            },
        }
    }
    proof {
        assert(s@.skip(i as int) =~= Seq::<char>::empty());
        assert(string_views(out@) + Seq::<Seq<char>>::empty() =~= string_views(out@));
    }
    out
}

/// The file tags of a `#+FILETAGS:` value in `v[a..b]`.
fn tags_exec(v: &Vec<char>, a: usize, b: usize) -> (r: Vec<String>)
    requires
        a <= b <= v.len(),
    ensures
        string_views(r@) == tags_of(v@.subrange(a as int, b as int)),
{
    let x = skip_char_exec(v, a, b, ':');
    let mut y: usize = b;
    while y > x && v[y - 1] == ':'
        invariant
            x <= y <= b <= v.len(),
            drop_char_end(v@.subrange(x as int, b as int), ':') == drop_char_end(
                v@.subrange(x as int, y as int),
                ':',
            ),
        decreases y,
    {
        assert(v@.subrange(x as int, y as int).drop_last() =~= v@.subrange(x as int, y - 1));
        y = y - 1;
    }
    nonempty_pieces_exec(v, x, y, ':')
}

/// Title, date and file tags from the keyword lines at the top of a note.
pub fn extract_metadata_fast(content: &str) -> (r: (Option<String>, Option<String>, Vec<String>))
    ensures
        opt_view(r.0) == metadata_spec(content@).title,
        opt_view(r.1) == metadata_spec(content@).date,
        string_views(r.2@) == metadata_spec(content@).tags,
{
    let v = str_chars(content);
    let spans = line_spans_exec(&v);
    let ghost ls = lines(v@);
    let mut title: Option<String> = None;
    let mut date: Option<String> = None;
    let mut tags: Vec<String> = Vec::new();
    let mut in_drawer = false;
    let mut j: usize = 0;
    let endv = str_chars(":END:");
    let colon = vec![':'];
    proof {
        assert(ls.skip(0) =~= ls);
        assert(colon@ =~= seq![':']);
        assert(string_views(tags@) =~= Seq::<Seq<char>>::empty());
    }
    while j < spans.len()
        invariant
            j <= spans@.len(),
            ls == lines(v@),
            v@ == content@,
            endv@ == ":END:"@,
            colon@ == seq![':'],
            spans@.len() == ls.len(),
            forall|k: int|
                0 <= k < spans@.len() ==> (#[trigger] spans@[k]).0 <= spans@[k].1 <= v@.len()
                    && ls[k] == v@.subrange(spans@[k].0 as int, spans@[k].1 as int),
            metadata_spec(v@) == keyword_scan(
                ls.skip(j as int),
                Keywords { title: opt_view(title), date: opt_view(date), tags: string_views(tags@) },
                in_drawer,
            ),
        decreases spans@.len() - j,
    {
        let (s0, s1) = spans[j];
        let (a, b) = trim_bounds(&v, s0, s1);
        let t = copy_range(&v, a, b);
        proof {
            assert(ls.skip(j as int)[0] == ls[j as int]);
            assert(ls.skip(j as int).drop_first() =~= ls.skip(j + 1));
            assert(t@ == trim(ls[j as int]));
        }
        if t.len() == 0 {
        } else if in_drawer {
            let n: usize = t.len();
            in_drawer = !eq_ignore_case_range(&t, 0, n, &endv);
            proof {
                assert(t@.subrange(0, n as int) =~= t@);
            }
        } else if t.len() > 2 && t[0] == ':' && t[t.len() - 1] == ':' && !eq_ignore_case_range(
            &t,
            0,
            t.len(),
            &endv,
        ) && crate::text::all_upper_or_underscore_range(&t, 1, t.len() - 1) {
            proof {
                assert(t@.subrange(0, t@.len() as int) =~= t@);
            }
            in_drawer = true;
        } else if starts_with_str(&t, "#+") {
            proof {
                assert(t@.subrange(0, t@.len() as int) =~= t@);
                reveal_strlit("#+");
            }
            let rest = copy_range(&t, 2, t.len());
            proof {
                assert(rest@ =~= t@.skip(2));
            }
            match find_exec(&rest, &colon) {
                Some(p) => {
                    let (ka, kb) = trim_bounds(&rest, 0, p);
                    let key = string_of(&rest, ka, kb);
                    let key_lower = to_lowercase(key.as_str());
                    let kl = str_chars(key_lower.as_str());
                    let n: usize = rest.len();
                    let (va, vb) = trim_bounds(&rest, p + 1, n);
                    proof {
                        assert(rest@.subrange(0, p as int) =~= rest@.take(p as int));
                        assert(rest@.subrange(p + 1, n as int) =~= rest@.skip(p + 1));
                    }
                    if eq_str(&kl, "title") {
                        title = Some(string_of(&rest, va, vb));
                    } else if eq_str(&kl, "date") {
                        date = Some(string_of(&rest, va, vb));
                    } else if eq_str(&kl, "filetags") {
                        tags = tags_exec(&rest, va, vb);
                    }
                },
                None => {},
            }
        } else {
            proof {
                assert(t@.subrange(0, t@.len() as int) =~= t@);
            }
            return (title, date, tags);
        }
        j = j + 1;
    }
    proof {
        assert(ls.skip(j as int) =~= Seq::<Seq<char>>::empty());
    }
    (title, date, tags)
}

} // verus!
