//! Text order and stable sorting.
use vstd::prelude::*;
use crate::chars::str_chars;

verus! {

broadcast use vstd::string::group_string_axioms;

/// Lexicographic order of texts by code point (`Ord` for `str`: UTF-8
/// bytes compare in code point order).
pub open spec fn lex_lt(a: Seq<char>, b: Seq<char>) -> bool
    decreases a.len(),
{
    if b.len() == 0 {
        false
    } else if a.len() == 0 {
        true
    } else if a[0] != b[0] {
        a[0] < b[0]
    } else {
        lex_lt(a.drop_first(), b.drop_first())
    }
}

pub fn lex_lt_chars(a: &Vec<char>, b: &Vec<char>) -> (r: bool)
    ensures
        r == lex_lt(a@, b@),
{
    let mut i: usize = 0;
    proof {
        assert(a@.skip(0) =~= a@);
        assert(b@.skip(0) =~= b@);
    }
    while i < a.len() && i < b.len() && a[i] == b[i]
        invariant
            i <= a.len(),
            i <= b.len(),
            lex_lt(a@, b@) == lex_lt(a@.skip(i as int), b@.skip(i as int)),
        decreases a.len() - i,
    {
        assert(a@.skip(i as int).drop_first() =~= a@.skip(i + 1));
        assert(b@.skip(i as int).drop_first() =~= b@.skip(i + 1));
        i = i + 1;
    }
    if i == b.len() {
        false
    } else if i == a.len() {
        true
    } else {
        proof {
            assert(a@.skip(i as int)[0] == a@[i as int]);
            assert(b@.skip(i as int)[0] == b@[i as int]);
        }
        a[i] < b[i]
    }
}

/// `a < b` for strings.
pub fn lex_lt_str(a: &str, b: &str) -> (r: bool)
    ensures
        r == lex_lt(a@, b@),
{
    let av = str_chars(a);
    let bv = str_chars(b);
    lex_lt_chars(&av, &bv)
}

/// Inserts `x` before the first element it goes before.
pub open spec fn insert_by<A>(s: Seq<A>, x: A, before: spec_fn(A, A) -> bool) -> Seq<A>
    decreases s.len(),
{
    if s.len() == 0 {
        seq![x]
    } else if before(x, s[0]) {
        seq![x] + s
    } else {
        seq![s[0]] + insert_by(s.drop_first(), x, before)
    }
}

/// Stable sort by a "goes before" relation: elements are inserted in input
/// order, each after every element it does not go before (`sort_by` with a
/// comparator returning `Less` exactly when `before` holds).
pub open spec fn sort_by_spec<A>(s: Seq<A>, before: spec_fn(A, A) -> bool) -> Seq<A>
    decreases s.len(),
{
    if s.len() == 0 {
        Seq::empty()
    } else {
        insert_by(sort_by_spec(s.drop_last(), before), s.last(), before)
    }
}

/// Where `insert_by` puts `x`: the first index it goes before.
pub open spec fn insert_pos<A>(s: Seq<A>, x: A, before: spec_fn(A, A) -> bool, p: int) -> bool {
    &&& 0 <= p <= s.len()
    &&& forall|j: int| 0 <= j < p ==> !before(x, #[trigger] s[j])
    &&& (p < s.len() ==> before(x, s[p]))
}

pub proof fn lemma_insert_by<A>(s: Seq<A>, x: A, before: spec_fn(A, A) -> bool, p: int)
    requires
        insert_pos(s, x, before, p),
    ensures
        insert_by(s, x, before) == s.take(p) + seq![x] + s.skip(p),
    decreases s.len(),
{
    if s.len() == 0 {
        assert(s.take(p) + seq![x] + s.skip(p) =~= seq![x]);
    } else if before(x, s[0]) {
        assert(p == 0);
        assert(s.take(p) + seq![x] + s.skip(p) =~= seq![x] + s);
    } else {
        assert(p > 0);
        let t = s.drop_first();
        assert forall|j: int| 0 <= j < p - 1 implies !before(x, #[trigger] t[j]) by {
            assert(t[j] == s[j + 1]);
        }
        if p - 1 < t.len() {
            assert(t[p - 1] == s[p]);
        }
        lemma_insert_by(t, x, before, p - 1);
        assert(s.take(p) + seq![x] + s.skip(p) =~= seq![s[0]] + (t.take(p - 1) + seq![x] + t.skip(
            p - 1,
        )));
    }
}

pub proof fn lemma_insert_by_len<A>(s: Seq<A>, x: A, before: spec_fn(A, A) -> bool)
    ensures
        insert_by(s, x, before).len() == s.len() + 1,
    decreases s.len(),
{
    if s.len() > 0 && !before(x, s[0]) {
        lemma_insert_by_len(s.drop_first(), x, before);
    }
}

pub proof fn lemma_sort_by_len<A>(s: Seq<A>, before: spec_fn(A, A) -> bool)
    ensures
        sort_by_spec(s, before).len() == s.len(),
    decreases s.len(),
{
    if s.len() > 0 {
        lemma_sort_by_len(s.drop_last(), before);
        lemma_insert_by_len(sort_by_spec(s.drop_last(), before), s.last(), before);
    }
}

pub proof fn lemma_insert_by_contains<A>(s: Seq<A>, x: A, before: spec_fn(A, A) -> bool, y: A)
    ensures
        insert_by(s, x, before).contains(y) <==> (y == x || s.contains(y)),
    decreases s.len(),
{
    let r = insert_by(s, x, before);
    if s.len() == 0 {
        assert(r[0] == x);
    } else if before(x, s[0]) {
        assert(r == seq![x] + s);
        assert(r[0] == x);
        if s.contains(y) {
            let j = choose|j: int| 0 <= j < s.len() && s[j] == y;
            assert(r[j + 1] == y);
        }
        if r.contains(y) {
            let j = choose|j: int| 0 <= j < r.len() && r[j] == y;
            if j > 0 {
                assert(s[j - 1] == y);
            }
        }
    } else {
        let t = s.drop_first();
        lemma_insert_by_contains(t, x, before, y);
        let rt = insert_by(t, x, before);
        assert(r == seq![s[0]] + rt);
        if r.contains(y) {
            let j = choose|j: int| 0 <= j < r.len() && r[j] == y;
            if j == 0 {
                assert(s[0] == y);
            } else {
                assert(rt[j - 1] == y);
                if t.contains(y) {
                    let k = choose|k: int| 0 <= k < t.len() && t[k] == y;
                    assert(s[k + 1] == y);
                }
            }
        }
        if y == x {
            assert(rt.contains(y));
            let k = choose|k: int| 0 <= k < rt.len() && rt[k] == y;
            assert(r[k + 1] == y);
        }
        if s.contains(y) {
            let k = choose|k: int| 0 <= k < s.len() && s[k] == y;
            if k == 0 {
                assert(r[0] == y);
            } else {
                assert(t[k - 1] == y);
                assert(rt.contains(y));
                let m = choose|m: int| 0 <= m < rt.len() && rt[m] == y;
                assert(r[m + 1] == y);
            }
        }
    }
}

/// Sorting keeps exactly the elements it was given.
pub proof fn lemma_sort_by_contains<A>(s: Seq<A>, before: spec_fn(A, A) -> bool, y: A)
    ensures
        sort_by_spec(s, before).contains(y) <==> s.contains(y),
    decreases s.len(),
{
    if s.len() > 0 {
        lemma_sort_by_contains(s.drop_last(), before, y);
        lemma_insert_by_contains(sort_by_spec(s.drop_last(), before), s.last(), before, y);
        if s.contains(y) && y != s.last() {
            let k = choose|k: int| 0 <= k < s.len() && s[k] == y;
            assert(s.drop_last()[k] == y);
        }
        if s.drop_last().contains(y) {
            let k = choose|k: int| 0 <= k < s.drop_last().len() && s.drop_last()[k] == y;
            assert(s[k] == y);
        }
    }
}

/// `lex_lt` is a strict total order.
pub proof fn lemma_lex_irreflexive(a: Seq<char>)
    ensures
        !lex_lt(a, a),
    decreases a.len(),
{
    if a.len() > 0 {
        lemma_lex_irreflexive(a.drop_first());
    }
}

pub proof fn lemma_lex_transitive(a: Seq<char>, b: Seq<char>, c: Seq<char>)
    requires
        lex_lt(a, b),
        lex_lt(b, c),
    ensures
        lex_lt(a, c),
    decreases a.len(),
{
    if a.len() > 0 && b.len() > 0 && c.len() > 0 {
        if a[0] == b[0] && b[0] == c[0] {
            lemma_lex_transitive(a.drop_first(), b.drop_first(), c.drop_first());
        }
    }
}

pub proof fn lemma_lex_total(a: Seq<char>, b: Seq<char>)
    requires
        a != b,
    ensures
        lex_lt(a, b) || lex_lt(b, a),
    decreases a.len(),
{
    if a.len() > 0 && b.len() > 0 && a[0] == b[0] {
        if a.drop_first() == b.drop_first() {
            assert(a =~= seq![a[0]] + a.drop_first());
            assert(b =~= seq![b[0]] + b.drop_first());
        }
        lemma_lex_total(a.drop_first(), b.drop_first());
    } else if a.len() == 0 && b.len() == 0 {
        assert(a =~= b);
    }
}

/// Texts in strictly ascending order.
pub open spec fn strictly_ascending(s: Seq<Seq<char>>) -> bool {
    forall|i: int, j: int| 0 <= i < j < s.len() ==> lex_lt(#[trigger] s[i], #[trigger] s[j])
}

/// `before` is irreflexive and transitive, and sets any two distinct
/// elements of `s` one before the other.
pub open spec fn strict_total_on<A>(before: spec_fn(A, A) -> bool, s: Seq<A>) -> bool {
    &&& forall|a: A| !#[trigger] before(a, a)
    &&& forall|a: A, b: A, c: A| #[trigger] before(a, b) && #[trigger] before(b, c) ==> before(a, c)
    &&& forall|a: A, b: A|
        #[trigger] s.contains(a) && #[trigger] s.contains(b) && a != b ==> before(a, b) || before(b, a)
}

/// Each element goes before every later one.
pub open spec fn ascending_by<A>(s: Seq<A>, before: spec_fn(A, A) -> bool) -> bool {
    forall|i: int, j: int| 0 <= i < j < s.len() ==> before(#[trigger] s[i], #[trigger] s[j])
}

proof fn insert_position<A>(s: Seq<A>, x: A, before: spec_fn(A, A) -> bool) -> (p: int)
    ensures
        insert_pos(s, x, before, p),
    decreases s.len(),
{
    if s.len() == 0 || before(x, s[0]) {
        0
    } else {
        let q = insert_position(s.drop_first(), x, before);
        assert forall|j: int| 0 <= j < q + 1 implies !before(x, #[trigger] s[j]) by {
            if j > 0 {
                assert(s[j] == s.drop_first()[j - 1]);
            }
        }
        if q + 1 < s.len() {
            assert(s[q + 1] == s.drop_first()[q]);
        }
        q + 1
    }
}

/// Sorting distinct elements under a strict total order puts them in
/// ascending order.
pub proof fn lemma_sort_ascending_by<A>(s: Seq<A>, before: spec_fn(A, A) -> bool)
    requires
        s.no_duplicates(),
        strict_total_on(before, s),
    ensures
        ascending_by(sort_by_spec(s, before), before),
    decreases s.len(),
{
    if s.len() > 0 {
        let t = s.drop_last();
        let x = s.last();
        assert(t.no_duplicates()) by {
            assert forall|a: int, b: int| 0 <= a < t.len() && 0 <= b < t.len() && a != b implies t[a]
                != t[b] by {
                assert(t[a] == s[a] && t[b] == s[b]);
            }
        }
        assert(strict_total_on(before, t)) by {
            assert forall|a: A, b: A| #[trigger] t.contains(a) && #[trigger] t.contains(b) && a != b implies before(a, b)
                || before(b, a) by {
                let i = choose|i: int| 0 <= i < t.len() && t[i] == a;
                let j = choose|j: int| 0 <= j < t.len() && t[j] == b;
                assert(s[i] == a && s[j] == b);
                assert(s.contains(a) && s.contains(b));
            }
        }
        lemma_sort_ascending_by(t, before);
        let st = sort_by_spec(t, before);
        assert(!st.contains(x)) by {
            if st.contains(x) {
                lemma_sort_by_contains(t, before, x);
                let k = choose|k: int| 0 <= k < t.len() && t[k] == x;
                assert(s[k] == x && s[s.len() - 1] == x);
            }
        }
        assert(s.contains(x)) by {
            assert(s[s.len() - 1] == x);
        }
        assert forall|y: A| #[trigger] st.contains(y) implies s.contains(y) by {
            lemma_sort_by_contains(t, before, y);
            let k = choose|k: int| 0 <= k < t.len() && t[k] == y;
            assert(s[k] == y);
        }
        let p = insert_position(st, x, before);
        lemma_insert_by(st, x, before, p);
        let r = insert_by(st, x, before);
        assert(r == st.take(p) + seq![x] + st.skip(p));
        assert forall|i: int, j: int| 0 <= i < j < r.len() implies before(#[trigger] r[i], #[trigger] r[j]) by {
            if j < p {
                assert(r[i] == st[i] && r[j] == st[j]);
            } else if j == p {
                assert(r[i] == st[i]);
                assert(st.contains(st[i]));
                assert(s.contains(st[i]));
            } else if i < p {
                assert(r[i] == st[i] && r[j] == st[j - 1]);
                assert(st.contains(st[i]));
                assert(s.contains(st[i]));
                if j - 1 > p {
                    assert(before(x, st[p]));
                }
                assert(before(x, st[j - 1]));
            } else if i == p {
                assert(r[j] == st[j - 1]);
                if j - 1 > p {
                    assert(before(x, st[p]));
                }
            } else {
                assert(r[i] == st[i - 1] && r[j] == st[j - 1]);
            }
        }
    }
}

/// Two ascending lists of the same elements, under an irreflexive and
/// transitive order, are the same list.
pub proof fn lemma_ascending_unique_by<A>(a: Seq<A>, b: Seq<A>, before: spec_fn(A, A) -> bool)
    requires
        ascending_by(a, before),
        ascending_by(b, before),
        forall|x: A| !#[trigger] before(x, x),
        forall|x: A, y: A, z: A| #[trigger] before(x, y) && #[trigger] before(y, z) ==> before(x, z),
        forall|x: A| a.contains(x) <==> b.contains(x),
    ensures
        a == b,
    decreases a.len(),
{
    if a.len() == 0 {
        if b.len() > 0 {
            assert(b.contains(b[0]));
        }
        assert(a =~= b);
    } else {
        assert(a.contains(a[0]));
        assert(b.contains(b[0]));
        if a[0] != b[0] {
            let j = choose|j: int| 0 <= j < b.len() && b[j] == a[0];
            let i = choose|i: int| 0 <= i < a.len() && a[i] == b[0];
            assert(before(b[0], a[0]));
            assert(before(a[0], b[0]));
        }
        let a1 = a.drop_first();
        let b1 = b.drop_first();
        assert forall|x: A| a1.contains(x) <==> b1.contains(x) by {
            if a1.contains(x) {
                let i = choose|i: int| 0 <= i < a1.len() && a1[i] == x;
                assert(a[i + 1] == x);
                assert(a.contains(x));
                let j = choose|j: int| 0 <= j < b.len() && b[j] == x;
                if j == 0 {
                    assert(before(a[0], a[i + 1]));
                }
                assert(b1[j - 1] == x);
            }
            if b1.contains(x) {
                let i = choose|i: int| 0 <= i < b1.len() && b1[i] == x;
                assert(b[i + 1] == x);
                assert(b.contains(x));
                let j = choose|j: int| 0 <= j < a.len() && a[j] == x;
                if j == 0 {
                    assert(before(b[0], b[i + 1]));
                }
                assert(a1[j - 1] == x);
            }
        }
        assert(ascending_by(a1, before)) by {
            assert forall|i: int, j: int| 0 <= i < j < a1.len() implies before(#[trigger] a1[i], #[trigger] a1[j]) by {
                assert(a1[i] == a[i + 1] && a1[j] == a[j + 1]);
            }
        }
        assert(ascending_by(b1, before)) by {
            assert forall|i: int, j: int| 0 <= i < j < b1.len() implies before(#[trigger] b1[i], #[trigger] b1[j]) by {
                assert(b1[i] == b[i + 1] && b1[j] == b[j + 1]);
            }
        }
        lemma_ascending_unique_by(a1, b1, before);
        assert(a =~= seq![a[0]] + a1);
        assert(b =~= seq![b[0]] + b1);
    }
}

/// `lex_lt` is irreflexive and transitive on all texts, and total on
/// distinct ones.
pub proof fn lemma_lex_strict_total(s: Seq<Seq<char>>)
    ensures
        strict_total_on(|a: Seq<char>, b: Seq<char>| lex_lt(a, b), s),
{
    let before = |a: Seq<char>, b: Seq<char>| lex_lt(a, b);
    assert forall|a: Seq<char>| !#[trigger] before(a, a) by {
        lemma_lex_irreflexive(a);
    }
    assert forall|a: Seq<char>, b: Seq<char>, c: Seq<char>| #[trigger] before(a, b) && #[trigger] before(b, c) implies before(a, c) by {
        lemma_lex_transitive(a, b, c);
    }
    assert forall|a: Seq<char>, b: Seq<char>| #[trigger] s.contains(a) && #[trigger] s.contains(b) && a != b implies before(a, b)
        || before(b, a) by {
        lemma_lex_total(a, b);
    }
}

/// Sorting distinct texts puts them in strictly ascending order.
pub proof fn lemma_sort_texts_ascending(s: Seq<Seq<char>>)
    requires
        s.no_duplicates(),
    ensures
        strictly_ascending(sort_by_spec(s, |a: Seq<char>, b: Seq<char>| lex_lt(a, b))),
{
    lemma_lex_strict_total(s);
    lemma_sort_ascending_by(s, |a: Seq<char>, b: Seq<char>| lex_lt(a, b));
}

/// Two strictly ascending lists of the same texts are the same list.
pub proof fn lemma_ascending_texts_unique(a: Seq<Seq<char>>, b: Seq<Seq<char>>)
    requires
        strictly_ascending(a),
        strictly_ascending(b),
        forall|x: Seq<char>| a.contains(x) <==> b.contains(x),
    ensures
        a == b,
{
    let before = |x: Seq<char>, y: Seq<char>| lex_lt(x, y);
    lemma_lex_strict_total(Seq::empty());
    assert(ascending_by(a, before));
    assert(ascending_by(b, before));
    lemma_ascending_unique_by(a, b, before);
}

} // verus!
