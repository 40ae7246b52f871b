//! A map from strings to strings, kept as pairs with distinct keys.
use vstd::prelude::*;
use crate::chars::{str_chars, eq_exec};

verus! {

broadcast use vstd::string::group_string_axioms;

/// The map that a list of pairs denotes, later pairs winning.
pub open spec fn pairs_map(s: Seq<(Seq<char>, Seq<char>)>) -> Map<Seq<char>, Seq<char>>
    decreases s.len(),
{
    if s.len() == 0 {
        Map::empty()
    } else {
        pairs_map(s.drop_last()).insert(s.last().0, s.last().1)
    }
}

pub open spec fn entry_views(v: Seq<(String, String)>) -> Seq<(Seq<char>, Seq<char>)> {
    v.map_values(|p: (String, String)| (p.0@, p.1@))
}

pub open spec fn distinct_keys(s: Seq<(Seq<char>, Seq<char>)>) -> bool {
    forall|i: int, j: int| 0 <= i < j < s.len() ==> (#[trigger] s[i]).0 != (#[trigger] s[j]).0
}

/// Sets a pair: it replaces the pair with its key where there is one, in
/// place, and else goes last.
pub open spec fn put_pair(s: Seq<(Seq<char>, Seq<char>)>, p: (Seq<char>, Seq<char>)) -> Seq<
    (Seq<char>, Seq<char>),
> {
    if exists|i: int| 0 <= i < s.len() && (#[trigger] s[i]).0 == p.0 {
        let i = choose|i: int| 0 <= i < s.len() && (#[trigger] s[i]).0 == p.0;
        s.update(i, p)
    } else {
        s.push(p)
    }
}

pub proof fn lemma_pairs_map_dom(s: Seq<(Seq<char>, Seq<char>)>, k: Seq<char>)
    ensures
        pairs_map(s).contains_key(k) <==> exists|i: int| 0 <= i < s.len() && (#[trigger] s[i]).0 == k,
    decreases s.len(),
{
    if s.len() > 0 {
        lemma_pairs_map_dom(s.drop_last(), k);
        if exists|i: int| 0 <= i < s.len() && (#[trigger] s[i]).0 == k {
            let i = choose|i: int| 0 <= i < s.len() && (#[trigger] s[i]).0 == k;
            if i < s.len() - 1 {
                assert(s.drop_last()[i] == s[i]);
            }
        }
        if exists|i: int| 0 <= i < s.drop_last().len() && (#[trigger] s.drop_last()[i]).0 == k {
            let i = choose|i: int| 0 <= i < s.drop_last().len() && (#[trigger] s.drop_last()[i]).0
                == k;
            assert(s[i] == s.drop_last()[i]);
        }
    }
}

/// With distinct keys, the value of key `s[i].0` is `s[i].1`.
pub proof fn lemma_pairs_map_at(s: Seq<(Seq<char>, Seq<char>)>, i: int)
    requires
        distinct_keys(s),
        0 <= i < s.len(),
    ensures
        pairs_map(s).contains_key(s[i].0),
        pairs_map(s)[s[i].0] == s[i].1,
    decreases s.len(),
{
    if i < s.len() - 1 {
        let t = s.drop_last();
        assert(t[i] == s[i]);
        assert(distinct_keys(t)) by {
            assert forall|a: int, b: int| 0 <= a < b < t.len() implies (#[trigger] t[a]).0 != (
            #[trigger] t[b]).0 by {
                assert(t[a] == s[a] && t[b] == s[b]);
            }
        }
        lemma_pairs_map_at(t, i);
        assert(s.last().0 != s[i].0);
    }
}

/// Replacing the value of an existing key.
pub proof fn lemma_pairs_map_update(s: Seq<(Seq<char>, Seq<char>)>, i: int, v: Seq<char>)
    requires
        distinct_keys(s),
        0 <= i < s.len(),
    ensures
        pairs_map(s.update(i, (s[i].0, v))) == pairs_map(s).insert(s[i].0, v),
    decreases s.len(),
{
    let u = s.update(i, (s[i].0, v));
    if i == s.len() - 1 {
        assert(u.drop_last() =~= s.drop_last());
        assert(pairs_map(u) =~= pairs_map(s).insert(s[i].0, v));
    } else {
        let t = s.drop_last();
        assert(distinct_keys(t)) by {
            assert forall|a: int, b: int| 0 <= a < b < t.len() implies (#[trigger] t[a]).0 != (
            #[trigger] t[b]).0 by {
                assert(t[a] == s[a] && t[b] == s[b]);
            }
        }
        assert(t[i] == s[i]);
        lemma_pairs_map_update(t, i, v);
        assert(u.drop_last() =~= t.update(i, (s[i].0, v)));
        assert(s.last().0 != s[i].0);
        assert(pairs_map(u) =~= pairs_map(s).insert(s[i].0, v));
    }
}

/// A string-to-string map: each key at most once, kept in the order keys
/// were first inserted.
pub struct StrMap {
    entries: Vec<(String, String)>,
}

impl View for StrMap {
    type V = Map<Seq<char>, Seq<char>>;

    closed spec fn view(&self) -> Map<Seq<char>, Seq<char>> {
        pairs_map(entry_views(self.entries@))
    }
}

impl StrMap {
    #[verifier::type_invariant]
    spec fn inv(self) -> bool {
        distinct_keys(entry_views(self.entries@))
    }

    /// The pairs, in insertion order of their keys.
    pub closed spec fn pairs(self) -> Seq<(Seq<char>, Seq<char>)> {
        entry_views(self.entries@)
    }

    pub fn new() -> (r: StrMap)
        ensures
            r@ == Map::<Seq<char>, Seq<char>>::empty(),
            r.pairs().len() == 0,
    {
        let entries: Vec<(String, String)> = Vec::new();
        proof {
            assert(entry_views(entries@) =~= Seq::<(Seq<char>, Seq<char>)>::empty());
        }
        StrMap { entries }
    }

    fn find_key(&self, k: &str) -> (r: Option<usize>)
        ensures
            r matches Some(i) ==> i < self.pairs().len() && self.pairs()[i as int].0 == k@,
            r is None ==> forall|i: int| 0 <= i < self.pairs().len() ==> self.pairs()[i].0 != k@,
    {
        let kv = str_chars(k);
        let mut i: usize = 0;
        while i < self.entries.len()
            invariant
                i <= self.entries@.len(),
                kv@ == k@,
                forall|j: int| 0 <= j < i ==> entry_views(self.entries@)[j].0 != k@,
            decreases self.entries@.len() - i,
        {
            let ev = str_chars(self.entries[i].0.as_str());
            if eq_exec(&ev, &kv) {
                return Some(i);
            }
            i = i + 1;
        }
        None
    }

    /// Sets the value of a key.
    pub fn insert(&mut self, k: String, v: String)
        ensures
            final(self)@ == old(self)@.insert(k@, v@),
            final(self).pairs() == put_pair(old(self).pairs(), (k@, v@)),
    {
        proof {
            use_type_invariant(&*self);
        }
        let ghost old_e = entry_views(self.entries@);
        assert(old_e == self.pairs());
        let found = self.find_key(k.as_str());
        match found {
            Some(i) => {
                proof {
                    let j = choose|j: int| 0 <= j < old_e.len() && (#[trigger] old_e[j]).0 == k@;
                    if j != i {
                        if j < i {
                            assert(old_e[j].0 != old_e[i as int].0);
                        } else {
                            assert(old_e[i as int].0 != old_e[j].0);
                        }
                    }
                }
                let key = self.entries[i].0.clone();
                let mut entries: Vec<(String, String)> = Vec::new();
                std::mem::swap(&mut entries, &mut self.entries);
                entries.set(i, (key, v));
                proof {
                    lemma_pairs_map_update(old_e, i as int, v@);
                    assert(entry_views(entries@) =~= old_e.update(i as int, (old_e[i as int].0, v@)));
                    assert(distinct_keys(entry_views(entries@))) by {
                        let e = entry_views(entries@);
                        assert forall|a: int, b: int| 0 <= a < b < e.len() implies (#[trigger] e[a]).0
                            != (#[trigger] e[b]).0 by {
                            assert(e[a].0 == old_e[a].0 && e[b].0 == old_e[b].0);
                        }
                    }
                }
                self.entries = entries;
            },
            None => {
                assert(forall|j: int| 0 <= j < old_e.len() ==> (#[trigger] old_e[j]).0 != k@) by {
                    assert(forall|j: int| 0 <= j < self.pairs().len() ==> self.pairs()[j].0 != k@);
                }
                let mut entries: Vec<(String, String)> = Vec::new();
                std::mem::swap(&mut entries, &mut self.entries);
                entries.push((k, v));
                proof {
                    let e = entry_views(entries@);
                    assert(e =~= old_e.push((k@, v@)));
                    assert(e.drop_last() =~= old_e);
                    assert(distinct_keys(e)) by {
                        assert forall|a: int, b: int| 0 <= a < b < e.len() implies (#[trigger] e[a]).0
                            != (#[trigger] e[b]).0 by {
                            if b == e.len() - 1 {
                                assert(e[a] == old_e[a]);
                                assert(old_e[a].0 != k@);
                            } else {
                                assert(e[a] == old_e[a] && e[b] == old_e[b]);
                            }
                        }
                    }
                }
                self.entries = entries;
            },
        }
    }

    /// The value of a key.
    pub fn get(&self, k: &str) -> (r: Option<&String>)
        ensures
            r matches Some(v) ==> self@.contains_key(k@) && self@[k@] == v@,
            r is None ==> !self@.contains_key(k@),
    {
        proof {
            use_type_invariant(self);
            lemma_pairs_map_dom(entry_views(self.entries@), k@);
        }
        match self.find_key(k) {
            Some(i) => {
                proof {
                    lemma_pairs_map_at(entry_views(self.entries@), i as int);
                }
                Some(&self.entries[i].1)
            },
            None => {
                proof {
                    let e = entry_views(self.entries@);
                    assert(e == self.pairs());
                    assert(!exists|i: int| 0 <= i < e.len() && (#[trigger] e[i]).0 == k@);
                }
                None
            },
        }
    }

    pub fn contains_key(&self, k: &str) -> (r: bool)
        ensures
            r == self@.contains_key(k@),
    {
        self.get(k).is_some()
    }

    pub fn len(&self) -> (r: usize)
        ensures
            r == self.pairs().len(),
    {
        self.entries.len()
    }

    /// The `i`-th pair.
    pub fn entry(&self, i: usize) -> (r: (&String, &String))
        requires
            i < self.pairs().len(),
        ensures
            (r.0@, r.1@) == self.pairs()[i as int],
            self@.contains_key(r.0@) && self@[r.0@] == r.1@,
    {
        proof {
            use_type_invariant(self);
            lemma_pairs_map_at(entry_views(self.entries@), i as int);
        }
        (&self.entries[i].0, &self.entries[i].1)
    }
}

} // verus!
