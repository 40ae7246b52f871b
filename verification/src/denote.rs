//! Denote identifiers and file names:
//! `ID[==SIGNATURE]--TITLE[__TYPE].EXT`, where ID is `YYYYMMDDTHHMMSS`.
use vstd::prelude::*;
use crate::chars::{byte_len, byte_len_le, char_index_at_byte, char_index_of_byte, copy_all, copy_range, eq_exec, find, find_exec, find_from, is_char_boundary, is_digit, lemma_byte_len_mono, lemma_byte_len_strict, lemma_char_index_of_byte, lemma_find_from_spec, matches_at, opt_view, push_range, push_str, rfind, rfind_exec, rfind_upto, starts_with, starts_with_exec, str_chars, string_of, string_of_all};

verus! {

broadcast use vstd::string::group_string_axioms;

/// A Denote timestamp identifier: fifteen characters, digits with a `T` at
/// position 8.
pub open spec fn is_id_text(c: Seq<char>) -> bool {
    &&& c.len() == 15
    &&& c[8] == 'T'
    &&& forall|i: int| 0 <= i < 15 && i != 8 ==> is_digit(#[trigger] c[i])
}

/// What `DenoteId::parse` gives for a text: its first fifteen characters, when
/// they form an identifier.
pub open spec fn parse_id_spec(s: Seq<char>) -> Option<Seq<char>> {
    if s.len() >= 15 && is_id_text(s.take(15)) {
        Some(s.take(15))
    } else {
        None
    }
}

/// Inputs on which `DenoteId::parse` does not panic: it cuts the text at its
/// fifteenth byte, which must then lie between two characters.
pub open spec fn id_parse_safe(s: Seq<char>) -> bool {
    byte_len(s) >= 15 ==> is_char_boundary(s, 15)
}

/// `YYYY-MM-DD` of an identifier.
pub open spec fn id_date(id: Seq<char>) -> Seq<char> {
    id.take(4) + seq!['-'] + id.subrange(4, 6) + seq!['-'] + id.subrange(6, 8)
}

pub struct DenoteId(String);

impl View for DenoteId {
    type V = Seq<char>;

    closed spec fn view(&self) -> Seq<char> {
        self.0@
    }
}

impl DenoteId {
    #[verifier::type_invariant]
    spec fn inv(self) -> bool {
        is_id_text(self.0@)
    }

    /// Identifier at the start of a character sequence.
    pub fn parse_chars(v: &Vec<char>) -> (r: Option<DenoteId>)
        ensures
            r matches Some(id) ==> parse_id_spec(v@) == Some(id@),
            r is None ==> parse_id_spec(v@) is None,
    {
        if v.len() < 15 {
            return None;
        }
        if v[8] != 'T' {
            return None;
        }
        let mut i: usize = 0;
        while i < 15
            invariant
                i <= 15,
                15 <= v.len(),
                forall|j: int| 0 <= j < i && j != 8 ==> is_digit(#[trigger] v@[j]),
            decreases 15 - i,
        {
            if i != 8 && !('0' <= v[i] && v[i] <= '9') {
                proof {
                    assert(v@.take(15)[i as int] == v@[i as int]);
                }
                return None;
            }
            i = i + 1;
        }
        let text = string_of(v, 0, 15);
        proof {
            assert(v@.subrange(0, 15) =~= v@.take(15));
        }
        Some(DenoteId(text))
    }

    /// The identifier at the start of `s`, if its first fifteen characters
    /// form one.
    pub fn parse(s: &str) -> (r: Option<DenoteId>)
        requires
            id_parse_safe(s@),
        ensures
            r matches Some(id) ==> parse_id_spec(s@) == Some(id@),
            r is None ==> parse_id_spec(s@) is None,
    {
        let v = str_chars(s);
        Self::parse_chars(&v)
    }

    pub fn as_str(&self) -> (r: &str)
        ensures
            r@ == self@,
            is_id_text(self@),
    {
        proof {
            use_type_invariant(self);
        }
        self.0.as_str()
    }

    /// The identifier's text, as it is displayed.
    pub fn to_string(&self) -> (r: String)
        ensures
            r@ == self@,
    {
        self.0.clone()
    }

    pub fn duplicate(&self) -> (r: DenoteId)
        ensures
            r@ == self@,
            is_id_text(self@),
    {
        proof {
            use_type_invariant(self);
        }
        DenoteId(self.0.clone())
    }

    /// The date part as `YYYY-MM-DD`.
    pub fn date(&self) -> (r: String)
        ensures
            r@ == id_date(self@),
    {
        proof {
            use_type_invariant(self);
        }
        let v = str_chars(self.0.as_str());
        let mut out: Vec<char> = Vec::new();
        push_range(&mut out, &v, 0, 4);
        out.push('-');
        push_range(&mut out, &v, 4, 6);
        out.push('-');
        push_range(&mut out, &v, 6, 8);
        proof {
            assert(v@.subrange(0, 4) =~= v@.take(4));
            assert(out@ =~= id_date(self@));
        }
        string_of_all(&out)
    }
}

/// A parsed file name, as plain text parts.
pub struct FilenameParts {
    pub id: Seq<char>,
    pub signature: Option<Seq<char>>,
    pub title: Seq<char>,
    pub note_type: Option<Seq<char>>,
    pub extension: Seq<char>,
}

pub open spec fn dot() -> Seq<char> {
    seq!['.']
}

pub open spec fn sig_marker() -> Seq<char> {
    seq!['=', '=']
}

pub open spec fn title_marker() -> Seq<char> {
    seq!['-', '-']
}

pub open spec fn type_marker() -> Seq<char> {
    seq!['_', '_']
}

/// The part of a file name between the identifier and the title marker,
/// and what follows it: `(signature, rest)`.
pub open spec fn split_signature(rest: Seq<char>) -> (Option<Seq<char>>, Seq<char>) {
    if starts_with(rest, sig_marker()) {
        let st = rest.skip(2);
        let e = match find(st, title_marker()) {
            Some(k) => k,
            None => st.len() as int,
        };
        (Some(st.take(e)), st.skip(e))
    } else {
        (None, rest)
    }
}

/// Title and type of what follows the title marker.
pub open spec fn split_type(atm: Seq<char>) -> (Seq<char>, Option<Seq<char>>) {
    match rfind(atm, type_marker()) {
        Some(p) => (atm.take(p), Some(atm.skip(p + 2))),
        None => (atm, None),
    }
}

/// What `DenoteFilename::parse` gives for a file name.
pub open spec fn parse_filename(f: Seq<char>) -> Option<FilenameParts> {
    match rfind(f, dot()) {
        None => None,
        Some(d) => {
            let ext = f.skip(d + 1);
            let w = f.take(d);
            match parse_id_spec(w) {
                None => None,
                Some(id) => {
                    let (sig, after_sig) = split_signature(w.skip(15));
                    if !starts_with(after_sig, title_marker()) {
                        None
                    } else {
                        let (title, nt) = split_type(after_sig.skip(2));
                        Some(
                            FilenameParts {
                                id,
                                signature: sig,
                                title,
                                note_type: nt,
                                extension: ext,
                            },
                        )
                    }
                },
            }
        },
    }
}

/// Inputs on which `DenoteFilename::parse` does not panic.
pub open spec fn filename_parse_safe(f: Seq<char>) -> bool {
    rfind(f, dot()) matches Some(d) ==> id_parse_safe(f.take(d))
}

/// The file name that `DenoteFilename::to_filename` writes for its parts.
pub open spec fn filename_text(p: FilenameParts) -> Seq<char> {
    p.id + (match p.signature {
        Some(s) => sig_marker() + s,
        None => Seq::empty(),
    }) + title_marker() + p.title + (match p.note_type {
        Some(t) => type_marker() + t,
        None => Seq::empty(),
    }) + dot() + p.extension
}

/// The last `/`-separated segment of a path.
pub open spec fn last_segment(p: Seq<char>) -> Seq<char> {
    match rfind(p, seq!['/']) {
        Some(k) => p.skip(k + 1),
        None => p,
    }
}

pub struct DenoteFilename {
    pub id: DenoteId,
    pub signature: Option<String>,
    pub title: String,
    pub note_type: Option<String>,
    pub extension: String,
}

impl View for DenoteFilename {
    type V = FilenameParts;

    open spec fn view(&self) -> FilenameParts {
        FilenameParts {
            id: self.id@,
            signature: opt_view(self.signature),
            title: self.title@,
            note_type: opt_view(self.note_type),
            extension: self.extension@,
        }
    }
}

impl DenoteFilename {
    /// Parses a file name given as characters.
    pub fn parse_chars(v: &Vec<char>) -> (r: Option<DenoteFilename>)
        ensures
            r matches Some(d) ==> parse_filename(v@) == Some(d@),
            r is None ==> parse_filename(v@) is None,
    {
        let dotv = vec!['.'];
        proof {
            assert(dotv@ =~= dot());
        }
        let d = match rfind_exec(v, &dotv) {
            Some(d) => d,
            None => {
                return None;
            },
        };
        let ghost f = v@;
        let n: usize = v.len();
        let extension = string_of(v, d + 1, v.len());
        let w = copy_range(v, 0, d);
        proof {
            assert(w@ =~= f.take(d as int));
            assert(v@.subrange(d + 1, v@.len() as int) =~= f.skip(d + 1));
        }
        let id = match DenoteId::parse_chars(&w) {
            Some(id) => id,
            None => {
                return None;
            },
        };
        let rest = copy_range(&w, 15, w.len());
        proof {
            assert(rest@ =~= w@.skip(15));
        }
        let sm = vec!['=', '='];
        let tm = vec!['-', '-'];
        let um = vec!['_', '_'];
        proof {
            assert(sm@ =~= sig_marker());
            assert(tm@ =~= title_marker());
            assert(um@ =~= type_marker());
        }
        let (signature, after_sig) = if starts_with_exec(&rest, &sm) {
            let st = copy_range(&rest, 2, rest.len());
            let e = match find_exec(&st, &tm) {
                Some(k) => k,
                None => st.len(),
            };
            proof {
                if find(st@, title_marker()) is Some {
                    lemma_find_from_spec(st@, title_marker(), 0);
                }
                assert(st@ =~= rest@.skip(2));
            }
            let sig = string_of(&st, 0, e);
            let after = copy_range(&st, e, st.len());
            proof {
                assert(st@.subrange(0, e as int) =~= st@.take(e as int));
                assert(after@ =~= st@.skip(e as int));
            }
            (Some(sig), after)
        } else {
            (None, rest)
        };
        proof {
            let (s1, a1) = split_signature(w@.skip(15));
            assert(opt_view(signature) == s1);
            assert(after_sig@ == a1);
        }
        if !starts_with_exec(&after_sig, &tm) {
            return None;
        }
        let atm = copy_range(&after_sig, 2, after_sig.len());
        proof {
            assert(atm@ =~= after_sig@.skip(2));
        }
        let (title, note_type) = match rfind_exec(&atm, &um) {
            Some(p) => {
                proof {
                    lemma_rfind_bounds(atm@, type_marker());
                }
                let t = string_of(&atm, 0, p);
                let nt = string_of(&atm, p + 2, atm.len());
                proof {
                    assert(atm@.subrange(0, p as int) =~= atm@.take(p as int));
                    assert(atm@.subrange(p + 2, atm@.len() as int) =~= atm@.skip(p + 2));
                }
                (t, Some(nt))
            },
            None => (string_of_all(&atm), None),
        };
        let r = DenoteFilename { id, signature, title, note_type, extension };
        proof {
            let pf = parse_filename(f);
            assert(pf is Some);
            assert(pf->0 == r@);
        }
        Some(r)
    }

    /// Whether `parse` can read the file name without failing: the part
    /// before the extension, when fifteen bytes or longer, has a character
    /// boundary at byte fifteen.
    pub fn parse_is_safe(filename: &str) -> (r: bool)
        ensures
            r == filename_parse_safe(filename@),
    {
        let v = str_chars(filename);
        let dotv = vec!['.'];
        proof {
            assert(dotv@ =~= dot());
        }
        match rfind_exec(&v, &dotv) {
            Some(d) => {
                let stem = copy_range(&v, 0, d);
                proof {
                    assert(stem@ =~= filename@.take(d as int));
                }
                byte_len_le(&stem, 14) || char_index_at_byte(&stem, 15).is_some()
            },
            None => true,
        }
    }

    /// Parses a Denote file name `ID[==SIG]--TITLE[__TYPE].EXT`.
    pub fn parse(filename: &str) -> (r: Option<DenoteFilename>)
        requires
            filename_parse_safe(filename@),
        ensures
            r matches Some(d) ==> parse_filename(filename@) == Some(d@),
            r is None ==> parse_filename(filename@) is None,
    {
        let v = str_chars(filename);
        Self::parse_chars(&v)
    }

    /// Notes are the `.org` files; everything else is an asset.
    pub fn is_note(&self) -> (b: bool)
        ensures
            b == (self.extension@ == seq!['o', 'r', 'g']),
    {
        let v = str_chars(self.extension.as_str());
        let org = vec!['o', 'r', 'g'];
        proof {
            assert(org@ =~= seq!['o', 'r', 'g']);
        }
        eq_exec(&v, &org)
    }

    /// Parses the last segment of a `/`-separated path.
    pub fn from_path(path: &str) -> (r: Option<DenoteFilename>)
        requires
            filename_parse_safe(last_segment(path@)),
        ensures
            r matches Some(d) ==> parse_filename(last_segment(path@)) == Some(d@),
            r is None ==> parse_filename(last_segment(path@)) is None,
    {
        let v = str_chars(path);
        let seg = last_segment_exec(&v);
        Self::parse_chars(&seg)
    }

    /// The title with hyphens shown as spaces.
    pub fn display_title(&self) -> (r: String)
        ensures
            r@ == self.title@.map_values(|c: char| if c == '-' { ' ' } else { c }),
    {
        let v = str_chars(self.title.as_str());
        let mut out: Vec<char> = Vec::new();
        let mut i: usize = 0;
        while i < v.len()
            invariant
                i <= v.len(),
                out@ == v@.take(i as int).map_values(|c: char| if c == '-' { ' ' } else { c }),
            decreases v.len() - i,
        {
            let c = v[i];
            out.push(if c == '-' { ' ' } else { c });
            proof {
                assert(v@.take(i + 1) =~= v@.take(i as int).push(c));
            }
            i = i + 1;
            proof {
                assert(out@ =~= v@.take(i as int).map_values(
                    |c: char| if c == '-' { ' ' } else { c },
                ));
            }
        }
        proof {
            assert(v@.take(v@.len() as int) =~= v@);
        }
        string_of_all(&out)
    }

    /// Writes the parts back as a file name.
    pub fn to_filename(&self) -> (r: String)
        ensures
            r@ == filename_text(self@),
    {
        let mut out: Vec<char> = Vec::new();
        push_str(&mut out, self.id.as_str());
        match &self.signature {
            Some(sig) => {
                out.push('=');
                out.push('=');
                push_str(&mut out, sig.as_str());
            },
            None => {},
        }
        out.push('-');
        out.push('-');
        push_str(&mut out, self.title.as_str());
        match &self.note_type {
            Some(nt) => {
                out.push('_');
                out.push('_');
                push_str(&mut out, nt.as_str());
            },
            None => {},
        }
        out.push('.');
        push_str(&mut out, self.extension.as_str());
        proof {
            assert(out@ =~= filename_text(self@));
        }
        string_of_all(&out)
    }

    /// The note type, `note` when the file name gives none.
    pub fn note_type_or_default(&self) -> (r: &str)
        ensures
            r@ == match self.note_type {
                Some(t) => t@,
                None => "note"@,
            },
    {
        match &self.note_type {
            Some(t) => t.as_str(),
            None => "note",
        }
    }

    pub fn duplicate(&self) -> (r: DenoteFilename)
        ensures
            r@ == self@,
    {
        DenoteFilename {
            id: self.id.duplicate(),
            signature: self.signature.clone(),
            title: self.title.clone(),
            note_type: self.note_type.clone(),
            extension: self.extension.clone(),
        }
    }
}

pub proof fn lemma_rfind_bounds(s: Seq<char>, p: Seq<char>)
    ensures
        rfind(s, p) matches Some(k) ==> 0 <= k && k + p.len() <= s.len() && matches_at(s, p, k),
{
    lemma_rfind_upto_spec(s, p, s.len() - p.len());
}

pub proof fn lemma_rfind_upto_spec(s: Seq<char>, p: Seq<char>, i: int)
    ensures
        rfind_upto(s, p, i) matches Some(k) ==> k <= i && matches_at(s, p, k) && forall|j: int|
            k < j <= i ==> !matches_at(s, p, j),
        rfind_upto(s, p, i) is None ==> forall|j: int| j <= i ==> !matches_at(s, p, j),
    decreases i + 1,
{
    if i >= 0 && !matches_at(s, p, i) {
        lemma_rfind_upto_spec(s, p, i - 1);
    }
}

/// The last `/`-separated segment of a path, as characters.
pub fn last_segment_exec(v: &Vec<char>) -> (r: Vec<char>)
    ensures
        r@ == last_segment(v@),
{
    let slash = vec!['/'];
    proof {
        assert(slash@ =~= seq!['/']);
    }
    match rfind_exec(v, &slash) {
        Some(k) => {
            proof {
                lemma_rfind_bounds(v@, seq!['/']);
            }
            let n: usize = v.len();
            let r = copy_range(v, k + 1, n);
            proof {
                assert(r@ =~= v@.skip(k + 1));
            }
            r
        },
        None => copy_all(v),
    }
}

/// The part of a file name before its first `--`, or its first sixteen bytes.
pub open spec fn short_id_spec(f: Seq<char>) -> Seq<char> {
    match find(f, title_marker()) {
        Some(p) => f.take(p),
        None => if byte_len(f) <= 16 {
            f
        } else {
            f.take(char_index_of_byte(f, 16))
        },
    }
}

/// Inputs on which `short_id_from_filename` does not panic.
pub open spec fn short_id_safe(f: Seq<char>) -> bool {
    find(f, title_marker()) is None && byte_len(f) > 16 ==> is_char_boundary(f, 16)
}

/// The identifier-and-signature prefix of a file name.
pub fn short_id_from_filename(filename: &str) -> (r: &str)
    requires
        short_id_safe(filename@),
    ensures
        r@ == short_id_spec(filename@),
{
    let v = str_chars(filename);
    let tm = vec!['-', '-'];
    proof {
        assert(tm@ =~= title_marker());
    }
    match find_exec(&v, &tm) {
        Some(p) => {
            proof {
                lemma_find_from_spec(v@, title_marker(), 0);
            }
            filename.substring_char(0, p)
        },
        None => {
            match char_index_at_byte(&v, 16) {
                Some(k) => {
                    proof {
                        lemma_char_index_of_byte(v@, 16, k as int);
                        lemma_byte_len_mono(v@, k as int);
                        if byte_len(v@) <= 16 {
                            // the whole name: no character starts past byte 16
                            lemma_short_whole(v@, k as int);
                        }
                    }
                    if byte_len_le(&v, 16) {
                        filename.substring_char(0, v.len())
                    } else {
                        filename.substring_char(0, k)
                    }
                },
                None => {
                    proof {
                        if byte_len(v@) > 16 {
                            assert(false);
                        }
                        assert(v@.subrange(0, v@.len() as int) =~= v@);
                    }
                    filename.substring_char(0, v.len())
                },
            }
        },
    }
}

proof fn lemma_short_whole(s: Seq<char>, k: int)
    requires
        0 <= k <= s.len(),
        byte_len(s.take(k)) == 16,
        byte_len(s) <= 16,
    ensures
        k == s.len(),
{
    if k < s.len() {
        assert(s.take(s.len() as int) =~= s);
        lemma_byte_len_strict(s, k, s.len() as int);
    }
}

// ---------------------------------------------------------------------------
// Round trips between file names and their parts
// ---------------------------------------------------------------------------

/// Writing back the parts of a parsed file name gives the file name again.
#[verifier::spinoff_prover]
#[verifier::rlimit(40)]
pub proof fn lemma_parse_then_write(f: Seq<char>)
    requires
        parse_filename(f) is Some,
    ensures
        filename_text(parse_filename(f)->0) == f,
{
    let d = rfind(f, dot())->0;
    lemma_rfind_bounds(f, dot());
    let w = f.take(d);
    let ext = f.skip(d + 1);
    assert(f =~= w + dot() + ext);
    let id = w.take(15);
    let rest = w.skip(15);
    assert(w =~= id + rest);
    let (sig, after_sig) = split_signature(rest);
    let atm = after_sig.skip(2);
    assert(after_sig =~= title_marker() + atm);
    let (title, nt) = split_type(atm);
    match rfind(atm, type_marker()) {
        Some(p) => {
            lemma_rfind_bounds(atm, type_marker());
            assert(atm =~= title + type_marker() + nt->0);
        },
        None => {},
    }
    if starts_with(rest, sig_marker()) {
        let st = rest.skip(2);
        assert(rest =~= sig_marker() + st);
        let e = match find(st, title_marker()) {
            Some(k) => k,
            None => st.len() as int,
        };
        if find(st, title_marker()) is Some {
            lemma_find_from_spec(st, title_marker(), 0);
        }
        assert(st =~= st.take(e) + st.skip(e));
    }
    let p = parse_filename(f)->0;
    assert(filename_text(p) =~= f);
}

/// First match: `p` occurs at `k` and nowhere before.
pub proof fn lemma_find_is(s: Seq<char>, p: Seq<char>, k: int)
    requires
        matches_at(s, p, k),
        forall|j: int| 0 <= j < k ==> !matches_at(s, p, j),
    ensures
        find(s, p) == Some(k),
{
    lemma_find_from_is(s, p, 0, k);
}

proof fn lemma_find_from_is(s: Seq<char>, p: Seq<char>, i: int, k: int)
    requires
        0 <= i <= k,
        matches_at(s, p, k),
        forall|j: int| i <= j < k ==> !matches_at(s, p, j),
    ensures
        find_from(s, p, i) == Some(k),
    decreases k - i,
{
    if i < k {
        lemma_find_from_is(s, p, i + 1, k);
    }
}

/// Last match: `p` occurs at `k` and nowhere after.
pub proof fn lemma_rfind_is(s: Seq<char>, p: Seq<char>, k: int)
    requires
        matches_at(s, p, k),
        forall|j: int| k < j ==> !matches_at(s, p, j),
    ensures
        rfind(s, p) == Some(k),
{
    lemma_rfind_upto_is(s, p, s.len() - p.len(), k);
}

proof fn lemma_rfind_upto_is(s: Seq<char>, p: Seq<char>, i: int, k: int)
    requires
        k <= i,
        matches_at(s, p, k),
        forall|j: int| k < j ==> !matches_at(s, p, j),
    ensures
        rfind_upto(s, p, i) == Some(k),
    decreases i - k,
{
    if k < i {
        lemma_rfind_upto_is(s, p, i - 1, k);
    }
}

pub proof fn lemma_rfind_none(s: Seq<char>, p: Seq<char>)
    requires
        forall|j: int| !matches_at(s, p, j),
    ensures
        rfind(s, p) is None,
{
    lemma_rfind_upto_spec(s, p, s.len() - p.len());
}

/// Parts that `DenoteFilename::parse` reads back unchanged from the file name
/// they are written to: a valid identifier, a signature that neither holds
/// `--` nor ends in `-`, a type that neither holds `__` nor starts with `_`
/// (a title without `__` when there is no type), an extension without `.`.
pub open spec fn parts_round_trip(p: FilenameParts) -> bool {
    &&& is_id_text(p.id)
    &&& (p.signature matches Some(s) ==> find(s.push('-'), title_marker()) is None)
    &&& (p.note_type matches Some(t) ==> find(seq!['_'] + t, type_marker()) is None)
    &&& (p.note_type is None ==> find(p.title, type_marker()) is None)
    &&& find(p.extension, dot()) is None
}

proof fn lemma_ext_split(w: Seq<char>, ext: Seq<char>)
    requires
        find(ext, dot()) is None,
    ensures
        rfind(w + dot() + ext, dot()) == Some(w.len() as int),
        (w + dot() + ext).take(w.len() as int) == w,
        (w + dot() + ext).skip(w.len() as int + 1) == ext,
{
    let f = w + dot() + ext;
    lemma_find_from_spec(ext, dot(), 0);
    assert forall|j: int| w.len() < j implies !matches_at(f, dot(), j) by {
        if matches_at(f, dot(), j) {
            assert(f.subrange(j, j + 1)[0] == f[j]);
            assert(ext[j - w.len() - 1] == f[j]);
            assert(ext.subrange(j - w.len() - 1, j - w.len()) =~= dot());
            assert(matches_at(ext, dot(), j - w.len() - 1));
        }
    }
    assert(f.subrange(w.len() as int, w.len() as int + 1) =~= dot());
    lemma_rfind_is(f, dot(), w.len() as int);
    assert(f.take(w.len() as int) =~= w);
    assert(f.skip(w.len() as int + 1) =~= ext);
}

proof fn lemma_sig_split(s: Seq<char>, after_sig: Seq<char>)
    requires
        find(s.push('-'), title_marker()) is None,
        starts_with(after_sig, title_marker()),
    ensures
        split_signature(sig_marker() + s + after_sig) == (Some(s), after_sig),
{
    let rest = sig_marker() + s + after_sig;
    assert(rest.subrange(0, 2) =~= sig_marker());
    let st = rest.skip(2);
    assert(st =~= s + after_sig);
    lemma_find_from_spec(s.push('-'), title_marker(), 0);
    assert forall|j: int| 0 <= j < s.len() implies !matches_at(st, title_marker(), j) by {
        if matches_at(st, title_marker(), j) {
            assert(st.subrange(j, j + 2)[0] == st[j]);
            assert(st.subrange(j, j + 2)[1] == st[j + 1]);
            assert(after_sig.subrange(0, 2)[0] == after_sig[0]);
            assert(s.push('-')[j] == st[j]);
            assert(s.push('-')[j + 1] == st[j + 1]);
            assert(s.push('-').subrange(j, j + 2) =~= title_marker());
            assert(matches_at(s.push('-'), title_marker(), j));
        }
    }
    assert(st.subrange(s.len() as int, s.len() as int + 2) =~= after_sig.subrange(0, 2));
    lemma_find_is(st, title_marker(), s.len() as int);
    assert(st.take(s.len() as int) =~= s);
    assert(st.skip(s.len() as int) =~= after_sig);
}

proof fn lemma_type_split(title: Seq<char>, t: Seq<char>)
    requires
        find(seq!['_'] + t, type_marker()) is None,
    ensures
        split_type(title + type_marker() + t) == (title, Some(t)),
{
    let atm = title + type_marker() + t;
    let u = seq!['_'] + t;
    lemma_find_from_spec(u, type_marker(), 0);
    let tl = title.len() as int;
    assert forall|j: int| tl < j implies !matches_at(atm, type_marker(), j) by {
        if matches_at(atm, type_marker(), j) {
            assert(atm.subrange(j, j + 2)[0] == atm[j]);
            assert(atm.subrange(j, j + 2)[1] == atm[j + 1]);
            assert(u[j - tl - 1] == atm[j]);
            assert(u[j - tl] == atm[j + 1]);
            assert(u.subrange(j - tl - 1, j - tl + 1) =~= type_marker());
            assert(matches_at(u, type_marker(), j - tl - 1));
        }
    }
    assert(atm.subrange(tl, tl + 2) =~= type_marker());
    lemma_rfind_is(atm, type_marker(), tl);
    assert(atm.take(tl) =~= title);
    assert(atm.skip(tl + 2) =~= t);
}

proof fn lemma_type_none(title: Seq<char>)
    requires
        find(title, type_marker()) is None,
    ensures
        split_type(title) == (title, None::<Seq<char>>),
{
    lemma_find_from_spec(title, type_marker(), 0);
    lemma_rfind_none(title, type_marker());
}

/// Parsing the file name written for well-formed parts gives those parts.
pub proof fn lemma_write_then_parse(p: FilenameParts)
    requires
        parts_round_trip(p),
    ensures
        parse_filename(filename_text(p)) == Some(p),
{
    let sigpart = match p.signature {
        Some(s) => sig_marker() + s,
        None => Seq::<char>::empty(),
    };
    let typart = match p.note_type {
        Some(t) => type_marker() + t,
        None => Seq::<char>::empty(),
    };
    let atm = p.title + typart;
    let after_sig = title_marker() + atm;
    let rest = sigpart + after_sig;
    let w = p.id + rest;
    let f = filename_text(p);
    assert(f =~= w + dot() + p.extension);
    lemma_ext_split(w, p.extension);
    assert(w.take(15) =~= p.id);
    assert(w.skip(15) =~= rest);
    assert(after_sig.subrange(0, 2) =~= title_marker());
    match p.signature {
        Some(s) => {
            assert(rest =~= sig_marker() + s + after_sig);
            lemma_sig_split(s, after_sig);
        },
        None => {
            assert(rest =~= after_sig);
            assert(rest.subrange(0, 2)[0] == rest[0]);
        },
    }
    assert(after_sig.skip(2) =~= atm);
    match p.note_type {
        Some(t) => {
            assert(atm =~= p.title + type_marker() + t);
            lemma_type_split(p.title, t);
        },
        None => {
            assert(atm =~= p.title);
            lemma_type_none(p.title);
        },
    }
}

} // verus!
