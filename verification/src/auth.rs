//! Access grants, access levels, users, and the configuration-driven policy
//! that decides which notes a reader may see.
use vstd::prelude::*;
use crate::chars::{eq_str, str_chars};
use crate::models::{clone_opt, clone_strings, string_views};

verus! {

broadcast use vstd::string::group_string_axioms;

/// The signatures a list of strings grants.
pub open spec fn grant_set(v: Seq<String>) -> Set<Seq<char>> {
    string_views(v).to_set()
}

/// Whether a list of strings holds `s`.
pub fn holds(v: &Vec<String>, s: &str) -> (r: bool)
    ensures
        r == string_views(v@).contains(s@),
{
    let sv = str_chars(s);
    let mut i: usize = 0;
    while i < v.len()
        invariant
            i <= v@.len(),
            sv@ == s@,
            forall|j: int| 0 <= j < i ==> string_views(v@)[j] != s@,
        decreases v@.len() - i,
    {
        if eq_str(&sv, v[i].as_str()) {
            proof {
                assert(string_views(v@)[i as int] == s@);
            }
            return true;
        }
        i = i + 1;
    }
    false
}

/// Appends every string of `src` to `dst`.
fn extend_strings(dst: &mut Vec<String>, src: &Vec<String>)
    ensures
        string_views(final(dst)@) == string_views(old(dst)@) + string_views(src@),
{
    let ghost d0 = string_views(dst@);
    let mut i: usize = 0;
    while i < src.len()
        invariant
            i <= src@.len(),
            string_views(dst@) == d0 + string_views(src@).take(i as int),
        decreases src@.len() - i,
    {
        let ghost before = string_views(dst@);
        dst.push(src[i].clone());
        proof {
            assert(string_views(dst@) =~= before.push(src@[i as int]@));
            assert(string_views(src@).take(i + 1) =~= string_views(src@).take(i as int).push(
                src@[i as int]@,
            ));
            assert(string_views(dst@) =~= d0 + string_views(src@).take(i + 1));
        }
        i = i + 1;
    }
    proof {
        assert(string_views(src@).take(src@.len() as int) =~= string_views(src@));
    }
}

/// The set of signatures a reader may see.
pub struct AccessGrants {
    grants: Vec<String>,
}

impl View for AccessGrants {
    type V = Set<Seq<char>>;

    closed spec fn view(&self) -> Set<Seq<char>> {
        grant_set(self.grants@)
    }
}

impl AccessGrants {
    pub fn new(grants: Vec<String>) -> (r: AccessGrants)
        ensures
            r@ == grant_set(grants@),
    {
        AccessGrants { grants }
    }

    /// Grants nothing.
    pub fn none() -> (r: AccessGrants)
        ensures
            r@ == Set::<Seq<char>>::empty(),
    {
        let grants: Vec<String> = Vec::new();
        proof {
            assert(grant_set(grants@) =~= Set::<Seq<char>>::empty());
        }
        AccessGrants { grants }
    }

    pub fn contains(&self, signature: &str) -> (r: bool)
        ensures
            r == self@.contains(signature@),
    {
        holds(&self.grants, signature)
    }

    pub fn is_empty(&self) -> (r: bool)
        ensures
            r == (self@ == Set::<Seq<char>>::empty()),
    {
        proof {
            if self.grants@.len() > 0 {
                assert(grant_set(self.grants@).contains(self.grants@[0]@)) by {
                    assert(string_views(self.grants@)[0] == self.grants@[0]@);
                }
            } else {
                assert(grant_set(self.grants@) =~= Set::<Seq<char>>::empty());
            }
        }
        self.grants.len() == 0
    }

    pub fn duplicate(&self) -> (r: AccessGrants)
        ensures
            r@ == self@,
    {
        let g = clone_strings(&self.grants);
        AccessGrants { grants: g }
    }

    /// Whether two grants hold the same signatures.
    pub fn same_as(&self, other: &AccessGrants) -> (r: bool)
        ensures
            r == (self@ == other@),
    {
        let a = covered(&self.grants, &other.grants);
        let b = covered(&other.grants, &self.grants);
        proof {
            if a && b {
                assert(self@ =~= other@);
            }
            if !a {
                let i = choose|i: int|
                    0 <= i < self.grants@.len() && !string_views(other.grants@).contains(
                        #[trigger] string_views(self.grants@)[i],
                    );
                assert(self@.contains(string_views(self.grants@)[i]));
            }
            if !b {
                let i = choose|i: int|
                    0 <= i < other.grants@.len() && !string_views(self.grants@).contains(
                        #[trigger] string_views(other.grants@)[i],
                    );
                assert(other@.contains(string_views(other.grants@)[i]));
            }
        }
        a && b
    }
}

/// Whether every string of `a` is in `b`.
fn covered(a: &Vec<String>, b: &Vec<String>) -> (r: bool)
    ensures
        r == forall|i: int| 0 <= i < a@.len() ==> string_views(b@).contains(#[trigger] string_views(a@)[i]),
{
    let mut i: usize = 0;
    while i < a.len()
        invariant
            i <= a@.len(),
            forall|k: int| 0 <= k < i ==> string_views(b@).contains(#[trigger] string_views(a@)[k]),
        decreases a@.len() - i,
    {
        if !holds(b, a[i].as_str()) {
            proof {
                assert(string_views(a@)[i as int] == a@[i as int]@);
            }
            return false;
        }
        proof {
            assert(string_views(a@)[i as int] == a@[i as int]@);
        }
        i = i + 1;
    }
    true
}

/// A user account.
pub struct User {
    pub id: String,
    pub email: String,
    pub display_name: Option<String>,
    pub assigned_levels: Vec<String>,
    pub session_hash: String,
}

/// What a client is told about the signed-in user.
pub struct UserInfo {
    pub email: String,
    pub display_name: Option<String>,
    pub assigned_levels: Vec<String>,
}

impl From<User> for UserInfo {
    fn from(u: User) -> (r: UserInfo) {
        UserInfo { email: u.email, display_name: u.display_name, assigned_levels: u.assigned_levels }
    }
}

impl vstd::std_specs::convert::FromSpecImpl<User> for UserInfo {
    open spec fn obeys_from_spec() -> bool {
        true
    }

    open spec fn from_spec(u: User) -> UserInfo {
        UserInfo { email: u.email, display_name: u.display_name, assigned_levels: u.assigned_levels }
    }
}

/// Login credentials.
pub enum Credentials {
    Password { email: String, password: String },
}

/// An access level: its name and the signatures it grants.
pub struct AccessLevelConfig {
    pub name: String,
    pub grants: Vec<String>,
    pub emoji: Option<String>,
    pub description: Option<String>,
}

pub struct LevelView {
    pub name: Seq<char>,
    pub grants: Set<Seq<char>>,
}

impl View for AccessLevelConfig {
    type V = LevelView;

    open spec fn view(&self) -> LevelView {
        LevelView { name: self.name@, grants: grant_set(self.grants@) }
    }
}

pub open spec fn level_views(v: Seq<AccessLevelConfig>) -> Seq<LevelView> {
    v.map_values(|l: AccessLevelConfig| l@)
}

/// A level as the policy keeps it: granting its own name too.
pub open spec fn with_own_name(l: LevelView) -> LevelView {
    LevelView { name: l.name, grants: l.grants.insert(l.name) }
}

/// The grants of the level named `name`, the last such level winning.
pub open spec fn level_lookup(ls: Seq<LevelView>, name: Seq<char>) -> Option<Set<Seq<char>>>
    decreases ls.len(),
{
    if ls.len() == 0 {
        None
    } else if ls.last().name == name {
        Some(ls.last().grants)
    } else {
        level_lookup(ls.drop_last(), name)
    }
}

/// The union of the grants of the named levels; unknown names add nothing.
pub open spec fn levels_grants(ls: Seq<LevelView>, names: Seq<Seq<char>>) -> Set<Seq<char>>
    decreases names.len(),
{
    if names.len() == 0 {
        Set::empty()
    } else {
        levels_grants(ls, names.drop_last()).union(
            match level_lookup(ls, names.last()) {
                Some(g) => g,
                None => Set::empty(),
            },
        )
    }
}

/// The signatures anonymous readers get unless configured otherwise.
pub open spec fn default_anonymous_spec() -> Set<Seq<char>> {
    set!["public"@]
}

/// The signature of a note that names none, unless configured otherwise.
pub open spec fn default_signature_spec() -> Seq<char> {
    "private"@
}

/// `["public"]`.
pub fn default_anonymous_grants() -> (r: Vec<String>)
    ensures
        grant_set(r@) == default_anonymous_spec(),
{
    let mut v: Vec<String> = Vec::new();
    v.push("public".to_owned());
    proof {
        assert(string_views(v@) =~= seq!["public"@]);
        assert(string_views(v@)[0] == "public"@);
        assert(string_views(v@).contains("public"@));
        assert(grant_set(v@) =~= default_anonymous_spec());
    }
    v
}

/// `"private"`.
pub fn default_signature() -> (r: String)
    ensures
        r@ == default_signature_spec(),
{
    "private".to_owned()
}

/// Who gets access without signing in.
pub struct AnonymousConfig {
    pub grants: Vec<String>,
}

impl Default for AnonymousConfig {
    fn default() -> (r: AnonymousConfig)
        ensures
            grant_set(r.grants@) == default_anonymous_spec(),
    {
        AnonymousConfig { grants: default_anonymous_grants() }
    }
}

/// The administrator account created at start-up.
pub struct AdminUserConfig {
    pub email: String,
    pub password: String,
    pub assigned_levels: Vec<String>,
}

/// The authorization configuration file.
pub struct AuthConfigFile {
    pub default_signature: String,
    pub anonymous: AnonymousConfig,
    pub levels: Vec<AccessLevelConfig>,
    pub admin: Option<AdminUserConfig>,
}

impl Default for AuthConfigFile {
    /// `private` as default signature, `public` for anonymous readers, no
    /// levels, no administrator.
    fn default() -> (r: AuthConfigFile)
        ensures
            r.default_signature@ == default_signature_spec(),
            grant_set(r.anonymous.grants@) == default_anonymous_spec(),
            r.levels@.len() == 0,
            r.admin is None,
    {
        AuthConfigFile {
            default_signature: default_signature(),
            anonymous: AnonymousConfig::default(),
            levels: Vec::new(),
            admin: None,
        }
    }
}

/// What a policy decides by.
pub struct PolicyView {
    /// The levels in configuration order, each granting its own name too.
    pub levels: Seq<LevelView>,
    pub default_signature: Seq<char>,
    pub anonymous: Set<Seq<char>>,
}

/// The signature a note is judged by: its own, else the default.
pub open spec fn effective_spec(p: PolicyView, note_signature: Option<Seq<char>>) -> Seq<char> {
    match note_signature {
        Some(s) => s,
        None => p.default_signature,
    }
}

/// Whether grants let a reader see a note with the given signature.
pub open spec fn can_access_spec(
    p: PolicyView,
    grants: Set<Seq<char>>,
    note_signature: Option<Seq<char>>,
) -> bool {
    grants.contains(effective_spec(p, note_signature))
}

/// The policy a configuration file describes.
pub open spec fn policy_of(levels: Seq<LevelView>, default_signature: Seq<char>, anonymous: Set<
    Seq<char>,
>) -> PolicyView {
    PolicyView {
        levels: levels.map_values(|l: LevelView| with_own_name(l)),
        default_signature,
        anonymous,
    }
}

pub open spec fn opt_str_view(o: Option<&str>) -> Option<Seq<char>> {
    match o {
        Some(s) => Some(s@),
        None => None,
    }
}

/// The authorization rules a server applies: which signature a note
/// carries, what anonymous readers and each set of levels may see.
pub trait AuthzPolicy {
    spec fn policy(&self) -> PolicyView;

    fn effective_signature<'a>(&'a self, note_signature: Option<&'a str>) -> (r: &'a str)
        ensures
            r@ == effective_spec(self.policy(), opt_str_view(note_signature)),
    ;

    fn anonymous_grants(&self) -> (r: AccessGrants)
        ensures
            r@ == self.policy().anonymous,
    ;

    fn can_access(&self, grants: &AccessGrants, note_signature: Option<&str>) -> (r: bool)
        ensures
            r == can_access_spec(self.policy(), grants@, opt_str_view(note_signature)),
    {
        let effective = self.effective_signature(note_signature);
        grants.contains(effective)
    }

    fn grants_for_levels(&self, levels: &Vec<String>) -> (r: AccessGrants)
        ensures
            r@ == levels_grants(self.policy().levels, string_views(levels@)),
    ;
}

/// The policy read from the authorization configuration file.
pub struct ConfigAuthzPolicy {
    levels: Vec<AccessLevelConfig>,
    default_signature: String,
    anonymous_grants: Vec<String>,
}

impl ConfigAuthzPolicy {
    pub closed spec fn view_policy(&self) -> PolicyView {
        PolicyView {
            levels: level_views(self.levels@),
            default_signature: self.default_signature@,
            anonymous: grant_set(self.anonymous_grants@),
        }
    }

    /// Builds the policy; each level also grants its own name, and of two
    /// levels with one name the later one counts.
    pub fn from_config(config: AuthConfigFile) -> (r: ConfigAuthzPolicy)
        ensures
            r.policy() == policy_of(
                level_views(config.levels@),
                config.default_signature@,
                grant_set(config.anonymous.grants@),
            ),
    {
        let AuthConfigFile { default_signature, anonymous, levels: cfg_levels, admin: _ } = config;
        let ghost src = level_views(cfg_levels@);
        let mut levels: Vec<AccessLevelConfig> = Vec::new();
        let mut i: usize = 0;
        while i < cfg_levels.len()
            invariant
                i <= cfg_levels@.len(),
                src == level_views(cfg_levels@),
                levels@.len() == i,
                forall|k: int| 0 <= k < i ==> (#[trigger] levels@[k])@ == with_own_name(src[k]),
            decreases cfg_levels@.len() - i,
        {
            let l = &cfg_levels[i];
            let mut grants = clone_strings(&l.grants);
            let ghost g0 = grants@;
            grants.push(l.name.clone());
            proof {
                assert(string_views(grants@) =~= string_views(g0).push(l.name@));
                assert(grant_set(grants@) =~= grant_set(l.grants@).insert(l.name@)) by {
                    assert(string_views(g0) == string_views(l.grants@));
                    string_views(g0).lemma_push_to_set_commute(l.name@);
                }
                assert(src[i as int] == l@);
            }
            levels.push(
                AccessLevelConfig {
                    name: l.name.clone(),
                    grants,
                    emoji: clone_opt(&l.emoji),
                    description: clone_opt(&l.description),
                },
            );
            i = i + 1;
        }
        let r = ConfigAuthzPolicy { levels, default_signature, anonymous_grants: anonymous.grants };
        proof {
            assert(level_views(r.levels@) =~= src.map_values(|l: LevelView| with_own_name(l)));
        }
        r
    }

    /// The grants of the level named `name`, the last such level winning.
    fn lookup(&self, name: &str) -> (r: Option<&AccessLevelConfig>)
        ensures
            r matches Some(l) ==> level_lookup(self.policy().levels, name@) == Some(l@.grants),
            r is None ==> level_lookup(self.policy().levels, name@) is None,
    {
        let ghost ls = level_views(self.levels@);
        let nv = str_chars(name);
        let mut k: usize = self.levels.len();
        proof {
            assert(ls.take(k as int) =~= ls);
        }
        while k > 0
            invariant
                k <= self.levels@.len(),
                ls == level_views(self.levels@),
                ls == self.policy().levels,
                nv@ == name@,
                level_lookup(ls, name@) == level_lookup(ls.take(k as int), name@),
            decreases k,
        {
            let l = &self.levels[k - 1];
            proof {
                assert(ls.take(k as int).last() == l@);
                assert(ls.take(k as int).drop_last() =~= ls.take(k - 1));
            }
            if eq_str(&nv, l.name.as_str()) {
                return Some(l);
            }
            k = k - 1;
        }
        None
    }
}

impl AuthzPolicy for ConfigAuthzPolicy {
    open spec fn policy(&self) -> PolicyView {
        self.view_policy()
    }

    fn effective_signature<'a>(&'a self, note_signature: Option<&'a str>) -> (r: &'a str) {
        match note_signature {
            Some(s) => s,
            None => self.default_signature.as_str(),
        }
    }

    fn anonymous_grants(&self) -> (r: AccessGrants) {
        AccessGrants::new(clone_strings(&self.anonymous_grants))
    }

    fn grants_for_levels(&self, levels: &Vec<String>) -> (r: AccessGrants) {
        let ghost ls = self.policy().levels;
        let ghost names = string_views(levels@);
        let mut grants: Vec<String> = Vec::new();
        let mut i: usize = 0;
        proof {
            assert(grant_set(grants@) =~= levels_grants(ls, names.take(0)));
        }
        while i < levels.len()
            invariant
                i <= levels@.len(),
                ls == self.policy().levels,
                names == string_views(levels@),
                grant_set(grants@) == levels_grants(ls, names.take(i as int)),
            decreases levels@.len() - i,
        {
            let ghost before = string_views(grants@);
            proof {
                assert(names.take(i + 1).drop_last() =~= names.take(i as int));
                assert(names.take(i + 1).last() == levels@[i as int]@);
            }
            match self.lookup(levels[i].as_str()) {
                Some(l) => {
                    extend_strings(&mut grants, &l.grants);
                    proof {
                        let after = string_views(grants@);
                        assert(after.to_set() =~= before.to_set().union(grant_set(l.grants@))) by {
                            assert forall|x: Seq<char>| after.contains(x) <==> (before.contains(x)
                                || string_views(l.grants@).contains(x)) by {
                                if after.contains(x) {
                                    let j = choose|j: int| 0 <= j < after.len() && after[j] == x;
                                    if j >= before.len() {
                                        assert(string_views(l.grants@)[j - before.len()] == x);
                                    }
                                }
                                if before.contains(x) {
                                    let j = choose|j: int| 0 <= j < before.len() && before[j] == x;
                                    assert(after[j] == x);
                                }
                                if string_views(l.grants@).contains(x) {
                                    let j = choose|j: int|
                                        0 <= j < string_views(l.grants@).len()
                                            && string_views(l.grants@)[j] == x;
                                    assert(after[before.len() + j] == x);
                                }
                            }
                        }
                    }
                },
                None => {
                    proof {
                        assert(names.take(i + 1).last() == names[i as int]);
                        assert(level_lookup(ls, names[i as int]) is None);
                        assert(levels_grants(ls, names.take(i + 1)) =~= levels_grants(
                            ls,
                            names.take(i as int),
                        ));
                    }
                },
            }
            i = i + 1;
        }
        proof {
            assert(names.take(levels@.len() as int) =~= names);
        }
        AccessGrants::new(grants)
    }
}

/// Under the default configuration an anonymous reader sees a note exactly
/// when its signature is `public`: notes without a signature are private.
pub proof fn lemma_default_anonymous_sees_only_public(
    levels: Seq<LevelView>,
    note_signature: Option<Seq<char>>,
)
    ensures
        ({
            let p = policy_of(levels, default_signature_spec(), default_anonymous_spec());
            can_access_spec(p, p.anonymous, note_signature) <==> note_signature == Some("public"@)
        }),
{
    reveal_strlit("public");
    reveal_strlit("private");
    let p = policy_of(levels, default_signature_spec(), default_anonymous_spec());
    if note_signature is None {
        assert("private"@ != "public"@) by {
            assert("private"@[1] != "public"@[1]);
        }
    }
}

/// A level's own name is among the grants of any set of levels naming it.
pub proof fn lemma_level_grants_own_name(
    levels: Seq<LevelView>,
    names: Seq<Seq<char>>,
    i: int,
)
    requires
        0 <= i < names.len(),
        exists|j: int| 0 <= j < levels.len() && (#[trigger] levels[j]).name == names[i],
    ensures
        levels_grants(levels.map_values(|l: LevelView| with_own_name(l)), names).contains(names[i]),
    decreases names.len(),
{
    let ls = levels.map_values(|l: LevelView| with_own_name(l));
    if i == names.len() - 1 {
        lemma_lookup_own_name(levels, names[i]);
    } else {
        assert(names.drop_last()[i] == names[i]);
        lemma_level_grants_own_name(levels, names.drop_last(), i);
    }
}

proof fn lemma_lookup_own_name(levels: Seq<LevelView>, name: Seq<char>)
    requires
        exists|j: int| 0 <= j < levels.len() && (#[trigger] levels[j]).name == name,
    ensures
        ({
            let ls = levels.map_values(|l: LevelView| with_own_name(l));
            level_lookup(ls, name) matches Some(g) && g.contains(name)
        }),
    decreases levels.len(),
{
    let ls = levels.map_values(|l: LevelView| with_own_name(l));
    if levels.last().name != name {
        let j = choose|j: int| 0 <= j < levels.len() && (#[trigger] levels[j]).name == name;
        assert(j < levels.len() - 1);
        assert(levels.drop_last()[j] == levels[j]);
        lemma_lookup_own_name(levels.drop_last(), name);
        assert(ls.drop_last() =~= levels.drop_last().map_values(|l: LevelView| with_own_name(l)));
    }
}

} // verus!
