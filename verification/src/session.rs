//! The reader's sign-in state in the browser: who is signed in, and the
//! message of the sign-in prompt when it is open.
use vstd::prelude::*;
use crate::auth::UserInfo;
use crate::chars::{push_str, string_of_all};

verus! {

broadcast use vstd::string::group_string_axioms;

pub open spec fn prompt_view(p: Option<String>) -> Option<Seq<char>> {
    match p {
        Some(s) => Some(s@),
        None => None,
    }
}

/// The prompt asking for a signature's access.
pub open spec fn access_prompt(signature: Seq<char>) -> Seq<char> {
    "This content requires '"@ + signature + "' access"@
}

/// The prompt after a failed sign-in.
pub open spec fn failure_prompt(error: Seq<char>) -> Seq<char> {
    "Login failed: "@ + error
}

/// The signed-in user, if any, and the sign-in prompt, if open (an empty
/// message asks for no access in particular).
pub struct AuthState {
    pub user: Option<UserInfo>,
    pub login_prompt: Option<String>,
}

impl AuthState {
    /// Nobody signed in, no prompt.
    pub fn new() -> (r: AuthState)
        ensures
            r.user is None,
            r.login_prompt is None,
    {
        AuthState { user: None, login_prompt: None }
    }

    pub fn is_authenticated(&self) -> (r: bool)
        ensures
            r == self.user is Some,
    {
        self.user.is_some()
    }

    /// Opens the prompt for content that needs `required_signature`.
    pub fn request_login(&mut self, required_signature: &str)
        ensures
            final(self).user == old(self).user,
            prompt_view(final(self).login_prompt) == Some(access_prompt(required_signature@)),
    {
        let mut m: Vec<char> = Vec::new();
        push_str(&mut m, "This content requires '");
        push_str(&mut m, required_signature);
        push_str(&mut m, "' access");
        self.login_prompt = Some(string_of_all(&m));
    }

    /// Opens the prompt without naming an access.
    pub fn request_login_any(&mut self)
        ensures
            final(self).user == old(self).user,
            prompt_view(final(self).login_prompt) == Some(Seq::<char>::empty()),
    {
        self.login_prompt = Some(String::new());
    }

    pub fn close_login_prompt(&mut self)
        ensures
            final(self).user == old(self).user,
            final(self).login_prompt is None,
    {
        self.login_prompt = None;
    }

    /// A sign-in that failed: the prompt shows why.
    pub fn login_failed(&mut self, error: &str)
        ensures
            final(self).user == old(self).user,
            prompt_view(final(self).login_prompt) == Some(failure_prompt(error@)),
    {
        let mut m: Vec<char> = Vec::new();
        push_str(&mut m, "Login failed: ");
        push_str(&mut m, error);
        self.login_prompt = Some(string_of_all(&m));
    }

    /// A sign-in that succeeded: the prompt closes, and the user becomes
    /// what asking for the current user gave (`None` where that failed,
    /// which keeps the user as it was). The caller then refreshes the notes.
    pub fn logged_in(&mut self, current: Option<Option<UserInfo>>)
        ensures
            final(self).login_prompt is None,
            match current {
                Some(u) => final(self).user == u,
                None => final(self).user == old(self).user,
            },
    {
        match current {
            Some(u) => {
                self.user = u;
            },
            None => {},
        }
        self.login_prompt = None;
    }

    /// A sign-out, whatever the server answered: nobody is signed in. The
    /// caller then refreshes the notes.
    pub fn logged_out(&mut self)
        ensures
            final(self).user is None,
            final(self).login_prompt == old(self).login_prompt,
    {
        self.user = None;
    }
}

} // verus!
