//! Stored user accounts, the sessions they sign in with, and password
//! checks.
use vstd::prelude::*;
use vstd::utf8::encode_utf8;
use crate::auth::{AdminUserConfig, Credentials, User};
use crate::error::AuthError;
use crate::models::{clone_opt, clone_strings, string_views};

verus! {

broadcast use vstd::string::group_string_axioms;

/// A user account as stored.
pub struct ServerUser {
    pub id: String,
    pub email: String,
    pub password_hash: String,
    pub display_name: Option<String>,
    pub assigned_levels: Vec<String>,
    pub created_at: i64,
    pub updated_at: i64,
}

impl ServerUser {
    /// The account as the rest of the system sees it; the password hash
    /// doubles as the session hash, so that a password change ends sessions.
    pub fn to_core_user(&self) -> (r: User)
        ensures
            r.id@ == self.id@,
            r.email@ == self.email@,
            crate::chars::opt_view(r.display_name) == crate::chars::opt_view(self.display_name),
            string_views(r.assigned_levels@) == string_views(self.assigned_levels@),
            r.session_hash@ == self.password_hash@,
    {
        User {
            id: self.id.clone(),
            email: self.email.clone(),
            display_name: clone_opt(&self.display_name),
            assigned_levels: clone_strings(&self.assigned_levels),
            session_hash: self.password_hash.clone(),
        }
    }
}

/// A signed-in user.
pub struct SessionUser(pub User);

impl SessionUser {
    /// The session's user id.
    pub fn id(&self) -> (r: String)
        ensures
            r@ == self.0.id@,
    {
        self.0.id.clone()
    }

    /// The bytes a session is tied to: the user's session hash.
    pub fn session_auth_hash(&self) -> (r: &[u8])
        ensures
            r@ == encode_utf8(self.0.session_hash@),
    {
        self.0.session_hash.as_str().as_bytes()
    }
}

/// The message of the error with which a stored hash string fails to
/// parse as a PHC string, or `None` when it parses.
pub uninterp spec fn phc_parse_error(hash: Seq<char>) -> Option<Seq<char>>;

/// `PasswordHash::new` (the PHC string parser that argon2 re-exports) on
/// the stored hash: the parsed value is dropped and only the outcome kept.
/// The contract claims that the outcome, and the message of a failure, is
/// a function of the hash string.
#[verifier::external_body]
fn check_phc(hash: &str) -> (r: Result<(), String>)
    ensures
        match r {
            Ok(()) => phc_parse_error(hash@) is None,
            Err(m) => phc_parse_error(hash@) == Some(m@),
        },
{
    match argon2::PasswordHash::new(hash) {
        Ok(_) => Ok(()),
        Err(e) => Err(e.to_string()),
    }
}

/// Whether argon2 accepts a password against a stored PHC hash string.
pub uninterp spec fn argon2_accepts(password: Seq<char>, hash: Seq<char>) -> bool;

/// `PasswordVerifier::verify_password` of `Argon2::default()` on the
/// password's bytes and the stored hash string, reduced to whether it
/// succeeded. The contract claims that this is a function of the password
/// and the hash.
#[verifier::external_body]
fn argon2_verify(password: &str, hash: &str) -> (r: bool)
    ensures
        r == argon2_accepts(password@, hash@),
{
    argon2::PasswordVerifier::verify_password(&argon2::Argon2::default(), password.as_bytes(), hash)
        .is_ok()
}

/// Checks a password against the account found for a login: no account
/// or a wrong password signs nobody in; a stored hash that is no PHC
/// string is an error.
pub fn verify_password(user: Option<ServerUser>, password: &str) -> (r: Result<
    Option<ServerUser>,
    AuthError,
>)
    ensures
        match user {
            None => r matches Ok(None),
            Some(u) => match phc_parse_error(u.password_hash@) {
                Some(m) => r matches Err(AuthError::Internal(e)) && e@ == m,
                None => if argon2_accepts(password@, u.password_hash@) {
                    r matches Ok(Some(v)) && v == u
                } else {
                    r matches Ok(None)
                },
            },
        },
{
    match user {
        None => Ok(None),
        Some(u) => match check_phc(u.password_hash.as_str()) {
            Err(m) => Err(AuthError::Internal(m)),
            Ok(()) => {
                if argon2_verify(password, u.password_hash.as_str()) {
                    Ok(Some(u))
                } else {
                    Ok(None)
                }
            },
        },
    }
}

/// The user as the rest of the system sees an account.
pub open spec fn core_user_spec(u: ServerUser) -> (Seq<char>, Seq<char>, Option<Seq<char>>, Seq<Seq<char>>, Seq<char>) {
    (u.id@, u.email@, crate::chars::opt_view(u.display_name), string_views(u.assigned_levels@), u.password_hash@)
}

pub open spec fn user_view(u: User) -> (Seq<char>, Seq<char>, Option<Seq<char>>, Seq<Seq<char>>, Seq<char>) {
    (u.id@, u.email@, crate::chars::opt_view(u.display_name), string_views(u.assigned_levels@), u.session_hash@)
}

/// Signs in with credentials, given the account found for their email:
/// the user when the password matches, nobody when there is no account or
/// the password is wrong, an internal error when the stored hash is no PHC
/// string.
pub fn authenticate(found: Option<ServerUser>, credentials: &Credentials) -> (r: Result<Option<User>, AuthError>)
    ensures
        match credentials {
            Credentials::Password { email: _, password } => match found {
                None => r matches Ok(None),
                Some(u) => match phc_parse_error(u.password_hash@) {
                    Some(m) => r matches Err(AuthError::Internal(e)) && e@ == m,
                    None => if argon2_accepts(password@, u.password_hash@) {
                        r matches Ok(Some(v)) && user_view(v) == core_user_spec(u)
                    } else {
                        r matches Ok(None)
                    },
                },
            },
        },
{
    match credentials {
        Credentials::Password { email: _, password } => match verify_password(found, password.as_str()) {
            Ok(Some(u)) => Ok(Some(u.to_core_user())),
            Ok(None) => Ok(None),
            Err(e) => Err(e),
        },
    }
}

/// `PasswordHasher::hash_password` of `Argon2::default()` on the password's
/// bytes, with a salt that password-hash draws from the system's random
/// source, as a PHC string; an error is passed on as its message. The salt
/// is random, so the string gets no name; what holds of every string made
/// (argon2's own usage example shows it) is that it parses as a PHC string
/// and verifies the password it was made from.
#[verifier::external_body]
fn argon2_hash(password: &str) -> (r: Result<String, String>)
    ensures
        r matches Ok(h) ==> phc_parse_error(h@) is None && argon2_accepts(password@, h@),
{
    match <argon2::Argon2 as argon2::PasswordHasher<argon2::PasswordHash>>::hash_password(
        &argon2::Argon2::default(),
        password.as_bytes(),
    ) {
        Ok(h) => Ok(h.to_string()),
        Err(e) => Err(e.to_string()),
    }
}

/// The account a new user gets: its id is its email, and it is created and
/// updated at `now` (seconds since the epoch).
pub fn new_account(
    email: &str,
    password_hash: String,
    display_name: Option<String>,
    assigned_levels: Vec<String>,
    now: i64,
) -> (r: ServerUser)
    ensures
        r.id@ == email@,
        r.email@ == email@,
        r.password_hash == password_hash,
        r.display_name == display_name,
        r.assigned_levels == assigned_levels,
        r.created_at == now,
        r.updated_at == now,
{
    ServerUser {
        id: email.to_owned(),
        email: email.to_owned(),
        password_hash,
        display_name,
        assigned_levels,
        created_at: now,
        updated_at: now,
    }
}

/// Creates an account, its password hashed with a fresh random salt: the
/// account carries what it was created with, and a stored hash that parses
/// as a PHC string and verifies the password; a hashing failure is an
/// internal error.
pub fn create_account(
    email: &str,
    password: &str,
    display_name: Option<String>,
    assigned_levels: Vec<String>,
    now: i64,
) -> (r: Result<ServerUser, AuthError>)
    ensures
        match r {
            Ok(u) => u.id@ == email@ && u.email@ == email@ && u.display_name == display_name
                && u.assigned_levels == assigned_levels && u.created_at == now && u.updated_at == now
                && phc_parse_error(u.password_hash@) is None && argon2_accepts(
                password@,
                u.password_hash@,
            ),
            Err(e) => e is Internal,
        },
{
    match argon2_hash(password) {
        Ok(h) => Ok(new_account(email, h, display_name, assigned_levels, now)),
        Err(m) => Err(AuthError::Internal(m)),
    }
}

/// The initial administrator's account: the configured email, password and
/// levels, named `Admin`.
pub fn create_admin(admin: &AdminUserConfig, now: i64) -> (r: Result<ServerUser, AuthError>)
    ensures
        match r {
            Ok(u) => u.id@ == admin.email@ && u.email@ == admin.email@ && crate::chars::opt_view(
                u.display_name,
            ) == Some("Admin"@) && string_views(u.assigned_levels@) == string_views(
                admin.assigned_levels@,
            ) && u.created_at == now && u.updated_at == now && phc_parse_error(u.password_hash@)
                is None && argon2_accepts(admin.password@, u.password_hash@),
            Err(e) => e is Internal,
        },
{
    create_account(
        admin.email.as_str(),
        admin.password.as_str(),
        Some("Admin".to_owned()),
        clone_strings(&admin.assigned_levels),
        now,
    )
}

/// The administrator account is created only on an empty user table.
pub fn admin_needed(user_count: i64) -> (r: bool)
    ensures
        r == (user_count == 0),
{
    user_count == 0
}

/// The session user an authentication backend's answer gives: a found
/// user; an error counts as nobody.
pub fn session_user(found: Result<Option<User>, AuthError>) -> (r: Option<SessionUser>)
    ensures
        match found {
            Ok(Some(u)) => r matches Some(s) && s.0 == u,
            _ => r is None,
        },
{
    match found {
        Ok(Some(u)) => Some(SessionUser(u)),
        _ => None,
    }
}

} // verus!
