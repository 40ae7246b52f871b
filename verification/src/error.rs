//! The errors of storage, authentication and the note repository, with the
//! messages they are shown with.
use vstd::prelude::*;
use crate::chars::{push_str, string_of_all};

verus! {

broadcast use vstd::string::group_string_axioms;

/// `prefix` followed by `detail`.
pub fn join_message(prefix: &str, detail: &str) -> (r: String)
    ensures
        r@ == prefix@ + detail@,
{
    let mut v: Vec<char> = Vec::new();
    push_str(&mut v, prefix);
    push_str(&mut v, detail);
    string_of_all(&v)
}

#[derive(Debug)]
pub enum StorageError {
    NotFound(String),
    PermissionDenied(String),
    InvalidPath(String),
    Io(String),
}

pub open spec fn storage_message_spec(e: StorageError) -> Seq<char> {
    match e {
        StorageError::NotFound(s) => "not found: "@ + s@,
        StorageError::PermissionDenied(s) => "permission denied: "@ + s@,
        StorageError::InvalidPath(s) => "invalid path: "@ + s@,
        StorageError::Io(s) => "I/O error: "@ + s@,
    }
}

impl StorageError {
    /// The error's message.
    pub fn message(&self) -> (r: String)
        ensures
            r@ == storage_message_spec(*self),
    {
        match self {
            StorageError::NotFound(s) => join_message("not found: ", s.as_str()),
            StorageError::PermissionDenied(s) => join_message("permission denied: ", s.as_str()),
            StorageError::InvalidPath(s) => join_message("invalid path: ", s.as_str()),
            StorageError::Io(s) => join_message("I/O error: ", s.as_str()),
        }
    }
}

#[derive(Debug)]
pub enum AuthError {
    InvalidCredentials,
    UserNotFound(String),
    Internal(String),
}

pub open spec fn auth_message_spec(e: AuthError) -> Seq<char> {
    match e {
        AuthError::InvalidCredentials => "invalid credentials"@,
        AuthError::UserNotFound(s) => "user not found: "@ + s@,
        AuthError::Internal(s) => "internal error: "@ + s@,
    }
}

impl AuthError {
    /// The error's message.
    pub fn message(&self) -> (r: String)
        ensures
            r@ == auth_message_spec(*self),
    {
        match self {
            AuthError::InvalidCredentials => "invalid credentials".to_owned(),
            AuthError::UserNotFound(s) => join_message("user not found: ", s.as_str()),
            AuthError::Internal(s) => join_message("internal error: ", s.as_str()),
        }
    }
}

#[derive(Debug)]
pub enum RepositoryError {
    NotFound(String),
    Unauthorized(String),
    Storage(String),
    Internal(String),
}

pub open spec fn repository_message_spec(e: RepositoryError) -> Seq<char> {
    match e {
        RepositoryError::NotFound(s) => "not found: "@ + s@,
        RepositoryError::Unauthorized(s) => "unauthorized: "@ + s@,
        RepositoryError::Storage(s) => "storage error: "@ + s@,
        RepositoryError::Internal(s) => "internal error: "@ + s@,
    }
}

impl RepositoryError {
    /// The error's message.
    pub fn message(&self) -> (r: String)
        ensures
            r@ == repository_message_spec(*self),
    {
        match self {
            RepositoryError::NotFound(s) => join_message("not found: ", s.as_str()),
            RepositoryError::Unauthorized(s) => join_message("unauthorized: ", s.as_str()),
            RepositoryError::Storage(s) => join_message("storage error: ", s.as_str()),
            RepositoryError::Internal(s) => join_message("internal error: ", s.as_str()),
        }
    }

    /// A storage failure, carrying the storage error's message.
    pub fn from_storage(e: StorageError) -> (r: RepositoryError)
        ensures
            r matches RepositoryError::Storage(m) && m@ == storage_message_spec(e),
    {
        RepositoryError::Storage(e.message())
    }

    /// An authentication failure, as an internal error carrying its message.
    pub fn from_auth(e: AuthError) -> (r: RepositoryError)
        ensures
            r matches RepositoryError::Internal(m) && m@ == auth_message_spec(e),
    {
        RepositoryError::Internal(e.message())
    }
}

/// Why serving could not start.
#[derive(Debug)]
pub enum ServeError {
    Config(String),
    Auth(String),
    Server(String),
}

pub open spec fn serve_message_spec(e: ServeError) -> Seq<char> {
    match e {
        ServeError::Config(s) => "config error: "@ + s@,
        ServeError::Auth(s) => "auth error: "@ + s@,
        ServeError::Server(s) => "server error: "@ + s@,
    }
}

impl ServeError {
    /// The error's message.
    pub fn message(&self) -> (r: String)
        ensures
            r@ == serve_message_spec(*self),
    {
        match self {
            ServeError::Config(s) => join_message("config error: ", s.as_str()),
            ServeError::Auth(s) => join_message("auth error: ", s.as_str()),
            ServeError::Server(s) => join_message("server error: ", s.as_str()),
        }
    }
}

} // verus!
