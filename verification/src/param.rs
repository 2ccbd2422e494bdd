//! Transient request parameters: credentials and form details. These are
//! never persisted; only their effects (user and post rows) persist.

use vstd::prelude::*;

verus! {

/// Credentials presented on a login attempt.
#[derive(Clone)]
pub struct LoginCredentials {
    pub username: String,
    pub password: String,
    pub next: Option<String>,
}

impl LoginCredentials {
    /// Derives login credentials from freshly registered ones, so that a
    /// successful registration can chain directly into authentication.
    pub fn from(creds: &RegisterCredentials) -> (r: Self)
        ensures
            r.username@ == creds.username@,
            r.password@ == creds.password@,
            r.next.deep_view() == creds.next.deep_view(),
    {
        LoginCredentials {
            username: creds.username.clone(),
            password: creds.password.clone(),
            next: creds.next.clone(),
        }
    }
}

/// Credentials presented on a registration attempt.
#[derive(Clone)]
pub struct RegisterCredentials {
    pub email: String,
    pub username: String,
    pub password: String,
    pub next: Option<String>,
}

/// An optional URL to redirect to after a successful login.
pub struct NextUrl {
    pub next: Option<String>,
}

/// The body of a new post submission.
#[derive(Clone)]
pub struct PostDetails {
    pub body: String,
}

/// A follow request: the id of the account to follow and its username,
/// used for the redirect back to that account's page.
#[derive(Clone)]
pub struct FollowDetails {
    pub name: String,
    pub id: i64,
}

} // verus!
