//! The values that the services take and hand back.

use vstd::prelude::*;

verus! {

/// A new short URL as a client asks for it.
#[derive(Debug)]
pub struct CreateUrlRequest {
    pub key: String,
    pub url: String,
}

/// A change to a short URL: each field that is present replaces the stored one.
#[derive(Debug)]
pub struct UpdateUrlRequest {
    pub key: Option<String>,
    pub url: Option<String>,
}

/// A stored short URL: its key, its destination and the id of its owner.
#[derive(Debug, Clone, PartialEq, Eq)]
pub struct Url {
    pub key: String,
    pub url: String,
    pub user_id: i32,
}

/// What a short URL holds, as mathematical values.
pub struct UrlView {
    pub key: Seq<char>,
    pub url: Seq<char>,
    pub user_id: i32,
}

impl View for Url {
    type V = UrlView;

    open spec fn view(&self) -> UrlView {
        UrlView { key: self.key@, url: self.url@, user_id: self.user_id }
    }
}

impl Url {
    /// A copy of this record.
    pub fn duplicate(&self) -> (r: Url)
        ensures
            r@ == self@,
    {
        Url { key: self.key.clone(), url: self.url.clone(), user_id: self.user_id }
    }
}

/// The views of a sequence of short URLs.
pub open spec fn url_views(s: Seq<Url>) -> Seq<UrlView> {
    s.map_values(|u: Url| u@)
}

/// A new account as an administrator asks for it.
#[derive(Debug)]
pub struct CreateUserRequest {
    pub client_id: String,
    pub client_secret: String,
    pub is_admin: Option<bool>,
}

/// A change to an account: each field that is present replaces the stored one.
#[derive(Debug)]
pub struct UpdateUserRequest {
    pub client_id: Option<String>,
    pub client_secret: Option<String>,
    pub is_admin: Option<bool>,
}

/// An account as it is shown: never with its secret hash.
#[derive(Debug, Clone, PartialEq, Eq)]
pub struct User {
    pub id: i32,
    pub client_id: String,
    pub is_admin: bool,
}

/// What an account shows, as mathematical values.
pub struct UserView {
    pub id: i32,
    pub client_id: Seq<char>,
    pub is_admin: bool,
}

impl View for User {
    type V = UserView;

    open spec fn view(&self) -> UserView {
        UserView { id: self.id, client_id: self.client_id@, is_admin: self.is_admin }
    }
}

impl User {
    /// A copy of this account.
    pub fn duplicate(&self) -> (r: User)
        ensures
            r@ == self@,
    {
        User { id: self.id, client_id: self.client_id.clone(), is_admin: self.is_admin }
    }
}

/// The views of a sequence of accounts.
pub open spec fn user_views(s: Seq<User>) -> Seq<UserView> {
    s.map_values(|u: User| u@)
}

/// The view of an optional string.
pub open spec fn opt_view(o: Option<String>) -> Option<Seq<char>> {
    match o {
        Some(s) => Some(s@),
        None => None,
    }
}

} // verus!
