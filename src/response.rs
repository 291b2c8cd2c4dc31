//! Response bodies: what clients are shown of records and accounts.

use vstd::prelude::*;

use crate::types;

verus! {

/// A short URL as it is shown.
#[derive(Debug)]
pub struct Url {
    pub key: String,
    pub url: String,
    pub user_id: i32,
}

impl From<types::Url> for Url {
    fn from(u: types::Url) -> (r: Url) {
        Url { key: u.key, url: u.url, user_id: u.user_id }
    }
}

impl vstd::std_specs::convert::FromSpecImpl<types::Url> for Url {
    open spec fn obeys_from_spec() -> bool {
        true
    }

    open spec fn from_spec(u: types::Url) -> Url {
        Url { key: u.key, url: u.url, user_id: u.user_id }
    }
}

/// A list of short URLs as it is shown.
#[derive(Debug)]
pub struct Urls {
    pub values: Vec<Url>,
}

impl From<Vec<Url>> for Urls {
    fn from(values: Vec<Url>) -> (r: Urls) {
        Urls { values }
    }
}

impl vstd::std_specs::convert::FromSpecImpl<Vec<Url>> for Urls {
    open spec fn obeys_from_spec() -> bool {
        true
    }

    open spec fn from_spec(values: Vec<Url>) -> Urls {
        Urls { values }
    }
}

/// An account as it is shown.
#[derive(Debug)]
pub struct User {
    pub id: i32,
    pub client_id: String,
    pub is_admin: bool,
}

impl From<types::User> for User {
    fn from(u: types::User) -> (r: User) {
        User { id: u.id, client_id: u.client_id, is_admin: u.is_admin }
    }
}

impl vstd::std_specs::convert::FromSpecImpl<types::User> for User {
    open spec fn obeys_from_spec() -> bool {
        true
    }

    open spec fn from_spec(u: types::User) -> User {
        User { id: u.id, client_id: u.client_id, is_admin: u.is_admin }
    }
}

/// A list of accounts as it is shown.
#[derive(Debug)]
pub struct Users {
    pub values: Vec<User>,
}

impl From<Vec<User>> for Users {
    fn from(values: Vec<User>) -> (r: Users) {
        Users { values }
    }
}

impl vstd::std_specs::convert::FromSpecImpl<Vec<User>> for Users {
    open spec fn obeys_from_spec() -> bool {
        true
    }

    open spec fn from_spec(values: Vec<User>) -> Users {
        Users { values }
    }
}

} // verus!
