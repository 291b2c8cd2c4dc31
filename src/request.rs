//! Request bodies as clients send them, and the service requests they become.

use vstd::prelude::*;

use crate::types::{CreateUrlRequest, CreateUserRequest, UpdateUrlRequest, UpdateUserRequest};

verus! {

/// The body of a request that creates a short URL.
#[derive(Debug)]
pub struct CreateUrl {
    pub key: String,
    pub url: String,
}

impl From<CreateUrl> for CreateUrlRequest {
    fn from(v: CreateUrl) -> (r: CreateUrlRequest) {
        CreateUrlRequest { key: v.key, url: v.url }
    }
}

impl vstd::std_specs::convert::FromSpecImpl<CreateUrl> for CreateUrlRequest {
    open spec fn obeys_from_spec() -> bool {
        true
    }

    open spec fn from_spec(v: CreateUrl) -> CreateUrlRequest {
        CreateUrlRequest { key: v.key, url: v.url }
    }
}

/// The body of a request that changes a short URL.
#[derive(Debug)]
pub struct UpdateUrl {
    pub key: Option<String>,
    pub url: Option<String>,
}

impl From<UpdateUrl> for UpdateUrlRequest {
    fn from(v: UpdateUrl) -> (r: UpdateUrlRequest) {
        UpdateUrlRequest { key: v.key, url: v.url }
    }
}

impl vstd::std_specs::convert::FromSpecImpl<UpdateUrl> for UpdateUrlRequest {
    open spec fn obeys_from_spec() -> bool {
        true
    }

    open spec fn from_spec(v: UpdateUrl) -> UpdateUrlRequest {
        UpdateUrlRequest { key: v.key, url: v.url }
    }
}

/// The body of a request that creates an account.
#[derive(Debug)]
pub struct CreateUser {
    pub client_id: String,
    pub client_secret: String,
    pub is_admin: Option<bool>,
}

impl From<CreateUser> for CreateUserRequest {
    fn from(v: CreateUser) -> (r: CreateUserRequest) {
        CreateUserRequest { client_id: v.client_id, client_secret: v.client_secret, is_admin: v.is_admin }
    }
}

impl vstd::std_specs::convert::FromSpecImpl<CreateUser> for CreateUserRequest {
    open spec fn obeys_from_spec() -> bool {
        true
    }

    open spec fn from_spec(v: CreateUser) -> CreateUserRequest {
        CreateUserRequest { client_id: v.client_id, client_secret: v.client_secret, is_admin: v.is_admin }
    }
}

/// The body of a request that changes an account.
#[derive(Debug)]
pub struct UpdateUser {
    pub client_id: Option<String>,
    pub client_secret: Option<String>,
    pub is_admin: Option<bool>,
}

impl From<UpdateUser> for UpdateUserRequest {
    fn from(v: UpdateUser) -> (r: UpdateUserRequest) {
        UpdateUserRequest { client_id: v.client_id, client_secret: v.client_secret, is_admin: v.is_admin }
    }
}

impl vstd::std_specs::convert::FromSpecImpl<UpdateUser> for UpdateUserRequest {
    open spec fn obeys_from_spec() -> bool {
        true
    }

    open spec fn from_spec(v: UpdateUser) -> UpdateUserRequest {
        UpdateUserRequest { client_id: v.client_id, client_secret: v.client_secret, is_admin: v.is_admin }
    }
}

/// The body of a request that gives the acting account a new secret.
#[derive(Debug)]
pub struct UpdateUserClientSecret {
    pub client_secret: String,
}

} // verus!
