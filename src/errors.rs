//! The errors that the services report.

use vstd::prelude::*;

verus! {

/// What can go wrong with a short URL.
#[derive(Debug, PartialEq, Eq)]
pub enum UrlError {
    KeyAlreadyExists,
    KeyReserved { prefix: String },
    KeyTooShort { min: usize },
    KeyTooLong { max: usize },
    UrlParseError(String),
    UrlInvalid,
    NotFound,
    Unknown,
    UnexpectedUrlParseError,
}

/// What can go wrong with an account.
#[derive(Debug, PartialEq, Eq)]
pub enum UserError {
    ClientIdAlreadyExists,
    ClientIdTooShort { min: usize },
    ClientIdTooLong { max: usize },
    ClientSecretTooShort { min: usize },
    ClientSecretTooLong { max: usize },
    UrlDeletionError(UrlError),
    Invalid,
    NotFound,
    HashError(String),
    Unknown,
}

/// The HTTP status under which a URL error is reported.
pub open spec fn url_error_status(e: UrlError) -> u16 {
    match e {
        UrlError::KeyAlreadyExists
        | UrlError::KeyTooShort { .. }
        | UrlError::KeyTooLong { .. }
        | UrlError::UrlParseError(_)
        | UrlError::UrlInvalid => 400,
        UrlError::NotFound => 404,
        _ => 500,
    }
}

/// The HTTP status under which an account error is reported.
pub open spec fn user_error_status(e: UserError) -> u16 {
    match e {
        UserError::ClientIdAlreadyExists
        | UserError::ClientIdTooShort { .. }
        | UserError::ClientIdTooLong { .. }
        | UserError::ClientSecretTooShort { .. }
        | UserError::ClientSecretTooLong { .. } => 400,
        UserError::Invalid => 401,
        UserError::NotFound => 404,
        _ => 500,
    }
}

impl UrlError {
    /// Caller mistakes are 400, a missing key is 404, the rest are 500.
    pub fn status_code(&self) -> (r: u16)
        ensures
            r == url_error_status(*self),
    {
        match self {
            UrlError::KeyAlreadyExists
            | UrlError::KeyTooShort { .. }
            | UrlError::KeyTooLong { .. }
            | UrlError::UrlParseError(_)
            | UrlError::UrlInvalid => 400,
            UrlError::NotFound => 404,
            _ => 500,
        }
    }
}

impl UserError {
    /// Caller mistakes are 400, a failed login is 401, a missing account is
    /// 404, the rest are 500.
    pub fn status_code(&self) -> (r: u16)
        ensures
            r == user_error_status(*self),
    {
        match self {
            UserError::ClientIdAlreadyExists
            | UserError::ClientIdTooShort { .. }
            | UserError::ClientIdTooLong { .. }
            | UserError::ClientSecretTooShort { .. }
            | UserError::ClientSecretTooLong { .. } => 400,
            UserError::Invalid => 401,
            UserError::NotFound => 404,
            _ => 500,
        }
    }
}

} // verus!
