//! The decisions behind request authentication: which identity a request
//! carries, or why it is turned away and with which HTTP status.

use vstd::prelude::*;

use crate::text::ascii_lower;
use crate::types::User;
use crate::user_service::{account_with_client_id, public_view, AccountView, UserService};

verus! {

/// Why a request that needs the administrator token is turned away.
#[derive(Debug, PartialEq, Eq)]
pub enum AdminApiTokenError {
    Missing,
    Invalid,
}

impl AdminApiTokenError {
    /// A missing token is 401, a wrong one 403.
    pub fn status_code(&self) -> (r: u16)
        ensures
            r == (match *self {
                AdminApiTokenError::Missing => 401u16,
                AdminApiTokenError::Invalid => 403u16,
            }),
    {
        match self {
            AdminApiTokenError::Missing => 401,
            AdminApiTokenError::Invalid => 403,
        }
    }
}

/// Whether the presented key is the administrator token.
pub fn is_valid(key: &str, token: &str) -> (r: bool)
    ensures
        r == (key@ == token@),
{
    let n = key.unicode_len();
    if n != token.unicode_len() {
        return false;
    }
    let mut i: usize = 0;
    while i < n
        invariant
            n == key@.len(),
            n == token@.len(),
            i <= n,
            key@.subrange(0, i as int) == token@.subrange(0, i as int),
        decreases n - i,
    {
        if key.get_char(i) != token.get_char(i) {
            return false;
        }
        assert(key@.subrange(0, i + 1) =~= key@.subrange(0, i as int).push(key@[i as int]));
        assert(token@.subrange(0, i + 1) =~= token@.subrange(0, i as int).push(token@[i as int]));
        i = i + 1;
    }
    assert(key@ =~= key@.subrange(0, n as int));
    assert(token@ =~= token@.subrange(0, n as int));
    true
}

/// Checks the administrator token header of a request against the configured
/// token.
pub fn check_admin_api_token(header: Option<&str>, token: &str) -> (r: Result<(), AdminApiTokenError>)
    ensures
        match header {
            None => r == Err::<(), AdminApiTokenError>(AdminApiTokenError::Missing),
            Some(k) => if k@ == token@ {
                r is Ok
            } else {
                r == Err::<(), AdminApiTokenError>(AdminApiTokenError::Invalid)
            },
        },
{
    match header {
        None => Err(AdminApiTokenError::Missing),
        Some(k) => if is_valid(k, token) {
            Ok(())
        } else {
            Err(AdminApiTokenError::Invalid)
        },
    }
}

/// An identity resolved from API credentials.
pub struct ApiUser {
    pub id: isize,
    pub client_id: String,
}

/// Why API credentials are turned away.
#[derive(Debug, PartialEq, Eq)]
pub enum ApiUserError {
    Missing,
    Invalid,
    NoDbConnection,
}

impl ApiUserError {
    /// Missing credentials are 401, wrong ones 403, a missing store 500.
    pub fn status_code(&self) -> (r: u16)
        ensures
            r == (match *self {
                ApiUserError::Missing => 401u16,
                ApiUserError::Invalid => 403u16,
                ApiUserError::NoDbConnection => 500u16,
            }),
    {
        match self {
            ApiUserError::Missing => 401,
            ApiUserError::Invalid => 403,
            ApiUserError::NoDbConnection => 500,
        }
    }
}

/// Decides on a request that presents API credentials: both headers must be
/// there, the store must be reachable, and the credentials must have resolved
/// to an identity.
pub fn resolve_api_user(
    client_id: Option<&str>,
    client_secret: Option<&str>,
    store_available: bool,
    verified: Option<ApiUser>,
) -> (r: Result<ApiUser, (u16, ApiUserError)>)
    ensures
        client_id is None || client_secret is None ==> r == Err::<ApiUser, (u16, ApiUserError)>(
            (401u16, ApiUserError::Missing),
        ),
        client_id is Some && client_secret is Some && !store_available ==> r == Err::<
            ApiUser,
            (u16, ApiUserError),
        >((500u16, ApiUserError::NoDbConnection)),
        client_id is Some && client_secret is Some && store_available ==> match verified {
            Some(u) => r == Ok::<ApiUser, (u16, ApiUserError)>(u),
            None => r == Err::<ApiUser, (u16, ApiUserError)>((403u16, ApiUserError::Invalid)),
        },
{
    if client_id.is_none() || client_secret.is_none() {
        return Err((401, ApiUserError::Missing));
    }
    if !store_available {
        return Err((500, ApiUserError::NoDbConnection));
    }
    match verified {
        Some(u) => Ok(u),
        None => Err((403, ApiUserError::Invalid)),
    }
}

/// Why a request's client credentials are turned away.
#[derive(Debug, PartialEq, Eq)]
pub enum UserCredentialsError {
    Missing,
    Invalid,
    NoUserService,
    Unknown,
}

/// The account that a client id and secret authenticate as: the one with the
/// client id, in any case, whose hash the secret matches.
pub open spec fn authenticated_account<S: UserService>(
    service: &S,
    client_id: Seq<char>,
    client_secret: Seq<char>,
) -> Option<AccountView> {
    match account_with_client_id(service.accounts(), ascii_lower(client_id)) {
        Some(a) => if service.verdict(a.hash, client_secret) == Some(true) {
            Some(a)
        } else {
            None
        },
        None => None,
    }
}

/// Resolves the identity of a request from its client id and secret headers.
/// An unknown client id and a wrong secret are turned away alike, so that a
/// caller cannot tell which accounts exist.
pub fn authenticate<S: UserService>(
    service: &S,
    client_id: Option<String>,
    client_secret: Option<String>,
) -> (r: Result<User, (u16, UserCredentialsError)>)
    requires
        service.inv(),
    ensures
        client_id is None || client_secret is None ==> r == Err::<User, (u16, UserCredentialsError)>(
            (401u16, UserCredentialsError::Missing),
        ),
        client_id is Some && client_secret is Some ==> match authenticated_account(
            service,
            client_id->0@,
            client_secret->0@,
        ) {
            Some(a) => r matches Ok(u) && u@ == public_view(a),
            None => r == Err::<User, (u16, UserCredentialsError)>(
                (401u16, UserCredentialsError::Invalid),
            ),
        },
{
    let (c, s) = match (client_id, client_secret) {
        (Some(c), Some(s)) => (c, s),
        _ => {
            return Err((401, UserCredentialsError::Missing));
        },
    };
    match service.verify_and_get(c, s) {
        Ok(u) => Ok(u),
        Err(_) => Err((401, UserCredentialsError::Invalid)),
    }
}

/// Lets an authenticated administrator through; anyone else is forbidden.
pub fn require_admin(user: User) -> (r: Result<User, (u16, UserCredentialsError)>)
    ensures
        user.is_admin ==> r == Ok::<User, (u16, UserCredentialsError)>(user),
        !user.is_admin ==> r == Err::<User, (u16, UserCredentialsError)>(
            (403u16, UserCredentialsError::Invalid),
        ),
{
    if user.is_admin {
        Ok(user)
    } else {
        Err((403, UserCredentialsError::Invalid))
    }
}

} // verus!
