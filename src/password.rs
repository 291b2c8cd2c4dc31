//! Hashing and checking client secrets.

use vstd::prelude::*;

use crate::errors::UserError;

verus! {

/// The encoded Argon2id hash of `pwd` with this salt and key, or None where
/// the hasher refuses the parameters.
pub uninterp spec fn argon2_hash_of(pwd: Seq<char>, salt: Seq<u8>, key: Seq<u8>) -> Option<Seq<char>>;

/// Whether `pwd` matches the encoded hash under this key, or None where the
/// encoded hash cannot be read or its parameters are refused.
pub uninterp spec fn argon2_verdict_of(encoded: Seq<char>, pwd: Seq<char>, key: Seq<u8>) -> Option<bool>;

/// Relies on uuid::Uuid::new_v4: a random version 4 UUID, whose sixteen bytes
/// serve as a salt.
#[verifier::external_body]
fn fresh_salt() -> (r: Vec<u8>)
    ensures
        r@.len() == 16,
{
    uuid::Uuid::new_v4().as_bytes().to_vec()
}

/// Relies on argon2::hash_encoded, with the Argon2id variant, `key` as the
/// secret and the crate's defaults for every other parameter.
#[verifier::external_body]
fn argon2_hash(pwd: &str, salt: &[u8], key: &[u8]) -> (r: Result<String, String>)
    ensures
        match r {
            Ok(h) => argon2_hash_of(pwd@, salt@, key@) == Some(h@),
            Err(_) => argon2_hash_of(pwd@, salt@, key@) is None,
        },
{
    let config = argon2::Config {
        secret: key,
        variant: argon2::Variant::Argon2id,
        ..argon2::Config::default()
    };
    match argon2::hash_encoded(pwd.as_bytes(), salt, &config) {
        Ok(h) => Ok(h),
        Err(e) => Err(e.to_string()),
    }
}

/// Relies on argon2::verify_encoded_ext, with `key` as the secret and no
/// associated data; the other parameters are read from the encoded hash. A
/// hash that argon2::hash_encoded made of `pwd` with the same key holds the
/// parameters and salt it was made with, so recomputing it matches.
#[verifier::external_body]
fn argon2_verify(encoded: &str, pwd: &str, key: &[u8]) -> (r: Result<bool, String>)
    ensures
        match r {
            Ok(b) => argon2_verdict_of(encoded@, pwd@, key@) == Some(b),
            Err(_) => argon2_verdict_of(encoded@, pwd@, key@) is None,
        },
        (exists|salt: Seq<u8>| #[trigger] argon2_hash_of(pwd@, salt, key@) == Some(encoded@))
            ==> (r matches Ok(true)),
{
    match argon2::verify_encoded_ext(encoded, pwd.as_bytes(), key, &[]) {
        Ok(b) => Ok(b),
        Err(e) => Err(e.to_string()),
    }
}

/// Turns client secrets into stored hashes and checks secrets against them.
pub trait PasswordService: Sized {
    /// Whether `secret` matches `hash`, or None where the check cannot be
    /// made.
    spec fn verdict(&self, hash: Seq<char>, secret: Seq<char>) -> Option<bool>;

    /// `hash` is one that this service can make of `secret`.
    spec fn hashes(&self, hash: Seq<char>, secret: Seq<char>) -> bool;

    /// A new salted hash of the secret.
    fn generate_hash(&self, client_secret: &str) -> (r: Result<String, UserError>)
        ensures
            r matches Err(e) ==> e is HashError,
            r matches Ok(h) ==> self.hashes(h@, client_secret@),
    ;

    /// Whether the secret matches the stored hash.
    fn verify_client_secret(&self, hash: &str, client_secret: &str) -> (r: Result<bool, UserError>)
        ensures
            match r {
                Ok(b) => self.verdict(hash@, client_secret@) == Some(b),
                Err(e) => e is HashError && self.verdict(hash@, client_secret@) is None,
            },
            self.hashes(hash@, client_secret@) ==> r == Ok::<bool, UserError>(true),
    ;
}

/// Argon2id hashing keyed with a server-side secret.
pub struct Argon2PasswordService {
    secret: Vec<u8>,
}

impl Argon2PasswordService {
    /// A hasher keyed with `secret`.
    pub fn new(secret: Vec<u8>) -> (s: Argon2PasswordService)
        ensures
            s.key() == secret@,
    {
        Argon2PasswordService { secret }
    }

    /// The key that hashes are made with.
    pub closed spec fn key(&self) -> Seq<u8> {
        self.secret@
    }
}

impl PasswordService for Argon2PasswordService {
    open spec fn verdict(&self, hash: Seq<char>, secret: Seq<char>) -> Option<bool> {
        argon2_verdict_of(hash, secret, self.key())
    }

    /// Some salt of sixteen bytes gives `hash` as the Argon2id hash of
    /// `secret` under this service's key.
    open spec fn hashes(&self, hash: Seq<char>, secret: Seq<char>) -> bool {
        exists|salt: Seq<u8>|
            salt.len() == 16 && #[trigger] argon2_hash_of(secret, salt, self.key()) == Some(hash)
    }

    fn generate_hash(&self, client_secret: &str) -> (r: Result<String, UserError>) {
        let salt = fresh_salt();
        match argon2_hash(client_secret, salt.as_slice(), self.secret.as_slice()) {
            Ok(h) => {
                assert(argon2_hash_of(client_secret@, salt@, self.key()) == Some(h@));
                Ok(h)
            },
            Err(d) => Err(UserError::HashError(d)),
        }
    }

    fn verify_client_secret(&self, hash: &str, client_secret: &str) -> (r: Result<bool, UserError>) {
        let key = self.secret.as_slice();
        let r = argon2_verify(hash, client_secret, key);
        proof {
            if self.hashes(hash@, client_secret@) {
                let salt = choose|salt: Seq<u8>|
                    salt.len() == 16 && #[trigger] argon2_hash_of(client_secret@, salt, self.key())
                        == Some(hash@);
                assert(argon2_hash_of(client_secret@, salt, key@) == Some(hash@));
            }
        }
        match r {
            Ok(b) => Ok(b),
            Err(d) => Err(UserError::HashError(d)),
        }
    }
}

} // verus!
