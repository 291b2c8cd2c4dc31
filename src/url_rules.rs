//! What makes a key and a destination acceptable.

use vstd::prelude::*;

use crate::errors::UrlError;
use crate::types::opt_view;

verus! {

pub const KEY_MIN_LEN: usize = 1;

pub const KEY_MAX_LEN: usize = 128;

/// Whether the URL parser accepts `s` as an absolute URL.
pub uninterp spec fn url_parses(s: Seq<char>) -> bool;

/// The scheme of the URL that `s` parses to.
pub uninterp spec fn url_scheme_of(s: Seq<char>) -> Seq<char>;

/// The domain of the URL that `s` parses to, if its host is a domain.
pub uninterp spec fn url_domain_of(s: Seq<char>) -> Option<Seq<char>>;

/// The parser's message for why `s` is not a URL.
pub uninterp spec fn url_parse_error_of(s: Seq<char>) -> Seq<char>;

/// The parts of a parsed URL that the rules look at.
pub struct ParsedUrl {
    pub scheme: String,
    pub domain: Option<String>,
}

/// Relies on url::Url::parse, and on Url::scheme and Url::domain of the URL it
/// returns; a refusal is rendered with its Display text.
#[verifier::external_body]
fn parse_url(input: &str) -> (r: Result<ParsedUrl, String>)
    ensures
        r is Ok <==> url_parses(input@),
        r matches Ok(p) ==> p.scheme@ == url_scheme_of(input@),
        r matches Ok(p) ==> (match p.domain {
            Some(d) => url_domain_of(input@) == Some(d@),
            None => url_domain_of(input@) is None,
        }),
        r matches Err(d) ==> d@ == url_parse_error_of(input@),
{
    match url::Url::parse(input) {
        Ok(u) => Ok(ParsedUrl { scheme: u.scheme().to_string(), domain: u.domain().map(String::from) }),
        Err(e) => Err(e.to_string()),
    }
}

/// The error that a key of `n` characters is refused with, if any.
pub open spec fn key_length_error(n: nat) -> Option<UrlError> {
    if n < KEY_MIN_LEN {
        Some(UrlError::KeyTooShort { min: KEY_MIN_LEN })
    } else if n > KEY_MAX_LEN {
        Some(UrlError::KeyTooLong { max: KEY_MAX_LEN })
    } else {
        None
    }
}

/// Only web addresses are accepted as destinations.
pub open spec fn scheme_allowed(scheme: Seq<char>) -> bool {
    scheme == "http"@ || scheme == "https"@
}

/// A parsed URL with this scheme and domain is an acceptable destination.
pub open spec fn parts_acceptable(scheme: Seq<char>, domain: Option<Seq<char>>) -> bool {
    &&& scheme_allowed(scheme)
    &&& domain matches Some(d) && d.len() > 0
}

/// `s` is an acceptable destination: an absolute http or https URL with a
/// domain.
pub open spec fn destination_acceptable(s: Seq<char>) -> bool {
    url_parses(s) && parts_acceptable(url_scheme_of(s), url_domain_of(s))
}

/// `e` is the error that the unacceptable destination `s` is refused with.
pub open spec fn destination_error(s: Seq<char>, e: UrlError) -> bool {
    if url_parses(s) {
        e == UrlError::UrlInvalid
    } else {
        e matches UrlError::UrlParseError(d) && d@ == url_parse_error_of(s)
    }
}

/// Checks the length of a key, counted in characters.
pub fn validate_key(key: &str) -> (r: Result<(), UrlError>)
    ensures
        match key_length_error(key@.len()) {
            Some(e) => r == Err::<(), UrlError>(e),
            None => r is Ok,
        },
{
    let length = key.unicode_len();
    if length < KEY_MIN_LEN {
        return Err(UrlError::KeyTooShort { min: KEY_MIN_LEN });
    }
    if length > KEY_MAX_LEN {
        return Err(UrlError::KeyTooLong { max: KEY_MAX_LEN });
    }
    Ok(())
}

/// Decides on a destination from what the URL parser made of it.
pub fn check_parsed_url(parsed: Result<ParsedUrl, String>) -> (r: Result<(), UrlError>)
    ensures
        match parsed {
            Err(d) => r == Err::<(), UrlError>(UrlError::UrlParseError(d)),
            Ok(p) => if parts_acceptable(p.scheme@, opt_view(p.domain)) {
                r is Ok
            } else {
                r == Err::<(), UrlError>(UrlError::UrlInvalid)
            },
        },
{
    match parsed {
        Err(d) => Err(UrlError::UrlParseError(d)),
        Ok(p) => {
            let has_domain = match &p.domain {
                Some(d) => d.as_str().unicode_len() > 0,
                None => false,
            };
            if !has_domain {
                return Err(UrlError::UrlInvalid);
            }
            let http = String::from_str("http");
            let https = String::from_str("https");
            if p.scheme != http && p.scheme != https {
                return Err(UrlError::UrlInvalid);
            }
            Ok(())
        },
    }
}

/// Checks that a destination is an absolute http or https URL with a domain.
pub fn validate_url(url: &str) -> (r: Result<(), UrlError>)
    ensures
        r is Ok <==> destination_acceptable(url@),
        r matches Err(e) ==> destination_error(url@, e),
{
    let parsed = parse_url(url);
    check_parsed_url(parsed)
}

} // verus!
