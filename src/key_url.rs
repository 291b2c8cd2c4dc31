//! A key and its destination, as a request body names them.

use vstd::prelude::*;

use crate::types::CreateUrlRequest;

verus! {

/// A key with the destination it should resolve to.
#[derive(Debug)]
pub struct Url {
    pub key: String,
    pub url: String,
}

impl From<Url> for CreateUrlRequest {
    fn from(u: Url) -> (r: CreateUrlRequest) {
        CreateUrlRequest { key: u.key, url: u.url }
    }
}

impl vstd::std_specs::convert::FromSpecImpl<Url> for CreateUrlRequest {
    open spec fn obeys_from_spec() -> bool {
        true
    }

    open spec fn from_spec(u: Url) -> CreateUrlRequest {
        CreateUrlRequest { key: u.key, url: u.url }
    }
}

} // verus!
