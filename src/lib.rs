//! A URL shortener's service layer: short keys that resolve to destination
//! addresses, accounts that own them, and the rules that keep both consistent.

pub mod errors;
pub mod text;
pub mod types;
pub mod url_rules;
pub mod url_service;
pub mod password;
pub mod user_service;
pub mod guards;
pub mod key_url;
pub mod request;
pub mod response;
pub mod laws;
