use url_shortener::errors::UrlError;
use url_shortener::request::{CreateUrl, CreateUser, UpdateUrl, UpdateUser};
use url_shortener::response::{Url, Urls, User, Users};
use url_shortener::text::key_less;
use url_shortener::types::{self, CreateUrlRequest, CreateUserRequest, UpdateUrlRequest, UpdateUserRequest};
use url_shortener::url_rules::{check_parsed_url, validate_key, validate_url, ParsedUrl};
use url_shortener::user_service::{validate_client_id, validate_client_secret};

fn parts(scheme: &str, domain: Option<&str>) -> Result<ParsedUrl, String> {
    Ok(ParsedUrl { scheme: scheme.to_string(), domain: domain.map(|d| d.to_string()) })
}

#[test]
fn checks_on_parsed_urls() {
    assert_eq!(check_parsed_url(parts("http", Some("example.com"))), Ok(()));
    assert_eq!(check_parsed_url(parts("https", Some("example.com"))), Ok(()));
    assert_eq!(check_parsed_url(parts("ftp", Some("example.com"))), Err(UrlError::UrlInvalid));
    assert_eq!(check_parsed_url(parts("https", None)), Err(UrlError::UrlInvalid));
    assert_eq!(check_parsed_url(parts("https", Some(""))), Err(UrlError::UrlInvalid));
    assert_eq!(check_parsed_url(parts("HTTP", Some("example.com"))), Err(UrlError::UrlInvalid));
    assert_eq!(
        check_parsed_url(Err("relative URL without a base".to_string())),
        Err(UrlError::UrlParseError("relative URL without a base".to_string()))
    );
}

#[test]
fn validate_url_uses_the_parser() {
    assert_eq!(validate_url("https://example.com/x"), Ok(()));
    assert_eq!(validate_url("HTTPS://EXAMPLE.COM"), Ok(()));
    assert_eq!(validate_url("ftp://x"), Err(UrlError::UrlInvalid));
    assert_eq!(validate_url("https://[::1]/"), Err(UrlError::UrlInvalid));
    assert_eq!(
        validate_url("example.com"),
        Err(UrlError::UrlParseError("relative URL without a base".to_string()))
    );
}

#[test]
fn key_and_credential_lengths() {
    assert_eq!(validate_key(""), Err(UrlError::KeyTooShort { min: 1 }));
    assert_eq!(validate_key("k"), Ok(()));
    assert_eq!(validate_key(&"k".repeat(128)), Ok(()));
    assert_eq!(validate_key(&"k".repeat(129)), Err(UrlError::KeyTooLong { max: 128 }));
    assert!(validate_client_id("abc").is_ok());
    assert!(validate_client_id("ab").is_err());
    assert!(validate_client_id(&"a".repeat(256)).is_ok());
    assert!(validate_client_id(&"a".repeat(257)).is_err());
    assert!(validate_client_secret("123456").is_ok());
    assert!(validate_client_secret("12345").is_err());
    assert!(validate_client_secret(&"s".repeat(1024)).is_ok());
    assert!(validate_client_secret(&"s".repeat(1025)).is_err());
}

#[test]
fn key_order_is_lexicographic() {
    assert!(key_less("a", "b"));
    assert!(!key_less("b", "a"));
    assert!(key_less("al", "alpha"));
    assert!(!key_less("alpha", "al"));
    assert!(!key_less("same", "same"));
    assert!(key_less("", "a"));
    assert!(key_less("Z", "a"));
}

#[test]
fn request_bodies_convert() {
    let c: CreateUrlRequest = CreateUrl { key: "k".to_string(), url: "https://e.com".to_string() }.into();
    assert_eq!((c.key.as_str(), c.url.as_str()), ("k", "https://e.com"));
    let u: UpdateUrlRequest = UpdateUrl { key: None, url: Some("https://e.com".to_string()) }.into();
    assert_eq!(u.key, None);
    assert_eq!(u.url.as_deref(), Some("https://e.com"));
    let c: CreateUserRequest =
        CreateUser { client_id: "id1".to_string(), client_secret: "secret".to_string(), is_admin: None }.into();
    assert_eq!((c.client_id.as_str(), c.client_secret.as_str(), c.is_admin), ("id1", "secret", None));
    let u: UpdateUserRequest = UpdateUser { client_id: None, client_secret: None, is_admin: Some(true) }.into();
    assert_eq!(u.is_admin, Some(true));
    let k: CreateUrlRequest = url_shortener::key_url::Url { key: "k2".to_string(), url: "https://f.com".to_string() }.into();
    assert_eq!(k.key, "k2");
}

#[test]
fn response_bodies_convert() {
    let u = Url::from(types::Url { key: "k".to_string(), url: "https://e.com".to_string(), user_id: 7 });
    assert_eq!((u.key.as_str(), u.url.as_str(), u.user_id), ("k", "https://e.com", 7));
    let list = Urls::from(vec![u]);
    assert_eq!(list.values.len(), 1);
    let v = User::from(types::User { id: 3, client_id: "bob".to_string(), is_admin: true });
    assert_eq!((v.id, v.client_id.as_str(), v.is_admin), (3, "bob", true));
    let all = Users::from(vec![v]);
    assert_eq!(all.values[0].id, 3);
}
