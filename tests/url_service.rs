use url_shortener::errors::UrlError;
use url_shortener::types::{CreateUrlRequest, UpdateUrlRequest, User};
use url_shortener::url_service::{DbUrlService, UrlService};

fn user(id: i32) -> User {
    User { id, client_id: format!("user{}", id), is_admin: false }
}

fn create(s: &mut DbUrlService, owner: i32, key: &str, url: &str) -> Result<url_shortener::types::Url, UrlError> {
    s.create(user(owner), CreateUrlRequest { key: key.to_string(), url: url.to_string() })
}

#[test]
fn create_stores_key_in_lower_case() {
    let mut s = DbUrlService::new();
    let u = create(&mut s, 1, "Promo", "https://example.com/x").unwrap();
    assert_eq!(u.key, "promo");
    assert_eq!(u.url, "https://example.com/x");
    assert_eq!(u.user_id, 1);
}

#[test]
fn get_by_key_ignores_case() {
    let mut s = DbUrlService::new();
    create(&mut s, 1, "MiXeD", "https://example.com").unwrap();
    for variant in ["mixed", "MIXED", "Mixed", "mIxEd"] {
        let u = s.get_by_key(variant.to_string()).unwrap();
        assert_eq!(u.key, "mixed");
    }
}

#[test]
fn get_by_key_missing_is_not_found() {
    let s = DbUrlService::new();
    assert_eq!(s.get_by_key("nothing".to_string()), Err(UrlError::NotFound));
}

#[test]
fn duplicate_key_in_any_case_is_refused() {
    let mut s = DbUrlService::new();
    create(&mut s, 1, "promo", "https://example.com").unwrap();
    assert_eq!(create(&mut s, 2, "PROMO", "https://other.com"), Err(UrlError::KeyAlreadyExists));
    assert_eq!(s.get_all().unwrap().len(), 1);
}

#[test]
fn key_length_bounds() {
    let mut s = DbUrlService::new();
    assert_eq!(create(&mut s, 1, "", "https://example.com"), Err(UrlError::KeyTooShort { min: 1 }));
    let long = "k".repeat(129);
    assert_eq!(create(&mut s, 1, &long, "https://example.com"), Err(UrlError::KeyTooLong { max: 128 }));
    let longest = "k".repeat(128);
    assert!(create(&mut s, 1, &longest, "https://example.com").is_ok());
    assert!(create(&mut s, 1, "a", "https://example.com").is_ok());
}

#[test]
fn key_length_counts_characters() {
    let mut s = DbUrlService::new();
    let key = "é".repeat(128);
    assert!(create(&mut s, 1, &key, "https://example.com").is_ok());
}

#[test]
fn destination_must_be_web_url_with_domain() {
    let mut s = DbUrlService::new();
    assert_eq!(create(&mut s, 1, "a", "ftp://example.com"), Err(UrlError::UrlInvalid));
    assert_eq!(create(&mut s, 1, "b", "http://127.0.0.1/"), Err(UrlError::UrlInvalid));
    assert_eq!(create(&mut s, 1, "c", "mailto:someone@example.com"), Err(UrlError::UrlInvalid));
    assert!(matches!(create(&mut s, 1, "d", "not a url"), Err(UrlError::UrlParseError(_))));
    assert!(matches!(create(&mut s, 1, "e", "/relative/path"), Err(UrlError::UrlParseError(_))));
    assert!(create(&mut s, 1, "f", "http://example.com").is_ok());
    assert!(create(&mut s, 1, "g", "https://sub.example.org/path?q=1").is_ok());
    assert_eq!(s.get_all().unwrap().len(), 2);
}

#[test]
fn key_is_checked_before_destination() {
    let mut s = DbUrlService::new();
    assert_eq!(create(&mut s, 1, "", "ftp://x"), Err(UrlError::KeyTooShort { min: 1 }));
}

#[test]
fn get_all_is_ordered_by_key() {
    let mut s = DbUrlService::new();
    for (owner, key) in [(1, "delta"), (2, "alpha"), (1, "Charlie"), (2, "bravo"), (1, "al")] {
        create(&mut s, owner, key, "https://example.com").unwrap();
    }
    let keys: Vec<String> = s.get_all().unwrap().into_iter().map(|u| u.key).collect();
    assert_eq!(keys, vec!["al", "alpha", "bravo", "charlie", "delta"]);
}

#[test]
fn get_all_by_user_filters_and_orders() {
    let mut s = DbUrlService::new();
    for (owner, key) in [(1, "delta"), (2, "alpha"), (1, "charlie"), (2, "bravo")] {
        create(&mut s, owner, key, "https://example.com").unwrap();
    }
    let keys: Vec<String> = s.get_all_by_user(user(1)).unwrap().into_iter().map(|u| u.key).collect();
    assert_eq!(keys, vec!["charlie", "delta"]);
    assert!(s.get_all_by_user(user(3)).unwrap().is_empty());
}

#[test]
fn owner_scoped_lookup_hides_other_owners_keys() {
    let mut s = DbUrlService::new();
    create(&mut s, 2, "theirs", "https://example.com").unwrap();
    assert_eq!(s.get_by_key_for_user(user(1), "theirs".to_string()), Err(UrlError::NotFound));
    assert_eq!(s.get_by_key_for_user(user(1), "absent".to_string()), Err(UrlError::NotFound));
    assert_eq!(s.get_by_key_for_user(user(2), "THEIRS".to_string()).unwrap().key, "theirs");
}

#[test]
fn update_changes_destination() {
    let mut s = DbUrlService::new();
    create(&mut s, 1, "promo", "https://example.com").unwrap();
    let u = s
        .update_by_key("PROMO".to_string(), UpdateUrlRequest { key: None, url: Some("https://new.example.com".to_string()) })
        .unwrap();
    assert_eq!(u.key, "promo");
    assert_eq!(u.url, "https://new.example.com");
    assert_eq!(s.get_by_key("promo".to_string()).unwrap().url, "https://new.example.com");
}

#[test]
fn update_renames_and_keeps_order() {
    let mut s = DbUrlService::new();
    create(&mut s, 1, "b", "https://b.example.com").unwrap();
    create(&mut s, 1, "c", "https://c.example.com").unwrap();
    let u = s.update_by_key("c".to_string(), UpdateUrlRequest { key: Some("A".to_string()), url: None }).unwrap();
    assert_eq!(u.key, "a");
    assert_eq!(u.url, "https://c.example.com");
    let keys: Vec<String> = s.get_all().unwrap().into_iter().map(|u| u.key).collect();
    assert_eq!(keys, vec!["a", "b"]);
    assert_eq!(s.get_by_key("c".to_string()), Err(UrlError::NotFound));
}

#[test]
fn update_to_own_key_in_other_case_is_allowed() {
    let mut s = DbUrlService::new();
    create(&mut s, 1, "promo", "https://example.com").unwrap();
    let u = s.update_by_key("promo".to_string(), UpdateUrlRequest { key: Some("PROMO".to_string()), url: None }).unwrap();
    assert_eq!(u.key, "promo");
}

#[test]
fn update_onto_taken_key_is_refused() {
    let mut s = DbUrlService::new();
    create(&mut s, 1, "one", "https://example.com").unwrap();
    create(&mut s, 2, "two", "https://example.com").unwrap();
    let r = s.update_by_key("one".to_string(), UpdateUrlRequest { key: Some("Two".to_string()), url: None });
    assert_eq!(r, Err(UrlError::KeyAlreadyExists));
    assert_eq!(s.get_by_key("one".to_string()).unwrap().user_id, 1);
}

#[test]
fn update_missing_key_is_not_found() {
    let mut s = DbUrlService::new();
    let r = s.update_by_key("nope".to_string(), UpdateUrlRequest { key: None, url: None });
    assert_eq!(r, Err(UrlError::NotFound));
}

#[test]
fn update_validates_before_lookup() {
    let mut s = DbUrlService::new();
    let r = s.update_by_key("nope".to_string(), UpdateUrlRequest { key: Some(String::new()), url: None });
    assert_eq!(r, Err(UrlError::KeyTooShort { min: 1 }));
    let r = s.update_by_key("nope".to_string(), UpdateUrlRequest { key: None, url: Some("ftp://x".to_string()) });
    assert_eq!(r, Err(UrlError::UrlInvalid));
}

#[test]
fn owner_scoped_update_refuses_other_owners() {
    let mut s = DbUrlService::new();
    create(&mut s, 2, "theirs", "https://example.com").unwrap();
    let r = s.update_by_key_for_user(
        user(1),
        "theirs".to_string(),
        UpdateUrlRequest { key: None, url: Some("https://mine.example.com".to_string()) },
    );
    assert_eq!(r, Err(UrlError::NotFound));
    assert_eq!(s.get_by_key("theirs".to_string()).unwrap().url, "https://example.com");
    let r = s.update_by_key_for_user(
        user(2),
        "Theirs".to_string(),
        UpdateUrlRequest { key: None, url: Some("https://new.example.com".to_string()) },
    );
    assert_eq!(r.unwrap().url, "https://new.example.com");
}

#[test]
fn delete_removes_exactly_one() {
    let mut s = DbUrlService::new();
    create(&mut s, 1, "a", "https://example.com").unwrap();
    create(&mut s, 1, "b", "https://example.com").unwrap();
    assert_eq!(s.delete_by_key("A".to_string()), Ok(()));
    assert_eq!(s.get_by_key("a".to_string()), Err(UrlError::NotFound));
    assert_eq!(s.get_all().unwrap().len(), 1);
    assert_eq!(s.delete_by_key("a".to_string()), Err(UrlError::NotFound));
}

#[test]
fn owner_scoped_delete_refuses_other_owners() {
    let mut s = DbUrlService::new();
    create(&mut s, 2, "theirs", "https://example.com").unwrap();
    assert_eq!(s.delete_by_key_for_user(user(1), "theirs".to_string()), Err(UrlError::NotFound));
    assert_eq!(s.get_all().unwrap().len(), 1);
    assert_eq!(s.delete_by_key_for_user(user(2), "theirs".to_string()), Ok(()));
    assert!(s.get_all().unwrap().is_empty());
}

#[test]
fn delete_by_user_id_is_idempotent() {
    let mut s = DbUrlService::new();
    create(&mut s, 1, "a", "https://example.com").unwrap();
    create(&mut s, 2, "b", "https://example.com").unwrap();
    create(&mut s, 1, "c", "https://example.com").unwrap();
    assert_eq!(s.delete_by_user_id(1), Ok(()));
    assert!(s.get_all_by_user(user(1)).unwrap().is_empty());
    assert_eq!(s.get_all().unwrap().len(), 1);
    assert_eq!(s.delete_by_user_id(1), Ok(()));
    assert_eq!(s.delete_by_user_id(42), Ok(()));
    assert_eq!(s.get_all().unwrap().len(), 1);
}
