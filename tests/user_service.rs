use url_shortener::errors::{UrlError, UserError};
use url_shortener::password::{Argon2PasswordService, PasswordService};
use url_shortener::types::{CreateUrlRequest, CreateUserRequest, UpdateUserRequest, User};
use url_shortener::url_service::{DbUrlService, UrlService};
use url_shortener::user_service::{DbUserService, UserService};

type Service = DbUserService<DbUrlService, Argon2PasswordService>;

fn service() -> Service {
    DbUserService::new(DbUrlService::new(), Argon2PasswordService::new(b"server pepper".to_vec()))
}

fn new_user(client_id: &str, secret: &str, is_admin: Option<bool>) -> CreateUserRequest {
    CreateUserRequest { client_id: client_id.to_string(), client_secret: secret.to_string(), is_admin }
}

#[test]
fn create_normalizes_and_defaults_to_non_admin() {
    let mut s = service();
    let u = s.create(new_user("Alice", "s3cret!", None)).unwrap();
    assert_eq!(u.client_id, "alice");
    assert!(!u.is_admin);
    let admin = s.create(new_user("root", "rootpass", Some(true))).unwrap();
    assert!(admin.is_admin);
    assert!(admin.id > u.id);
}

#[test]
fn client_id_taken_in_any_case_is_refused() {
    let mut s = service();
    s.create(new_user("alice", "s3cret!", None)).unwrap();
    assert_eq!(s.create(new_user("ALICE", "another1", None)), Err(UserError::ClientIdAlreadyExists));
    assert_eq!(s.get_all().unwrap().len(), 1);
}

#[test]
fn client_id_and_secret_length_bounds() {
    let mut s = service();
    assert_eq!(s.create(new_user("ab", "s3cret!", None)), Err(UserError::ClientIdTooShort { min: 3 }));
    assert_eq!(
        s.create(new_user(&"x".repeat(257), "s3cret!", None)),
        Err(UserError::ClientIdTooLong { max: 256 })
    );
    assert_eq!(s.create(new_user("abc", "12345", None)), Err(UserError::ClientSecretTooShort { min: 6 }));
    assert_eq!(
        s.create(new_user("abc", &"p".repeat(1025), None)),
        Err(UserError::ClientSecretTooLong { max: 1024 })
    );
    assert_eq!(s.create(new_user("ab", "12345", None)), Err(UserError::ClientIdTooShort { min: 3 }));
    assert!(s.create(new_user("abc", "123456", None)).is_ok());
    assert!(s.create(new_user(&"y".repeat(256), &"q".repeat(1024), None)).is_ok());
}

#[test]
fn verify_and_get_accepts_the_right_secret_only() {
    let mut s = service();
    let created = s.create(new_user("alice", "s3cret!", None)).unwrap();
    let u = s.verify_and_get("ALICE".to_string(), "s3cret!".to_string()).unwrap();
    assert_eq!(u, created);
    assert_eq!(s.verify_and_get("alice".to_string(), "wrong!!".to_string()), Err(UserError::Invalid));
    assert_eq!(s.verify_and_get("bob".to_string(), "s3cret!".to_string()), Err(UserError::NotFound));
}

#[test]
fn stored_hash_is_not_the_secret() {
    let p = Argon2PasswordService::new(b"server pepper".to_vec());
    let h1 = p.generate_hash("s3cret!").unwrap();
    let h2 = p.generate_hash("s3cret!").unwrap();
    assert_ne!(h1, "s3cret!");
    assert!(h1.starts_with("$argon2id$"));
    assert_ne!(h1, h2);
    assert_eq!(p.verify_client_secret(&h1, "s3cret!"), Ok(true));
    assert_eq!(p.verify_client_secret(&h2, "s3cret!"), Ok(true));
    assert_eq!(p.verify_client_secret(&h1, "s3cret?"), Ok(false));
}

#[test]
fn hash_depends_on_the_server_key() {
    let p = Argon2PasswordService::new(b"server pepper".to_vec());
    let q = Argon2PasswordService::new(b"other pepper".to_vec());
    let h = p.generate_hash("s3cret!").unwrap();
    assert_eq!(q.verify_client_secret(&h, "s3cret!"), Ok(false));
}

#[test]
fn unreadable_hash_is_a_hash_error() {
    let p = Argon2PasswordService::new(b"server pepper".to_vec());
    assert!(matches!(p.verify_client_secret("not a hash", "s3cret!"), Err(UserError::HashError(_))));
}

#[test]
fn get_all_is_ordered_by_id() {
    let mut s = service();
    let a = s.create(new_user("zed", "secret1", None)).unwrap();
    let b = s.create(new_user("amy", "secret2", None)).unwrap();
    let all = s.get_all().unwrap();
    assert_eq!(all, vec![a, b]);
}

#[test]
fn get_by_id_finds_or_not_found() {
    let mut s = service();
    let a = s.create(new_user("alice", "s3cret!", None)).unwrap();
    assert_eq!(s.get_by_id(a.id), Ok(a.clone()));
    assert_eq!(s.get_by_id(a.id + 100), Err(UserError::NotFound));
}

#[test]
fn update_by_id_changes_given_fields() {
    let mut s = service();
    let a = s.create(new_user("alice", "s3cret!", None)).unwrap();
    let u = s
        .update_by_id(a.id, UpdateUserRequest { client_id: Some("Alicia".to_string()), client_secret: None, is_admin: Some(true) })
        .unwrap();
    assert_eq!(u, User { id: a.id, client_id: "alicia".to_string(), is_admin: true });
    assert!(s.verify_and_get("alicia".to_string(), "s3cret!".to_string()).is_ok());
    let u = s
        .update_by_id(a.id, UpdateUserRequest { client_id: None, client_secret: Some("n3w-secret".to_string()), is_admin: None })
        .unwrap();
    assert_eq!(u.client_id, "alicia");
    assert_eq!(s.verify_and_get("alicia".to_string(), "s3cret!".to_string()), Err(UserError::Invalid));
    assert!(s.verify_and_get("alicia".to_string(), "n3w-secret".to_string()).is_ok());
}

#[test]
fn update_by_id_refuses_collisions_and_missing() {
    let mut s = service();
    let a = s.create(new_user("alice", "s3cret!", None)).unwrap();
    s.create(new_user("bob", "s3cret!", None)).unwrap();
    let r = s.update_by_id(a.id, UpdateUserRequest { client_id: Some("BOB".to_string()), client_secret: None, is_admin: None });
    assert_eq!(r, Err(UserError::ClientIdAlreadyExists));
    let r = s.update_by_id(a.id, UpdateUserRequest { client_id: Some("ALICE".to_string()), client_secret: None, is_admin: None });
    assert_eq!(r.unwrap().client_id, "alice");
    let r = s.update_by_id(999, UpdateUserRequest { client_id: None, client_secret: None, is_admin: Some(true) });
    assert_eq!(r, Err(UserError::NotFound));
    let r = s.update_by_id(a.id, UpdateUserRequest { client_id: Some("al".to_string()), client_secret: None, is_admin: None });
    assert_eq!(r, Err(UserError::ClientIdTooShort { min: 3 }));
    let r = s.update_by_id(a.id, UpdateUserRequest { client_id: None, client_secret: Some("short".to_string()), is_admin: None });
    assert_eq!(r, Err(UserError::ClientSecretTooShort { min: 6 }));
}

#[test]
fn update_self_client_secret_rotates_only_the_secret() {
    let mut s = service();
    let a = s.create(new_user("alice", "s3cret!", Some(true))).unwrap();
    let u = s.update_self_client_secret(a.clone(), "rotated!".to_string()).unwrap();
    assert_eq!(u, a);
    assert_eq!(s.verify_and_get("alice".to_string(), "s3cret!".to_string()), Err(UserError::Invalid));
    assert_eq!(s.verify_and_get("alice".to_string(), "rotated!".to_string()), Ok(a.clone()));
    assert_eq!(s.update_self_client_secret(a.clone(), "tiny".to_string()), Err(UserError::ClientSecretTooShort { min: 6 }));
    let ghost = User { id: 999, client_id: "ghost".to_string(), is_admin: false };
    assert_eq!(s.update_self_client_secret(ghost, "whatever1".to_string()), Err(UserError::Unknown));
}

#[test]
fn delete_by_id_cascades_into_urls() {
    let mut s = service();
    let a = s.create(new_user("alice", "s3cret!", None)).unwrap();
    let b = s.create(new_user("bob", "s3cret!", None)).unwrap();
    for (owner, key) in [(&a, "a1"), (&b, "b1"), (&a, "a2")] {
        s.url_service_mut()
            .create(owner.clone(), CreateUrlRequest { key: key.to_string(), url: "https://example.com".to_string() })
            .unwrap();
    }
    assert_eq!(s.delete_by_id(a.id), Ok(()));
    assert!(s.url_service().get_all_by_user(a.clone()).unwrap().is_empty());
    assert_eq!(s.url_service().get_all().unwrap().len(), 1);
    assert_eq!(s.get_by_id(a.id), Err(UserError::NotFound));
    assert_eq!(s.url_service().get_by_key("a1".to_string()), Err(UrlError::NotFound));
    assert_eq!(s.get_by_id(b.id), Ok(b));
    assert_eq!(s.delete_by_id(a.id), Err(UserError::NotFound));
}

#[test]
fn create_with_hash_stores_given_hash() {
    let mut s = service();
    let p = Argon2PasswordService::new(b"server pepper".to_vec());
    let h = p.generate_hash("s3cret!").unwrap();
    let u = s.create_with_hash("Carol".to_string(), h, None).unwrap();
    assert_eq!(u.client_id, "carol");
    assert!(s.verify_and_get("carol".to_string(), "s3cret!".to_string()).is_ok());
    assert_eq!(
        s.create_with_hash("CAROL".to_string(), "x".to_string(), None),
        Err(UserError::ClientIdAlreadyExists)
    );
}

#[test]
fn update_with_hash_replaces_hash() {
    let mut s = service();
    let a = s.create(new_user("alice", "s3cret!", None)).unwrap();
    let p = Argon2PasswordService::new(b"server pepper".to_vec());
    let h = p.generate_hash("fresh-one").unwrap();
    let u = s.update_with_hash(a.id, None, Some(h), None).unwrap();
    assert_eq!(u, a);
    assert!(s.verify_and_get("alice".to_string(), "fresh-one".to_string()).is_ok());
}

#[test]
fn error_status_codes() {
    assert_eq!(UserError::ClientIdAlreadyExists.status_code(), 400);
    assert_eq!(UserError::ClientIdTooShort { min: 3 }.status_code(), 400);
    assert_eq!(UserError::ClientIdTooLong { max: 256 }.status_code(), 400);
    assert_eq!(UserError::ClientSecretTooShort { min: 6 }.status_code(), 400);
    assert_eq!(UserError::ClientSecretTooLong { max: 1024 }.status_code(), 400);
    assert_eq!(UserError::Invalid.status_code(), 401);
    assert_eq!(UserError::NotFound.status_code(), 404);
    assert_eq!(UserError::HashError("x".to_string()).status_code(), 500);
    assert_eq!(UserError::UrlDeletionError(UrlError::Unknown).status_code(), 500);
    assert_eq!(UserError::Unknown.status_code(), 500);
    assert_eq!(UrlError::KeyAlreadyExists.status_code(), 400);
    assert_eq!(UrlError::KeyTooShort { min: 1 }.status_code(), 400);
    assert_eq!(UrlError::KeyTooLong { max: 128 }.status_code(), 400);
    assert_eq!(UrlError::UrlParseError("x".to_string()).status_code(), 400);
    assert_eq!(UrlError::UrlInvalid.status_code(), 400);
    assert_eq!(UrlError::NotFound.status_code(), 404);
    assert_eq!(UrlError::Unknown.status_code(), 500);
    assert_eq!(UrlError::KeyReserved { prefix: "api".to_string() }.status_code(), 500);
    assert_eq!(UrlError::UnexpectedUrlParseError.status_code(), 500);
}
