//! Tests of the authentication guard, login verification, and the
//! capability-gated request pipeline.
use shortener::auth::{login, require_admin, resolve_principal, AuthError, Principal};
use shortener::database::{
    add_share_to_database, add_user_to_database, Database, DatabaseError, Search,
};
use shortener::service::{
    create_shortened_url, dashboard_shares, delete_page, not_found, resolve_redirect,
    PageError,
};
use shortener::url_id::UncommittedUrlID;
use shortener::users::NewUser;

const NOW: i64 = 1_700_000_000;

fn store_with_users() -> Database {
    let mut db = Database::new();
    let mut alice = NewUser { username: "alice".to_string(), password: "hunter2".to_string() };
    alice.hash_internal();
    add_user_to_database(&mut db, alice, true).unwrap();
    let mut bob = NewUser { username: "bob".to_string(), password: "swordfish".to_string() };
    bob.hash_internal();
    add_user_to_database(&mut db, bob, false).unwrap();
    db
}

fn store_with_share(db: &mut Database, url: &str) -> String {
    let data = UncommittedUrlID::from_request(url.to_string(), None, NOW);
    let rec = add_share_to_database(db, data).unwrap();
    rec.generate_token(db).unwrap().get_token().unwrap()
}

#[test]
fn passwords_are_stored_hashed_and_verify() {
    let mut form = NewUser { username: "carol".to_string(), password: "secret".to_string() };
    form.hash_internal();
    assert_ne!(form.password, "secret");
    assert!(form.password.starts_with("$argon2"));
    let probe = NewUser { username: "carol".to_string(), password: "secret".to_string() };
    assert!(probe.compare_against(&form.password));
    let wrong = NewUser { username: "carol".to_string(), password: "Secret".to_string() };
    assert!(!wrong.compare_against(&form.password));
}

#[test]
fn two_hashes_of_one_password_use_different_salts() {
    let mut a = NewUser { username: "u".to_string(), password: "same".to_string() };
    let mut b = NewUser { username: "u".to_string(), password: "same".to_string() };
    a.hash_internal();
    b.hash_internal();
    assert_ne!(a.password, b.password);
}

#[test]
fn login_with_correct_password_succeeds() {
    let db = store_with_users();
    let form = NewUser { username: "alice".to_string(), password: "hunter2".to_string() };
    let user = login(&db, &form).unwrap();
    assert_eq!(user.get_username(), "alice");
    assert!(user.is_admin);
}

#[test]
fn failed_logins_share_one_generic_error() {
    let db = store_with_users();
    let wrong_password =
        NewUser { username: "alice".to_string(), password: "wrong".to_string() };
    let unknown_user =
        NewUser { username: "mallory".to_string(), password: "hunter2".to_string() };
    let e1 = login(&db, &wrong_password).unwrap_err();
    let e2 = login(&db, &unknown_user).unwrap_err();
    assert_eq!(e1, AuthError::InvalidCredentials);
    assert_eq!(e1, e2);
}

#[test]
fn principals_resolve_from_cookies() {
    let db = store_with_users();
    assert!(matches!(resolve_principal(&db, None), Principal::Anonymous));
    assert!(matches!(
        resolve_principal(&db, Some("mallory")),
        Principal::Anonymous
    ));
    match resolve_principal(&db, Some("bob")) {
        Principal::User(u) => assert_eq!(u.get_username(), "bob"),
        _ => panic!("bob should be a plain user"),
    }
    match resolve_principal(&db, Some("alice")) {
        Principal::Admin(u) => assert_eq!(u.get_username(), "alice"),
        _ => panic!("alice should be an admin"),
    }
}

#[test]
fn require_admin_refines_the_principal() {
    let db = store_with_users();
    let admin = resolve_principal(&db, Some("alice"));
    assert!(require_admin(admin).is_ok());
    let user = resolve_principal(&db, Some("bob"));
    assert_eq!(require_admin(user).unwrap_err(), AuthError::Unauthorized);
    assert_eq!(
        require_admin(Principal::Anonymous).unwrap_err(),
        AuthError::Unauthorized
    );
}

#[test]
fn create_and_redirect_scenario() {
    let mut db = store_with_users();
    let admin = resolve_principal(&db, Some("alice"));
    let data =
        UncommittedUrlID::from_request("https://example.com".to_string(), None, NOW);
    let link = create_shortened_url(&mut db, &admin, data).unwrap();
    assert!(link.starts_with("http://127.0.0.1:8000/"));
    let token = link.rsplit('/').next().unwrap();
    assert!(token.len() >= 6);

    let target = resolve_redirect(&db, token, NOW).unwrap();
    assert_eq!(target, "https://example.com");
}

#[test]
fn create_without_a_principal_is_unauthorized() {
    let mut db = store_with_users();
    let data =
        UncommittedUrlID::from_request("https://example.com".to_string(), None, NOW);
    let r = create_shortened_url(&mut db, &Principal::Anonymous, data);
    assert_eq!(r.unwrap_err(), PageError::Unauthorized);
    assert!(Search::Id(1).find_share(&db).unwrap().is_none());
}

#[test]
fn unknown_token_redirects_to_not_found_not_an_error() {
    let mut db = store_with_users();
    store_with_share(&mut db, "https://example.com");
    assert!(resolve_redirect(&db, "abc123", NOW).is_none());
    assert!(resolve_redirect(&db, "!!!", NOW).is_none());
    assert!(resolve_redirect(&db, "", NOW).is_none());
}

#[test]
fn expired_shares_are_not_served() {
    let mut db = store_with_users();
    let data =
        UncommittedUrlID::from_request("https://example.com".to_string(), Some(NOW - 1), NOW);
    let rec = add_share_to_database(&mut db, data).unwrap();
    let token = rec.generate_token(&mut db).unwrap().get_token().unwrap();
    assert!(resolve_redirect(&db, &token, NOW).is_none());
}

#[test]
fn non_admin_delete_is_unauthorized_and_keeps_the_record() {
    let mut db = store_with_users();
    let token = store_with_share(&mut db, "https://example.com");
    let bob = resolve_principal(&db, Some("bob"));
    let r = delete_page(&mut db, &bob, &token);
    assert_eq!(r.unwrap_err(), PageError::Unauthorized);
    assert!(Search::Id(1).find_share(&db).unwrap().is_some());

    let anon = Principal::Anonymous;
    let r = delete_page(&mut db, &anon, &token);
    assert_eq!(r.unwrap_err(), PageError::Unauthorized);
    assert!(Search::Id(1).find_share(&db).unwrap().is_some());
}

#[test]
fn admin_delete_removes_the_record() {
    let mut db = store_with_users();
    let token = store_with_share(&mut db, "https://example.com");
    let alice = resolve_principal(&db, Some("alice"));
    delete_page(&mut db, &alice, &token).unwrap();
    assert!(Search::Id(1).find_share(&db).unwrap().is_none());
    assert!(resolve_redirect(&db, &token, NOW).is_none());

    let r = delete_page(&mut db, &alice, &token);
    assert_eq!(r.unwrap_err(), PageError::NotFound);
}

#[test]
fn dashboard_lists_pages_for_admins_only() {
    let mut db = store_with_users();
    store_with_share(&mut db, "https://one.example");
    store_with_share(&mut db, "https://two.example");
    store_with_share(&mut db, "https://three.example");

    let alice = resolve_principal(&db, Some("alice"));
    let first = dashboard_shares(&db, &alice, 0, 2).unwrap();
    assert_eq!(first.len(), 2);
    assert_eq!(first[0].get_dest_url(), "https://one.example");
    assert_eq!(first[1].get_dest_url(), "https://two.example");
    let second = dashboard_shares(&db, &alice, 1, 2).unwrap();
    assert_eq!(second.len(), 1);
    assert_eq!(second[0].get_dest_url(), "https://three.example");
    let beyond = dashboard_shares(&db, &alice, 7, 2).unwrap();
    assert!(beyond.is_empty());

    let bob = resolve_principal(&db, Some("bob"));
    assert_eq!(
        dashboard_shares(&db, &bob, 0, 2).unwrap_err(),
        PageError::Unauthorized
    );
}

#[test]
fn users_can_be_added_looked_up_and_deleted() {
    let mut db = store_with_users();
    let found = shortener::database::get_user_by_username(&db, "bob").unwrap().unwrap();
    assert_eq!(found.get_id(), 2);
    assert!(!found.is_admin);
    shortener::database::delete_user_from_database(&mut db, 2).unwrap();
    assert!(shortener::database::get_user_by_username(&db, "bob").unwrap().is_none());
}

#[test]
fn page_errors_map_to_their_status_codes() {
    assert_eq!(PageError::Unauthorized.status_code(), 401);
    assert_eq!(PageError::NotFound.status_code(), 404);
    assert_eq!(
        PageError::Database(DatabaseError::DoesNotExist).status_code(),
        404
    );
    assert_eq!(
        PageError::Database(DatabaseError::UnableToContact).status_code(),
        503
    );
}

#[test]
fn not_found_page_names_the_path() {
    assert_eq!(
        not_found("/missing"),
        "Sorry, '/missing' is not a valid path."
    );
}
