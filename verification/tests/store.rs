//! Tests of the repository: create, find, update, delete, and the token
//! generation flow against the store.
use shortener::database::{
    add_share_to_database, delete_share_from_database, search_share_database,
    update_share_database, Database, DatabaseError, Search,
};
use shortener::url_id::{
    alphabet, base_61_to_10, UncommittedUrlID, UrlID, UrlIDError, DELIM_CHAR,
};

fn fresh_store_with(url: &str) -> (Database, UrlID) {
    let mut db = Database::new();
    let data = UncommittedUrlID::from_request(url.to_string(), None, 1_700_000_000);
    let rec = add_share_to_database(&mut db, data).unwrap();
    (db, rec)
}

#[test]
fn create_then_find_returns_the_created_record() {
    let (db, rec) = fresh_store_with("https://example.com");
    assert_eq!(rec.get_id(), &Some(1));
    let found = Search::Id(1).find_share(&db).unwrap().unwrap();
    assert_eq!(found.get_id(), &Some(1));
    assert_eq!(found.get_dest_url(), "https://example.com");
    assert_eq!(found.get_exp(), &i64::MAX);
    assert_eq!(found.get_crt(), &1_700_000_000);
    assert_eq!(found.is_expired(), &false);
    assert!(matches!(found.get_token(), Err(UrlIDError::NoToken)));
}

#[test]
fn create_defaults_missing_expiry_to_never() {
    let data = UncommittedUrlID::from_request("https://a.example".to_string(), None, 5);
    assert_eq!(data.get_exp(), i64::MAX);
    assert_eq!(data.get_crt(), 5);
    let explicit =
        UncommittedUrlID::from_request("https://a.example".to_string(), Some(99), 5);
    assert_eq!(explicit.get_exp(), 99);
}

#[test]
fn generated_token_is_persisted_and_decodes_to_the_id() {
    let (mut db, rec) = fresh_store_with("https://example.com");
    let tokenized = rec.generate_token(&mut db).unwrap();
    let token = tokenized.get_token().unwrap();
    assert!(token.len() >= 6);

    let stored = Search::Id(1).find_share(&db).unwrap().unwrap();
    let stored_token = stored.get_token().unwrap();
    assert_eq!(stored_token, token);

    let prefix: &str = token.split(DELIM_CHAR).next().unwrap();
    let alpha = alphabet();
    assert_eq!(base_61_to_10(prefix.to_string(), &alpha).unwrap(), 1);
}

#[test]
fn generate_token_without_an_id_is_an_error() {
    let mut db = Database::new();
    let record = UrlID::new("https://example.com");
    let r = record.generate_token(&mut db);
    assert!(matches!(r, Err(UrlIDError::IdError)));
}

#[test]
fn generate_token_for_a_missing_row_is_surfaced() {
    let (mut db, rec) = fresh_store_with("https://example.com");
    delete_share_from_database(&mut db, 1).unwrap();
    let r = rec.generate_token(&mut db);
    assert!(matches!(r, Err(UrlIDError::DatabaseError(_))));
}

#[test]
fn delete_then_find_returns_not_found() {
    let (mut db, _) = fresh_store_with("https://example.com");
    delete_share_from_database(&mut db, 1).unwrap();
    assert!(Search::Id(1).find_share(&db).unwrap().is_none());
}

#[test]
fn delete_of_a_missing_id_is_idempotent() {
    let (mut db, _) = fresh_store_with("https://example.com");
    delete_share_from_database(&mut db, 42).unwrap();
    assert!(Search::Id(1).find_share(&db).unwrap().is_some());
}

#[test]
fn update_replaces_exactly_the_matched_row() {
    let (mut db, _) = fresh_store_with("https://one.example");
    let data = UncommittedUrlID::from_request("https://two.example".to_string(), None, 7);
    add_share_to_database(&mut db, data).unwrap();

    let replacement = UrlID::new("https://changed.example").set_exp(&123);
    update_share_database(&mut db, Search::Id(1), replacement).unwrap();

    let first = Search::Id(1).find_share(&db).unwrap().unwrap();
    assert_eq!(first.get_dest_url(), "https://changed.example");
    assert_eq!(first.get_exp(), &123);
    assert_eq!(first.get_id(), &Some(1));

    let second = Search::Id(2).find_share(&db).unwrap().unwrap();
    assert_eq!(second.get_dest_url(), "https://two.example");
}

#[test]
fn update_of_a_missing_row_reports_does_not_exist() {
    let mut db = Database::new();
    let replacement = UrlID::new("https://changed.example");
    let r = update_share_database(&mut db, Search::Id(9), replacement);
    assert!(matches!(r, Err(DatabaseError::DoesNotExist)));
}

#[test]
fn find_by_url_and_by_token_criteria() {
    let (mut db, rec) = fresh_store_with("https://example.com");
    let by_url = Search::Url("https://example.com".to_string())
        .find_share(&db)
        .unwrap()
        .unwrap();
    assert_eq!(by_url.get_id(), &Some(1));

    let tokenized = rec.generate_token(&mut db).unwrap();
    let token = tokenized.get_token().unwrap();
    let by_token = Search::Token(token).find_share(&db).unwrap().unwrap();
    assert_eq!(by_token.get_id(), &Some(1));

    assert!(Search::Url("https://absent.example".to_string())
        .find_share(&db)
        .unwrap()
        .is_none());
}

#[test]
fn search_returns_every_match_in_store_order() {
    let mut db = Database::new();
    for url in ["https://a.example", "https://b.example", "https://a.example"] {
        let data = UncommittedUrlID::from_request(url.to_string(), None, 7);
        add_share_to_database(&mut db, data).unwrap();
    }
    let matches = search_share_database(&db, Search::Url("https://a.example".to_string()))
        .unwrap();
    assert_eq!(matches.len(), 2);
    assert_eq!(matches[0].get_id(), &Some(1));
    assert_eq!(matches[1].get_id(), &Some(3));
    let none = search_share_database(&db, Search::Id(17)).unwrap();
    assert!(none.is_empty());
}

#[test]
fn ids_grow_and_are_not_reused() {
    let (mut db, _) = fresh_store_with("https://one.example");
    delete_share_from_database(&mut db, 1).unwrap();
    let data = UncommittedUrlID::from_request("https://two.example".to_string(), None, 7);
    let rec = add_share_to_database(&mut db, data).unwrap();
    assert_eq!(rec.get_id(), &Some(2));
}

#[test]
fn insert_fails_when_the_id_space_is_exhausted() {
    let mut db = Database::new();
    db.next_share_id = i64::MAX;
    let data = UncommittedUrlID::from_request("https://example.com".to_string(), None, 7);
    let r = add_share_to_database(&mut db, data);
    assert!(matches!(r, Err(DatabaseError::InsertError(_))));
}

#[test]
fn search_terms_render_the_criterion() {
    assert_eq!(Search::Id(42).get_search_term(), "id = 42");
    assert_eq!(Search::Id(0).get_search_term(), "id = 0");
    assert_eq!(Search::Id(-7).get_search_term(), "id = -7");
    assert_eq!(
        Search::Id(i64::MIN).get_search_term(),
        "id = -9223372036854775808"
    );
    assert_eq!(
        Search::Url("https://example.com".to_string()).get_search_term(),
        "url = 'https://example.com'"
    );
    assert_eq!(
        Search::Token("ab3gZZ".to_string()).get_search_term(),
        "token = 'ab3gZZ'"
    );
}

#[test]
fn error_messages_match_their_states() {
    assert_eq!(DatabaseError::DoesNotExist.message(), "not found in database");
    assert_eq!(
        DatabaseError::UnableToContact.message(),
        "failed to connect to the database"
    );
    assert_eq!(
        UrlIDError::IdError.message(),
        "attempted to access id, but was none value"
    );
    assert_eq!(
        UrlIDError::NoToken.message(),
        "attempted to access an inaccessible token"
    );
    assert_eq!(
        UrlIDError::ContentType.message(),
        "incorrect content-type provided on request"
    );
    assert_eq!(UrlIDError::TooLarge.message(), "request payload too large");
    assert_eq!(
        UrlIDError::ServerError("boom".to_string()).message(),
        "boom"
    );
    assert_eq!(
        DatabaseError::SqlError("syntax".to_string()).message(),
        "an sql error occurred when interfacing with the database: syntax"
    );
    assert_eq!(
        DatabaseError::InsertError("full".to_string()).message(),
        "an error occurred attempting to add a new share to the database: full"
    );
    let wrapped = DatabaseError::DoesNotExist.into_url_id_error();
    assert!(matches!(wrapped, UrlIDError::DatabaseError(_)));
    assert_eq!(wrapped.message(), "not found in database");
    assert_eq!(
        DatabaseError::UrlIDError(UrlIDError::NoToken).message(),
        "a problem occurred with a share when interacting with the database: attempted to access an inaccessible token"
    );
}

#[test]
fn errors_map_to_their_status_codes() {
    assert_eq!(UrlIDError::ContentType.status_code(), 415);
    assert_eq!(UrlIDError::TooLarge.status_code(), 413);
    assert_eq!(UrlIDError::ParseFailure("x".to_string()).status_code(), 400);
    assert_eq!(UrlIDError::ServerError("x".to_string()).status_code(), 500);
    assert_eq!(UrlIDError::IdError.status_code(), 500);
    assert_eq!(UrlIDError::NoToken.status_code(), 500);
    assert_eq!(UrlIDError::DatabaseError("x".to_string()).status_code(), 500);
    assert_eq!(DatabaseError::DoesNotExist.status_code(), 404);
    assert_eq!(DatabaseError::UnableToContact.status_code(), 503);
    assert_eq!(DatabaseError::SqlError("x".to_string()).status_code(), 500);
    assert_eq!(DatabaseError::InsertError("x".to_string()).status_code(), 500);
}

#[test]
fn shortened_link_carries_the_token() {
    let (mut db, rec) = fresh_store_with("https://example.com");
    assert!(matches!(
        rec.get_shortened_link(),
        Err(UrlIDError::NoToken)
    ));
    let tokenized = Search::Id(1)
        .find_share(&db)
        .unwrap()
        .unwrap()
        .generate_token(&mut db)
        .unwrap();
    let token = tokenized.get_token().unwrap();
    let link = tokenized.get_shortened_link().unwrap();
    assert_eq!(link, format!("http://127.0.0.1:8000/{token}"));
}

#[test]
fn record_builders_and_getters() {
    let record = UrlID::new("https://example.com");
    assert_eq!(record.get_dest_url(), "https://example.com");
    assert_eq!(record.get_id(), &None);
    assert!(*record.get_crt() >= 0);
    let record = record.set_exp(&55).set_dest_url("https://other.example");
    assert_eq!(record.get_exp(), &55);
    assert_eq!(record.get_dest_url(), "https://other.example");
    assert_eq!(record.is_expired(), &false);
}
