use navalyze::api::error::ApiError;
use navalyze::api::{Range, SessionStore};
use navalyze::navidrome::NavidromeSessionError;
use navalyze::storage::StorageError;

fn parts(e: ApiError) -> (u16, String) {
    e.into_status_and_message()
}

#[test]
fn range_contains_both_ends() {
    let r = Range { start: 10u64, end: 20u64 };
    assert!(r.contains(&10));
    assert!(r.contains(&15));
    assert!(r.contains(&20));
    assert!(!r.contains(&9));
    assert!(!r.contains(&21));
}

#[test]
fn empty_range_contains_nothing() {
    let r = Range { start: 5u64, end: 4u64 };
    assert!(!r.contains(&4));
    assert!(!r.contains(&5));
}

#[test]
fn range_from_query_defaults_to_everything() {
    let r = Range::from_query(&Vec::new());
    assert_eq!((r.start, r.end), (0, u64::MAX));
    let p = vec![("a".to_string(), "100".to_string()), ("b".to_string(), "x".to_string())];
    let r = Range::from_query(&p);
    assert_eq!((r.start, r.end), (100, u64::MAX));
}

#[test]
fn session_store_reads_back_what_was_written() {
    let mut store: SessionStore<&str> = SessionStore::new();
    assert!(!store.contains(1));
    store.insert(1, "alice");
    store.insert(2, "bob");
    store.insert(1, "carol");
    assert!(store.contains(1));
    assert_eq!(store.get(1), Some(&"carol"));
    assert_eq!(store.get(2), Some(&"bob"));
    assert_eq!(store.get(3), None);
}

#[test]
fn session_lookup_of_unknown_token_is_internal_error() {
    let store: SessionStore<u8> = SessionStore::new();
    match store.session(7) {
        Err(e) => assert_eq!(parts(e), (500, "Could not find token".to_string())),
        Ok(_) => panic!("unknown token found"),
    }
}

#[test]
fn status_codes_of_errors() {
    assert_eq!(parts(ApiError::NavidromeUnreachable("a".into())), (400, "a".to_string()));
    assert_eq!(parts(ApiError::Unauthorized("b".into())), (401, "b".to_string()));
    assert_eq!(parts(ApiError::Internal("c".into())), (500, "c".to_string()));
    assert_eq!(parts(ApiError::BadRequest("d".into())), (400, "d".to_string()));
    assert_eq!(parts(ApiError::DatabaseError("e".into())), (500, "e".to_string()));
}

#[test]
fn session_errors_become_api_errors() {
    let e = ApiError::from_session_error(NavidromeSessionError::Reqwest("boom".into()));
    assert_eq!(parts(e), (500, "Reqwest failed: boom".to_string()));
    let e = ApiError::from_session_error(NavidromeSessionError::Unreachable("down".into()));
    assert_eq!(parts(e), (400, "Navidrome could not be reached: down".to_string()));
    let e = ApiError::from_session_error(NavidromeSessionError::Unauthorized);
    assert_eq!(parts(e), (401, "Invalid credentials".to_string()));
    let e = ApiError::from_session_error(NavidromeSessionError::ParseJson("eof".into()));
    assert_eq!(parts(e), (500, "Could not parse Navidrome's response: eof".to_string()));
}

#[test]
fn storage_errors_become_api_errors() {
    let e = ApiError::from_storage_error(StorageError::Reqwest("dns".into()));
    assert_eq!(parts(e), (500, "Could not connect to MusicBrainz: dns".to_string()));
    let e = ApiError::from_storage_error(StorageError::ParseJson("eof".into()));
    assert_eq!(parts(e), (500, "Could not parse MusicBrainz response: eof".to_string()));
    let e = ApiError::from_storage_error(StorageError::Rusqlite("locked".into()));
    assert_eq!(parts(e), (500, "Internal database error: locked".to_string()));
}

#[test]
fn fixed_error_answers() {
    assert_eq!(parts(ApiError::relay_failed()), (400, "Failed to reach Navidrome".to_string()));
    assert_eq!(parts(ApiError::domain_not_recorded()), (500, "Could not add domain to database".to_string()));
    assert_eq!(parts(ApiError::invalid_queries()), (400, "Invalid queries".to_string()));
}
