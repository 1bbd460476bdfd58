use navalyze::mbz::{artist_metadata_url, first_metadata_entry, MbzArtist, MbzError};
use navalyze::storage::{after_cache_lookup, after_cached_parse, after_fetch, CacheDecision, StorageError};

fn artist() -> MbzArtist {
    MbzArtist { gender: None, artist_type: "Group".into() }
}

#[test]
fn cache_decisions() {
    assert!(matches!(after_cache_lookup(Err("locked".into()), true), CacheDecision::Failed(StorageError::Rusqlite(m)) if m == "locked"));
    assert!(matches!(after_cache_lookup(Ok(Some("{}".into())), false), CacheDecision::UseCached(j) if j == "{}"));
    assert!(matches!(after_cache_lookup(Ok(None), true), CacheDecision::Fetch));
    assert!(matches!(after_cache_lookup(Ok(None), false), CacheDecision::NotFound));
}

#[test]
fn parse_and_fetch_outcomes() {
    assert!(matches!(after_cached_parse(Ok(artist())), Ok(Some(a)) if a.artist_type == "Group"));
    assert!(matches!(after_cached_parse(Err("bad".into())), Err(StorageError::ParseJson(m)) if m == "bad"));
    assert!(matches!(after_fetch(Ok(artist())), Ok(Some(_))));
    assert!(matches!(after_fetch(Err(MbzError::Reqwest("dns".into()))), Err(StorageError::Reqwest(m)) if m == "dns"));
    assert!(matches!(after_fetch(Err(MbzError::ParseJson("eof".into()))), Err(StorageError::ParseJson(m)) if m == "eof"));
}

#[test]
fn storage_error_from_mbz_error() {
    assert!(matches!(StorageError::from(MbzError::Reqwest("x".into())), StorageError::Reqwest(m) if m == "x"));
    assert!(matches!(StorageError::from(MbzError::ParseJson("y".into())), StorageError::ParseJson(m) if m == "y"));
}

#[test]
fn metadata_url_names_the_artist() {
    assert_eq!(
        artist_metadata_url(0x550e8400e29b41d4a716446655440000),
        "https://api.listenbrainz.org/1/metadata/artist?artist_mbids=550e8400-e29b-41d4-a716-446655440000&inc=artist"
    );
}

#[test]
fn first_metadata_entry_cases() {
    assert!(matches!(first_metadata_entry::<u8>(None), Err(MbzError::ParseJson(m)) if m == "Mbz response is not an array"));
    assert!(matches!(first_metadata_entry::<u8>(Some(Vec::new())), Err(MbzError::ParseJson(m)) if m == "Mbz response is empty"));
    assert!(matches!(first_metadata_entry(Some(vec![7u8, 8])), Ok(7)));
}

#[test]
fn token_header_writes_the_uuid() {
    assert_eq!(
        navalyze::mbz::token_header(0x550e8400e29b41d4a716446655440000),
        "Token 550e8400-e29b-41d4-a716-446655440000"
    );
}
