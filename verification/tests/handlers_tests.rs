use navalyze::api::error::ApiError;
use navalyze::api::SessionStore;
use navalyze::handlers::{
    most_played_limit, recent_plays, trim_end_slashes, Auth, LoginRequest, RawLoginRequest,
};
use navalyze::navidrome::native::{Participants, SongData, TrackMap};
use navalyze::navidrome::Scrobble;

fn params(pairs: &[(&str, &str)]) -> Vec<(String, String)> {
    pairs.iter().map(|(k, v)| (k.to_string(), v.to_string())).collect()
}

fn message(r: Result<Auth, ApiError>) -> (u16, String) {
    match r {
        Ok(_) => panic!("admitted"),
        Err(e) => e.into_status_and_message(),
    }
}

#[test]
fn trailing_slashes_are_trimmed() {
    assert_eq!(trim_end_slashes("http://host/"), "http://host");
    assert_eq!(trim_end_slashes("http://host///"), "http://host");
    assert_eq!(trim_end_slashes("http://host"), "http://host");
    assert_eq!(trim_end_slashes("///"), "");
    assert_eq!(trim_end_slashes(""), "");
    assert_eq!(trim_end_slashes("a/b/"), "a/b");
}

#[test]
fn trimming_twice_is_trimming_once() {
    for url in ["x//", "/", "a/b", "é/"] {
        let once = trim_end_slashes(url);
        assert_eq!(trim_end_slashes(&once), once);
        assert_eq!(once, url.trim_end_matches('/'));
    }
}

#[test]
fn login_request_from_raw() {
    let r = LoginRequest::from_raw(RawLoginRequest { username: "me".into(), password: "pw".into(), url: "https://nd.example/".into() });
    assert_eq!((r.username.as_str(), r.password.as_str(), r.url.as_str()), ("me", "pw", "https://nd.example"));
}

#[test]
fn authorize_admits_known_token() {
    let mut store = SessionStore::new();
    store.insert(0x550e8400e29b41d4a716446655440000u128, ());
    let a = Auth::authorize(Some(b"550e8400-e29b-41d4-a716-446655440000".as_slice()), &store).ok().unwrap();
    assert_eq!(a.uuid, 0x550e8400e29b41d4a716446655440000);
    let a = Auth::authorize(Some(b"550e8400e29b41d4a716446655440000".as_slice()), &store).ok().unwrap();
    assert_eq!(a.uuid, 0x550e8400e29b41d4a716446655440000);
}

#[test]
fn authorize_refusals() {
    let mut store = SessionStore::new();
    store.insert(1u128, ());
    assert_eq!(message(Auth::authorize(None, &store)), (401, "Missing Authorization header".to_string()));
    assert_eq!(message(Auth::authorize(Some(b"abc\x01".as_slice()), &store)), (401, "Invalid Authorization header".to_string()));
    assert_eq!(message(Auth::authorize(Some("é".as_bytes()), &store)), (401, "Invalid Authorization header".to_string()));
    assert_eq!(message(Auth::authorize(Some(b"not-a-uuid".as_slice()), &store)), (401, "Authorization header is not and UUID".to_string()));
    assert_eq!(
        message(Auth::authorize(Some(b"550e8400-e29b-41d4-a716-446655440000".as_slice()), &store)),
        (401, "You don't have permission to access this".to_string())
    );
}

#[test]
fn most_played_limit_cases() {
    assert_eq!(most_played_limit(&params(&[]), 5), 5);
    assert_eq!(most_played_limit(&params(&[("limit", "3")]), 5), 3);
    assert_eq!(most_played_limit(&params(&[("limit", "5")]), 5), 5);
    assert_eq!(most_played_limit(&params(&[("limit", "9")]), 5), 4);
    assert_eq!(most_played_limit(&params(&[("limit", "x")]), 5), 5);
    assert_eq!(most_played_limit(&params(&[]), 0), 0);
    assert_eq!(most_played_limit(&params(&[("limit", "0")]), 0), 0);
}

fn song(id: &str) -> SongData {
    SongData {
        id: id.into(),
        title: format!("T{id}"),
        artist: format!("A{id}"),
        album: format!("L{id}"),
        album_id: "x".into(),
        participants: Participants { artists: Vec::new() },
    }
}

fn titles(rows: Vec<navalyze::handlers::RecentPlay>) -> Vec<String> {
    rows.into_iter().map(|r| r.title).collect()
}

#[test]
fn recent_plays_window() {
    let mut tracks = TrackMap::new();
    for id in ["1", "2", "3", "4"] {
        tracks.insert(song(id));
    }
    let scrobbles: Vec<Scrobble> = ["1", "2", "gone", "3", "4"]
        .iter()
        .map(|id| Scrobble { media_file_id: id.to_string(), user_id: "u".into(), submission_time: 0 })
        .collect();
    assert_eq!(titles(recent_plays(&params(&[]), 100, &scrobbles, &tracks)), vec!["T1", "T2", "T3", "T4"]);
    assert_eq!(titles(recent_plays(&params(&[("limit", "2")]), 100, &scrobbles, &tracks)), vec!["T1", "T2"]);
    assert_eq!(titles(recent_plays(&params(&[("limit", "2"), ("offset", "1")]), 100, &scrobbles, &tracks)), vec!["T2"]);
    assert_eq!(titles(recent_plays(&params(&[("offset", "9")]), 100, &scrobbles, &tracks)), Vec::<String>::new());
    assert_eq!(titles(recent_plays(&params(&[("limit", "-1")]), 100, &scrobbles, &tracks)), vec!["T1", "T2", "T3", "T4"]);
    assert_eq!(titles(recent_plays(&params(&[]), 2, &scrobbles, &tracks)), vec!["T1", "T2"]);
    let first = recent_plays(&params(&[("limit", "1")]), 100, &scrobbles, &tracks);
    assert_eq!((first[0].artist.as_str(), first[0].album.as_str()), ("A1", "L1"));
}

#[test]
fn issued_token_text_is_admitted() {
    let id = uuid::Uuid::new_v4();
    let mut store = SessionStore::new();
    store.insert(id.as_u128(), ());
    let text = id.to_string();
    let a = Auth::authorize(Some(text.as_bytes()), &store).ok().unwrap();
    assert_eq!(a.uuid, id.as_u128());
}
