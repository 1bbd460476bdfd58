use navalyze::navidrome::{bearer_header, login_url, ping_url, relay_url, song_list_url};
use navalyze::api::Range;
use navalyze::navidrome::native::{ParticipantArtist, Participants, SongData, TrackMap};
use navalyze::navidrome::{
    validate_reqwest_response, Album, AlbumData, Artist, NavidromeSessionError, ResponseArtist,
    Scrobble,
};

fn scrobble(id: &str, user: &str, t: u64) -> Scrobble {
    Scrobble { media_file_id: id.into(), user_id: user.into(), submission_time: t }
}

fn song(id: &str, title: &str) -> SongData {
    SongData {
        id: id.into(),
        title: title.into(),
        artist: "artist".into(),
        album: "album".into(),
        album_id: "al".into(),
        participants: Participants {
            artists: vec![ParticipantArtist { id: "ar".into(), name: "artist".into() }],
        },
    }
}

#[test]
fn filter_range_keeps_scrobbles_inside_in_order() {
    let s = vec![scrobble("a", "u", 5), scrobble("b", "u", 10), scrobble("c", "u", 15), scrobble("d", "u", 20)];
    let kept = Scrobble::filter_range(&s, Range { start: 10, end: 15 });
    let ids: Vec<&str> = kept.iter().map(|x| x.media_file_id.as_str()).collect();
    assert_eq!(ids, vec!["b", "c"]);
}

#[test]
fn unbounded_range_keeps_every_scrobble() {
    let s = vec![scrobble("a", "u", 0), scrobble("b", "u", u64::MAX)];
    let kept = Scrobble::filter_range(&s, Range::from_query(&Vec::new()));
    assert_eq!(kept.len(), 2);
}

#[test]
fn of_user_keeps_only_that_user() {
    let s = vec![scrobble("a", "u1", 1), scrobble("b", "u2", 2), scrobble("c", "u1", 3)];
    let kept = Scrobble::of_user(&s, &"u1".to_string());
    let ids: Vec<&str> = kept.iter().map(|x| x.media_file_id.as_str()).collect();
    assert_eq!(ids, vec!["a", "c"]);
}

#[test]
fn from_columns_reinterprets_time() {
    let s = Scrobble::from_columns("m".into(), "u".into(), 1700000000);
    assert_eq!(s.submission_time, 1700000000);
    let s = Scrobble::from_columns("m".into(), "u".into(), -1);
    assert_eq!(s.submission_time, u64::MAX);
}

#[test]
fn validate_response_classifies_outcomes() {
    assert!(matches!(validate_reqwest_response(Err("refused".into())), Err(NavidromeSessionError::Unreachable(m)) if m == "refused"));
    assert!(matches!(validate_reqwest_response(Ok(401)), Err(NavidromeSessionError::Unauthorized)));
    assert!(matches!(validate_reqwest_response(Ok(400)), Err(NavidromeSessionError::Unauthorized)));
    assert!(matches!(validate_reqwest_response(Ok(599)), Err(NavidromeSessionError::Unauthorized)));
    assert!(matches!(validate_reqwest_response(Ok(200)), Ok(200)));
    assert!(matches!(validate_reqwest_response(Ok(399)), Ok(399)));
    assert!(matches!(validate_reqwest_response(Ok(600)), Ok(600)));
}

#[test]
fn artist_from_navidrome_keeps_albums_in_order() {
    let artist = Artist::from_navidrome(
        ResponseArtist { id: "ar1".into(), name: "Band".into(), music_brainz_id: Some(5) },
        vec![
            AlbumData { id: "x".into(), name: "X".into(), year: 1999 },
            AlbumData { id: "y".into(), name: "Y".into(), year: 2001 },
        ],
    );
    assert_eq!(artist.id, "ar1");
    assert_eq!(artist.name, "Band");
    assert_eq!(artist.music_brainz_id, Some(5));
    let albums: Vec<(String, String, u64)> = artist.albums.into_iter().map(|a| (a.id, a.name, a.year)).collect();
    assert_eq!(albums, vec![("x".to_string(), "X".to_string(), 1999), ("y".to_string(), "Y".to_string(), 2001)]);
}

#[test]
fn album_from_album_data() {
    let a = Album::from(AlbumData { id: "i".into(), name: "n".into(), year: 3 });
    assert_eq!((a.id.as_str(), a.name.as_str(), a.year), ("i", "n", 3));
}

#[test]
fn track_map_insert_replaces_and_get_finds() {
    let mut m = TrackMap::new();
    assert!(m.get(&"s1".to_string()).is_none());
    m.insert(song("s1", "first"));
    m.insert(song("s2", "second"));
    m.insert(song("s1", "again"));
    assert_eq!(m.get(&"s1".to_string()).unwrap().title, "again");
    assert_eq!(m.get(&"s2".to_string()).unwrap().title, "second");
    assert!(m.get(&"s3".to_string()).is_none());
}

#[test]
fn select_keeps_played_songs_only() {
    let scrobbles = vec![scrobble("s2", "u", 1), scrobble("s3", "u", 2)];
    let m = TrackMap::select(vec![song("s1", "one"), song("s2", "two"), song("s3", "three"), song("s2", "two again")], &scrobbles);
    assert!(m.get(&"s1".to_string()).is_none());
    assert_eq!(m.get(&"s2".to_string()).unwrap().title, "two again");
    assert_eq!(m.get(&"s3".to_string()).unwrap().title, "three");
}

#[test]
fn request_addresses() {
    assert_eq!(login_url("http://nd"), "http://nd/auth/login");
    assert_eq!(bearer_header("abc"), "Bearer abc");
    assert_eq!(song_list_url("http://nd"), "http://nd/api/song/");
    assert_eq!(ping_url("http://nd"), "http://nd/rest/ping");
    assert_eq!(relay_url("http://nd", "getCoverArt"), "http://nd/rest/getCoverArt");
}
