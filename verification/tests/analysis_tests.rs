use navalyze::analysis::albums::AlbumStat;
use navalyze::analysis::artist::ArtistStat as ArtistPage;
use navalyze::analysis::artists::ArtistStat;
use navalyze::analysis::tracks::TrackStat;
use navalyze::mbz::MbzArtist;
use navalyze::navidrome::native::{ParticipantArtist, Participants, SongData, TrackMap};
use navalyze::navidrome::{Album, Artist, Scrobble};

fn scrobble(id: &str) -> Scrobble {
    Scrobble { media_file_id: id.into(), user_id: "u".into(), submission_time: 0 }
}

fn song(id: &str, album_id: &str, artists: &[(&str, &str)]) -> SongData {
    SongData {
        id: id.into(),
        title: format!("title {id}"),
        artist: format!("artist of {id}"),
        album: format!("album {album_id}"),
        album_id: album_id.into(),
        participants: Participants {
            artists: artists.iter().map(|(i, n)| ParticipantArtist { id: i.to_string(), name: n.to_string() }).collect(),
        },
    }
}

fn library() -> TrackMap {
    let mut m = TrackMap::new();
    m.insert(song("t1", "alA", &[("r1", "One")]));
    m.insert(song("t2", "alB", &[("r2", "Two"), ("r1", "One")]));
    m.insert(song("t3", "alA", &[("r2", "Two"), ("r2", "Two")]));
    m
}

fn plays() -> Vec<Scrobble> {
    vec![scrobble("t2"), scrobble("t1"), scrobble("missing"), scrobble("t3"), scrobble("t2")]
}

#[test]
fn albums_grouped_in_order_of_first_play() {
    let s = plays();
    let stats = AlbumStat::group(s.iter().collect(), &library(), None);
    let rows: Vec<(String, String, String, u64, Vec<usize>)> =
        stats.into_iter().map(|a| (a.id, a.name, a.artist, a.plays, a.scrobbles)).collect();
    assert_eq!(rows, vec![
        ("alB".to_string(), "album alB".to_string(), "artist of t2".to_string(), 2, vec![0, 4]),
        ("alA".to_string(), "album alA".to_string(), "artist of t1".to_string(), 2, vec![1, 3]),
    ]);
}

#[test]
fn albums_restricted_to_selection() {
    let s = plays();
    let stats = AlbumStat::group(s.iter().collect(), &library(), Some(vec!["alA".to_string(), "zzz".to_string()]));
    assert_eq!(stats.len(), 1);
    assert_eq!(stats[0].id, "alA");
    assert_eq!(stats[0].scrobbles, vec![1, 3]);
    let none = AlbumStat::group(s.iter().collect(), &library(), Some(Vec::new()));
    assert!(none.is_empty());
}

#[test]
fn tracks_grouped() {
    let s = plays();
    let stats = TrackStat::group(s.iter().collect(), &library());
    let rows: Vec<(String, String, u64, Vec<usize>)> = stats.into_iter().map(|t| (t.id, t.name, t.plays, t.scrobbles)).collect();
    assert_eq!(rows, vec![
        ("t2".to_string(), "title t2".to_string(), 2, vec![0, 4]),
        ("t1".to_string(), "title t1".to_string(), 1, vec![1]),
        ("t3".to_string(), "title t3".to_string(), 1, vec![3]),
    ]);
}

#[test]
fn artists_credited_once_per_credit() {
    let s = plays();
    let stats = ArtistStat::group(s.iter().collect(), &library());
    let rows: Vec<(String, String, u64, Vec<usize>)> = stats.into_iter().map(|a| (a.id, a.name, a.plays, a.scrobbles)).collect();
    assert_eq!(rows, vec![
        ("r2".to_string(), "Two".to_string(), 4, vec![0, 3, 3, 4]),
        ("r1".to_string(), "One".to_string(), 3, vec![0, 1, 4]),
    ]);
}

#[test]
fn no_scrobbles_no_groups() {
    assert!(AlbumStat::group(Vec::new(), &library(), None).is_empty());
    assert!(TrackStat::group(Vec::new(), &library()).is_empty());
    assert!(ArtistStat::group(Vec::new(), &library()).is_empty());
}

#[test]
fn grouping_conserves_plays_on_values() {
    let s = plays();
    let known = s.iter().filter(|x| x.media_file_id != "missing").count() as u64;
    let albums: u64 = AlbumStat::group(s.iter().collect(), &library(), None).iter().map(|a| a.plays).sum();
    let tracks: u64 = TrackStat::group(s.iter().collect(), &library()).iter().map(|t| t.plays).sum();
    assert_eq!(albums, known);
    assert_eq!(tracks, known);
}

#[test]
fn artist_page_lists_albums_with_statistics() {
    let s = plays();
    let stats = AlbumStat::group(s.iter().collect(), &library(), None);
    let artist = Artist {
        id: "r1".into(),
        name: "One".into(),
        music_brainz_id: None,
        albums: vec![
            Album { id: "alA".into(), name: "A".into(), year: 1990 },
            Album { id: "alC".into(), name: "C".into(), year: 1991 },
            Album { id: "alB".into(), name: "B".into(), year: 1992 },
        ],
    };
    let page = ArtistPage::get(artist, stats, Some(MbzArtist { gender: Some("Female".into()), artist_type: "Person".into() }));
    assert_eq!(page.name, "One");
    assert_eq!(page.artist_type.as_deref(), Some("Person"));
    assert_eq!(page.gender.as_deref(), Some("Female"));
    let rows: Vec<(String, String, u64, u64, Vec<usize>)> =
        page.albums.into_iter().map(|a| (a.id, a.name, a.plays, a.year, a.scrobbles)).collect();
    assert_eq!(rows, vec![
        ("alA".to_string(), "album alA".to_string(), 2, 1990, vec![1, 3]),
        ("alB".to_string(), "album alB".to_string(), 2, 1992, vec![0, 4]),
    ]);
}

#[test]
fn artist_page_without_musicbrainz() {
    let artist = Artist { id: "r".into(), name: "N".into(), music_brainz_id: None, albums: Vec::new() };
    let page = ArtistPage::get(artist, Vec::new(), None);
    assert!(page.artist_type.is_none());
    assert!(page.gender.is_none());
    assert!(page.albums.is_empty());
}

fn album_rows(stats: Vec<AlbumStat>) -> Vec<(String, u64, Vec<usize>)> {
    stats.into_iter().map(|a| (a.id, a.plays, a.scrobbles)).collect()
}

#[test]
fn selection_drops_whole_albums_on_values() {
    let s = plays();
    let all = album_rows(AlbumStat::group(s.iter().collect(), &library(), None));
    let chosen = album_rows(AlbumStat::group(s.iter().collect(), &library(), Some(vec!["alB".to_string()])));
    let expected: Vec<_> = all.into_iter().filter(|r| r.0 == "alB").collect();
    assert_eq!(chosen, expected);
}

#[test]
fn order_and_unknown_scrobbles_keep_album_counts() {
    let s = plays();
    let mut reordered: Vec<Scrobble> = s.clone().into_iter().rev().collect();
    reordered.push(scrobble("nobody knows"));
    let mut a: Vec<(String, u64)> = AlbumStat::group(s.iter().collect(), &library(), None).into_iter().map(|x| (x.id, x.plays)).collect();
    let mut b: Vec<(String, u64)> = AlbumStat::group(reordered.iter().collect(), &library(), None).into_iter().map(|x| (x.id, x.plays)).collect();
    a.sort();
    b.sort();
    assert_eq!(a, b);
}
