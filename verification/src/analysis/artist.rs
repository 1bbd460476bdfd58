use vstd::prelude::*;

use crate::analysis::albums::AlbumStat;
use crate::mbz::MbzArtist;
use crate::navidrome::{Album, Artist};

verus! {

broadcast use vstd::seq_lib::group_seq_properties;

/// The statistics of one artist's page.
pub struct ArtistStat {
    pub name: String,
    pub artist_type: Option<String>,
    pub gender: Option<String>,
    pub albums: Vec<ArtistAlbumStat>,
}

/// How often one album of the artist was played; the time it was played
/// for is the sum of the durations of the scrobbles at positions
/// `scrobbles`.
pub struct ArtistAlbumStat {
    pub id: String,
    pub name: String,
    pub plays: u64,
    pub year: u64,
    pub scrobbles: Vec<usize>,
}

pub struct ArtistAlbumStatView {
    pub id: Seq<char>,
    pub name: Seq<char>,
    pub plays: u64,
    pub year: u64,
    pub scrobbles: Seq<usize>,
}

impl View for ArtistAlbumStat {
    type V = ArtistAlbumStatView;

    open spec fn view(&self) -> ArtistAlbumStatView {
        ArtistAlbumStatView {
            id: self.id@,
            name: self.name@,
            plays: self.plays,
            year: self.year,
            scrobbles: self.scrobbles@,
        }
    }
}

pub open spec fn artist_album_views(albums: Seq<ArtistAlbumStat>) -> Seq<ArtistAlbumStatView> {
    albums.map_values(|a: ArtistAlbumStat| a@)
}

/// The first statistic of `stats` for album `id`.
pub open spec fn stat_for(stats: Seq<AlbumStat>, id: Seq<char>) -> Option<AlbumStat>
    decreases stats.len(),
{
    if stats.len() == 0 {
        None
    } else if stats[0].id@ == id {
        Some(stats[0])
    } else {
        stat_for(stats.drop_first(), id)
    }
}

/// One row per album of the artist that has a statistic, in the artist's
/// order of albums.
pub open spec fn album_rows(albums: Seq<Album>, stats: Seq<AlbumStat>) -> Seq<ArtistAlbumStatView>
    decreases albums.len(),
{
    if albums.len() == 0 {
        Seq::empty()
    } else {
        let earlier = album_rows(albums.drop_last(), stats);
        let album = albums.last();
        match stat_for(stats, album.id@) {
            Some(stat) => earlier.push(
                ArtistAlbumStatView {
                    id: album.id@,
                    name: stat.name@,
                    plays: stat.plays,
                    year: album.year,
                    scrobbles: stat.scrobbles@,
                },
            ),
            None => earlier,
        }
    }
}

/// Whether some statistic of `stats` is for the album.
pub open spec fn has_stat(stats: Seq<AlbumStat>) -> spec_fn(Album) -> bool {
    |a: Album| exists|k: int| 0 <= k < stats.len() && #[trigger] stats[k].id@ == a.id@
}

/// Whether position `k` holds the first statistic of `stats` for album `id`.
pub open spec fn first_stat_at(stats: Seq<AlbumStat>, id: Seq<char>, k: int) -> bool {
    &&& 0 <= k < stats.len()
    &&& stats[k].id@ == id
    &&& forall|k2: int| 0 <= k2 < k ==> #[trigger] stats[k2].id@ != id
}

proof fn lemma_stat_for(stats: Seq<AlbumStat>, id: Seq<char>)
    ensures
        match stat_for(stats, id) {
            Some(st) => exists|k: int| first_stat_at(stats, id, k) && st == #[trigger] stats[k],
            None => forall|k: int| 0 <= k < stats.len() ==> #[trigger] stats[k].id@ != id,
        },
    decreases stats.len(),
{
    if stats.len() > 0 {
        let rest = stats.drop_first();
        lemma_stat_for(rest, id);
        if stats[0].id@ == id {
            assert(first_stat_at(stats, id, 0));
        } else {
            match stat_for(rest, id) {
                Some(st) => {
                    let k = choose|k: int| first_stat_at(rest, id, k) && st == #[trigger] rest[k];
                    assert forall|k2: int| 0 <= k2 < k + 1 implies #[trigger] stats[k2].id@
                        != id by {
                        if k2 > 0 {
                            assert(stats[k2] == rest[k2 - 1]);
                        }
                    }
                    assert(first_stat_at(stats, id, k + 1) && st == stats[k + 1]);
                },
                None => {
                    assert forall|k: int| 0 <= k < stats.len() implies #[trigger] stats[k].id@
                        != id by {
                        if k > 0 {
                            assert(stats[k] == rest[k - 1]);
                        }
                    }
                },
            }
        }
    }
}

/// The artist's page has one row for each of the artist's albums that has
/// a statistic, in the artist's order of albums: the row shows the album's
/// identifier and year, and the name, plays and scrobble positions of the
/// first statistic for the album.
pub proof fn law_artist_page_rows(albums: Seq<Album>, stats: Seq<AlbumStat>)
    ensures
        album_rows(albums, stats).len() == albums.filter(has_stat(stats)).len(),
        forall|j: int|
            0 <= j < album_rows(albums, stats).len() ==> exists|k: int|
                #![trigger stats[k]]
                first_stat_at(stats, albums.filter(has_stat(stats))[j].id@, k)
                    && #[trigger] album_rows(albums, stats)[j] == (ArtistAlbumStatView {
                    id: albums.filter(has_stat(stats))[j].id@,
                    name: stats[k].name@,
                    plays: stats[k].plays,
                    year: albums.filter(has_stat(stats))[j].year,
                    scrobbles: stats[k].scrobbles@,
                }),
    decreases albums.len(),
{
    if albums.len() > 0 {
        let t = albums.drop_last();
        let a = albums.last();
        assert(albums =~= t.push(a));
        law_artist_page_rows(t, stats);
        t.lemma_filter_push(a, has_stat(stats));
        lemma_stat_for(stats, a.id@);
        let rows = album_rows(albums, stats);
        let f = albums.filter(has_stat(stats));
        match stat_for(stats, a.id@) {
            Some(st) => {
                let k = choose|k: int| first_stat_at(stats, a.id@, k) && st == #[trigger] stats[k];
                assert(has_stat(stats)(a));
                assert forall|j: int| 0 <= j < rows.len() implies exists|k: int|
                    #![trigger stats[k]]
                    first_stat_at(stats, f[j].id@, k) && #[trigger] rows[j] == (ArtistAlbumStatView {
                        id: f[j].id@,
                        name: stats[k].name@,
                        plays: stats[k].plays,
                        year: f[j].year,
                        scrobbles: stats[k].scrobbles@,
                    }) by {
                    if j < rows.len() - 1 {
                        assert(rows[j] == album_rows(t, stats)[j]);
                        assert(f[j] == t.filter(has_stat(stats))[j]);
                    } else {
                        assert(f[j] == a);
                        assert(first_stat_at(stats, f[j].id@, k));
                    }
                }
            },
            None => {
                assert(!has_stat(stats)(a));
            },
        }
    }
}

/// The position of the first statistic for album `id`.
fn find_stat(stats: &Vec<AlbumStat>, id: &String) -> (r: Option<usize>)
    ensures
        match r {
            Some(k) => k < stats@.len() && stat_for(stats@, id@) == Some(stats@[k as int]),
            None => stat_for(stats@, id@) is None,
        },
{
    let mut k: usize = 0;
    while k < stats.len()
        invariant
            k <= stats@.len(),
            stat_for(stats@, id@) == stat_for(stats@.skip(k as int), id@),
        decreases stats@.len() - k,
    {
        assert(stats@.skip(k as int).drop_first() =~= stats@.skip(k + 1));
        if stats[k].id == *id {
            return Some(k);
        }
        k = k + 1;
    }
    None
}

fn copy_positions(v: &Vec<usize>) -> (r: Vec<usize>)
    ensures
        r@ == v@,
{
    let mut r: Vec<usize> = Vec::new();
    for i in 0..v.len()
        invariant
            r@ == v@.take(i as int),
    {
        r.push(v[i]);
        assert(v@.take(i + 1) =~= v@.take(i as int).push(v@[i as int]));
    }
    assert(v@.take(v@.len() as int) =~= v@);
    r
}

impl ArtistStat {
    /// The page of `artist`: its albums that have statistics in
    /// `album_stat`, and the type and gender that MusicBrainz reports.
    pub fn get(artist: Artist, album_stat: Vec<AlbumStat>, mbz_artist: Option<MbzArtist>) -> (r:
        ArtistStat)
        ensures
            r.name == artist.name,
            artist_album_views(r.albums@) == album_rows(artist.albums@, album_stat@),
            r.albums@.len() == artist.albums@.filter(has_stat(album_stat@)).len(),
            r.artist_type == (match mbz_artist {
                Some(m) => Some(m.artist_type),
                None => None,
            }),
            r.gender == (match mbz_artist {
                Some(m) => m.gender,
                None => None,
            }),
    {
        let mut albums: Vec<ArtistAlbumStat> = Vec::new();
        let n = artist.albums.len();
        for i in 0..n
            invariant
                n == artist.albums@.len(),
                artist_album_views(albums@) == album_rows(
                    artist.albums@.take(i as int),
                    album_stat@,
                ),
        {
            let album = &artist.albums[i];
            assert(artist.albums@.take(i + 1).drop_last() =~= artist.albums@.take(i as int));
            assert(artist.albums@.take(i + 1).last() == *album);
            match find_stat(&album_stat, &album.id) {
                Some(k) => {
                    let stat = &album_stat[k];
                    let ghost before = albums@;
                    albums.push(
                        ArtistAlbumStat {
                            id: album.id.clone(),
                            name: stat.name.clone(),
                            plays: stat.plays,
                            year: album.year,
                            scrobbles: copy_positions(&stat.scrobbles),
                        },
                    );
                    assert(artist_album_views(albums@) =~= artist_album_views(before).push(
                        albums@.last()@,
                    ));
                },
                None => {},
            }
        }
        assert(artist.albums@.take(n as int) =~= artist.albums@);
        proof {
            law_artist_page_rows(artist.albums@, album_stat@);
            assert(artist_album_views(albums@).len() == albums@.len());
        }
        let mut artist_type = None;
        let mut gender = None;
        match mbz_artist {
            Some(v) => {
                artist_type = Some(v.artist_type);
                gender = v.gender;
            },
            None => {},
        }
        ArtistStat { name: artist.name, artist_type, gender, albums }
    }
}

} // verus!
