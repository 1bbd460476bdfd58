use vstd::prelude::*;

use crate::analysis::grouping::{
    group_plays, grouped, lemma_group_origin, stat_views, stats_from_groups, FromPlayGroup,
    GroupView, Play, PlayGroup,
};
use crate::navidrome::native::{ParticipantArtist, SongData, TrackMap};
use crate::navidrome::Scrobble;

verus! {

broadcast use vstd::seq_lib::group_seq_properties;

/// How often an artist was played. The time it was played for is the sum
/// of the durations of the scrobbles at positions `scrobbles`; a scrobble
/// appears once for each time the track credits the artist.
pub struct ArtistStat {
    pub name: String,
    pub id: String,
    pub plays: u64,
    pub scrobbles: Vec<usize>,
}

pub struct ArtistStatView {
    pub id: Seq<char>,
    pub name: Seq<char>,
    pub plays: nat,
    pub scrobbles: Seq<usize>,
}

impl View for ArtistStat {
    type V = ArtistStatView;

    open spec fn view(&self) -> ArtistStatView {
        ArtistStatView {
            id: self.id@,
            name: self.name@,
            plays: self.plays as nat,
            scrobbles: self.scrobbles@,
        }
    }
}

/// A group of plays seen as an artist's statistic.
pub open spec fn as_artist_stat(g: GroupView) -> ArtistStatView {
    ArtistStatView { id: g.id, name: g.name, plays: g.plays, scrobbles: g.scrobbles }
}

pub open spec fn artist_stat_views(stats: Seq<ArtistStat>) -> Seq<ArtistStatView> {
    stats.map_values(|s: ArtistStat| s@)
}

/// The plays that the scrobble at position `k` credits to the artists of
/// its track, one per credit.
pub open spec fn credits(artists: Seq<ParticipantArtist>, k: int) -> Seq<Play> {
    artists.map_values(
        |a: ParticipantArtist| Play { key: a.id, name: a.name, artist: a.name, scrobble: k as usize },
    )
}

/// The plays of the scrobbles whose track is known, credited to each
/// artist of the track.
pub open spec fn artist_plays(scrobbles: Seq<Scrobble>, tracks: Map<Seq<char>, SongData>) -> Seq<
    Play,
>
    decreases scrobbles.len(),
{
    if scrobbles.len() == 0 {
        Seq::empty()
    } else {
        let earlier = artist_plays(scrobbles.drop_last(), tracks);
        let id = scrobbles.last().media_file_id@;
        if tracks.contains_key(id) {
            earlier + credits(tracks[id].participants.artists@, scrobbles.len() - 1)
        } else {
            earlier
        }
    }
}

/// Whether a scrobble played a known track that credits the artist with
/// identifier `id`.
pub open spec fn credits_artist(tracks: Map<Seq<char>, SongData>, id: Seq<char>) -> spec_fn(
    Scrobble,
) -> bool {
    |x: Scrobble|
        tracks.contains_key(x.media_file_id@) && exists|q: int|
            0 <= q < tracks[x.media_file_id@].participants.artists@.len()
                && #[trigger] tracks[x.media_file_id@].participants.artists@[q].id@ == id
}

/// Whether play `p` comes from a scrobble of `scrobbles` whose known track
/// credits an artist with the play's key and name.
spec fn play_of_credit(scrobbles: Seq<Scrobble>, tracks: Map<Seq<char>, SongData>, p: Play) -> bool {
    let id = scrobbles[p.scrobble as int].media_file_id@;
    &&& p.scrobble < scrobbles.len()
    &&& tracks.contains_key(id)
    &&& exists|q: int|
        0 <= q < tracks[id].participants.artists@.len()
            && #[trigger] tracks[id].participants.artists@[q].id@ == p.key@
            && tracks[id].participants.artists@[q].name@ == p.name@
}

proof fn lemma_artist_play_source(scrobbles: Seq<Scrobble>, tracks: Map<Seq<char>, SongData>)
    requires
        scrobbles.len() <= usize::MAX,
    ensures
        forall|k: int|
            0 <= k < artist_plays(scrobbles, tracks).len() ==> play_of_credit(
                scrobbles,
                tracks,
                #[trigger] artist_plays(scrobbles, tracks)[k],
            ),
    decreases scrobbles.len(),
{
    if scrobbles.len() > 0 {
        let t = scrobbles.drop_last();
        lemma_artist_play_source(t, tracks);
        let e = artist_plays(t, tracks);
        let c = artist_plays(scrobbles, tracks);
        let id = scrobbles.last().media_file_id@;
        assert(scrobbles.last() == scrobbles[scrobbles.len() - 1]);
        assert forall|k: int| 0 <= k < c.len() implies play_of_credit(
            scrobbles,
            tracks,
            #[trigger] c[k],
        ) by {
            if k < e.len() {
                assert(c[k] == e[k]);
                assert(play_of_credit(t, tracks, e[k]));
                assert(scrobbles[e[k].scrobble as int] == t[e[k].scrobble as int]);
            } else {
                let arts = tracks[id].participants.artists@;
                let q = k - e.len();
                assert(c[k] == credits(arts, scrobbles.len() - 1)[q]);
                assert(arts[q].id@ == c[k].key@);
            }
        }
    }
}

/// Whether the track of scrobble `j` is known and has a `q`-th credit.
pub open spec fn is_credit(
    scrobbles: Seq<Scrobble>,
    tracks: Map<Seq<char>, SongData>,
    j: int,
    q: int,
) -> bool {
    &&& 0 <= j < scrobbles.len()
    &&& tracks.contains_key(scrobbles[j].media_file_id@)
    &&& 0 <= q < tracks[scrobbles[j].media_file_id@].participants.artists@.len()
}

/// The `q`-th artist credited on the track of scrobble `j`.
pub open spec fn credit_of(
    scrobbles: Seq<Scrobble>,
    tracks: Map<Seq<char>, SongData>,
    j: int,
    q: int,
) -> ParticipantArtist {
    tracks[scrobbles[j].media_file_id@].participants.artists@[q]
}

/// The position among the plays of the `q`-th credit of scrobble `j`.
spec fn credit_index(
    scrobbles: Seq<Scrobble>,
    tracks: Map<Seq<char>, SongData>,
    j: int,
    q: int,
) -> int {
    artist_plays(scrobbles.take(j), tracks).len() + q
}

proof fn lemma_artist_plays_step(scrobbles: Seq<Scrobble>, tracks: Map<Seq<char>, SongData>, j: int)
    requires
        0 <= j < scrobbles.len(),
    ensures
        artist_plays(scrobbles.take(j + 1), tracks) == if tracks.contains_key(
            scrobbles[j].media_file_id@,
        ) {
            artist_plays(scrobbles.take(j), tracks) + credits(
                tracks[scrobbles[j].media_file_id@].participants.artists@,
                j,
            )
        } else {
            artist_plays(scrobbles.take(j), tracks)
        },
{
    assert(scrobbles.take(j + 1).drop_last() =~= scrobbles.take(j));
    assert(scrobbles.take(j + 1).last() == scrobbles[j]);
}

proof fn lemma_artist_plays_prefix(
    scrobbles: Seq<Scrobble>,
    tracks: Map<Seq<char>, SongData>,
    a: int,
)
    requires
        0 <= a <= scrobbles.len(),
    ensures
        artist_plays(scrobbles.take(a), tracks).len() <= artist_plays(scrobbles, tracks).len(),
        forall|k: int|
            0 <= k < artist_plays(scrobbles.take(a), tracks).len() ==> #[trigger] artist_plays(
                scrobbles.take(a),
                tracks,
            )[k] == artist_plays(scrobbles, tracks)[k],
    decreases scrobbles.len(),
{
    if a == scrobbles.len() {
        assert(scrobbles.take(a) =~= scrobbles);
    } else {
        let t = scrobbles.drop_last();
        assert(scrobbles.take(a) =~= t.take(a));
        lemma_artist_plays_prefix(t, tracks, a);
        let e = artist_plays(t, tracks);
        let c = artist_plays(scrobbles, tracks);
        assert forall|k: int| 0 <= k < e.len() implies #[trigger] e[k] == c[k] by {}
    }
}

proof fn lemma_credit_index(scrobbles: Seq<Scrobble>, tracks: Map<Seq<char>, SongData>)
    ensures
        forall|j: int, q: int|
            #[trigger] is_credit(scrobbles, tracks, j, q) ==> credit_index(scrobbles, tracks, j, q)
                < artist_plays(scrobbles, tracks).len() && artist_plays(scrobbles, tracks)[credit_index(
                scrobbles,
                tracks,
                j,
                q,
            )] == credits(tracks[scrobbles[j].media_file_id@].participants.artists@, j)[q],
        forall|j: int, q: int, j2: int, q2: int|
            #[trigger] is_credit(scrobbles, tracks, j, q) && #[trigger] is_credit(
                scrobbles,
                tracks,
                j2,
                q2,
            ) && j2 < j ==> credit_index(scrobbles, tracks, j2, q2) < credit_index(
                scrobbles,
                tracks,
                j,
                q,
            ),
{
    let c = artist_plays(scrobbles, tracks);
    assert forall|j: int, q: int| #[trigger] is_credit(scrobbles, tracks, j, q) implies credit_index(
        scrobbles,
        tracks,
        j,
        q,
    ) < c.len() && c[credit_index(scrobbles, tracks, j, q)] == credits(
        tracks[scrobbles[j].media_file_id@].participants.artists@,
        j,
    )[q] by {
        lemma_artist_plays_step(scrobbles, tracks, j);
        lemma_artist_plays_prefix(scrobbles, tracks, j + 1);
        let p = artist_plays(scrobbles.take(j + 1), tracks);
        assert(p[credit_index(scrobbles, tracks, j, q)] == c[credit_index(scrobbles, tracks, j, q)]);
    }
    assert forall|j: int, q: int, j2: int, q2: int|
        #[trigger] is_credit(scrobbles, tracks, j, q) && #[trigger] is_credit(
            scrobbles,
            tracks,
            j2,
            q2,
        ) && j2 < j implies credit_index(scrobbles, tracks, j2, q2) < credit_index(
        scrobbles,
        tracks,
        j,
        q,
    ) by {
        let pre = scrobbles.take(j);
        lemma_artist_plays_step(scrobbles, tracks, j2);
        assert(pre.take(j2 + 1) =~= scrobbles.take(j2 + 1));
        lemma_artist_plays_prefix(pre, tracks, j2 + 1);
    }
}

/// Which credit each play comes from.
proof fn lemma_play_credit(scrobbles: Seq<Scrobble>, tracks: Map<Seq<char>, SongData>, k: int)
    requires
        0 <= k < artist_plays(scrobbles, tracks).len(),
    ensures
        exists|j: int, q: int|
            #[trigger] is_credit(scrobbles, tracks, j, q) && k == credit_index(scrobbles, tracks, j, q)
                && artist_plays(scrobbles, tracks)[k] == credits(
                tracks[scrobbles[j].media_file_id@].participants.artists@,
                j,
            )[q],
    decreases scrobbles.len(),
{
    let t = scrobbles.drop_last();
    let n = scrobbles.len() - 1;
    assert(scrobbles.take(n) =~= t);
    let c = artist_plays(scrobbles, tracks);
    let e = artist_plays(t, tracks);
    if k < e.len() {
        lemma_play_credit(t, tracks, k);
        assert(c[k] == e[k]);
        let (j, q) = choose|j: int, q: int|
            #[trigger] is_credit(t, tracks, j, q) && k == credit_index(t, tracks, j, q) && e[k]
                == credits(tracks[t[j].media_file_id@].participants.artists@, j)[q];
        assert(t.take(j) =~= scrobbles.take(j));
        assert(t[j] == scrobbles[j]);
        assert(is_credit(scrobbles, tracks, j, q));
    } else {
        assert(scrobbles.last() == scrobbles[n]);
        assert(is_credit(scrobbles, tracks, n, k - e.len()));
    }
}

/// Each entry of the artist chart is an artist credited on a played track:
/// a scrobble played a known track that credits an artist with the entry's
/// identifier and name; the entry has a scrobble position per play, and
/// each of them is that of a scrobble whose track credits the artist.
pub proof fn law_artist_chart_shows_credited_artists(
    scrobbles: Seq<Scrobble>,
    tracks: Map<Seq<char>, SongData>,
    i: int,
)
    requires
        scrobbles.len() <= usize::MAX,
        0 <= i < grouped(artist_plays(scrobbles, tracks)).len(),
    ensures
        ({
            let g = grouped(artist_plays(scrobbles, tracks))[i];
            exists|j: int, q: int|
                #[trigger] is_credit(scrobbles, tracks, j, q) && credit_of(scrobbles, tracks, j, q).id@
                    == g.id && credit_of(scrobbles, tracks, j, q).name@ == g.name && forall|
                    j2: int,
                    q2: int,
                |
                    #[trigger] is_credit(scrobbles, tracks, j2, q2) && (j2 < j || (j2 == j && q2
                        < q)) ==> credit_of(scrobbles, tracks, j2, q2).id@ != g.id
        }),
        ({
            let g = grouped(artist_plays(scrobbles, tracks))[i];
            forall|t: int|
                0 <= t < g.scrobbles.len() ==> #[trigger] g.scrobbles[t] < scrobbles.len()
                    && credits_artist(tracks, g.id)(scrobbles[g.scrobbles[t] as int])
        }),
        ({
            let g = grouped(artist_plays(scrobbles, tracks))[i];
            0 < g.plays == g.scrobbles.len()
        }),
{
    let c = artist_plays(scrobbles, tracks);
    let g = grouped(c)[i];
    lemma_group_origin(c, i);
    lemma_artist_play_source(scrobbles, tracks);
    let k = choose|k: int|
        0 <= k < c.len() && (#[trigger] c[k]).key@ == g.id && c[k].name@ == g.name
            && c[k].artist@ == g.artist && c[k].scrobble == g.scrobbles[0] && forall|k2: int|
            0 <= k2 < k ==> (#[trigger] c[k2]).key@ != g.id;
    lemma_play_credit(scrobbles, tracks, k);
    lemma_credit_index(scrobbles, tracks);
    let (j, q) = choose|j: int, q: int|
        #[trigger] is_credit(scrobbles, tracks, j, q) && k == credit_index(scrobbles, tracks, j, q)
            && c[k] == credits(tracks[scrobbles[j].media_file_id@].participants.artists@, j)[q];
    assert(credit_of(scrobbles, tracks, j, q).id@ == g.id);
    assert forall|j2: int, q2: int|
        #[trigger] is_credit(scrobbles, tracks, j2, q2) && (j2 < j || (j2 == j && q2 < q)) implies credit_of(
        scrobbles,
        tracks,
        j2,
        q2,
    ).id@ != g.id by {
        let k2 = credit_index(scrobbles, tracks, j2, q2);
        assert(k2 < k);
        assert(c[k2] == credits(tracks[scrobbles[j2].media_file_id@].participants.artists@, j2)[q2]);
    }
    assert forall|t: int| 0 <= t < g.scrobbles.len() implies #[trigger] g.scrobbles[t]
        < scrobbles.len() && credits_artist(tracks, g.id)(scrobbles[g.scrobbles[t] as int]) by {
        let k2 = choose|k2: int|
            0 <= k2 < c.len() && c[k2].key@ == g.id && c[k2].scrobble == #[trigger] g.scrobbles[t];
        assert(play_of_credit(scrobbles, tracks, c[k2]));
    }
}

impl FromPlayGroup for ArtistStat {
    open spec fn group_view(g: GroupView) -> ArtistStatView {
        as_artist_stat(g)
    }

    fn from_group(g: PlayGroup) -> (r: ArtistStat) {
        ArtistStat { name: g.name, id: g.id, plays: g.plays, scrobbles: g.scrobbles }
    }
}

impl ArtistStat {
    /// The plays of the scrobbles whose track is known, grouped by credited
    /// artist, the artists in the order in which they are first credited.
    pub fn group(scrobbles: Vec<&Scrobble>, track_hashmap: &TrackMap) -> (r: Vec<ArtistStat>)
        ensures
            artist_stat_views(r@) == grouped(
                artist_plays(scrobbles@.unref(), track_hashmap@),
            ).map_values(|g: GroupView| as_artist_stat(g)),
    {
        let ghost s = scrobbles@.unref();
        let mut plays: Vec<Play> = Vec::new();
        let n = scrobbles.len();
        for i in 0..n
            invariant
                n == s.len(),
                s == scrobbles@.unref(),
                plays@ == artist_plays(s.take(i as int), track_hashmap@),
        {
            let scrobble = scrobbles[i];
            assert(s.take(i + 1).drop_last() =~= s.take(i as int));
            assert(s.take(i + 1).last() == *scrobble);
            match track_hashmap.get(&scrobble.media_file_id) {
                Some(song) => {
                    let artists = &song.participants.artists;
                    let ghost base = plays@;
                    assert(credits(artists@.take(0), i as int) =~= Seq::<Play>::empty());
                    assert(base + Seq::<Play>::empty() =~= base);
                    for j in 0..artists.len()
                        invariant
                            plays@ == base + credits(artists@.take(j as int), i as int),
                    {
                        let artist = &artists[j];
                        plays.push(
                            Play {
                                key: artist.id.clone(),
                                name: artist.name.clone(),
                                artist: artist.name.clone(),
                                scrobble: i,
                            },
                        );
                        assert(artists@.take(j + 1) =~= artists@.take(j as int).push(*artist));
                        assert(credits(artists@.take(j + 1), i as int) =~= credits(
                            artists@.take(j as int),
                            i as int,
                        ).push(plays@.last()));
                        assert(plays@ =~= base + credits(artists@.take(j + 1), i as int));
                    }
                    assert(artists@.take(artists@.len() as int) =~= artists@);
                },
                None => {},
            }
        }
        assert(s.take(n as int) =~= s);
        let groups = group_plays(plays);
        let stats = stats_from_groups(groups);
        assert(artist_stat_views(stats@) =~= stat_views(stats@));
        stats
    }
}

} // verus!
