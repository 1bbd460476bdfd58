use vstd::prelude::*;

use crate::analysis::grouping::{
    group_plays, grouped, lemma_group_origin, stat_views, stats_from_groups, with_key,
    FromPlayGroup, GroupView, Play, PlayGroup,
};
use crate::navidrome::native::{keyed_by_id, SongData, TrackMap};
use crate::navidrome::Scrobble;

verus! {

broadcast use vstd::seq_lib::group_seq_properties;

/// How often a track was played. The time it was played for is the sum of
/// the durations of the scrobbles at positions `scrobbles`.
pub struct TrackStat {
    pub name: String,
    pub artist: String,
    pub id: String,
    pub plays: u64,
    pub scrobbles: Vec<usize>,
}

impl View for TrackStat {
    type V = GroupView;

    open spec fn view(&self) -> GroupView {
        GroupView {
            id: self.id@,
            name: self.name@,
            artist: self.artist@,
            plays: self.plays as nat,
            scrobbles: self.scrobbles@,
        }
    }
}

pub open spec fn track_stat_views(stats: Seq<TrackStat>) -> Seq<GroupView> {
    stats.map_values(|s: TrackStat| s@)
}

/// One play per scrobble whose track is known, credited to the track.
pub open spec fn track_plays(scrobbles: Seq<Scrobble>, tracks: Map<Seq<char>, SongData>) -> Seq<
    Play,
>
    decreases scrobbles.len(),
{
    if scrobbles.len() == 0 {
        Seq::empty()
    } else {
        let earlier = track_plays(scrobbles.drop_last(), tracks);
        let id = scrobbles.last().media_file_id@;
        if tracks.contains_key(id) {
            let song = tracks[id];
            earlier.push(
                Play {
                    key: song.id,
                    name: song.title,
                    artist: song.artist,
                    scrobble: (scrobbles.len() - 1) as usize,
                },
            )
        } else {
            earlier
        }
    }
}

/// Whether a scrobble played a known track with identifier `k`.
pub open spec fn plays_track(tracks: Map<Seq<char>, SongData>, k: Seq<char>) -> spec_fn(
    Scrobble,
) -> bool {
    |x: Scrobble| tracks.contains_key(x.media_file_id@) && tracks[x.media_file_id@].id@ == k
}

/// Whether play `p` comes from a scrobble of `scrobbles` whose track is
/// known, and shows that track.
spec fn play_of_track(scrobbles: Seq<Scrobble>, tracks: Map<Seq<char>, SongData>, p: Play) -> bool {
    let id = scrobbles[p.scrobble as int].media_file_id@;
    &&& p.scrobble < scrobbles.len()
    &&& tracks.contains_key(id)
    &&& p.key@ == tracks[id].id@
    &&& p.name@ == tracks[id].title@
    &&& p.artist@ == tracks[id].artist@
}

proof fn lemma_track_play_source(scrobbles: Seq<Scrobble>, tracks: Map<Seq<char>, SongData>)
    requires
        scrobbles.len() <= usize::MAX,
    ensures
        forall|k: int|
            0 <= k < track_plays(scrobbles, tracks).len() ==> play_of_track(
                scrobbles,
                tracks,
                #[trigger] track_plays(scrobbles, tracks)[k],
            ),
    decreases scrobbles.len(),
{
    if scrobbles.len() > 0 {
        let t = scrobbles.drop_last();
        lemma_track_play_source(t, tracks);
        assert forall|k: int| 0 <= k < track_plays(t, tracks).len() implies play_of_track(
            scrobbles,
            tracks,
            #[trigger] track_plays(t, tracks)[k],
        ) by {
            assert(play_of_track(t, tracks, track_plays(t, tracks)[k]));
            assert(scrobbles[track_plays(t, tracks)[k].scrobble as int] == t[track_plays(
                t,
                tracks,
            )[k].scrobble as int]);
        }
        let c = track_plays(scrobbles, tracks);
        assert forall|k: int| 0 <= k < c.len() implies play_of_track(
            scrobbles,
            tracks,
            #[trigger] c[k],
        ) by {
            if k < track_plays(t, tracks).len() {
                assert(c[k] == track_plays(t, tracks)[k]);
            } else {
                assert(scrobbles.last() == scrobbles[scrobbles.len() - 1]);
            }
        }
    }
}

proof fn lemma_track_plays_count(
    scrobbles: Seq<Scrobble>,
    tracks: Map<Seq<char>, SongData>,
    k: Seq<char>,
)
    ensures
        track_plays(scrobbles, tracks).filter(with_key(k)).len() == scrobbles.filter(
            plays_track(tracks, k),
        ).len(),
    decreases scrobbles.len(),
{
    if scrobbles.len() > 0 {
        let t = scrobbles.drop_last();
        let x = scrobbles.last();
        assert(scrobbles =~= t.push(x));
        lemma_track_plays_count(t, tracks, k);
        t.lemma_filter_push(x, plays_track(tracks, k));
        let id = x.media_file_id@;
        if tracks.contains_key(id) {
            let song = tracks[id];
            track_plays(t, tracks).lemma_filter_push(
                Play {
                    key: song.id,
                    name: song.title,
                    artist: song.artist,
                    scrobble: (scrobbles.len() - 1) as usize,
                },
                with_key(k),
            );
        }
    }
}

/// Each entry of the track chart is a track that was played: a scrobble
/// played a known track with the entry's identifier, title and artist; the
/// entry counts exactly the scrobbles of tracks with its identifier, and
/// each of its scrobble positions is one of them. Where each track is
/// recorded under its own identifier, the entry's title and artist are
/// those recorded for its identifier.
pub proof fn law_track_chart_shows_played_tracks(
    scrobbles: Seq<Scrobble>,
    tracks: Map<Seq<char>, SongData>,
    i: int,
)
    requires
        scrobbles.len() <= usize::MAX,
        0 <= i < grouped(track_plays(scrobbles, tracks)).len(),
    ensures
        ({
            let g = grouped(track_plays(scrobbles, tracks))[i];
            exists|j: int|
                0 <= j < scrobbles.len() && tracks.contains_key(
                    (#[trigger] scrobbles[j]).media_file_id@,
                ) && tracks[scrobbles[j].media_file_id@].id@ == g.id
                    && tracks[scrobbles[j].media_file_id@].title@ == g.name
                    && tracks[scrobbles[j].media_file_id@].artist@ == g.artist
        }),
        ({
            let g = grouped(track_plays(scrobbles, tracks))[i];
            forall|t: int|
                0 <= t < g.scrobbles.len() ==> #[trigger] g.scrobbles[t] < scrobbles.len()
                    && plays_track(tracks, g.id)(scrobbles[g.scrobbles[t] as int])
        }),
        ({
            let g = grouped(track_plays(scrobbles, tracks))[i];
            &&& g.plays == g.scrobbles.len()
            &&& g.plays == scrobbles.filter(plays_track(tracks, g.id)).len()
        }),
        ({
            let g = grouped(track_plays(scrobbles, tracks))[i];
            keyed_by_id(tracks) ==> tracks.contains_key(g.id) && g.name == tracks[g.id].title@
                && g.artist == tracks[g.id].artist@
        }),
{
    let c = track_plays(scrobbles, tracks);
    let g = grouped(c)[i];
    lemma_group_origin(c, i);
    lemma_track_play_source(scrobbles, tracks);
    lemma_track_plays_count(scrobbles, tracks, g.id);
    let k = choose|k: int|
        0 <= k < c.len() && (#[trigger] c[k]).key@ == g.id && c[k].name@ == g.name
            && c[k].artist@ == g.artist && c[k].scrobble == g.scrobbles[0];
    assert(play_of_track(scrobbles, tracks, c[k]));
    let j = c[k].scrobble as int;
    let mk = scrobbles[j].media_file_id@;
    assert(tracks.contains_key(mk) && tracks[mk].id@ == g.id);
    assert forall|t: int| 0 <= t < g.scrobbles.len() implies #[trigger] g.scrobbles[t]
        < scrobbles.len() && plays_track(tracks, g.id)(scrobbles[g.scrobbles[t] as int]) by {
        let k2 = choose|k2: int|
            0 <= k2 < c.len() && c[k2].key@ == g.id && c[k2].scrobble == #[trigger] g.scrobbles[t];
        assert(play_of_track(scrobbles, tracks, c[k2]));
    }
    if keyed_by_id(tracks) {
        assert(tracks[mk].id@ == mk);
    }
}

impl FromPlayGroup for TrackStat {
    open spec fn group_view(g: GroupView) -> GroupView {
        g
    }

    fn from_group(g: PlayGroup) -> (r: TrackStat) {
        TrackStat { name: g.name, artist: g.artist, id: g.id, plays: g.plays, scrobbles: g.scrobbles }
    }
}

impl TrackStat {
    /// The plays of the scrobbles whose track is known, grouped by track,
    /// the tracks in the order in which they are first played.
    pub fn group(scrobbles: Vec<&Scrobble>, track_hashmap: &TrackMap) -> (r: Vec<TrackStat>)
        ensures
            track_stat_views(r@) == grouped(track_plays(scrobbles@.unref(), track_hashmap@)),
            forall|i: int|
                0 <= i < r@.len() ==> track_hashmap@.contains_key(#[trigger] r@[i].id@)
                    && r@[i].name@ == track_hashmap@[r@[i].id@].title@ && r@[i].artist@
                    == track_hashmap@[r@[i].id@].artist@,
    {
        let ghost s = scrobbles@.unref();
        let mut plays: Vec<Play> = Vec::new();
        let n = scrobbles.len();
        for i in 0..n
            invariant
                n == s.len(),
                s == scrobbles@.unref(),
                plays@ == track_plays(s.take(i as int), track_hashmap@),
        {
            let scrobble = scrobbles[i];
            assert(s.take(i + 1).drop_last() =~= s.take(i as int));
            assert(s.take(i + 1).last() == *scrobble);
            match track_hashmap.get(&scrobble.media_file_id) {
                Some(song) => {
                    plays.push(
                        Play {
                            key: song.id.clone(),
                            name: song.title.clone(),
                            artist: song.artist.clone(),
                            scrobble: i,
                        },
                    );
                },
                None => {},
            }
        }
        assert(s.take(n as int) =~= s);
        let groups = group_plays(plays);
        let stats = stats_from_groups(groups);
        assert(track_stat_views(stats@) =~= stat_views(stats@));
        proof {
            TrackMap::law_track_map_keyed_by_id(track_hashmap);
            assert forall|i: int| 0 <= i < stats@.len() implies track_hashmap@.contains_key(
                #[trigger] stats@[i].id@,
            ) && stats@[i].name@ == track_hashmap@[stats@[i].id@].title@ && stats@[i].artist@
                == track_hashmap@[stats@[i].id@].artist@ by {
                assert(track_stat_views(stats@)[i] == stats@[i]@);
                law_track_chart_shows_played_tracks(s, track_hashmap@, i);
            }
        }
        stats
    }
}

} // verus!
