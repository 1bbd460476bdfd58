use vstd::prelude::*;

use crate::navidrome::Scrobble;
use crate::util::reversed;

verus! {

/// An artist credited on a track.
pub struct ParticipantArtist {
    pub id: String,
    pub name: String,
}

pub struct Participants {
    pub artists: Vec<ParticipantArtist>,
}

/// What Navidrome's native API reports of a track, as far as the
/// statistics read it.
pub struct SongData {
    pub id: String,
    pub title: String,
    pub artist: String,
    pub album: String,
    pub album_id: String,
    pub participants: Participants,
}

/// The last song of `songs` with identifier `id`.
pub open spec fn last_with_id(songs: Seq<SongData>, id: Seq<char>) -> Option<SongData>
    decreases songs.len(),
{
    if songs.len() == 0 {
        None
    } else if songs.last().id@ == id {
        Some(songs.last())
    } else {
        last_with_id(songs.drop_last(), id)
    }
}

/// The map from identifier to song that inserting `songs` one after another
/// builds: a later song replaces an earlier one with the same identifier.
pub open spec fn track_map_of(songs: Seq<SongData>) -> Map<Seq<char>, SongData> {
    Map::new(
        |id: Seq<char>| last_with_id(songs, id) is Some,
        |id: Seq<char>| last_with_id(songs, id)->0,
    )
}

/// Whether some scrobble of `scrobbles` played the song.
pub open spec fn played_in(scrobbles: Seq<Scrobble>) -> spec_fn(SongData) -> bool {
    |s: SongData|
        exists|j: int| 0 <= j < scrobbles.len() && #[trigger] scrobbles[j].media_file_id@ == s.id@
}

/// Whether each song of the map is recorded under its own identifier.
pub open spec fn keyed_by_id(tracks: Map<Seq<char>, SongData>) -> bool {
    forall|k: Seq<char>| #[trigger] tracks.contains_key(k) ==> tracks[k].id@ == k
}

proof fn lemma_last_with_id_has_id(songs: Seq<SongData>, id: Seq<char>)
    ensures
        last_with_id(songs, id) matches Some(song) ==> song.id@ == id && songs.contains(song),
        (last_with_id(songs, id) is Some) <==> exists|k: int|
            0 <= k < songs.len() && (#[trigger] songs[k]).id@ == id,
    decreases songs.len(),
{
    if songs.len() > 0 {
        let t = songs.drop_last();
        lemma_last_with_id_has_id(t, id);
        assert(songs.last() == songs[songs.len() - 1]);
        if last_with_id(t, id) is Some {
            let k = choose|k: int| 0 <= k < t.len() && (#[trigger] t[k]).id@ == id;
            assert(songs[k] == t[k]);
        }
        if exists|k: int| 0 <= k < songs.len() && (#[trigger] songs[k]).id@ == id {
            let k = choose|k: int| 0 <= k < songs.len() && (#[trigger] songs[k]).id@ == id;
            if k < t.len() {
                assert(t[k] == songs[k]);
            }
        }
        match last_with_id(t, id) {
            Some(song) => {
                let k = choose|k: int| 0 <= k < t.len() && t[k] == song;
                assert(songs[k] == t[k]);
            },
            None => {},
        }
    }
}

/// The map of the songs that scrobbles played holds a song for an
/// identifier exactly when some song has that identifier and some scrobble
/// played it; the song it holds is one of the songs, with that identifier.
pub proof fn law_selected_tracks_were_played(
    songs: Seq<SongData>,
    scrobbles: Seq<Scrobble>,
    id: Seq<char>,
)
    ensures
        track_map_of(songs.filter(played_in(scrobbles))).contains_key(id) <==> (exists|k: int|
            0 <= k < songs.len() && (#[trigger] songs[k]).id@ == id) && (exists|j: int|
            0 <= j < scrobbles.len() && (#[trigger] scrobbles[j]).media_file_id@ == id),
        track_map_of(songs.filter(played_in(scrobbles))).contains_key(id) ==> songs.contains(
            track_map_of(songs.filter(played_in(scrobbles)))[id],
        ) && track_map_of(songs.filter(played_in(scrobbles)))[id].id@ == id,
{
    let p = played_in(scrobbles);
    let f = songs.filter(p);
    lemma_last_with_id_has_id(f, id);
    if last_with_id(f, id) is Some {
        let k = choose|k: int| 0 <= k < f.len() && (#[trigger] f[k]).id@ == id;
        songs.lemma_filter_pred(p, k);
        assert(f.contains(f[k]));
        songs.lemma_filter_contains_rev(p, f[k]);
        let k2 = choose|k2: int| 0 <= k2 < songs.len() && songs[k2] == f[k];
        assert(songs[k2].id@ == id);
        let j = choose|j: int|
            0 <= j < scrobbles.len() && #[trigger] scrobbles[j].media_file_id@ == f[k].id@;
        assert(scrobbles[j].media_file_id@ == id);
        let song = last_with_id(f, id)->0;
        songs.lemma_filter_contains_rev(p, song);
    }
    if (exists|k: int| 0 <= k < songs.len() && (#[trigger] songs[k]).id@ == id) && (exists|j: int|
        0 <= j < scrobbles.len() && (#[trigger] scrobbles[j]).media_file_id@ == id) {
        let k = choose|k: int| 0 <= k < songs.len() && (#[trigger] songs[k]).id@ == id;
        let j = choose|j: int| 0 <= j < scrobbles.len() && (#[trigger] scrobbles[j]).media_file_id@ == id;
        assert(p(songs[k]));
        songs.lemma_filter_contains(p, k);
        let k2 = choose|k2: int| 0 <= k2 < f.len() && f[k2] == songs[k];
        assert(f[k2].id@ == id);
    }
}

/// The tracks of a session, by identifier.
pub struct TrackMap {
    songs: Vec<SongData>,
}

impl View for TrackMap {
    type V = Map<Seq<char>, SongData>;

    closed spec fn view(&self) -> Map<Seq<char>, SongData> {
        track_map_of(self.songs@)
    }
}

impl TrackMap {
    /// Every song of a track map is recorded under its own identifier.
    pub proof fn law_track_map_keyed_by_id(tracks: &TrackMap)
        ensures
            keyed_by_id(tracks@),
    {
        assert forall|k: Seq<char>| #[trigger] tracks@.contains_key(k) implies tracks@[k].id@
            == k by {
            lemma_last_with_id_has_id(tracks.songs@, k);
        }
    }

    pub fn new() -> (r: TrackMap)
        ensures
            r@ == Map::<Seq<char>, SongData>::empty(),
    {
        let r = TrackMap { songs: Vec::new() };
        assert(r@ =~= Map::<Seq<char>, SongData>::empty());
        r
    }

    /// Records `song` under its identifier, replacing any song it had.
    pub fn insert(&mut self, song: SongData)
        ensures
            final(self)@ == old(self)@.insert(song.id@, song),
    {
        let ghost before = self.songs@;
        let ghost id = song.id@;
        self.songs.push(song);
        assert(self.songs@.drop_last() =~= before);
        assert(self@ =~= old(self)@.insert(id, song));
    }

    /// The song recorded under `id`.
    pub fn get(&self, id: &String) -> (r: Option<&SongData>)
        ensures
            match r {
                Some(s) => self@.contains_key(id@) && *s == self@[id@],
                None => !self@.contains_key(id@),
            },
    {
        let mut i = self.songs.len();
        assert(self.songs@.take(i as int) =~= self.songs@);
        while i > 0
            invariant
                i <= self.songs@.len(),
                last_with_id(self.songs@, id@) == last_with_id(self.songs@.take(i as int), id@),
            decreases i,
        {
            let ghost prefix = self.songs@.take(i as int);
            assert(prefix.drop_last() =~= self.songs@.take(i - 1));
            assert(prefix.last() == self.songs@[i - 1]);
            if self.songs[i - 1].id == *id {
                return Some(&self.songs[i - 1]);
            }
            i = i - 1;
        }
        None
    }

    /// The songs of `songs` that some scrobble of `scrobbles` played, by
    /// identifier.
    pub fn select(songs: Vec<SongData>, scrobbles: &Vec<Scrobble>) -> (r: TrackMap)
        ensures
            r@ == track_map_of(songs@.filter(played_in(scrobbles@))),
    {
        let ghost input = songs@;
        let n = songs.len();
        let mut rest = reversed(songs);
        let mut kept: Vec<SongData> = Vec::new();
        let mut k: usize = 0;
        while rest.len() > 0
            invariant
                k + rest@.len() == n,
                n == input.len(),
                forall|i: int| 0 <= i < rest@.len() ==> #[trigger] rest@[i] == input[n - 1 - i],
                kept@ == input.take(k as int).filter(played_in(scrobbles@)),
            decreases rest.len(),
        {
            let song = rest.pop().unwrap();
            assert(song == input[k as int]);
            let mut played = false;
            let mut j: usize = 0;
            while j < scrobbles.len()
                invariant
                    j <= scrobbles@.len(),
                    played == exists|j2: int|
                        0 <= j2 < j && #[trigger] scrobbles@[j2].media_file_id@ == song.id@,
                decreases scrobbles@.len() - j,
            {
                if scrobbles[j].media_file_id == song.id {
                    played = true;
                }
                j = j + 1;
            }
            assert(played == played_in(scrobbles@)(song));
            proof {
                input.take(k as int).lemma_filter_push(song, played_in(scrobbles@));
                assert(input.take(k + 1) =~= input.take(k as int).push(song));
            }
            if played {
                kept.push(song);
            }
            k = k + 1;
        }
        assert(input.take(n as int) =~= input);
        TrackMap { songs: kept }
    }
}

} // verus!
