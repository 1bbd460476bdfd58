pub mod albums;
pub mod artist;
pub mod artists;
pub mod grouping;
pub mod tracks;

use vstd::prelude::*;

use crate::analysis::albums::album_plays;
use crate::analysis::grouping::{grouped, law_grouping_conserves_plays, total_plays};
use crate::analysis::tracks::track_plays;
use crate::navidrome::native::SongData;
use crate::navidrome::Scrobble;

verus! {

/// Grouping of scrobbles into statistics.
pub trait GroupScrobble<'a> {
    type Result;
    type Source;
    type Selection;

    fn group(source: Self::Source, selection: Self::Selection) -> Self::Result;
}

proof fn lemma_album_and_track_plays_same_count(
    scrobbles: Seq<Scrobble>,
    tracks: Map<Seq<char>, SongData>,
)
    ensures
        album_plays(scrobbles, tracks, None).len() == track_plays(scrobbles, tracks).len(),
    decreases scrobbles.len(),
{
    if scrobbles.len() > 0 {
        lemma_album_and_track_plays_same_count(scrobbles.drop_last(), tracks);
    }
}

/// Without a selection of albums, the album chart and the track chart count
/// the same plays in all: one per scrobble whose track is known.
pub proof fn law_album_and_track_charts_count_alike(
    scrobbles: Seq<Scrobble>,
    tracks: Map<Seq<char>, SongData>,
)
    ensures
        total_plays(grouped(album_plays(scrobbles, tracks, None))) == total_plays(
            grouped(track_plays(scrobbles, tracks)),
        ),
{
    lemma_album_and_track_plays_same_count(scrobbles, tracks);
    law_grouping_conserves_plays(album_plays(scrobbles, tracks, None));
    law_grouping_conserves_plays(track_plays(scrobbles, tracks));
}

} // verus!
